//! Rows in ascending order of a text key, as a listing shows them.

use vstd::prelude::*;
use crate::rows::distinct_by;
use crate::text::{ascending, lemma_text_lt_total, lemma_text_lt_transitive, text_lt};

verus! {

/// The place of `k` among the ascending `keys`: behind every key that
/// comes before it.
pub open spec fn slot(keys: Seq<Seq<char>>, k: Seq<char>) -> int
    decreases keys.len(),
{
    if keys.len() == 0 || !text_lt(keys[0], k) {
        0
    } else {
        1 + slot(keys.drop_first(), k)
    }
}

/// The rows in ascending order of their keys. Rows are taken one by one
/// and each is put in its place among those before it.
pub open spec fn listing<V>(rows: Seq<V>, key: spec_fn(V) -> Seq<char>) -> Seq<V>
    decreases rows.len(),
{
    if rows.len() == 0 {
        Seq::empty()
    } else {
        let rest = listing(rows.drop_last(), key);
        rest.insert(slot(rest.map_values(key), key(rows.last())), rows.last())
    }
}

/// The place of `k` is `p` if every key before `p` comes before `k` and
/// the key at `p`, if there is one, does not.
pub proof fn lemma_slot_is(keys: Seq<Seq<char>>, k: Seq<char>, p: int)
    requires
        0 <= p <= keys.len(),
        forall|j: int| 0 <= j < p ==> text_lt(#[trigger] keys[j], k),
        p < keys.len() ==> !text_lt(keys[p], k),
    ensures
        slot(keys, k) == p,
    decreases p,
{
    if p > 0 {
        let rest = keys.drop_first();
        assert forall|j: int| 0 <= j < p - 1 implies text_lt(#[trigger] rest[j], k) by {
            assert(rest[j] == keys[j + 1]);
        }
        if p - 1 < rest.len() {
            assert(rest[p - 1] == keys[p]);
        }
        assert(text_lt(keys[0], k));
        lemma_slot_is(rest, k, p - 1);
    }
}

/// What the place of `k` is like: within the keys, behind keys that come
/// before `k`, and in front of one that does not.
pub proof fn lemma_slot_props(keys: Seq<Seq<char>>, k: Seq<char>)
    ensures
        0 <= slot(keys, k) <= keys.len(),
        forall|j: int| 0 <= j < slot(keys, k) ==> text_lt(#[trigger] keys[j], k),
        slot(keys, k) < keys.len() ==> !text_lt(keys[slot(keys, k)], k),
    decreases keys.len(),
{
    if keys.len() == 0 || !text_lt(keys[0], k) {
    } else {
        let rest = keys.drop_first();
        lemma_slot_props(rest, k);
        let p = slot(keys, k);
        assert forall|j: int| 0 <= j < p implies text_lt(#[trigger] keys[j], k) by {
            if j > 0 {
                assert(rest[j - 1] == keys[j]);
            }
        }
        if p < keys.len() {
            assert(rest[p - 1] == keys[p]);
        }
    }
}

/// A new key put in its place keeps ascending keys ascending.
pub proof fn lemma_insert_ascending(keys: Seq<Seq<char>>, k: Seq<char>)
    requires
        ascending(keys),
        !keys.contains(k),
    ensures
        ascending(keys.insert(slot(keys, k), k)),
{
    lemma_slot_props(keys, k);
    let p = slot(keys, k);
    let next = keys.insert(p, k);
    assert forall|j: int| p <= j < keys.len() implies text_lt(k, #[trigger] keys[j]) by {
        assert(keys.contains(keys[p]));
        assert(keys[p] != k);
        lemma_text_lt_total(keys[p], k);
        if p < j {
            lemma_text_lt_transitive(k, keys[p], keys[j]);
        }
    }
    assert forall|i: int, j: int| 0 <= i < j < next.len() implies text_lt(next[i], next[j]) by {
        if j < p {
            assert(next[i] == keys[i] && next[j] == keys[j]);
        } else if j == p {
            assert(next[i] == keys[i]);
        } else if i < p {
            assert(next[i] == keys[i] && next[j] == keys[j - 1]);
        } else if i == p {
            assert(next[j] == keys[j - 1]);
        } else {
            assert(next[i] == keys[i - 1] && next[j] == keys[j - 1]);
        }
    }
}

/// A listing of rows with distinct keys holds each row once, and no other,
/// in strictly ascending order of the keys.
pub proof fn lemma_listing_props<V>(rows: Seq<V>, key: spec_fn(V) -> Seq<char>)
    requires
        distinct_by(rows, key),
    ensures
        listing(rows, key).len() == rows.len(),
        forall|v: V| #[trigger] listing(rows, key).contains(v) <==> rows.contains(v),
        ascending(listing(rows, key).map_values(key)),
    decreases rows.len(),
{
    if rows.len() > 0 {
        let init = rows.drop_last();
        let last = rows.last();
        assert forall|i: int, j: int|
            #![trigger init[i], init[j]]
            0 <= i < j < init.len() implies key(init[i]) != key(init[j]) by {
            assert(key(rows[i]) != key(rows[j]));
        }
        lemma_listing_props(init, key);
        let rest = listing(init, key);
        let keys = rest.map_values(key);
        let k = key(last);
        if keys.contains(k) {
            let a = choose|a: int| 0 <= a < keys.len() && keys[a] == k;
            assert(rest.contains(rest[a]));
            assert(init.contains(rest[a]));
            let b = choose|b: int| 0 <= b < init.len() && init[b] == rest[a];
            assert(key(rows[b]) != key(rows[rows.len() - 1]));
        }
        lemma_slot_props(keys, k);
        lemma_insert_ascending(keys, k);
        let p = slot(keys, k);
        let out = listing(rows, key);
        assert(out == rest.insert(p, last));
        assert(out.map_values(key) =~= keys.insert(p, k));
        assert forall|v: V| #[trigger] out.contains(v) implies rows.contains(v) by {
            let a = choose|a: int| 0 <= a < out.len() && out[a] == v;
            if a == p {
                assert(rows[rows.len() - 1] == v);
            } else {
                let b = if a < p { a } else { a - 1 };
                assert(rest[b] == v);
                assert(rest.contains(v));
                assert(init.contains(v));
                let c = choose|c: int| 0 <= c < init.len() && init[c] == v;
                assert(rows[c] == v);
            }
        }
        assert forall|v: V| rows.contains(v) implies #[trigger] out.contains(v) by {
            let c = choose|c: int| 0 <= c < rows.len() && rows[c] == v;
            if c == rows.len() - 1 {
                assert(out[p] == v);
            } else {
                assert(init[c] == v);
                assert(init.contains(v));
                assert(rest.contains(v));
                let b = choose|b: int| 0 <= b < rest.len() && rest[b] == v;
                if b < p {
                    assert(out[b] == v);
                } else {
                    assert(out[b + 1] == v);
                }
            }
        }
    } else {
        assert(listing(rows, key).map_values(key) =~= Seq::empty());
    }
}

/// Rows that stand in ascending order of their keys are their own
/// listing.
pub proof fn lemma_listing_of_ascending<V>(rows: Seq<V>, key: spec_fn(V) -> Seq<char>)
    requires
        ascending(rows.map_values(key)),
    ensures
        listing(rows, key) == rows,
    decreases rows.len(),
{
    if rows.len() > 0 {
        let init = rows.drop_last();
        let keys = rows.map_values(key);
        assert forall|i: int, j: int| 0 <= i < j < init.len() implies text_lt(
            init.map_values(key)[i],
            init.map_values(key)[j],
        ) by {
            assert(text_lt(keys[i], keys[j]));
        }
        lemma_listing_of_ascending(init, key);
        let k = key(rows.last());
        assert forall|j: int| 0 <= j < init.len() implies text_lt(#[trigger] init.map_values(key)[j], k) by {
            assert(text_lt(keys[j], keys[rows.len() - 1]));
        }
        lemma_slot_is(init.map_values(key), k, init.len() as int);
        assert(init.insert(init.len() as int, rows.last()) =~= rows);
    } else {
        assert(listing(rows, key) =~= rows);
    }
}

/// The listing of rows with one more row: that row is put in its place
/// among the listing of the others.
pub proof fn lemma_listing_push<V>(rows: Seq<V>, key: spec_fn(V) -> Seq<char>, row: V)
    ensures
        listing(rows.push(row), key) == listing(rows, key).insert(
            slot(listing(rows, key).map_values(key), key(row)),
            row,
        ),
{
    assert(rows.push(row).drop_last() =~= rows);
}

} // verus!
