//! Sequences of rows: their views, and how filtering and appending go
//! through them.

use vstd::prelude::*;

verus! {

/// The views of the rows of a sequence, in order.
pub open spec fn views<T: View>(s: Seq<T>) -> Seq<T::V> {
    s.map_values(|t: T| t@)
}

/// No two rows of `rows` have the same key.
pub open spec fn distinct_by<V, K>(rows: Seq<V>, key: spec_fn(V) -> K) -> bool {
    forall|i: int, j: int|
        #![trigger rows[i], rows[j]]
        0 <= i < j < rows.len() ==> key(rows[i]) != key(rows[j])
}

/// The rows stand in strictly ascending order of a numeric key.
pub open spec fn increasing_by<V>(rows: Seq<V>, key: spec_fn(V) -> i64) -> bool {
    forall|i: int, j: int| #![trigger rows[i], rows[j]] 0 <= i < j < rows.len() ==> key(rows[i]) < key(rows[j])
}

/// Some row of `rows` has the key `k`.
pub open spec fn has_key<V, K>(rows: Seq<V>, key: spec_fn(V) -> K, k: K) -> bool {
    exists|i: int| 0 <= i < rows.len() && key(#[trigger] rows[i]) == k
}

/// Rows with distinct keys stay so when a row with a new key is appended.
pub proof fn lemma_distinct_push<V, K>(rows: Seq<V>, key: spec_fn(V) -> K, row: V)
    requires
        distinct_by(rows, key),
        !has_key(rows, key, key(row)),
    ensures
        distinct_by(rows.push(row), key),
{
    let next = rows.push(row);
    assert forall|i: int, j: int|
        #![trigger next[i], next[j]]
        0 <= i < j < next.len() implies key(next[i]) != key(next[j]) by {
        if j < rows.len() {
            assert(key(rows[i]) != key(rows[j]));
        } else {
            assert(key(rows[i]) != key(row));
        }
    }
}

/// Rows with distinct keys stay so when some are filtered out.
pub proof fn lemma_distinct_filter<V, K>(rows: Seq<V>, key: spec_fn(V) -> K, pred: spec_fn(V) -> bool)
    requires
        distinct_by(rows, key),
    ensures
        distinct_by(rows.filter(pred), key),
{
    let f = rows.filter(pred);
    assert forall|i: int, j: int|
        #![trigger f[i], f[j]]
        0 <= i < j < f.len() implies key(f[i]) != key(f[j]) by {
        let r = lemma_filter_order(rows, pred, i, j);
        assert(key(rows[r.0]) != key(rows[r.1]));
    }
}

/// Rows in ascending order of a key stay so when some are filtered out.
pub proof fn lemma_increasing_filter<V>(rows: Seq<V>, key: spec_fn(V) -> i64, pred: spec_fn(V) -> bool)
    requires
        increasing_by(rows, key),
    ensures
        increasing_by(rows.filter(pred), key),
{
    let f = rows.filter(pred);
    assert forall|i: int, j: int|
        #![trigger f[i], f[j]]
        0 <= i < j < f.len() implies key(f[i]) < key(f[j]) by {
        let r = lemma_filter_order(rows, pred, i, j);
        assert(key(rows[r.0]) < key(rows[r.1]));
    }
}

/// Rows in ascending order of their ids stay so when a row with the next
/// id is appended.
pub proof fn lemma_increasing_push<V>(rows: Seq<V>, key: spec_fn(V) -> i64, row: V)
    requires
        increasing_by(rows, key),
        key(row) == next_id(rows.map_values(key)),
    ensures
        increasing_by(rows.push(row), key),
{
    let next = rows.push(row);
    lemma_next_id_is_fresh(rows.map_values(key));
    assert forall|i: int, j: int|
        #![trigger next[i], next[j]]
        0 <= i < j < next.len() implies key(next[i]) < key(next[j]) by {
        if j < rows.len() {
            assert(key(rows[i]) < key(rows[j]));
        } else {
            assert(rows.map_values(key)[i] == key(rows[i]));
        }
    }
}

/// The largest of `ids`, or 0 where none is above 0.
pub open spec fn max_id(ids: Seq<i64>) -> int
    decreases ids.len(),
{
    if ids.len() == 0 {
        0
    } else {
        let m = max_id(ids.drop_last());
        if ids.last() > m {
            ids.last() as int
        } else {
            m
        }
    }
}

/// The id that the next new row of a table gets: one above the largest in
/// use, and 1 in an empty table.
pub open spec fn next_id(ids: Seq<i64>) -> int {
    max_id(ids) + 1
}

/// No id of a table reaches the id of its next row.
pub proof fn lemma_next_id_is_fresh(ids: Seq<i64>)
    ensures
        next_id(ids) >= 1,
        forall|i: int| 0 <= i < ids.len() ==> ids[i] < next_id(ids),
    decreases ids.len(),
{
    if ids.len() > 0 {
        lemma_next_id_is_fresh(ids.drop_last());
        assert forall|i: int| 0 <= i < ids.len() implies ids[i] < next_id(ids) by {
            if i < ids.len() - 1 {
                assert(ids.drop_last()[i] == ids[i]);
            }
        }
    }
}

/// Appending an id moves the largest id up to it, if it is larger.
pub proof fn lemma_max_id_push(ids: Seq<i64>, id: i64)
    ensures
        max_id(ids.push(id)) == if id > max_id(ids) { id as int } else { max_id(ids) },
{
    assert(ids.push(id).drop_last() =~= ids);
}

/// What filtering keeps of the first `i + 1` rows: what it keeps of the
/// first `i`, and row `i` if it passes.
pub proof fn lemma_filter_step<V>(all: Seq<V>, i: int, pred: spec_fn(V) -> bool)
    requires
        0 <= i < all.len(),
    ensures
        all.take(i + 1).filter(pred) == if pred(all[i]) {
            all.take(i).filter(pred).push(all[i])
        } else {
            all.take(i).filter(pred)
        },
{
    assert(all.take(i + 1) =~= all.take(i).push(all[i]));
    all.take(i).lemma_filter_push(all[i], pred);
}

/// A row is left after filtering exactly if it was there and passes.
pub proof fn lemma_filter_members<V>(all: Seq<V>, pred: spec_fn(V) -> bool)
    ensures
        forall|v: V| #[trigger] all.filter(pred).contains(v) <==> all.contains(v) && pred(v),
        all.filter(pred).len() <= all.len(),
{
    broadcast use vstd::seq_lib::group_filter_ensures;

    let f = all.filter(pred);
    assert forall|v: V| #[trigger] f.contains(v) implies all.contains(v) && pred(v) by {
        let k = choose|k: int| 0 <= k < f.len() && f[k] == v;
        assert(pred(f[k]));
        all.lemma_filter_contains_rev(pred, v);
    }
    assert forall|v: V| all.contains(v) && pred(v) implies #[trigger] f.contains(v) by {
        let k = choose|k: int| 0 <= k < all.len() && all[k] == v;
        assert(f.contains(all[k]));
    }
}

/// Filtering keeps the order: two rows that are left stood in the same
/// order before.
pub proof fn lemma_filter_order<V>(all: Seq<V>, pred: spec_fn(V) -> bool, a: int, b: int) -> (r: (int, int))
    requires
        0 <= a < b < all.filter(pred).len(),
    ensures
        0 <= r.0 < r.1 < all.len(),
        all[r.0] == all.filter(pred)[a],
        all[r.1] == all.filter(pred)[b],
    decreases all.len(),
{
    reveal_with_fuel(Seq::filter, 2);
    let f = all.filter(pred);
    if all.len() == 0 {
        assert(f.len() == 0);
        (0, 0)
    } else {
        let init = all.drop_last();
        let fi = init.filter(pred);
        assert(f == if pred(all.last()) { fi.push(all.last()) } else { fi });
        if b < fi.len() {
            let r = lemma_filter_order(init, pred, a, b);
            r
        } else {
            assert(pred(all.last()));
            assert(b == fi.len());
            assert(fi.contains(fi[a]));
            lemma_filter_members(init, pred);
            let k = choose|k: int| 0 <= k < init.len() && init[k] == fi[a];
            (k, all.len() - 1)
        }
    }
}

/// The rows that filtering leaves, as a set: those of the rows that pass.
pub proof fn lemma_filter_to_set<V>(all: Seq<V>, pred: spec_fn(V) -> bool)
    ensures
        all.filter(pred).to_set() == all.to_set().filter(pred),
{
    lemma_filter_members(all, pred);
    assert(all.filter(pred).to_set() =~= all.to_set().filter(pred));
}

/// Filtering brings no row in twice.
pub proof fn lemma_filter_no_duplicates<V>(all: Seq<V>, pred: spec_fn(V) -> bool)
    requires
        all.no_duplicates(),
    ensures
        all.filter(pred).no_duplicates(),
{
    let f = all.filter(pred);
    assert forall|i: int, j: int| 0 <= i < f.len() && 0 <= j < f.len() && i != j implies f[i] != f[j] by {
        if i < j {
            let r = lemma_filter_order(all, pred, i, j);
        } else {
            let r = lemma_filter_order(all, pred, j, i);
        }
    }
}

/// A row that passes the filter stands at some place of what is left.
pub proof fn lemma_filter_keeps<V>(all: Seq<V>, pred: spec_fn(V) -> bool, i: int) -> (k: int)
    requires
        0 <= i < all.len(),
        pred(all[i]),
    ensures
        0 <= k < all.filter(pred).len(),
        all.filter(pred)[k] == all[i],
{
    lemma_filter_members(all, pred);
    assert(all.contains(all[i]));
    assert(all.filter(pred).contains(all[i]));
    choose|k: int| 0 <= k < all.filter(pred).len() && all.filter(pred)[k] == all[i]
}

/// A row of what filtering left stood at some place before, and passes.
pub proof fn lemma_filter_origin<V>(all: Seq<V>, pred: spec_fn(V) -> bool, k: int) -> (i: int)
    requires
        0 <= k < all.filter(pred).len(),
    ensures
        0 <= i < all.len(),
        all[i] == all.filter(pred)[k],
        pred(all[i]),
{
    lemma_filter_members(all, pred);
    assert(all.filter(pred).contains(all.filter(pred)[k]));
    choose|i: int| 0 <= i < all.len() && all[i] == all.filter(pred)[k]
}

/// What a sequence holds after one more row: what it held, and that row.
pub proof fn lemma_push_members<V>(s: Seq<V>, x: V)
    ensures
        forall|v: V| #[trigger] s.push(x).contains(v) <==> s.contains(v) || v == x,
{
    let t = s.push(x);
    assert forall|v: V| #[trigger] t.contains(v) implies s.contains(v) || v == x by {
        let k = choose|k: int| 0 <= k < t.len() && t[k] == v;
        if k < s.len() {
            assert(s[k] == v);
        }
    }
    assert forall|v: V| s.contains(v) || v == x implies #[trigger] t.contains(v) by {
        if s.contains(v) {
            let k = choose|k: int| 0 <= k < s.len() && s[k] == v;
            assert(t[k] == v);
        } else {
            assert(t[s.len() as int] == v);
        }
    }
}

/// A row that is not there yet can be appended without bringing any row
/// in twice.
pub proof fn lemma_push_no_duplicates<V>(s: Seq<V>, x: V)
    requires
        s.no_duplicates(),
        !s.contains(x),
    ensures
        s.push(x).no_duplicates(),
{
    let t = s.push(x);
    assert forall|i: int, j: int| 0 <= i < t.len() && 0 <= j < t.len() && i != j implies t[i] != t[j] by {
        if i < s.len() && j < s.len() {
        } else if i < s.len() {
            assert(s.contains(s[i]));
        } else {
            assert(s.contains(s[j]));
        }
    }
}

/// Filtering leaves every row where every row passes.
pub proof fn lemma_filter_all<V>(all: Seq<V>, pred: spec_fn(V) -> bool)
    requires
        forall|i: int| 0 <= i < all.len() ==> pred(#[trigger] all[i]),
    ensures
        all.filter(pred) == all,
    decreases all.len(),
{
    reveal(Seq::filter);
    if all.len() > 0 {
        let init = all.drop_last();
        assert forall|i: int| 0 <= i < init.len() implies pred(#[trigger] init[i]) by {
            assert(init[i] == all[i]);
        }
        lemma_filter_all(init, pred);
        assert(init.push(all.last()) =~= all);
    }
}

/// Filtering leaves no row where no row passes.
pub proof fn lemma_filter_none<V>(all: Seq<V>, pred: spec_fn(V) -> bool)
    requires
        forall|i: int| 0 <= i < all.len() ==> !pred(#[trigger] all[i]),
    ensures
        all.filter(pred) == Seq::<V>::empty(),
    decreases all.len(),
{
    reveal(Seq::filter);
    if all.len() > 0 {
        let init = all.drop_last();
        assert forall|i: int| 0 <= i < init.len() implies !pred(#[trigger] init[i]) by {
            assert(init[i] == all[i]);
        }
        lemma_filter_none(init, pred);
    }
}

/// Two sequences that agree row by row on what passes and on what is
/// shown give the same when filtered and shown.
pub proof fn lemma_filter_map_parallel<A, B, C>(
    a: Seq<A>,
    b: Seq<B>,
    pa: spec_fn(A) -> bool,
    pb: spec_fn(B) -> bool,
    fa: spec_fn(A) -> C,
    fb: spec_fn(B) -> C,
)
    requires
        a.len() == b.len(),
        forall|i: int| 0 <= i < a.len() ==> pa(#[trigger] a[i]) == pb(b[i]),
        forall|i: int| 0 <= i < a.len() ==> fa(#[trigger] a[i]) == fb(b[i]),
    ensures
        a.filter(pa).map_values(fa) == b.filter(pb).map_values(fb),
    decreases a.len(),
{
    reveal(Seq::filter);
    if a.len() > 0 {
        let ai = a.drop_last();
        let bi = b.drop_last();
        assert forall|i: int| 0 <= i < ai.len() implies pa(#[trigger] ai[i]) == pb(bi[i]) by {
            assert(ai[i] == a[i] && bi[i] == b[i]);
        }
        assert forall|i: int| 0 <= i < ai.len() implies fa(#[trigger] ai[i]) == fb(bi[i]) by {
            assert(ai[i] == a[i] && bi[i] == b[i]);
        }
        lemma_filter_map_parallel(ai, bi, pa, pb, fa, fb);
        assert(pa(a[a.len() - 1]) == pb(b[a.len() - 1]));
        assert(fa(a[a.len() - 1]) == fb(b[a.len() - 1]));
        if pa(a.last()) {
            assert(ai.filter(pa).push(a.last()).map_values(fa) =~= ai.filter(pa).map_values(fa).push(
                fa(a.last()),
            ));
            assert(bi.filter(pb).push(b.last()).map_values(fb) =~= bi.filter(pb).map_values(fb).push(
                fb(b.last()),
            ));
        }
    } else {
        assert(a.filter(pa).map_values(fa) =~= b.filter(pb).map_values(fb));
    }
}

/// The set of a sequence with one more row has that row more.
pub proof fn lemma_push_to_set<V>(s: Seq<V>, x: V)
    ensures
        s.push(x).to_set() == s.to_set().insert(x),
{
    lemma_push_members(s, x);
    assert(s.push(x).to_set() =~= s.to_set().insert(x));
}

/// What the first `k + 1` rows hold: what the first `k` hold, and row `k`.
pub proof fn lemma_take_members<V>(s: Seq<V>, k: int)
    requires
        0 <= k < s.len(),
    ensures
        forall|v: V| #[trigger] s.take(k + 1).contains(v) <==> s.take(k).contains(v) || v == s[k],
{
    assert(s.take(k + 1) =~= s.take(k).push(s[k]));
    lemma_push_members(s.take(k), s[k]);
}

} // verus!
