//! Which migration files are run in which order, and how the text of one
//! falls into statements.

use vstd::prelude::*;
use crate::listing::{lemma_listing_push, lemma_slot_is, listing, slot};
use crate::rows::lemma_filter_step;
use crate::text::{text_before, text_lt, texts, texts_contain};

verus! {

/// White space: the characters that Unicode gives the property
/// White_Space.
pub open spec fn is_white_space(c: char) -> bool {
    ||| '\u{9}' <= c <= '\u{d}'
    ||| c == ' '
    ||| c == '\u{85}'
    ||| c == '\u{a0}'
    ||| c == '\u{1680}'
    ||| '\u{2000}' <= c <= '\u{200a}'
    ||| c == '\u{2028}'
    ||| c == '\u{2029}'
    ||| c == '\u{202f}'
    ||| c == '\u{205f}'
    ||| c == '\u{3000}'
}

/// A text without the white space in front of it.
pub open spec fn trimmed_start(text: Seq<char>) -> Seq<char>
    decreases text.len(),
{
    if text.len() > 0 && is_white_space(text[0]) {
        trimmed_start(text.skip(1))
    } else {
        text
    }
}

/// A text without the white space behind it.
pub open spec fn trimmed_end(text: Seq<char>) -> Seq<char>
    decreases text.len(),
{
    if text.len() > 0 && is_white_space(text.last()) {
        trimmed_end(text.drop_last())
    } else {
        text
    }
}

/// A text without the white space at its ends.
pub open spec fn trimmed(text: Seq<char>) -> Seq<char> {
    trimmed_end(trimmed_start(text))
}

/// The name of a migration file: something, then `.sql`.
pub open spec fn is_migration_name(name: Seq<char>) -> bool {
    name.len() > 4 && name.subrange(name.len() - 4, name.len() as int) == ".sql"@
}

/// The names of the migration files that are still to be run: those that
/// are not among the names recorded as applied.
pub open spec fn pending(applied: Seq<Seq<char>>) -> spec_fn(Seq<char>) -> bool {
    |name: Seq<char>| is_migration_name(name) && !applied.contains(name)
}

/// A text as its own key.
pub open spec fn itself() -> spec_fn(Seq<char>) -> Seq<char> {
    |name: Seq<char>| name
}

/// The pieces that a text falls into at a separator, and the piece that
/// is still open behind the last separator.
pub open spec fn split_state(text: Seq<char>, sep: char) -> (Seq<Seq<char>>, Seq<char>)
    decreases text.len(),
{
    if text.len() == 0 {
        (Seq::empty(), Seq::empty())
    } else {
        let (done, open) = split_state(text.drop_last(), sep);
        if text.last() == sep {
            (done.push(open), Seq::empty())
        } else {
            (done, open.push(text.last()))
        }
    }
}

/// The pieces of a text between its separators; a text with `n`
/// separators has `n + 1` pieces.
pub open spec fn split_at(text: Seq<char>, sep: char) -> Seq<Seq<char>> {
    split_state(text, sep).0.push(split_state(text, sep).1)
}

/// The pieces that are statements: those that are not empty.
pub open spec fn not_empty() -> spec_fn(Seq<char>) -> bool {
    |piece: Seq<char>| piece.len() > 0
}

/// Trimming as a function on texts.
pub open spec fn trimming() -> spec_fn(Seq<char>) -> Seq<char> {
    |piece: Seq<char>| trimmed(piece)
}

/// The statements of a migration: its text split at each semicolon, each
/// piece trimmed, and the empty pieces left out.
pub open spec fn statements_of(sql: Seq<char>) -> Seq<Seq<char>> {
    split_at(sql, ';').map_values(trimming()).filter(not_empty())
}

/// Whether a character is white space.
pub fn is_space(c: char) -> (r: bool)
    ensures
        r == is_white_space(c),
{
    ('\u{9}' <= c && c <= '\u{d}') || c == ' ' || c == '\u{85}' || c == '\u{a0}' || c == '\u{1680}' || (
    '\u{2000}' <= c && c <= '\u{200a}') || c == '\u{2028}' || c == '\u{2029}' || c == '\u{202f}' || c
        == '\u{205f}' || c == '\u{3000}'
}

/// A text without the white space at its ends.
pub fn trim(text: &str) -> (r: String)
    ensures
        r@ == trimmed(text@),
{
    let n = text.unicode_len();
    let mut a: usize = 0;
    assert(text@.skip(0) =~= text@);
    while a < n && is_space(text.get_char(a))
        invariant
            a <= n,
            n == text@.len(),
            trimmed_start(text@) == trimmed_start(text@.skip(a as int)),
        decreases n - a,
    {
        assert(text@.skip(a as int).skip(1) =~= text@.skip(a + 1));
        assert(text@.skip(a as int)[0] == text@[a as int]);
        a += 1;
    }
    assert(a < n ==> text@.skip(a as int)[0] == text@[a as int]);
    let mut b: usize = n;
    assert(text@.subrange(a as int, n as int) =~= text@.skip(a as int));
    while b > a && is_space(text.get_char(b - 1))
        invariant
            a <= b <= n,
            n == text@.len(),
            trimmed(text@) == trimmed_end(text@.subrange(a as int, b as int)),
        decreases b - a,
    {
        assert(text@.subrange(a as int, b as int).drop_last() =~= text@.subrange(a as int, b - 1));
        assert(text@.subrange(a as int, b as int).last() == text@[b - 1]);
        b -= 1;
    }
    assert(b > a ==> text@.subrange(a as int, b as int).last() == text@[b - 1]);
    text.substring_char(a, b).to_string()
}

/// Whether a file of this name is a migration.
pub fn is_migration(name: &str) -> (r: bool)
    ensures
        r == is_migration_name(name@),
{
    proof {
        reveal_strlit(".sql");
    }
    let n = name.unicode_len();
    if n <= 4 {
        return false;
    }
    let r = name.get_char(n - 4) == '.' && name.get_char(n - 3) == 's' && name.get_char(n - 2) == 'q'
        && name.get_char(n - 1) == 'l';
    proof {
        let tail = name@.subrange(n - 4, n as int);
        if r {
            assert(tail =~= ".sql"@);
        } else {
            if tail == ".sql"@ {
                assert(tail[0] == '.' && tail[1] == 's' && tail[2] == 'q' && tail[3] == 'l');
            }
        }
    }
    r
}

/// The place of `name` among the listed names.
fn name_slot(listed: &Vec<String>, name: &str) -> (p: usize)
    ensures
        p <= listed.len(),
        p == slot(texts(listed@).map_values(itself()), name@),
{
    let ghost keys = texts(listed@).map_values(itself());
    let mut p: usize = 0;
    while p < listed.len() && text_before(listed[p].as_str(), name)
        invariant
            p <= listed.len(),
            keys == texts(listed@).map_values(itself()),
            forall|j: int| 0 <= j < p ==> text_lt(#[trigger] keys[j], name@),
        decreases listed.len() - p,
    {
        p += 1;
    }
    proof {
        lemma_slot_is(keys, name@, p as int);
    }
    p
}

/// The migrations among the files of a directory that are still to be
/// run, in the order in which they are run: ascending by name. `applied`
/// holds the names recorded as applied.
pub fn migrations_in_order(names: &Vec<String>, applied: &Vec<String>) -> (r: Vec<String>)
    ensures
        texts(r@) == listing(texts(names@).filter(pending(texts(applied@))), itself()),
{
    let ghost all = texts(names@);
    let ghost due = pending(texts(applied@));
    let mut out: Vec<String> = Vec::new();
    let mut i: usize = 0;
    assert(all.take(0).filter(due) =~= Seq::empty()) by {
        reveal(Seq::filter);
    }
    assert(texts(out@) =~= Seq::empty());
    while i < names.len()
        invariant
            i <= names.len(),
            all == texts(names@),
            due == pending(texts(applied@)),
            texts(out@) == listing(all.take(i as int).filter(due), itself()),
        decreases names.len() - i,
    {
        proof {
            lemma_filter_step(all, i as int, due);
        }
        if is_migration(names[i].as_str()) && !texts_contain(applied, names[i].as_str()) {
            let p = name_slot(&out, names[i].as_str());
            let name = names[i].clone();
            let ghost before = out@;
            out.insert(p, name);
            proof {
                lemma_listing_push(all.take(i as int).filter(due), itself(), all[i as int]);
                assert(texts(out@) =~= texts(before).insert(p as int, name@));
            }
        }
        i += 1;
    }
    assert(all.take(i as int) =~= all);
    out
}

/// The pieces of `text` between its semicolons.
pub fn split_semicolons(text: &str) -> (r: Vec<String>)
    ensures
        texts(r@) == split_at(text@, ';'),
{
    let n = text.unicode_len();
    let mut done: Vec<String> = Vec::new();
    let mut start: usize = 0;
    let mut i: usize = 0;
    assert(text@.take(0) =~= Seq::empty());
    assert(texts(done@) =~= Seq::empty());
    assert(text@.subrange(0, 0) =~= Seq::empty());
    while i < n
        invariant
            start <= i <= n,
            n == text@.len(),
            texts(done@) == split_state(text@.take(i as int), ';').0,
            text@.subrange(start as int, i as int) == split_state(text@.take(i as int), ';').1,
        decreases n - i,
    {
        proof {
            assert(text@.take(i + 1).drop_last() =~= text@.take(i as int));
            assert(text@.take(i + 1).last() == text@[i as int]);
        }
        if text.get_char(i) == ';' {
            let piece = text.substring_char(start, i).to_string();
            let ghost before = done@;
            done.push(piece);
            assert(texts(done@) =~= texts(before).push(piece@));
            start = i + 1;
            assert(text@.subrange(start as int, i + 1) =~= Seq::empty());
        } else {
            assert(text@.subrange(start as int, i + 1) =~= text@.subrange(start as int, i as int).push(
                text@[i as int],
            ));
        }
        i += 1;
    }
    assert(text@.take(n as int) =~= text@);
    let piece = text.substring_char(start, n).to_string();
    let ghost before = done@;
    done.push(piece);
    assert(texts(done@) =~= texts(before).push(piece@));
    done
}

/// The pieces that are not empty, in order.
pub fn without_empty(pieces: Vec<String>) -> (r: Vec<String>)
    ensures
        texts(r@) == texts(pieces@).filter(not_empty()),
{
    let ghost all = texts(pieces@);
    let mut out: Vec<String> = Vec::new();
    let mut i: usize = 0;
    assert(all.take(0).filter(not_empty()) =~= Seq::empty()) by {
        reveal(Seq::filter);
    }
    assert(texts(out@) =~= Seq::empty());
    while i < pieces.len()
        invariant
            i <= pieces.len(),
            all == texts(pieces@),
            texts(out@) == all.take(i as int).filter(not_empty()),
        decreases pieces.len() - i,
    {
        proof {
            lemma_filter_step(all, i as int, not_empty());
        }
        if !pieces[i].as_str().is_empty() {
            let ghost before = out@;
            let kept = pieces[i].clone();
            out.push(kept);
            assert(texts(out@) =~= texts(before).push(kept@));
        }
        i += 1;
    }
    assert(all.take(i as int) =~= all);
    out
}

/// The statements of a migration, in order: the text split at each
/// semicolon, each piece trimmed, the empty pieces left out.
pub fn statements(sql: &str) -> (r: Vec<String>)
    ensures
        texts(r@) == statements_of(sql@),
{
    let pieces = split_semicolons(sql);
    let mut trimmed_pieces: Vec<String> = Vec::new();
    let mut i: usize = 0;
    while i < pieces.len()
        invariant
            i <= pieces.len(),
            trimmed_pieces@.len() == i,
            forall|j: int| 0 <= j < i ==> (#[trigger] trimmed_pieces@[j])@ == trimmed(pieces@[j]@),
        decreases pieces.len() - i,
    {
        trimmed_pieces.push(trim(pieces[i].as_str()));
        i += 1;
    }
    assert(texts(trimmed_pieces@) =~= texts(pieces@).map_values(trimming()));
    without_empty(trimmed_pieces)
}

} // verus!
