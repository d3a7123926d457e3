//! Sorted lists of strings, in the order of `String`'s `Ord` (by code
//! point, which is the order of the UTF-8 bytes).

use vstd::prelude::*;
use crate::text::str_chars;

verus! {

broadcast use vstd::string::group_string_axioms;

/// `a` sorts before `b`: lexicographic order by code point.
pub open spec fn lex_lt(a: Seq<char>, b: Seq<char>) -> bool
    decreases a.len(),
{
    if b.len() == 0 {
        false
    } else if a.len() == 0 {
        true
    } else if a[0] != b[0] {
        (a[0] as u32) < (b[0] as u32)
    } else {
        lex_lt(a.drop_first(), b.drop_first())
    }
}

/// Whether `a` sorts before `b`.
pub fn lex_less(a: &[char], b: &[char]) -> (r: bool)
    ensures
        r == lex_lt(a@, b@),
{
    let mut i: usize = 0;
    assert(a@.skip(0) == a@);
    assert(b@.skip(0) == b@);
    while i < a.len() && i < b.len()
        invariant
            i <= a.len(),
            i <= b.len(),
            lex_lt(a@, b@) == lex_lt(a@.skip(i as int), b@.skip(i as int)),
        decreases a.len() - i,
    {
        if a[i] != b[i] {
            assert(a@.skip(i as int)[0] == a@[i as int]);
            assert(b@.skip(i as int)[0] == b@[i as int]);
            return (a[i] as u32) < (b[i] as u32);
        }
        assert(a@.skip(i as int).drop_first() == a@.skip(i + 1));
        assert(b@.skip(i as int).drop_first() == b@.skip(i + 1));
        i = i + 1;
    }
    i < b.len()
}

/// Position at which `x` belongs in `s`, searching from `i`: the first
/// entry that does not sort before `x`.
pub open spec fn insert_pos(s: Seq<Seq<char>>, x: Seq<char>, i: int) -> int
    decreases s.len() - i,
{
    if i < 0 || i >= s.len() {
        s.len() as int
    } else if lex_lt(s[i], x) {
        insert_pos(s, x, i + 1)
    } else {
        i
    }
}

/// `s` with `x` inserted in order; with `dedup`, left as it is when `x`
/// is already there.
pub open spec fn insert_sorted(s: Seq<Seq<char>>, x: Seq<char>, dedup: bool) -> Seq<Seq<char>> {
    let p = insert_pos(s, x, 0);
    if dedup && p < s.len() && s[p] == x {
        s
    } else {
        s.insert(p, x)
    }
}

/// The items inserted in turn into an empty list.
pub open spec fn sort_fold(items: Seq<Seq<char>>, dedup: bool) -> Seq<Seq<char>>
    decreases items.len(),
{
    if items.len() == 0 {
        seq![]
    } else {
        insert_sorted(sort_fold(items.drop_last(), dedup), items.last(), dedup)
    }
}

/// The sorted set of the items (as a `BTreeSet` collects them).
pub open spec fn sorted_set(items: Seq<Seq<char>>) -> Seq<Seq<char>> {
    sort_fold(items, true)
}

/// The items sorted, duplicates kept (as `sort` leaves them).
pub open spec fn sorted_list(items: Seq<Seq<char>>) -> Seq<Seq<char>> {
    sort_fold(items, false)
}

pub open spec fn strs_of(v: Seq<String>) -> Seq<Seq<char>> {
    v.map_values(|s: String| s@)
}

/// Inserts `x` into a sorted list.
pub fn insert_sorted_exec(v: &mut Vec<String>, x: String, dedup: bool)
    ensures
        strs_of(final(v)@) == insert_sorted(strs_of(old(v)@), x@, dedup),
{
    let ghost s = strs_of(v@);
    let xc = str_chars(x.as_str());
    let mut i: usize = 0;
    while i < v.len()
        invariant
            i <= v.len(),
            s == strs_of(v@),
            xc@ == x@,
            insert_pos(s, x@, 0) == insert_pos(s, x@, i as int),
        ensures
            i <= v.len(),
            s == strs_of(v@),
            insert_pos(s, x@, 0) == insert_pos(s, x@, i as int),
            i < v.len() ==> !lex_lt(s[i as int], x@),
        decreases v.len() - i,
    {
        let ec = str_chars(v[i].as_str());
        if !lex_less(&ec, &xc) {
            break;
        }
        i = i + 1;
    }
    assert(insert_pos(s, x@, i as int) == i);
    if dedup && i < v.len() && v[i] == x {
        return;
    }
    v.insert(i, x);
    assert(strs_of(v@) =~= s.insert(i as int, x@));
}

/// The sorted set of the strings (see `sorted_set`).
pub fn sorted_set_exec(items: &Vec<String>) -> (r: Vec<String>)
    ensures
        strs_of(r@) == sorted_set(strs_of(items@)),
{
    sort_exec(items, true)
}

/// The strings sorted, duplicates kept (see `sorted_list`).
pub fn sorted_list_exec(items: &Vec<String>) -> (r: Vec<String>)
    ensures
        strs_of(r@) == sorted_list(strs_of(items@)),
{
    sort_exec(items, false)
}

fn sort_exec(items: &Vec<String>, dedup: bool) -> (r: Vec<String>)
    ensures
        strs_of(r@) == sort_fold(strs_of(items@), dedup),
{
    let ghost s = strs_of(items@);
    let mut out: Vec<String> = Vec::new();
    assert(strs_of(out@) =~= Seq::<Seq<char>>::empty());
    let mut i: usize = 0;
    while i < items.len()
        invariant
            i <= items.len(),
            s == strs_of(items@),
            strs_of(out@) == sort_fold(s.take(i as int), dedup),
        decreases items.len() - i,
    {
        assert(s.take(i + 1).drop_last() == s.take(i as int));
        assert(s.take(i + 1).last() == items@[i as int]@);
        insert_sorted_exec(&mut out, items[i].clone(), dedup);
        i = i + 1;
    }
    assert(s.take(items.len() as int) == s);
    out
}


// --- the order and sorted sets -------------------------------------------------

pub proof fn lemma_lex_irreflexive(a: Seq<char>)
    ensures
        !lex_lt(a, a),
    decreases a.len(),
{
    if a.len() > 0 {
        lemma_lex_irreflexive(a.drop_first());
    }
}

pub proof fn lemma_lex_transitive(a: Seq<char>, b: Seq<char>, c: Seq<char>)
    requires
        lex_lt(a, b),
        lex_lt(b, c),
    ensures
        lex_lt(a, c),
    decreases a.len(),
{
    if a.len() > 0 && b.len() > 0 && c.len() > 0 && a[0] == b[0] && b[0] == c[0] {
        lemma_lex_transitive(a.drop_first(), b.drop_first(), c.drop_first());
    }
}

pub proof fn lemma_lex_total(a: Seq<char>, b: Seq<char>)
    requires
        a != b,
    ensures
        lex_lt(a, b) || lex_lt(b, a),
    decreases a.len(),
{
    if a.len() == 0 && b.len() == 0 {
        assert(a =~= b);
    }
    if a.len() > 0 && b.len() > 0 && a[0] == b[0] {
        if a.drop_first() == b.drop_first() {
            assert(a =~= seq![a[0]] + a.drop_first());
            assert(b =~= seq![b[0]] + b.drop_first());
        }
        lemma_lex_total(a.drop_first(), b.drop_first());
    } else if a.len() > 0 && b.len() > 0 {
        vstd::utf8::char_u32_cast(a[0], a[0] as u32);
        vstd::utf8::char_u32_cast(b[0], b[0] as u32);
        assert((a[0] as u32) != (b[0] as u32));
    }
}

pub proof fn lemma_lex_asymmetric(a: Seq<char>, b: Seq<char>)
    requires
        lex_lt(a, b),
    ensures
        !lex_lt(b, a),
{
    if lex_lt(b, a) {
        lemma_lex_transitive(a, b, a);
        lemma_lex_irreflexive(a);
    }
}

/// Every entry sorts before every later one: sorted, no entry twice.
pub open spec fn strictly_sorted(s: Seq<Seq<char>>) -> bool {
    forall|i: int, j: int| 0 <= i < j < s.len() ==> lex_lt(#[trigger] s[i], #[trigger] s[j])
}

proof fn lemma_insert_pos(s: Seq<Seq<char>>, x: Seq<char>, i: int)
    requires
        0 <= i <= s.len(),
    ensures
        i <= insert_pos(s, x, i) <= s.len(),
        forall|j: int| i <= j < insert_pos(s, x, i) ==> lex_lt(#[trigger] s[j], x),
        insert_pos(s, x, i) < s.len() ==> !lex_lt(s[insert_pos(s, x, i)], x),
    decreases s.len() - i,
{
    if i < s.len() && lex_lt(s[i], x) {
        lemma_insert_pos(s, x, i + 1);
    }
}

proof fn lemma_insert_sorted(s: Seq<Seq<char>>, x: Seq<char>)
    requires
        strictly_sorted(s),
    ensures
        strictly_sorted(insert_sorted(s, x, true)),
        forall|y: Seq<char>| insert_sorted(s, x, true).contains(y) <==> (s.contains(y) || y == x),
{
    lemma_insert_pos(s, x, 0);
    let p = insert_pos(s, x, 0);
    if p < s.len() && s[p] == x {
        assert(s.contains(x));
    } else {
        let r = s.insert(p, x);
        assert forall|i: int, j: int| 0 <= i < j < r.len() implies lex_lt(#[trigger] r[i], #[trigger] r[j]) by {
            if j < p {
                assert(r[i] == s[i] && r[j] == s[j]);
            } else if j == p {
                assert(r[i] == s[i]);
            } else if i == p {
                assert(r[j] == s[j - 1]);
                if p < s.len() {
                    lemma_lex_total(s[p], x);
                    if j - 1 > p {
                        lemma_lex_transitive(x, s[p], s[j - 1]);
                    }
                }
            } else if i < p {
                assert(r[i] == s[i] && r[j] == s[j - 1]);
                if i < j - 1 {
                } else {
                    assert(j - 1 == i);
                }
            } else {
                assert(r[i] == s[i - 1] && r[j] == s[j - 1]);
            }
        }
        assert forall|y: Seq<char>| r.contains(y) <==> (s.contains(y) || y == x) by {
            if r.contains(y) {
                let k = choose|k: int| 0 <= k < r.len() && r[k] == y;
                if k < p {
                    assert(s[k] == y);
                } else if k > p {
                    assert(s[k - 1] == y);
                }
            }
            if s.contains(y) {
                let k = choose|k: int| 0 <= k < s.len() && s[k] == y;
                if k < p {
                    assert(r[k] == y);
                } else {
                    assert(r[k + 1] == y);
                }
            }
            if y == x {
                assert(r[p] == x);
            }
        }
    }
}

/// A sorted set (the sets of a catalog) is sorted with no entry twice, and
/// holds exactly the items it was built from.
pub proof fn lemma_sorted_set(items: Seq<Seq<char>>)
    ensures
        strictly_sorted(sorted_set(items)),
        forall|y: Seq<char>| sorted_set(items).contains(y) <==> items.contains(y),
    decreases items.len(),
{
    if items.len() > 0 {
        let init = items.drop_last();
        lemma_sorted_set(init);
        lemma_insert_sorted(sorted_set(init), items.last());
        assert forall|y: Seq<char>| sorted_set(items).contains(y) <==> items.contains(y) by {
            if items.contains(y) {
                let k = choose|k: int| 0 <= k < items.len() && items[k] == y;
                if k < items.len() - 1 {
                    assert(init[k] == y);
                }
            }
            if init.contains(y) {
                let k = choose|k: int| 0 <= k < init.len() && init[k] == y;
                assert(items[k] == y);
            }
        }
    }
}

} // verus!
