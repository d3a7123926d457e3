//! Runtime values from artisan's own `_complete` command: when they are
//! consulted, and what its output offers.

use vstd::prelude::*;
use crate::text::{
    str_chars, string_of, slice_chars, find_char, index_of_char, lines_of, split_lines, views_of, trim, trim_exec,
    is_lit, trim_start, trim_end, is_space, first_at, lemma_index_of_char_some,
};
use crate::bytes::{lossy_text, utf8_lossy};
use crate::sorted::strs_of;

verus! {

broadcast use vstd::string::group_string_axioms;

/// The settings of `ARTISAN_COMP_NATIVE` that turn runtime values on.
pub open spec fn native_setting(v: Option<Seq<char>>) -> bool {
    match v {
        Some(s) => s == "1"@ || s == "true"@ || s == "yes"@,
        None => false,
    }
}

/// Whether runtime values are consulted, given `ARTISAN_COMP_NATIVE`.
pub fn enabled(v: Option<&str>) -> (r: bool)
    ensures
        r == native_setting(match v {
            Some(s) => Some(s@),
            None => None,
        }),
{
    match v {
        Some(s) => {
            let c = str_chars(s);
            is_lit(&c, "1") || is_lit(&c, "true") || is_lit(&c, "yes")
        },
        None => false,
    }
}

/// The value a line of `_complete` output offers: the text before any tab,
/// trimmed.
pub open spec fn line_value(l: Seq<char>) -> Seq<char> {
    match index_of_char(l, '\t') {
        Some(i) => trim(l.take(i)),
        None => trim(l),
    }
}

/// The values of the lines, each once, empty ones left out, in order.
pub open spec fn native_fold(acc: Seq<Seq<char>>, lines: Seq<Seq<char>>) -> Seq<Seq<char>>
    decreases lines.len(),
{
    if lines.len() == 0 {
        acc
    } else {
        let before = native_fold(acc, lines.drop_last());
        let v = line_value(lines.last());
        if v.len() > 0 && !before.contains(v) {
            before.push(v)
        } else {
            before
        }
    }
}

/// The values `_complete` offers in its output.
pub open spec fn native_values_of(out: Seq<u8>) -> Seq<Seq<char>> {
    native_fold(seq![], lines_of(lossy_text(out)))
}

fn contains_value(vs: &Vec<String>, v: &Vec<char>) -> (r: bool)
    ensures
        r == strs_of(vs@).contains(v@),
{
    let ghost all = strs_of(vs@);
    let mut i: usize = 0;
    while i < vs.len()
        invariant
            i <= vs.len(),
            all == strs_of(vs@),
            forall|j: int| 0 <= j < i ==> all[j] != v@,
        decreases vs.len() - i,
    {
        let c = str_chars(vs[i].as_str());
        if crate::text::chars_eq(&c, v) {
            assert(all[i as int] == v@);
            return true;
        }
        i = i + 1;
    }
    false
}

/// The values `_complete` offers in its output (see `native_values_of`).
pub fn native_values(out: &[u8]) -> (r: Vec<String>)
    ensures
        strs_of(r@) == native_values_of(out@),
{
    let text = utf8_lossy(out);
    let chars = str_chars(text.as_str());
    let lines = split_lines(&chars);
    let ghost ls = views_of(lines@);
    let mut vals: Vec<String> = Vec::new();
    assert(strs_of(vals@) =~= Seq::<Seq<char>>::empty());
    let mut i: usize = 0;
    while i < lines.len()
        invariant
            i <= lines.len(),
            ls == views_of(lines@),
            ls == lines_of(lossy_text(out@)),
            strs_of(vals@) == native_fold(seq![], ls.take(i as int)),
        decreases lines.len() - i,
    {
        assert(ls.take(i + 1).drop_last() == ls.take(i as int));
        assert(ls.take(i + 1).last() == lines@[i as int]@);
        let l = &lines[i];
        let head = match find_char(l, '\t') {
            Some(k) => slice_chars(l, 0, k),
            None => slice_chars(l, 0, l.len()),
        };
        assert(l@.subrange(0, l@.len() as int) == l@);
        let v = trim_exec(&head);
        if v.len() > 0 && !contains_value(&vals, &v) {
            let ghost before = vals@;
            vals.push(string_of(&v));
            assert(strs_of(vals@) == strs_of(before).push(v@));
        }
        i = i + 1;
    }
    assert(ls.take(lines.len() as int) == ls);
    vals
}

proof fn lemma_trim_start_keeps_out(t: Seq<char>, c: char)
    requires
        !t.contains(c),
    ensures
        !trim_start(t).contains(c),
    decreases t.len(),
{
    if t.len() > 0 && is_space(t[0]) {
        assert forall|k: int| 0 <= k < t.drop_first().len() implies t.drop_first()[k] != c by {
            assert(t.drop_first()[k] == t[k + 1]);
        }
        lemma_trim_start_keeps_out(t.drop_first(), c);
    }
}

proof fn lemma_trim_end_keeps_out(t: Seq<char>, c: char)
    requires
        !t.contains(c),
    ensures
        !trim_end(t).contains(c),
    decreases t.len(),
{
    if t.len() > 0 && is_space(t.last()) {
        assert forall|k: int| 0 <= k < t.drop_last().len() implies t.drop_last()[k] != c by {
            assert(t.drop_last()[k] == t[k]);
        }
        lemma_trim_end_keeps_out(t.drop_last(), c);
    }
}

proof fn lemma_line_value_no_tab(l: Seq<char>)
    ensures
        !line_value(l).contains('\t'),
{
    match index_of_char(l, '\t') {
        Some(i) => {
            lemma_index_of_char_some(l, '\t');
            assert forall|k: int| 0 <= k < l.take(i).len() implies l.take(i)[k] != '\t' by {
                assert(l.take(i)[k] == l[k]);
            }
            lemma_trim_start_keeps_out(l.take(i), '\t');
            lemma_trim_end_keeps_out(trim_start(l.take(i)), '\t');
        },
        None => {
            lemma_trim_start_keeps_out(l, '\t');
            lemma_trim_end_keeps_out(trim_start(l), '\t');
        },
    }
}

/// No value is empty or holds a tab, and none comes twice.
pub open spec fn clean_values(vs: Seq<Seq<char>>) -> bool {
    &&& forall|i: int| 0 <= i < vs.len() ==> (#[trigger] vs[i]).len() > 0 && !vs[i].contains('\t')
    &&& forall|i: int, j: int| 0 <= i < j < vs.len() ==> #[trigger] vs[i] != #[trigger] vs[j]
}

proof fn lemma_native_fold_clean(acc: Seq<Seq<char>>, lines: Seq<Seq<char>>)
    requires
        clean_values(acc),
    ensures
        clean_values(native_fold(acc, lines)),
    decreases lines.len(),
{
    if lines.len() > 0 {
        let before = native_fold(acc, lines.drop_last());
        lemma_native_fold_clean(acc, lines.drop_last());
        let v = line_value(lines.last());
        lemma_line_value_no_tab(lines.last());
        if v.len() > 0 && !before.contains(v) {
            let r = before.push(v);
            assert forall|i: int, j: int| 0 <= i < j < r.len() implies #[trigger] r[i] != #[trigger] r[j] by {
                if j == before.len() {
                    assert(r[i] == before[i]);
                    assert(r[j] == v);
                } else {
                    assert(r[i] == before[i] && r[j] == before[j]);
                }
            }
            assert forall|i: int| 0 <= i < r.len() implies (#[trigger] r[i]).len() > 0 && !r[i].contains('\t') by {
                if i < before.len() {
                    assert(r[i] == before[i]);
                }
            }
        }
    }
}

/// The runtime values taken from `_complete`'s output are never empty, hold
/// no tab (descriptions after a tab are cut off), and none comes twice.
pub proof fn lemma_native_values_clean(out: Seq<u8>)
    ensures
        clean_values(native_values_of(out)),
{
    lemma_native_fold_clean(seq![], lines_of(lossy_text(out)));
}

} // verus!
