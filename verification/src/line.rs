//! Analysis of the words typed on the command line before the cursor.

use vstd::prelude::*;
use crate::text::{str_chars, chars_eq, starts_with, has_prefix};

verus! {

broadcast use vstd::string::group_string_axioms;

/// The words of a command line, each by its characters.
pub open spec fn word_seq(words: Seq<&str>) -> Seq<Seq<char>> {
    words.map_values(|w: &str| w@)
}

/// The bare separator `--`.
pub open spec fn separator() -> Seq<char> {
    seq!['-', '-']
}

/// A word that starts with `-` (an option token, or `--`).
pub open spec fn is_dash_word(w: Seq<char>) -> bool {
    w.len() > 0 && w[0] == '-'
}

/// Index of the first `--` among the first `n` words, if any.
pub open spec fn first_separator(ws: Seq<Seq<char>>, n: nat) -> Option<int>
    decreases n,
{
    if n == 0 {
        None
    } else {
        match first_separator(ws, (n - 1) as nat) {
            Some(k) => Some(k),
            None => if ws[n - 1] == separator() { Some(n - 1) } else { None },
        }
    }
}

/// State after reading the first `n` words: how many positionals are filled,
/// and whether the next word is consumed as the value of an option.
/// `sep` is the position of the first `--`; option tokens after it are
/// plain positionals. `takes(w)` says whether option token `w` takes the
/// following word as its value.
pub open spec fn scan_state(
    ws: Seq<Seq<char>>,
    sep: Option<int>,
    takes: spec_fn(Seq<char>) -> bool,
    n: nat,
) -> (int, bool)
    decreases n,
{
    if n == 0 {
        (0, false)
    } else {
        let prev = scan_state(ws, sep, takes, (n - 1) as nat);
        let i = n - 1;
        let w = ws[i];
        if prev.1 {
            (prev.0, false)
        } else if !(sep is Some && i > sep->0) && is_dash_word(w) {
            (prev.0, takes(w))
        } else if w.len() > 0 && w != separator() {
            (prev.0 + 1, false)
        } else {
            (prev.0, false)
        }
    }
}

/// The number of filled positionals, and whether a bare `--` occurs.
pub open spec fn scan_result(ws: Seq<Seq<char>>, takes: spec_fn(Seq<char>) -> bool) -> (int, bool) {
    let sep = first_separator(ws, ws.len());
    (scan_state(ws, sep, takes, ws.len()).0, sep is Some)
}

/// `f` answers for each word as the predicate `p` does.
pub open spec fn answers_as<F: Fn(&str) -> bool>(f: F, p: spec_fn(Seq<char>) -> bool) -> bool {
    forall|w: &str, b: bool| f.ensures((w,), b) ==> b == p(w@)
}

/// An optional index, as an optional mathematical integer.
pub open spec fn same_index(a: Option<usize>, b: Option<int>) -> bool {
    match (a, b) {
        (Some(x), Some(y)) => x as int == y,
        (None, None) => true,
        _ => false,
    }
}

fn is_separator_word(w: &[char]) -> (r: bool)
    ensures
        r == (w@ == separator()),
{
    let r = w.len() == 2 && w[0] == '-' && w[1] == '-';
    if w.len() == 2 {
        assert(r ==> w@ =~= separator());
    }
    r
}

/// Given the words between the subcommand and the cursor, return how many
/// positional arguments are already filled and whether a bare `--` has
/// switched parsing into positional-only mode. `takes_value(word)` reports
/// whether an option token consumes the following word as its value.
pub fn scan_prior_words<F: Fn(&str) -> bool>(prior_words: &[&str], takes_value: F) -> (r: (usize, bool))
    requires
        forall|w: &str| takes_value.requires((w,)),
    ensures
        forall|p: spec_fn(Seq<char>) -> bool|
            answers_as(takes_value, p) ==> r.0 == scan_result(word_seq(prior_words@), p).0 && r.1
                == scan_result(word_seq(prior_words@), p).1,
{
    let ghost ws = word_seq(prior_words@);
    let n = prior_words.len();
    let mut separator: Option<usize> = None;
    let mut k: usize = 0;
    while k < n
        invariant
            n == prior_words@.len(),
            ws == word_seq(prior_words@),
            k <= n,
            same_index(separator, first_separator(ws, k as nat)),
            separator matches Some(s) ==> s < k,
        decreases n - k,
    {
        if separator.is_none() {
            let w = str_chars(prior_words[k]);
            if is_separator_word(&w) {
                separator = Some(k);
            }
        }
        k = k + 1;
    }
    let ghost sep = first_separator(ws, n as nat);
    let mut filled: usize = 0;
    let mut consumed = false;
    let mut i: usize = 0;
    while i < n
        invariant
            n == prior_words@.len(),
            ws == word_seq(prior_words@),
            i <= n,
            filled <= i,
            same_index(separator, sep),
            sep matches Some(s) ==> 0 <= s < n,
            forall|p: spec_fn(Seq<char>) -> bool|
                answers_as(takes_value, p) ==> filled == scan_state(ws, sep, p, i as nat).0 && consumed
                    == scan_state(ws, sep, p, i as nat).1,
            forall|w: &str| takes_value.requires((w,)),
        decreases n - i,
    {
        let word = prior_words[i];
        let w = str_chars(word);
        assert(ws[i as int] == w@);
        if consumed {
            consumed = false;
        } else {
            let after_separator = match separator {
                Some(s) => i > s,
                None => false,
            };
            if !after_separator && w.len() > 0 && w[0] == '-' {
                let b = takes_value(word);
                consumed = b;
                assert forall|p: spec_fn(Seq<char>) -> bool| answers_as(takes_value, p) implies filled
                    == scan_state(ws, sep, p, (i + 1) as nat).0 && consumed == scan_state(
                    ws,
                    sep,
                    p,
                    (i + 1) as nat,
                ).1 by {
                    assert(b == p(word@));
                }
            } else if w.len() > 0 && !is_separator_word(&w) {
                filled = filled + 1;
            }
        }
        i = i + 1;
    }
    (filled, separator.is_some())
}

/// A word that is `flag` itself, or `flag=` followed by a value.
pub open spec fn flag_hit(w: Seq<char>, flag: Seq<char>) -> bool {
    flag.len() > 0 && (w == flag || (w.len() > flag.len() && has_prefix(w, flag) && w[flag.len() as int]
        == '='))
}

/// The option (by long name or shortcut) appears among the words.
pub open spec fn option_used_spec(ws: Seq<Seq<char>>, name: Seq<char>, shortcut: Seq<char>) -> bool {
    exists|i: int| 0 <= i < ws.len() && (flag_hit(#[trigger] ws[i], name) || flag_hit(ws[i], shortcut))
}

fn hits(w: &[char], flag: &[char]) -> (r: bool)
    ensures
        r == flag_hit(w@, flag@),
{
    if flag.len() == 0 {
        return false;
    }
    if chars_eq(w, flag) {
        return true;
    }
    w.len() > flag.len() && starts_with(w, flag) && w[flag.len()] == '='
}

/// Whether an option (by long name and shortcut) already appears on the
/// line, in either `--opt`/`-o` or `--opt=x`/`-o=x` form.
pub fn option_used(prior_words: &[&str], name: &str, shortcut: &str) -> (r: bool)
    ensures
        r == option_used_spec(word_seq(prior_words@), name@, shortcut@),
{
    let ghost ws = word_seq(prior_words@);
    let name_chars = str_chars(name);
    let short_chars = str_chars(shortcut);
    let mut i: usize = 0;
    while i < prior_words.len()
        invariant
            ws == word_seq(prior_words@),
            name_chars@ == name@,
            short_chars@ == shortcut@,
            i <= prior_words.len(),
            forall|j: int|
                0 <= j < i ==> !flag_hit(#[trigger] ws[j], name@) && !flag_hit(ws[j], shortcut@),
        decreases prior_words.len() - i,
    {
        let w = str_chars(prior_words[i]);
        assert(ws[i as int] == w@);
        if hits(&w, &name_chars) || hits(&w, &short_chars) {
            return true;
        }
        i = i + 1;
    }
    false
}

// --- what the scan counts ----------------------------------------------------------

/// How many of the positions `0..n` satisfy `p`.
pub open spec fn count_upto(n: nat, p: spec_fn(int) -> bool) -> nat
    decreases n,
{
    if n == 0 {
        0
    } else {
        count_upto((n - 1) as nat, p) + if p(n - 1) {
            1nat
        } else {
            0nat
        }
    }
}

/// An option token: a word that starts with `-`.
pub open spec fn dashed(w: Seq<char>) -> bool {
    w.len() > 0 && w[0] == '-'
}

/// Word `i` is an option token that takes a value.
pub open spec fn takes_at(ws: Seq<Seq<char>>, takes: spec_fn(Seq<char>) -> bool, i: int) -> bool {
    0 <= i < ws.len() && dashed(ws[i]) && takes(ws[i])
}

/// Word `i` certainly fills a positional: it is not empty, not an option
/// token, and does not follow an option token that takes a value.
pub open spec fn surely_positional(ws: Seq<Seq<char>>, takes: spec_fn(Seq<char>) -> bool, i: int) -> bool {
    ws[i].len() > 0 && !dashed(ws[i]) && !takes_at(ws, takes, i - 1)
}

/// Word `i` certainly fills no positional: it is empty, or an option token,
/// or the value of an option token that is not itself a value.
pub open spec fn never_positional(ws: Seq<Seq<char>>, takes: spec_fn(Seq<char>) -> bool, i: int) -> bool {
    ||| ws[i].len() == 0
    ||| dashed(ws[i])
    ||| takes_at(ws, takes, i - 1) && !takes_at(ws, takes, i - 2)
}

proof fn lemma_scan_bounds(ws: Seq<Seq<char>>, takes: spec_fn(Seq<char>) -> bool, n: nat)
    requires
        n <= ws.len(),
        forall|i: int| 0 <= i < ws.len() ==> ws[i] != separator(),
    ensures
        count_upto(n, |i: int| surely_positional(ws, takes, i)) <= scan_state(ws, None, takes, n).0,
        scan_state(ws, None, takes, n).0 <= n - count_upto(n, |i: int| never_positional(ws, takes, i)),
        scan_state(ws, None, takes, n).1 ==> n > 0 && takes_at(ws, takes, n - 1),
        n > 0 && takes_at(ws, takes, n - 1) && !takes_at(ws, takes, n - 2) ==> scan_state(ws, None, takes, n).1,
    decreases n,
{
    if n > 0 {
        lemma_scan_bounds(ws, takes, (n - 1) as nat);
        if n >= 2 {
            lemma_scan_bounds(ws, takes, (n - 2) as nat);
        }
        let i = n - 1;
        assert(ws[i] != separator());
    }
}

/// The positionals the scan counts, with no bare `--` among the words: an
/// option token (a word starting with `-`) is never counted, nor an empty
/// word, nor the word right after a value-taking option token (unless that
/// token is itself the value of the one before); and every other non-empty
/// word that does not follow a value-taking option token is counted. No
/// `--` means no switch to positional-only.
pub proof fn lemma_scan_counts(ws: Seq<Seq<char>>, takes: spec_fn(Seq<char>) -> bool)
    requires
        forall|i: int| 0 <= i < ws.len() ==> ws[i] != separator(),
    ensures
        count_upto(ws.len(), |i: int| surely_positional(ws, takes, i)) <= scan_result(ws, takes).0,
        scan_result(ws, takes).0 <= ws.len() - count_upto(ws.len(), |i: int| never_positional(ws, takes, i)),
        !scan_result(ws, takes).1,
{
    lemma_first_separator_none(ws, ws.len());
    lemma_scan_bounds(ws, takes, ws.len());
}

pub proof fn lemma_first_separator_none(ws: Seq<Seq<char>>, n: nat)
    requires
        n <= ws.len(),
        forall|i: int| 0 <= i < ws.len() ==> ws[i] != separator(),
    ensures
        first_separator(ws, n) is None,
    decreases n,
{
    if n > 0 {
        lemma_first_separator_none(ws, (n - 1) as nat);
    }
}

} // verus!
