//! Character-level helpers shared by the rest of the library.

use vstd::prelude::*;

verus! {

broadcast use vstd::string::group_string_axioms;

/// The characters of a string slice, in order.
pub fn str_chars(s: &str) -> (v: Vec<char>)
    ensures
        v@ == s@,
{
    let mut v: Vec<char> = Vec::new();
    for c in it: s.chars()
        invariant
            it.seq() == s@,
            v@ == it.seq().take(it.index() as int),
    {
        v.push(c);
    }
    v
}

/// Appends one character to a string (`String::push`).
#[verifier::external_body]
pub(crate) fn push_char(s: &mut String, c: char)
    ensures
        final(s)@ == old(s)@.push(c),
{
    s.push(c);
}

/// Appends a string slice to a string.
pub fn push_str(s: &mut String, t: &str)
    ensures
        final(s)@ == old(s)@ + t@,
{
    s.append(t);
}

/// Appends a run of characters to a string.
pub fn push_chars(s: &mut String, t: &[char])
    ensures
        final(s)@ == old(s)@ + t@,
{
    let ghost start = s@;
    let mut i: usize = 0;
    while i < t.len()
        invariant
            i <= t.len(),
            s@ == start + t@.take(i as int),
        decreases t.len() - i,
    {
        push_char(s, t[i]);
        assert(t@.take(i + 1) == t@.take(i as int).push(t@[i as int]));
        i = i + 1;
    }
    assert(t@.take(t.len() as int) == t@);
}

/// A string holding exactly the given characters.
pub fn string_of(t: &[char]) -> (s: String)
    ensures
        s@ == t@,
{
    let mut s = String::new();
    push_chars(&mut s, t);
    s
}

/// Whether two runs of characters are equal.
pub fn chars_eq(a: &[char], b: &[char]) -> (r: bool)
    ensures
        r == (a@ == b@),
{
    if a.len() != b.len() {
        return false;
    }
    let mut i: usize = 0;
    while i < a.len()
        invariant
            a.len() == b.len(),
            i <= a.len(),
            a@.take(i as int) == b@.take(i as int),
        decreases a.len() - i,
    {
        if a[i] != b[i] {
            assert(a@[i as int] != b@[i as int]);
            return false;
        }
        assert(a@.take(i + 1) == a@.take(i as int).push(a@[i as int]));
        assert(b@.take(i + 1) == b@.take(i as int).push(b@[i as int]));
        i = i + 1;
    }
    assert(a@.take(a.len() as int) == a@);
    assert(b@.take(b.len() as int) == b@);
    true
}

/// `s` begins with `prefix`.
pub open spec fn has_prefix<T>(s: Seq<T>, prefix: Seq<T>) -> bool {
    prefix.len() <= s.len() && s.take(prefix.len() as int) == prefix
}

/// `s` ends with `suffix`.
pub open spec fn has_suffix<T>(s: Seq<T>, suffix: Seq<T>) -> bool {
    suffix.len() <= s.len() && s.skip(s.len() - suffix.len()) == suffix
}

/// Whether `s` begins with `prefix`.
pub fn starts_with(s: &[char], prefix: &[char]) -> (r: bool)
    ensures
        r == has_prefix(s@, prefix@),
{
    if prefix.len() > s.len() {
        return false;
    }
    let mut i: usize = 0;
    while i < prefix.len()
        invariant
            prefix.len() <= s.len(),
            i <= prefix.len(),
            s@.take(i as int) == prefix@.take(i as int),
        decreases prefix.len() - i,
    {
        if s[i] != prefix[i] {
            assert(s@.take(prefix.len() as int)[i as int] != prefix@[i as int]);
            return false;
        }
        assert(s@.take(i + 1) == s@.take(i as int).push(s@[i as int]));
        assert(prefix@.take(i + 1) == prefix@.take(i as int).push(prefix@[i as int]));
        i = i + 1;
    }
    assert(prefix@.take(prefix.len() as int) == prefix@);
    true
}

/// Whether `s` holds the character `c`.
pub fn contains_char(s: &[char], c: char) -> (r: bool)
    ensures
        r == s@.contains(c),
{
    let mut i: usize = 0;
    while i < s.len()
        invariant
            i <= s.len(),
            forall|j: int| 0 <= j < i ==> s@[j] != c,
        decreases s.len() - i,
    {
        if s[i] == c {
            return true;
        }
        i = i + 1;
    }
    false
}

} // verus!

verus! {

/// Length of the first line of `s`: the index of the first `\n`, or the
/// whole length when there is none.
pub open spec fn line_end(s: Seq<char>) -> int
    decreases s.len(),
{
    if s.len() == 0 {
        0
    } else if s[0] == '\n' {
        0
    } else {
        1 + line_end(s.drop_first())
    }
}

/// A line without its `\r`, when it ended in `\r\n`.
pub open spec fn strip_cr(l: Seq<char>) -> Seq<char> {
    if l.len() > 0 && l.last() == '\r' {
        l.drop_last()
    } else {
        l
    }
}

pub proof fn lemma_line_end(t: Seq<char>, j: int)
    requires
        0 <= j <= t.len(),
        forall|x: int| 0 <= x < j ==> t[x] != '\n',
        j == t.len() || t[j] == '\n',
    ensures
        line_end(t) == j,
    decreases t.len(),
{
    if t.len() > 0 && j > 0 {
        lemma_line_end(t.drop_first(), j - 1);
    }
}

pub proof fn lemma_line_end_bounds(t: Seq<char>)
    ensures
        0 <= line_end(t) <= t.len(),
        forall|x: int| 0 <= x < line_end(t) ==> t[x] != '\n',
        line_end(t) == t.len() || t[line_end(t)] == '\n',
    decreases t.len(),
{
    if t.len() > 0 && t[0] != '\n' {
        lemma_line_end_bounds(t.drop_first());
        assert forall|x: int| 0 <= x < line_end(t) implies t[x] != '\n' by {
            if x > 0 {
                assert(t[x] == t.drop_first()[x - 1]);
            }
        }
    }
}

/// The lines of a text, as `str::lines` yields them: split at `\n`, a
/// `\r` before the `\n` dropped, no empty line after a final `\n`.
pub open spec fn lines_of(s: Seq<char>) -> Seq<Seq<char>>
    decreases s.len(),
{
    if s.len() == 0 {
        seq![]
    } else {
        let k = line_end(s);
        if k >= s.len() || k < 0 {
            seq![s]
        } else {
            seq![strip_cr(s.take(k))] + lines_of(s.skip(k + 1))
        }
    }
}

/// The views of a vector of character runs.
pub open spec fn views_of(v: Seq<Vec<char>>) -> Seq<Seq<char>> {
    v.map_values(|x: Vec<char>| x@)
}

/// Splits a text into lines with the semantics of `str::lines`.
pub fn split_lines(s: &[char]) -> (r: Vec<Vec<char>>)
    ensures
        views_of(r@) == lines_of(s@),
{
    let mut out: Vec<Vec<char>> = Vec::new();
    let mut buf: Vec<char> = Vec::new();
    let mut pos: usize = 0;
    let mut i: usize = 0;
    assert(s@.skip(0) == s@);
    assert(views_of(out@) == Seq::<Seq<char>>::empty());
    while i < s.len()
        invariant
            pos <= i <= s.len(),
            buf@ == s@.subrange(pos as int, i as int),
            forall|x: int| pos <= x < i ==> s@[x] != '\n',
            views_of(out@) + lines_of(s@.skip(pos as int)) == lines_of(s@),
        decreases s.len() - i,
    {
        if s[i] == '\n' {
            let ghost t = s@.skip(pos as int);
            proof {
                lemma_line_end(t, i - pos);
                assert(t.take(i - pos) == buf@);
                assert(t.skip(i - pos + 1) == s@.skip(i + 1));
            }
            let mut line = buf;
            if line.len() > 0 && line[line.len() - 1] == '\r' {
                line.pop();
            }
            assert(line@ == strip_cr(buf@));
            let ghost before = views_of(out@);
            out.push(line);
            assert(views_of(out@) == before.push(strip_cr(buf@)));
            assert(views_of(out@) + lines_of(s@.skip(i + 1)) == lines_of(s@)) by {
                assert(before.push(strip_cr(buf@)) + lines_of(s@.skip(i + 1)) == before + (seq![strip_cr(t.take(i - pos))] + lines_of(t.skip(i - pos + 1))));
            }
            buf = Vec::new();
            pos = i + 1;
        } else {
            buf.push(s[i]);
        }
        i = i + 1;
    }
    let ghost t = s@.skip(pos as int);
    if pos < s.len() {
        proof {
            lemma_line_end(t, t.len() as int);
            assert(buf@ == t);
        }
        let ghost before = views_of(out@);
        out.push(buf);
        assert(views_of(out@) == before.push(t));
        assert(views_of(out@) == lines_of(s@)) by {
            assert(lines_of(t) == seq![t]);
            assert(before.push(t) == before + seq![t]);
        }
    } else {
        assert(t.len() == 0);
        assert(views_of(out@) == views_of(out@) + lines_of(t));
    }
    out
}

} // verus!

verus! {

/// The text whose lines are `ls`, each followed by `\n`.
pub open spec fn unlines(ls: Seq<Seq<char>>) -> Seq<char>
    decreases ls.len(),
{
    if ls.len() == 0 {
        seq![]
    } else {
        unlines(ls.drop_last()) + ls.last() + seq!['\n']
    }
}

pub proof fn lemma_lines_of_append(a: Seq<char>, b: Seq<char>)
    requires
        a.len() == 0 || a.last() == '\n',
    ensures
        lines_of(a + b) == lines_of(a) + lines_of(b),
    decreases a.len(),
{
    if a.len() == 0 {
        assert(a + b == b);
        assert(lines_of(a) == Seq::<Seq<char>>::empty());
        assert(Seq::<Seq<char>>::empty() + lines_of(b) == lines_of(b));
    } else {
        lemma_line_end_bounds(a);
        let k = line_end(a);
        if k == a.len() {
            assert(a[a.len() - 1] != '\n');
        }
        assert(k < a.len());
        lemma_line_end(a + b, k);
        assert((a + b).take(k) == a.take(k));
        assert((a + b).skip(k + 1) == a.skip(k + 1) + b);
        let rest = a.skip(k + 1);
        if rest.len() > 0 {
            assert(rest.last() == a.last());
        }
        lemma_lines_of_append(rest, b);
        assert(lines_of(a + b) == seq![strip_cr(a.take(k))] + lines_of(rest + b));
        assert(lines_of(a) == seq![strip_cr(a.take(k))] + lines_of(rest));
    }
}

pub proof fn lemma_lines_of_one(l: Seq<char>)
    requires
        !l.contains('\n'),
    ensures
        lines_of(l + seq!['\n']) == seq![strip_cr(l)],
{
    let t = l + seq!['\n'];
    assert forall|x: int| 0 <= x < l.len() implies t[x] != '\n' by {
        if t[x] == '\n' {
            assert(l[x] == '\n');
        }
    }
    lemma_line_end(t, l.len() as int);
    assert(t.take(l.len() as int) == l);
    assert(t.skip(l.len() as int + 1).len() == 0);
    assert(lines_of(t.skip(l.len() as int + 1)) == Seq::<Seq<char>>::empty());
}

/// Reading back the lines of `unlines(ls)` gives `ls`, except that a line
/// ending in `\r` loses it.
pub proof fn lemma_lines_of_unlines(ls: Seq<Seq<char>>)
    requires
        forall|i: int| 0 <= i < ls.len() ==> !(#[trigger] ls[i]).contains('\n'),
    ensures
        lines_of(unlines(ls)) == ls.map_values(|l: Seq<char>| strip_cr(l)),
    decreases ls.len(),
{
    if ls.len() == 0 {
        assert(lines_of(unlines(ls)) == Seq::<Seq<char>>::empty());
        assert(ls.map_values(|l: Seq<char>| strip_cr(l)) =~= Seq::<Seq<char>>::empty());
    } else {
        let init = ls.drop_last();
        assert forall|i: int| 0 <= i < init.len() implies !(#[trigger] init[i]).contains('\n') by {
            assert(init[i] == ls[i]);
        }
        lemma_lines_of_unlines(init);
        let a = unlines(init);
        if a.len() > 0 {
            let pa = unlines(init.drop_last()) + init.last();
            assert(a == pa + seq!['\n']);
            assert(a.last() == '\n');
        }
        assert(unlines(ls) == a + (ls.last() + seq!['\n']));
        lemma_lines_of_append(a, ls.last() + seq!['\n']);
        assert(!ls[ls.len() - 1].contains('\n'));
        lemma_lines_of_one(ls.last());
        assert(ls.map_values(|l: Seq<char>| strip_cr(l)) =~= init.map_values(|l: Seq<char>| strip_cr(l)).push(
            strip_cr(ls.last()),
        ));
    }
}

} // verus!

verus! {

/// Position `i` holds `c` and no earlier position does.
pub open spec fn first_at(s: Seq<char>, c: char, i: int) -> bool {
    0 <= i < s.len() && s[i] == c && forall|j: int| 0 <= j < i ==> s[j] != c
}

/// Index of the first occurrence of `c` in `s`, if any.
pub open spec fn index_of_char(s: Seq<char>, c: char) -> Option<int> {
    if s.contains(c) {
        Some(choose|i: int| first_at(s, c, i))
    } else {
        None
    }
}

pub proof fn lemma_index_of_char(s: Seq<char>, c: char, i: int)
    requires
        first_at(s, c, i),
    ensures
        index_of_char(s, c) == Some(i),
{
    assert(s.contains(c));
    let k = choose|k: int| first_at(s, c, k);
    if k < i {
        assert(s[k] != c);
    }
    if k > i {
        assert(s[i] != c);
    }
}

/// When `s` holds `c`, `index_of_char` gives its first position.
pub proof fn lemma_index_of_char_some(s: Seq<char>, c: char)
    requires
        s.contains(c),
    ensures
        index_of_char(s, c) matches Some(i) && first_at(s, c, i),
{
    let k = choose|k: int| 0 <= k < s.len() && s[k] == c;
    assert(exists|i: int| first_at(s, c, i)) by {
        lemma_least_position(s, c, k);
    }
}

proof fn lemma_least_position(s: Seq<char>, c: char, k: int)
    requires
        0 <= k < s.len(),
        s[k] == c,
    ensures
        exists|i: int| first_at(s, c, i),
    decreases k,
{
    if exists|j: int| 0 <= j < k && s[j] == c {
        let j = choose|j: int| 0 <= j < k && s[j] == c;
        lemma_least_position(s, c, j);
    } else {
        assert(first_at(s, c, k));
    }
}

/// Index of the first `c` in `s`.
pub fn find_char(s: &[char], c: char) -> (r: Option<usize>)
    ensures
        match r {
            Some(i) => i < s.len() && first_at(s@, c, i as int) && index_of_char(s@, c) == Some(i as int),
            None => !s@.contains(c) && index_of_char(s@, c) is None,
        },
{
    let mut i: usize = 0;
    while i < s.len()
        invariant
            i <= s.len(),
            forall|j: int| 0 <= j < i ==> s@[j] != c,
        decreases s.len() - i,
    {
        if s[i] == c {
            proof {
                lemma_index_of_char(s@, c, i as int);
            }
            return Some(i);
        }
        i = i + 1;
    }
    None
}

/// A copy of `s[from..to]`.
pub fn slice_chars(s: &[char], from: usize, to: usize) -> (r: Vec<char>)
    requires
        from <= to <= s.len(),
    ensures
        r@ == s@.subrange(from as int, to as int),
{
    let mut r: Vec<char> = Vec::new();
    let mut i = from;
    while i < to
        invariant
            from <= i <= to <= s.len(),
            r@ == s@.subrange(from as int, i as int),
        decreases to - i,
    {
        r.push(s[i]);
        assert(s@.subrange(from as int, i + 1) == s@.subrange(from as int, i as int).push(s@[i as int]));
        i = i + 1;
    }
    r
}

/// Whether the characters equal those of the literal `lit`.
pub fn is_lit(v: &[char], lit: &str) -> (r: bool)
    ensures
        r == (v@ == lit@),
{
    let l = str_chars(lit);
    chars_eq(v, &l)
}

/// A copy of a vector of strings.
pub fn clone_strings(v: &Vec<String>) -> (r: Vec<String>)
    ensures
        r@.map_values(|s: String| s@) == v@.map_values(|s: String| s@),
{
    let mut r: Vec<String> = Vec::new();
    let mut i: usize = 0;
    while i < v.len()
        invariant
            i <= v.len(),
            r@.map_values(|s: String| s@) == v@.map_values(|s: String| s@).take(i as int),
        decreases v.len() - i,
    {
        let s = v[i].clone();
        let ghost before = r@;
        r.push(s);
        assert(r@.map_values(|s: String| s@) =~= before.map_values(|s: String| s@).push(v@[i as int]@));
        assert(v@.map_values(|s: String| s@).take(i + 1) =~= v@.map_values(|s: String| s@).take(i as int).push(v@[i as int]@));
        i = i + 1;
    }
    assert(v@.map_values(|s: String| s@).take(v.len() as int) == v@.map_values(|s: String| s@));
    r
}

} // verus!

verus! {

/// Whether `c` is white space in the sense of `char::is_whitespace` (the
/// Unicode `White_Space` property).
pub open spec fn is_space(c: char) -> bool {
    let u = c as u32;
    (9 <= u && u <= 13) || u == 32 || u == 0x85 || u == 0xA0 || u == 0x1680 || (0x2000 <= u && u
        <= 0x200A) || u == 0x2028 || u == 0x2029 || u == 0x202F || u == 0x205F || u == 0x3000
}

pub fn is_space_exec(c: char) -> (r: bool)
    ensures
        r == is_space(c),
{
    let u = c as u32;
    (9 <= u && u <= 13) || u == 32 || u == 0x85 || u == 0xA0 || u == 0x1680 || (0x2000 <= u && u
        <= 0x200A) || u == 0x2028 || u == 0x2029 || u == 0x202F || u == 0x205F || u == 0x3000
}

/// `t` without its leading white space.
pub open spec fn trim_start(t: Seq<char>) -> Seq<char>
    decreases t.len(),
{
    if t.len() > 0 && is_space(t[0]) {
        trim_start(t.drop_first())
    } else {
        t
    }
}

/// `t` without its trailing white space.
pub open spec fn trim_end(t: Seq<char>) -> Seq<char>
    decreases t.len(),
{
    if t.len() > 0 && is_space(t.last()) {
        trim_end(t.drop_last())
    } else {
        t
    }
}

/// `t` without leading and trailing white space (`str::trim`).
pub open spec fn trim(t: Seq<char>) -> Seq<char> {
    trim_end(trim_start(t))
}

proof fn lemma_trim_start_at(t: Seq<char>, i: int)
    requires
        0 <= i <= t.len(),
        forall|j: int| 0 <= j < i ==> is_space(#[trigger] t[j]),
    ensures
        trim_start(t) == trim_start(t.skip(i)),
    decreases i,
{
    if i > 0 {
        assert(t.drop_first().skip(i - 1) == t.skip(i));
        assert forall|j: int| 0 <= j < i - 1 implies is_space(#[trigger] t.drop_first()[j]) by {
            assert(t.drop_first()[j] == t[j + 1]);
        }
        lemma_trim_start_at(t.drop_first(), i - 1);
    } else {
        assert(t.skip(0) == t);
    }
}

proof fn lemma_trim_end_at(t: Seq<char>, i: int)
    requires
        0 <= i <= t.len(),
        forall|j: int| i <= j < t.len() ==> is_space(#[trigger] t[j]),
    ensures
        trim_end(t) == trim_end(t.take(i)),
    decreases t.len() - i,
{
    if i < t.len() {
        assert(t.drop_last().take(i) == t.take(i));
        assert forall|j: int| i <= j < t.drop_last().len() implies is_space(#[trigger] t.drop_last()[j]) by {
            assert(t.drop_last()[j] == t[j]);
        }
        lemma_trim_end_at(t.drop_last(), i);
    } else {
        assert(t.take(i) == t);
    }
}

/// `str::trim` on a run of characters.
pub fn trim_exec(t: &[char]) -> (r: Vec<char>)
    ensures
        r@ == trim(t@),
{
    let mut a: usize = 0;
    while a < t.len() && is_space_exec(t[a])
        invariant
            a <= t.len(),
            forall|j: int| 0 <= j < a ==> is_space(#[trigger] t@[j]),
        decreases t.len() - a,
    {
        a = a + 1;
    }
    proof {
        lemma_trim_start_at(t@, a as int);
    }
    let mut b: usize = t.len();
    while b > a && is_space_exec(t[b - 1])
        invariant
            a <= b <= t.len(),
            forall|j: int| b <= j < t.len() ==> is_space(#[trigger] t@[j]),
        decreases b - a,
    {
        b = b - 1;
    }
    let ghost s = t@.skip(a as int);
    proof {
        if a < t.len() {
            assert(!is_space(s[0]));
        }
        assert(trim_start(s) == s);
        assert forall|j: int| b - a <= j < s.len() implies is_space(#[trigger] s[j]) by {
            assert(s[j] == t@[j + a]);
        }
        lemma_trim_end_at(s, b - a);
        let u = s.take(b - a);
        if b > a {
            assert(u.last() == t@[b - 1]);
        }
        assert(trim_end(u) == u);
        assert(u == t@.subrange(a as int, b as int));
    }
    slice_chars(t, a, b)
}

/// `needle` occurs in `hay` at position `i`.
pub open spec fn occurs_at<T>(hay: Seq<T>, needle: Seq<T>, i: int) -> bool {
    0 <= i && i + needle.len() <= hay.len() && hay.subrange(i, i + needle.len()) == needle
}

/// The position of the first occurrence of `needle` in `hay`.
pub open spec fn first_occurrence<T>(hay: Seq<T>, needle: Seq<T>) -> Option<int> {
    if exists|i: int| occurs_at(hay, needle, i) {
        Some(choose|i: int| occurs_at(hay, needle, i) && forall|j: int| 0 <= j < i ==> !occurs_at(hay, needle, j))
    } else {
        None
    }
}

pub proof fn lemma_first_occurrence<T>(hay: Seq<T>, needle: Seq<T>, i: int)
    requires
        occurs_at(hay, needle, i),
        forall|j: int| 0 <= j < i ==> !occurs_at(hay, needle, j),
    ensures
        first_occurrence(hay, needle) == Some(i),
{
    let m = choose|m: int| occurs_at(hay, needle, m) && forall|j: int| 0 <= j < m ==> !occurs_at(hay, needle, j);
    if m < i {
        assert(!occurs_at(hay, needle, m));
    }
    if m > i {
        assert(!occurs_at(hay, needle, i));
    }
}

fn chars_occur_at(hay: &[char], needle: &[char], i: usize) -> (r: bool)
    requires
        i + needle.len() <= hay.len(),
    ensures
        r == occurs_at(hay@, needle@, i as int),
{
    let mut k: usize = 0;
    while k < needle.len()
        invariant
            i + needle.len() <= hay.len(),
            k <= needle.len(),
            hay@.subrange(i as int, i + k) == needle@.take(k as int),
        decreases needle.len() - k,
    {
        if hay[i + k] != needle[k] {
            assert(hay@.subrange(i as int, i + needle.len())[k as int] != needle@[k as int]);
            return false;
        }
        assert(hay@.subrange(i as int, i + k + 1) == hay@.subrange(i as int, i + k).push(hay@[i + k]));
        assert(needle@.take(k + 1) == needle@.take(k as int).push(needle@[k as int]));
        k = k + 1;
    }
    assert(needle@.take(needle.len() as int) == needle@);
    true
}

/// Position of the first occurrence of `needle` in `hay`, searching from `from`.
pub fn find_chars_from(hay: &[char], needle: &[char], from: usize) -> (r: Option<usize>)
    requires
        from <= hay.len(),
    ensures
        match r {
            Some(i) => from <= i && occurs_at(hay@, needle@, i as int) && forall|j: int|
                from <= j < i ==> !occurs_at(hay@, needle@, j),
            None => forall|j: int| from <= j ==> !occurs_at(hay@, needle@, j),
        },
{
    if needle.len() > hay.len() {
        return None;
    }
    let last = hay.len() - needle.len();
    if from > last {
        return None;
    }
    let mut i: usize = from;
    loop
        invariant
            from <= i <= last,
            last == hay.len() - needle.len(),
            forall|j: int| from <= j < i ==> !occurs_at(hay@, needle@, j),
        decreases last - i,
    {
        if chars_occur_at(hay, needle, i) {
            return Some(i);
        }
        if i == last {
            return None;
        }
        i = i + 1;
    }
}

/// Position of the first occurrence of `needle` in `hay`.
pub fn find_chars(hay: &[char], needle: &[char]) -> (r: Option<usize>)
    ensures
        match r {
            Some(i) => occurs_at(hay@, needle@, i as int) && first_occurrence(hay@, needle@) == Some(
                i as int,
            ),
            None => first_occurrence(hay@, needle@) is None,
        },
{
    let r = find_chars_from(hay, needle, 0);
    match r {
        Some(i) => {
            proof {
                lemma_first_occurrence(hay@, needle@, i as int);
            }
        },
        None => {},
    }
    r
}

} // verus!
