//! Plain scans of project files: file names, quoted call arguments, test
//! suites in PHPUnit configuration, and docblock tags.

use vstd::prelude::*;
use vstd::utf8::{valid_utf8, decode_utf8, encode_utf8};
use crate::text::{
    find_chars_from, first_occurrence,
    str_chars, string_of, starts_with, has_prefix, has_suffix, is_lit, contains_char, slice_chars,
    occurs_at, push_str, push_chars,
};
use crate::bytes::{find_bytes_in, utf8_text, is_quote};
use crate::sorted::{sorted_set, sorted_list, strs_of, sorted_set_exec, sorted_list_exec};

verus! {

broadcast use vstd::string::group_string_axioms;

// --- file names --------------------------------------------------------------

/// Directories never worth descending into: hidden ones, `vendor`,
/// `node_modules`.
pub open spec fn skippable_dir(name: Seq<char>) -> bool {
    (name.len() > 0 && name[0] == '.') || name == "vendor"@ || name == "node_modules"@
}

/// Whether a directory is skipped when scanning for PHP files.
pub fn is_skippable_dir(name: &str) -> (r: bool)
    ensures
        r == skippable_dir(name@),
{
    let c = str_chars(name);
    (c.len() > 0 && c[0] == '.') || is_lit(&c, "vendor") || is_lit(&c, "node_modules")
}

/// A file name whose extension is `php` (`foo.php`, not `.php`).
pub open spec fn php_file(name: Seq<char>) -> bool {
    has_suffix(name, ".php"@) && name.len() > ".php"@.len()
}

/// Whether a file name has the extension `php`.
pub fn is_php_file(name: &str) -> (r: bool)
    ensures
        r == php_file(name@),
{
    let c = str_chars(name);
    let ext = str_chars(".php");
    c.len() > ext.len() && ends_with_chars(&c, &ext)
}

fn ends_with_chars(s: &[char], suffix: &[char]) -> (r: bool)
    ensures
        r == has_suffix(s@, suffix@),
{
    if suffix.len() > s.len() {
        return false;
    }
    let tail = slice_chars(s, s.len() - suffix.len(), s.len());
    assert(tail@ == s@.skip(s.len() - suffix.len()));
    crate::text::chars_eq(&tail, suffix)
}

/// The stem of a PHP file name (the name without `.php`).
pub open spec fn php_stem(name: Seq<char>) -> Seq<char> {
    name.take(name.len() - ".php"@.len())
}

/// The stems of the PHP file names, in order.
pub open spec fn stems_of(names: Seq<Seq<char>>) -> Seq<Seq<char>>
    decreases names.len(),
{
    if names.len() == 0 {
        seq![]
    } else if php_file(names.last()) {
        stems_of(names.drop_last()).push(php_stem(names.last()))
    } else {
        stems_of(names.drop_last())
    }
}

/// Class names from file names: the sorted set of the stems of PHP files.
pub fn class_stems(names: &Vec<String>) -> (r: Vec<String>)
    ensures
        strs_of(r@) == sorted_set(stems_of(strs_of(names@))),
{
    let ghost ns = strs_of(names@);
    let mut stems: Vec<String> = Vec::new();
    assert(strs_of(stems@) =~= Seq::<Seq<char>>::empty());
    let mut i: usize = 0;
    while i < names.len()
        invariant
            i <= names.len(),
            ns == strs_of(names@),
            strs_of(stems@) == stems_of(ns.take(i as int)),
        decreases names.len() - i,
    {
        assert(ns.take(i + 1).drop_last() == ns.take(i as int));
        assert(ns.take(i + 1).last() == names@[i as int]@);
        if is_php_file(names[i].as_str()) {
            let c = str_chars(names[i].as_str());
            let ext = str_chars(".php");
            let stem = slice_chars(&c, 0, c.len() - ext.len());
            let ghost before = stems@;
            stems.push(string_of(&stem));
            assert(strs_of(stems@) == strs_of(before).push(stem@));
        }
        i = i + 1;
    }
    assert(ns.take(names.len() as int) == ns);
    sorted_set_exec(&stems)
}

/// Migration paths from the names in `database/migrations`: each name
/// ending in `.php`, under that directory.
pub open spec fn migrations_of(names: Seq<Seq<char>>) -> Seq<Seq<char>>
    decreases names.len(),
{
    if names.len() == 0 {
        seq![]
    } else if has_suffix(names.last(), ".php"@) {
        migrations_of(names.drop_last()).push("database/migrations/"@ + names.last())
    } else {
        migrations_of(names.drop_last())
    }
}

/// The migration paths, sorted.
pub fn migration_paths(names: &Vec<String>) -> (r: Vec<String>)
    ensures
        strs_of(r@) == sorted_list(migrations_of(strs_of(names@))),
{
    let ghost ns = strs_of(names@);
    let mut paths: Vec<String> = Vec::new();
    assert(strs_of(paths@) =~= Seq::<Seq<char>>::empty());
    let ext = str_chars(".php");
    let mut i: usize = 0;
    while i < names.len()
        invariant
            i <= names.len(),
            ns == strs_of(names@),
            ext@ == ".php"@,
            strs_of(paths@) == migrations_of(ns.take(i as int)),
        decreases names.len() - i,
    {
        assert(ns.take(i + 1).drop_last() == ns.take(i as int));
        assert(ns.take(i + 1).last() == names@[i as int]@);
        let c = str_chars(names[i].as_str());
        if ends_with_chars(&c, &ext) {
            let mut p = String::new();
            push_str(&mut p, "database/migrations/");
            push_chars(&mut p, &c);
            let ghost before = paths@;
            paths.push(p);
            assert(strs_of(paths@) == strs_of(before).push("database/migrations/"@ + c@));
        }
        i = i + 1;
    }
    assert(ns.take(names.len() as int) == ns);
    sorted_list_exec(&paths)
}

/// The environment a file name `.env.<name>` stands for: not the example,
/// backup or distribution copies, and no further dot.
pub open spec fn env_of_name(name: Seq<char>) -> Option<Seq<char>> {
    if has_prefix(name, ".env."@) {
        let rest = name.skip(".env."@.len() as int);
        if rest == "example"@ || rest == "backup"@ || rest == "bak"@ || rest == "dist"@ || rest.contains('.') {
            None
        } else {
            Some(rest)
        }
    } else {
        None
    }
}

pub open spec fn envs_of(names: Seq<Seq<char>>) -> Seq<Seq<char>>
    decreases names.len(),
{
    if names.len() == 0 {
        seq![]
    } else {
        match env_of_name(names.last()) {
            Some(e) => envs_of(names.drop_last()).push(e),
            None => envs_of(names.drop_last()),
        }
    }
}

/// Environment names from the names in the project directory, as a sorted
/// set.
pub fn env_names(names: &Vec<String>) -> (r: Vec<String>)
    ensures
        strs_of(r@) == sorted_set(envs_of(strs_of(names@))),
{
    let ghost ns = strs_of(names@);
    let mut envs: Vec<String> = Vec::new();
    assert(strs_of(envs@) =~= Seq::<Seq<char>>::empty());
    let pre = str_chars(".env.");
    let mut i: usize = 0;
    while i < names.len()
        invariant
            i <= names.len(),
            ns == strs_of(names@),
            pre@ == ".env."@,
            strs_of(envs@) == envs_of(ns.take(i as int)),
        decreases names.len() - i,
    {
        assert(ns.take(i + 1).drop_last() == ns.take(i as int));
        assert(ns.take(i + 1).last() == names@[i as int]@);
        let c = str_chars(names[i].as_str());
        if starts_with(&c, &pre) {
            let rest = slice_chars(&c, pre.len(), c.len());
            assert(rest@ == c@.skip(".env."@.len() as int));
            if !(is_lit(&rest, "example") || is_lit(&rest, "backup") || is_lit(&rest, "bak") || is_lit(
                &rest,
                "dist",
            ) || contains_char(&rest, '.')) {
                let ghost before = envs@;
                envs.push(string_of(&rest));
                assert(strs_of(envs@) == strs_of(before).push(rest@));
            }
        }
        i = i + 1;
    }
    assert(ns.take(names.len() as int) == ns);
    sorted_set_exec(&envs)
}

// --- byte scans ----------------------------------------------------------------

/// The first occurrence of `needle` in `src` at or after `from`.
#[verifier::opaque]
pub open spec fn next_at<T>(src: Seq<T>, needle: Seq<T>, from: int) -> Option<int> {
    if exists|i: int| from <= i && occurs_at(src, needle, i) {
        Some(
            choose|i: int|
                from <= i && occurs_at(src, needle, i) && forall|j: int| from <= j < i ==> !occurs_at(src, needle, j),
        )
    } else {
        None
    }
}

pub proof fn lemma_next_at<T>(src: Seq<T>, needle: Seq<T>, from: int, i: int)
    requires
        from <= i && occurs_at(src, needle, i),
        forall|j: int| from <= j < i ==> !occurs_at(src, needle, j),
    ensures
        next_at(src, needle, from) == Some(i),
{
    reveal(next_at);
    let m = choose|m: int|
        from <= m && occurs_at(src, needle, m) && forall|j: int| from <= j < m ==> !occurs_at(src, needle, j);
    if m < i {
        assert(!occurs_at(src, needle, m));
    }
    if m > i {
        assert(!occurs_at(src, needle, i));
    }
}

pub proof fn lemma_next_at_some<T>(src: Seq<T>, needle: Seq<T>, from: int)
    ensures
        next_at(src, needle, from) matches Some(i) ==> from <= i && occurs_at(src, needle, i)
            && i + needle.len() <= src.len(),
{
    reveal(next_at);
    if exists|i: int| from <= i && occurs_at(src, needle, i) {
        let i = choose|i: int| from <= i && occurs_at(src, needle, i);
        lemma_least_at(src, needle, from, i);
    }
}

proof fn lemma_least_at<T>(src: Seq<T>, needle: Seq<T>, from: int, i: int)
    requires
        from <= i && occurs_at(src, needle, i),
    ensures
        exists|m: int| from <= m && occurs_at(src, needle, m) && forall|j: int| from <= j < m ==> !occurs_at(src, needle, j),
    decreases i - from,
{
    if exists|j: int| from <= j < i && occurs_at(src, needle, j) {
        let j = choose|j: int| from <= j < i && occurs_at(src, needle, j);
        lemma_least_at(src, needle, from, j);
    } else {
        assert(from <= i && occurs_at(src, needle, i) && forall|j: int| from <= j < i ==> !occurs_at(src, needle, j));
    }
}

/// The first occurrence of `needle` at or after `from`.
pub fn next_occurrence(src: &[u8], needle: &[u8], from: usize) -> (r: Option<usize>)
    ensures
        match r {
            Some(i) => next_at(src@, needle@, from as int) == Some(i as int) && from <= i && i
                + needle.len() <= src.len(),
            None => next_at(src@, needle@, from as int) is None,
        },
{
    match find_bytes_in(src, needle, from, src.len()) {
        Some(i) => {
            proof {
                lemma_next_at(src@, needle@, from as int, i as int);
            }
            Some(i)
        },
        None => {
            reveal(next_at);
            assert forall|j: int| !(from <= j && occurs_at(src@, needle@, j)) by {}
            None
        },
    }
}

/// An ASCII white-space byte (`u8::is_ascii_whitespace`).
pub open spec fn ascii_space(b: u8) -> bool {
    b == 0x20 || b == 0x09 || b == 0x0A || b == 0x0C || b == 0x0D
}

/// The first position at or after `i` that is not ASCII white space.
pub open spec fn skip_space(src: Seq<u8>, i: int) -> int
    decreases src.len() - i,
{
    if 0 <= i < src.len() && ascii_space(src[i]) {
        skip_space(src, i + 1)
    } else {
        i
    }
}

/// The text of a byte run, when it is valid UTF-8 and not empty.
#[verifier::opaque]
pub open spec fn text_of(b: Seq<u8>) -> Seq<Seq<char>> {
    if valid_utf8(b) && b.len() > 0 {
        seq![decode_utf8(b)]
    } else {
        seq![]
    }
}

/// What a call captures when its argument begins at `i`: the quoted text
/// that follows, after white space.
#[verifier::opaque]
pub open spec fn quoted_at(src: Seq<u8>, i: int) -> Seq<Seq<char>> {
    let j = skip_space(src, i);
    if 0 <= j < src.len() && is_quote(src[j]) {
        match next_at(src, seq![src[j]], j + 1) {
            Some(k) => text_of(src.subrange(j + 1, k)),
            None => seq![],
        }
    } else {
        seq![]
    }
}

/// The quoted first arguments of the calls `needle` in `src` from `from`
/// on: each occurrence, then the next one after it.
pub open spec fn quoted_calls(src: Seq<u8>, needle: Seq<u8>, from: int) -> Seq<Seq<char>>
    decreases src.len() - from,
{
    if needle.len() == 0 || from < 0 || from > src.len() {
        seq![]
    } else {
        match next_at(src, needle, from) {
            Some(pos) => {
                proof {
                    lemma_next_at_some(src, needle, from);
                }
                quoted_at(src, pos + needle.len()) + quoted_calls(src, needle, pos + needle.len())
            },
            None => seq![],
        }
    }
}

fn text_bytes(b: &[u8]) -> (r: Vec<String>)
    ensures
        strs_of(r@) == text_of(b@),
{
    reveal(text_of);
    let mut out: Vec<String> = Vec::new();
    assert(strs_of(out@) =~= Seq::<Seq<char>>::empty());
    if b.len() > 0 {
        match utf8_text(b) {
            Some(s) => {
                out.push(s);
                assert(strs_of(out@) =~= seq![out@[0]@]);
            },
            None => {},
        }
    }
    out
}

fn copy_bytes(src: &[u8], from: usize, to: usize) -> (r: Vec<u8>)
    requires
        from <= to <= src.len(),
    ensures
        r@ == src@.subrange(from as int, to as int),
{
    let mut r: Vec<u8> = Vec::new();
    let mut i = from;
    while i < to
        invariant
            from <= i <= to <= src.len(),
            r@ == src@.subrange(from as int, i as int),
        decreases to - i,
    {
        r.push(src[i]);
        assert(src@.subrange(from as int, i + 1) == src@.subrange(from as int, i as int).push(src@[i as int]));
        i = i + 1;
    }
    r
}

#[verifier::rlimit(40)]
fn quoted_at_exec(src: &[u8], i: usize) -> (r: Vec<String>)
    requires
        i <= src.len(),
    ensures
        strs_of(r@) == quoted_at(src@, i as int),
{
    reveal(quoted_at);
    let mut j = i;
    while j < src.len() && (src[j] == 0x20 || src[j] == 0x09 || src[j] == 0x0A || src[j] == 0x0C
        || src[j] == 0x0D)
        invariant
            i <= j <= src.len(),
            skip_space(src@, i as int) == skip_space(src@, j as int),
        decreases src.len() - j,
    {
        j = j + 1;
    }
    assert(skip_space(src@, i as int) == j);
    if j < src.len() && (src[j] == 0x27 || src[j] == 0x22) {
        let q = [src[j]];
        assert(q@ == seq![src@[j as int]]);
        match next_occurrence(src, &q, j + 1) {
            Some(k) => {
                let b = copy_bytes(src, j + 1, k);
                text_bytes(&b)
            },
            None => {
                let out: Vec<String> = Vec::new();
                assert(strs_of(out@) =~= Seq::<Seq<char>>::empty());
                out
            },
        }
    } else {
        let out: Vec<String> = Vec::new();
        assert(strs_of(out@) =~= Seq::<Seq<char>>::empty());
        out
    }
}

/// The quoted first arguments of the calls `needle` in `src`, in order.
pub fn scan_quoted_calls(src: &[u8], needle: &[u8]) -> (r: Vec<String>)
    requires
        needle.len() > 0,
    ensures
        strs_of(r@) == quoted_calls(src@, needle@, 0),
{
    let mut out: Vec<String> = Vec::new();
    assert(strs_of(out@) =~= Seq::<Seq<char>>::empty());
    let mut from: usize = 0;
    assert(quoted_calls(src@, needle@, 0) == Seq::<Seq<char>>::empty() + quoted_calls(src@, needle@, 0));
    while from <= src.len()
        invariant
            needle.len() > 0,
            from <= src.len() + 1,
            strs_of(out@) + quoted_calls(src@, needle@, from as int) == quoted_calls(src@, needle@, 0),
        decreases src.len() + 1 - from,
    {
        match next_occurrence(src, needle, from) {
            None => {
                assert(quoted_calls(src@, needle@, from as int) == Seq::<Seq<char>>::empty());
                assert(strs_of(out@) + Seq::<Seq<char>>::empty() == strs_of(out@));
                return out;
            },
            Some(pos) => {
                let at = pos + needle.len();
                let got = quoted_at_exec(src, at);
                let ghost before = strs_of(out@);
                let mut k: usize = 0;
                while k < got.len()
                    invariant
                        k <= got.len(),
                        strs_of(out@) == before + strs_of(got@).take(k as int),
                    decreases got.len() - k,
                {
                    let ghost b = out@;
                    out.push(got[k].clone());
                    assert(strs_of(out@) == strs_of(b).push(got@[k as int]@));
                    assert(strs_of(got@).take(k + 1) == strs_of(got@).take(k as int).push(got@[k as int]@));
                    k = k + 1;
                }
                assert(strs_of(got@).take(got.len() as int) == strs_of(got@));
                assert(quoted_calls(src@, needle@, from as int) == quoted_at(src@, at as int) + quoted_calls(
                    src@,
                    needle@,
                    at as int,
                ));
                from = at;
            },
        }
    }
    assert(quoted_calls(src@, needle@, from as int) == Seq::<Seq<char>>::empty());
    assert(strs_of(out@) + Seq::<Seq<char>>::empty() == strs_of(out@));
    out
}


// --- PHPUnit test suites -------------------------------------------------------

/// The `name="..."` of one `<testsuite ...>` tag.
#[verifier::opaque]
pub open spec fn suite_in_tag(tag: Seq<u8>) -> Seq<Seq<char>> {
    let attr = encode_utf8("name=\""@);
    match first_occurrence(tag, attr) {
        Some(np) => {
            let start = np + attr.len();
            match first_occurrence(tag.skip(start), seq![0x22u8]) {
                Some(len) => text_of(tag.subrange(start, start + len)),
                None => seq![],
            }
        },
        None => seq![],
    }
}

/// The name of the `<testsuite ` tag at `at`: the tag runs to the next `>`.
#[verifier::opaque]
pub open spec fn suite_at(src: Seq<u8>, at: int) -> Seq<Seq<char>> {
    let end = match next_at(src, seq![0x3Eu8], at) {
        Some(e) => e,
        None => src.len() as int,
    };
    suite_in_tag(src.subrange(at, end))
}

/// The test suite names in a PHPUnit configuration, from `from` on.
pub open spec fn suites_from(src: Seq<u8>, from: int) -> Seq<Seq<char>>
    decreases src.len() + 1 - from,
{
    if from < 0 || from > src.len() {
        seq![]
    } else {
        match next_at(src, encode_utf8("<testsuite "@), from) {
            Some(at) => {
                proof {
                    lemma_next_at_some(src, encode_utf8("<testsuite "@), from);
                }
                suite_at(src, at) + suites_from(src, at + 1)
            },
            None => seq![],
        }
    }
}

#[verifier::rlimit(80)]
fn suite_in_tag_exec(tag: &[u8]) -> (r: Vec<String>)
    ensures
        strs_of(r@) == suite_in_tag(tag@),
{
    reveal(suite_in_tag);
    let attr = "name=\"".as_bytes();
    match crate::bytes::find_sub(tag, attr) {
        Some(np) => {
            let n = tag.len();
            assert(np + attr@.len() <= n);
            let start = np + attr.len();
            let rest = copy_bytes(tag, start, tag.len());
            assert(rest@ == tag@.skip(start as int));
            let q = [0x22u8];
            assert(q@ == seq![0x22u8]);
            match crate::bytes::find_sub(&rest, &q) {
                Some(len) => {
                    let b = copy_bytes(tag, start, start + len);
                    text_bytes(&b)
                },
                None => {
                    let out: Vec<String> = Vec::new();
                    assert(strs_of(out@) =~= Seq::<Seq<char>>::empty());
                    out
                },
            }
        },
        None => {
            let out: Vec<String> = Vec::new();
            assert(strs_of(out@) =~= Seq::<Seq<char>>::empty());
            out
        },
    }
}

fn append_strings(out: &mut Vec<String>, got: &Vec<String>)
    ensures
        strs_of(final(out)@) == strs_of(old(out)@) + strs_of(got@),
{
    let ghost before = strs_of(out@);
    let mut k: usize = 0;
    while k < got.len()
        invariant
            k <= got.len(),
            strs_of(out@) == before + strs_of(got@).take(k as int),
        decreases got.len() - k,
    {
        let ghost b = out@;
        out.push(got[k].clone());
        assert(strs_of(out@) == strs_of(b).push(got@[k as int]@));
        assert(strs_of(got@).take(k + 1) == strs_of(got@).take(k as int).push(got@[k as int]@));
        k = k + 1;
    }
    assert(strs_of(got@).take(got.len() as int) == strs_of(got@));
}

/// The test suite names of a PHPUnit configuration, in order.
pub fn testsuite_names_in(src: &[u8]) -> (r: Vec<String>)
    ensures
        strs_of(r@) == suites_from(src@, 0),
{
    let needle = "<testsuite ".as_bytes();
    proof {
        reveal_strlit("<testsuite ");
    }
    assert(needle@.len() > 0);
    let close = [0x3Eu8];
    assert(close@ == seq![0x3Eu8]);
    let mut out: Vec<String> = Vec::new();
    assert(strs_of(out@) =~= Seq::<Seq<char>>::empty());
    let mut from: usize = 0;
    assert(suites_from(src@, 0) == Seq::<Seq<char>>::empty() + suites_from(src@, 0));
    while from <= src.len()
        invariant
            needle@ == encode_utf8("<testsuite "@),
            needle@.len() > 0,
            close@ == seq![0x3Eu8],
            from <= src.len() + 1,
            strs_of(out@) + suites_from(src@, from as int) == suites_from(src@, 0),
        decreases src.len() + 1 - from,
    {
        match next_occurrence(src, needle, from) {
            None => {
                assert(suites_from(src@, from as int) == Seq::<Seq<char>>::empty());
                assert(strs_of(out@) + Seq::<Seq<char>>::empty() == strs_of(out@));
                return out;
            },
            Some(at) => {
                let end = match next_occurrence(src, &close, at) {
                    Some(e) => e,
                    None => src.len(),
                };
                let tag = copy_bytes(src, at, end);
                let got = suite_in_tag_exec(&tag);
                assert(strs_of(got@) == suite_at(src@, at as int)) by {
                    reveal(suite_at);
                }
                append_strings(&mut out, &got);
                assert(suites_from(src@, from as int) == suite_at(src@, at as int) + suites_from(
                    src@,
                    at + 1,
                ));
                from = at + 1;
            },
        }
    }
    assert(suites_from(src@, from as int) == Seq::<Seq<char>>::empty());
    assert(strs_of(out@) + Seq::<Seq<char>>::empty() == strs_of(out@));
    out
}

// --- docblock tags -----------------------------------------------------------

/// An ASCII white-space character.
pub open spec fn blank_char(c: char) -> bool {
    c == ' ' || c == '\t' || c == '\n' || c == '\x0C' || c == '\r'
}

/// The first position at or after `i` that is not a space or tab.
pub open spec fn skip_blanks(t: Seq<char>, i: int) -> int
    decreases t.len() - i,
{
    if 0 <= i < t.len() && (t[i] == ' ' || t[i] == '\t') {
        skip_blanks(t, i + 1)
    } else {
        i
    }
}

/// The end of a tag's word starting at `i`: up to white space, `*` or `}`.
pub open spec fn word_end(t: Seq<char>, i: int) -> int
    decreases t.len() - i,
{
    if 0 <= i < t.len() && !blank_char(t[i]) && t[i] != '*' && t[i] != '}' {
        word_end(t, i + 1)
    } else {
        i
    }
}

/// The group named after an `@group` tag whose name would begin at `i`:
/// there must be white space after the tag, and a word.
pub open spec fn group_at(t: Seq<char>, i: int) -> Seq<Seq<char>> {
    let start = skip_blanks(t, i);
    let end = word_end(t, start);
    if 0 <= i < t.len() && blank_char(t[i]) && end > start {
        seq![t.subrange(start, end)]
    } else {
        seq![]
    }
}

/// The `@group` names of a docblock, from `from` on.
pub open spec fn groups_from(t: Seq<char>, from: int) -> Seq<Seq<char>>
    decreases t.len() - from,
{
    if from < 0 || from > t.len() {
        seq![]
    } else {
        match next_at(t, "@group"@, from) {
            Some(pos) => {
                proof {
                    lemma_next_at_some(t, "@group"@, from);
                    reveal_strlit("@group");
                }
                group_at(t, pos + "@group"@.len()) + groups_from(t, pos + "@group"@.len())
            },
            None => seq![],
        }
    }
}

fn next_chars(t: &[char], needle: &[char], from: usize) -> (r: Option<usize>)
    requires
        from <= t.len(),
    ensures
        match r {
            Some(i) => next_at(t@, needle@, from as int) == Some(i as int) && from <= i && i + needle.len()
                <= t.len(),
            None => next_at(t@, needle@, from as int) is None,
        },
{
    match find_chars_from(t, needle, from) {
        Some(i) => {
            proof {
                lemma_next_at(t@, needle@, from as int, i as int);
            }
            Some(i)
        },
        None => {
            reveal(next_at);
            assert forall|j: int| !(from <= j && occurs_at(t@, needle@, j)) by {
                if from <= j && occurs_at(t@, needle@, j) {
                    assert(j + needle.len() <= t.len());
                }
            }
            None
        },
    }
}

fn group_at_exec(t: &[char], i: usize) -> (r: Vec<String>)
    requires
        i <= t.len(),
    ensures
        strs_of(r@) == group_at(t@, i as int),
{
    let mut out: Vec<String> = Vec::new();
    assert(strs_of(out@) =~= Seq::<Seq<char>>::empty());
    let mut start = i;
    while start < t.len() && (t[start] == ' ' || t[start] == '\t')
        invariant
            i <= start <= t.len(),
            skip_blanks(t@, i as int) == skip_blanks(t@, start as int),
        decreases t.len() - start,
    {
        start = start + 1;
    }
    let mut end = start;
    while end < t.len() && !(t[end] == ' ' || t[end] == '\t' || t[end] == '\n' || t[end] == '\x0C'
        || t[end] == '\r') && t[end] != '*' && t[end] != '}'
        invariant
            start <= end <= t.len(),
            word_end(t@, start as int) == word_end(t@, end as int),
        decreases t.len() - end,
    {
        end = end + 1;
    }
    let had_space = i < t.len() && (t[i] == ' ' || t[i] == '\t' || t[i] == '\n' || t[i] == '\x0C'
        || t[i] == '\r');
    if had_space && end > start {
        let w = slice_chars(t, start, end);
        out.push(string_of(&w));
        assert(strs_of(out@) =~= seq![w@]);
    }
    out
}

/// The `@group` names of a docblock, in order.
pub fn collect_group_tags(text: &str) -> (r: Vec<String>)
    ensures
        strs_of(r@) == groups_from(text@, 0),
{
    let t = str_chars(text);
    let needle = str_chars("@group");
    proof {
        reveal_strlit("@group");
    }
    assert(needle.len() == 6);
    let mut out: Vec<String> = Vec::new();
    assert(strs_of(out@) =~= Seq::<Seq<char>>::empty());
    let mut from: usize = 0;
    assert(groups_from(t@, 0) == Seq::<Seq<char>>::empty() + groups_from(t@, 0));
    while from <= t.len()
        invariant
            t@ == text@,
            needle@ == "@group"@,
            needle.len() == 6,
            from <= t.len() + 1,
            strs_of(out@) + groups_from(t@, from as int) == groups_from(t@, 0),
        decreases t.len() + 1 - from,
    {
        match next_chars(&t, &needle, from) {
            None => {
                assert(groups_from(t@, from as int) == Seq::<Seq<char>>::empty());
                assert(strs_of(out@) + Seq::<Seq<char>>::empty() == strs_of(out@));
                return out;
            },
            Some(pos) => {
                let at = pos + needle.len();
                let got = group_at_exec(&t, at);
                append_strings(&mut out, &got);
                assert(groups_from(t@, from as int) == group_at(t@, at as int) + groups_from(t@, at as int));
                from = at;
            },
        }
    }
    assert(groups_from(t@, from as int) == Seq::<Seq<char>>::empty());
    assert(strs_of(out@) + Seq::<Seq<char>>::empty() == strs_of(out@));
    out
}

/// What may follow `@test` for it to be the whole tag: the end, white
/// space, `}` or `*`.
pub open spec fn tag_ends_at(t: Seq<char>, j: int) -> bool {
    j >= t.len() || blank_char(t[j]) || t[j] == '}' || t[j] == '*'
}

/// Whether a docblock holds `@test` as a whole tag, looking from `from`.
pub open spec fn test_tag_from(t: Seq<char>, from: int) -> bool
    decreases t.len() - from,
{
    if from < 0 || from > t.len() {
        false
    } else {
        match next_at(t, "@test"@, from) {
            Some(at) => {
                proof {
                    lemma_next_at_some(t, "@test"@, from);
                    reveal_strlit("@test");
                }
                tag_ends_at(t, at + "@test"@.len()) || test_tag_from(t, at + "@test"@.len())
            },
            None => false,
        }
    }
}

/// Whether a docblock holds `@test` as a whole tag.
pub fn contains_test_tag(text: &str) -> (r: bool)
    ensures
        r == test_tag_from(text@, 0),
{
    let t = str_chars(text);
    let needle = str_chars("@test");
    proof {
        reveal_strlit("@test");
    }
    assert(needle.len() == 5);
    let mut from: usize = 0;
    while from <= t.len()
        invariant
            t@ == text@,
            needle@ == "@test"@,
            needle.len() == 5,
            from <= t.len() + 1,
            test_tag_from(t@, 0) == test_tag_from(t@, from as int),
        decreases t.len() + 1 - from,
    {
        match next_chars(&t, &needle, from) {
            None => {
                return false;
            },
            Some(at) => {
                let j = at + needle.len();
                if j >= t.len() || (t[j] == ' ' || t[j] == '\t' || t[j] == '\n' || t[j] == '\x0C'
                    || t[j] == '\r') || t[j] == '}' || t[j] == '*' {
                    return true;
                }
                from = j;
            },
        }
    }
    false
}

} // verus!
