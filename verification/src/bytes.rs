//! Raw source bytes: UTF-8 decoding, byte search, and the quick test that
//! tells whether a source file defines a given command.

use vstd::prelude::*;
use vstd::utf8::{valid_utf8, decode_utf8, encode_utf8};
use crate::text::{occurs_at, first_occurrence, lemma_first_occurrence};

verus! {

broadcast use vstd::string::group_string_axioms;

/// What `String::from_utf8_lossy` makes of a byte sequence: invalid
/// sequences become U+FFFD.
pub uninterp spec fn lossy_text(bytes: Seq<u8>) -> Seq<char>;

/// `String::from_utf8_lossy`: the text of the bytes, each invalid sequence
/// replaced by U+FFFD. The contract names the result, and states that valid
/// UTF-8 decodes to its characters; how invalid input is replaced is left
/// unsaid.
#[verifier::external_body]
pub(crate) fn utf8_lossy(b: &[u8]) -> (r: String)
    ensures
        r@ == lossy_text(b@),
        valid_utf8(b@) ==> r@ == decode_utf8(b@),
{
    String::from_utf8_lossy(b).into_owned()
}

/// `std::str::from_utf8`: the text of the bytes when they are valid UTF-8.
#[verifier::external_body]
pub(crate) fn utf8_text(b: &[u8]) -> (r: Option<String>)
    ensures
        r is Some <==> valid_utf8(b@),
        r matches Some(s) ==> s@ == decode_utf8(b@),
{
    std::str::from_utf8(b).ok().map(String::from)
}

fn bytes_occur_at(hay: &[u8], needle: &[u8], i: usize) -> (r: bool)
    requires
        i + needle.len() <= hay.len(),
    ensures
        r == occurs_at(hay@, needle@, i as int),
{
    let mut k: usize = 0;
    while k < needle.len()
        invariant
            i + needle.len() <= hay.len(),
            k <= needle.len(),
            hay@.subrange(i as int, i + k) == needle@.take(k as int),
        decreases needle.len() - k,
    {
        if hay[i + k] != needle[k] {
            assert(hay@.subrange(i as int, i + needle.len())[k as int] != needle@[k as int]);
            return false;
        }
        assert(hay@.subrange(i as int, i + k + 1) == hay@.subrange(i as int, i + k).push(hay@[i + k]));
        assert(needle@.take(k + 1) == needle@.take(k as int).push(needle@[k as int]));
        k = k + 1;
    }
    assert(needle@.take(needle.len() as int) == needle@);
    true
}

/// `needle` occurs in `hay` at some `i` with `lo <= i` and ending by `hi`.
pub open spec fn occurs_in<T>(hay: Seq<T>, needle: Seq<T>, lo: int, hi: int) -> bool {
    exists|i: int| lo <= i && i + needle.len() <= hi && occurs_at(hay, needle, i)
}

/// Position of the first occurrence of `needle` in `hay` at or after `from`
/// that ends by `hi`.
pub fn find_bytes_in(hay: &[u8], needle: &[u8], from: usize, hi: usize) -> (r: Option<usize>)
    requires
        hi <= hay.len(),
    ensures
        match r {
            Some(i) => from <= i && i + needle.len() <= hi && occurs_at(hay@, needle@, i as int)
                && forall|j: int| from <= j < i ==> !occurs_at(hay@, needle@, j),
            None => forall|j: int| from <= j && j + needle.len() <= hi ==> !occurs_at(hay@, needle@, j),
        },
{
    if needle.len() > hi {
        return None;
    }
    let last = hi - needle.len();
    if from > last {
        return None;
    }
    let mut i: usize = from;
    loop
        invariant
            from <= i <= last,
            last == hi - needle.len(),
            hi <= hay.len(),
            forall|j: int| from <= j < i ==> !occurs_at(hay@, needle@, j),
        decreases last - i,
    {
        if bytes_occur_at(hay, needle, i) {
            return Some(i);
        }
        if i == last {
            return None;
        }
        i = i + 1;
    }
}

/// Position of the first occurrence of `needle` in `hay`.
pub fn find_sub(hay: &[u8], needle: &[u8]) -> (r: Option<usize>)
    ensures
        match r {
            Some(i) => occurs_at(hay@, needle@, i as int) && first_occurrence(hay@, needle@) == Some(
                i as int,
            ),
            None => first_occurrence(hay@, needle@) is None,
        },
{
    let r = find_bytes_in(hay, needle, 0, hay.len());
    match r {
        Some(i) => {
            proof {
                lemma_first_occurrence(hay@, needle@, i as int);
            }
        },
        None => {},
    }
    r
}

/// A quote byte (`'` or `"`).
pub open spec fn is_quote(b: u8) -> bool {
    b == 0x27 || b == 0x22
}

/// A byte that may follow a command name in its definition: a quote, a
/// space, `{`, a newline or a tab.
pub open spec fn ends_name(b: u8) -> bool {
    is_quote(b) || b == 0x20 || b == 0x7B || b == 0x0A || b == 0x09
}

/// Where a command definition is looked for: the 300 bytes before `at`.
pub open spec fn window_start(at: int) -> int {
    if at >= 300 {
        at - 300
    } else {
        0
    }
}

/// One of the markers of a command definition (`signature`, `$name`,
/// `command(`, `AsCommand`) occurs in the 300 bytes before `at`.
pub open spec fn marked(src: Seq<u8>, at: int) -> bool {
    let lo = window_start(at);
    occurs_in(src, encode_utf8("signature"@), lo, at) || occurs_in(src, encode_utf8("$name"@), lo, at)
        || occurs_in(src, encode_utf8("command("@), lo, at) || occurs_in(
        src,
        encode_utf8("AsCommand"@),
        lo,
        at,
    )
}

/// The command name occurs quoted at `at`, near a definition marker.
pub open spec fn defined_at(src: Seq<u8>, name: Seq<u8>, at: int) -> bool {
    &&& occurs_at(src, name, at)
    &&& at >= 1 && is_quote(src[at - 1])
    &&& at + name.len() < src.len() && ends_name(src[at + name.len()])
    &&& marked(src, at)
}

/// Whether a source file defines the command `cmd`: its name occurs
/// quoted somewhere within 300 bytes after `signature`, `$name`, `command(`
/// or `AsCommand`.
pub open spec fn defines_command_spec(src: Seq<u8>, cmd: Seq<char>) -> bool {
    encode_utf8(cmd).len() > 0 && exists|at: int| defined_at(src, encode_utf8(cmd), at)
}

fn occurs_before(src: &[u8], needle: &str, at: usize) -> (r: bool)
    requires
        at <= src.len(),
    ensures
        r == occurs_in(src@, encode_utf8(needle@), window_start(at as int), at as int),
{
    let nb = needle.as_bytes();
    let lo: usize = if at >= 300 { at - 300 } else { 0 };
    match find_bytes_in(src, nb, lo, at) {
        Some(_) => true,
        None => false,
    }
}

/// Whether a source file defines the command `cmd` (see
/// `defines_command_spec`).
pub fn defines_command(src: &[u8], cmd: &str) -> (r: bool)
    ensures
        r == defines_command_spec(src@, cmd@),
{
    let needle = cmd.as_bytes();
    if needle.len() == 0 {
        return false;
    }
    let mut from: usize = 0;
    while from <= src.len()
        invariant
            needle@ == encode_utf8(cmd@),
            needle.len() > 0,
            forall|j: int| 0 <= j < from ==> !defined_at(src@, needle@, j),
        decreases src.len() + 1 - from,
    {
        match find_bytes_in(src, needle, from, src.len()) {
            None => {
                assert forall|j: int| !defined_at(src@, needle@, j) by {
                    if j >= from {
                        assert(!occurs_at(src@, needle@, j));
                    }
                }
                return false;
            },
            Some(at) => {
                let ok = at >= 1 && (src[at - 1] == 0x27 || src[at - 1] == 0x22) && at + needle.len()
                    < src.len() && {
                    let b = src[at + needle.len()];
                    b == 0x27 || b == 0x22 || b == 0x20 || b == 0x7B || b == 0x0A || b == 0x09
                };
                if ok && (occurs_before(src, "signature", at) || occurs_before(src, "$name", at)
                    || occurs_before(src, "command(", at) || occurs_before(src, "AsCommand", at)) {
                    assert(defined_at(src@, needle@, at as int));
                    return true;
                }
                assert forall|j: int| 0 <= j < at + 1 implies !defined_at(src@, needle@, j) by {
                    if from <= j < at {
                        assert(!occurs_at(src@, needle@, j));
                    }
                }
                from = at + 1;
            },
        }
    }
    assert forall|j: int| !defined_at(src@, needle@, j) by {
        if j >= from {
            assert(!occurs_at(src@, needle@, j));
        }
    }
    false
}

} // verus!
