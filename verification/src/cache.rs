//! Cache keys and freshness, and the text format of the per-command value
//! cache.

use vstd::prelude::*;
use crate::text::{
    str_chars, push_str, push_char, push_chars, string_of, split_lines, lines_of, unlines, strip_cr,
    views_of, find_char, slice_chars, index_of_char, first_at, lemma_index_of_char, is_lit,
    lemma_lines_of_unlines,
};
use crate::values::{Kind, Values, Row, find_row, row_is, lemma_find_row, views_of_strings};

verus! {

broadcast use vstd::string::group_string_axioms;

/// The FNV-1a offset basis.
pub open spec fn fnv_offset() -> u64 {
    0xcbf2_9ce4_8422_2325
}

/// The FNV-1a prime.
pub open spec fn fnv_prime() -> u64 {
    0x0000_0100_0000_01b3
}

/// The 64-bit FNV-1a hash of a byte string.
pub open spec fn fnv1a(bytes: Seq<u8>) -> u64
    decreases bytes.len(),
{
    if bytes.len() == 0 {
        fnv_offset()
    } else {
        let h = fnv1a(bytes.drop_last()) ^ (bytes.last() as u64);
        ((h as nat * fnv_prime() as nat) % 0x1_0000_0000_0000_0000) as u64
    }
}

/// The lowercase hexadecimal digits.
pub open spec fn hex_table() -> Seq<char> {
    seq!['0', '1', '2', '3', '4', '5', '6', '7', '8', '9', 'a', 'b', 'c', 'd', 'e', 'f']
}

/// The last `n` hexadecimal digits of `x`, most significant first.
pub open spec fn hex_digits(x: nat, n: nat) -> Seq<char>
    decreases n,
{
    if n == 0 {
        seq![]
    } else {
        hex_digits(x / 16, (n - 1) as nat).push(hex_table()[(x % 16) as int])
    }
}

fn hex_char(d: u64) -> (c: char)
    requires
        d < 16,
    ensures
        c == hex_table()[d as int],
{
    if d == 0 { '0' } else if d == 1 { '1' } else if d == 2 { '2' } else if d == 3 { '3' }
    else if d == 4 { '4' } else if d == 5 { '5' } else if d == 6 { '6' } else if d == 7 { '7' }
    else if d == 8 { '8' } else if d == 9 { '9' } else if d == 10 { 'a' } else if d == 11 { 'b' }
    else if d == 12 { 'c' } else if d == 13 { 'd' } else if d == 14 { 'e' } else { 'f' }
}

/// A cache key: the FNV-1a hash of the bytes as 16 lowercase hex digits.
pub fn fnv_hex(bytes: &[u8]) -> (r: String)
    ensures
        r@ == hex_digits(fnv1a(bytes@) as nat, 16),
{
    let mut h: u64 = 0xcbf2_9ce4_8422_2325;
    let mut i: usize = 0;
    while i < bytes.len()
        invariant
            i <= bytes.len(),
            h == fnv1a(bytes@.take(i as int)),
        decreases bytes.len() - i,
    {
        assert(bytes@.take(i + 1).drop_last() == bytes@.take(i as int));
        assert(bytes@.take(i + 1).last() == bytes@[i as int]);
        h = h ^ (bytes[i] as u64);
        h = h.wrapping_mul(0x0000_0100_0000_01b3);
        i = i + 1;
    }
    assert(bytes@.take(bytes.len() as int) == bytes@);
    let ghost full = h as nat;
    let mut x: u64 = h;
    let mut digits: Vec<char> = Vec::new();
    let mut k: usize = 0;
    while k < 16
        invariant
            k <= 16,
            digits@.len() == k,
            hex_digits(full, 16) == hex_digits(x as nat, (16 - k) as nat) + digits@.reverse(),
        decreases 16 - k,
    {
        let d = x % 16;
        let c = hex_char(d);
        let ghost before = digits@;
        digits.push(c);
        assert(digits@.reverse() =~= seq![c] + before.reverse());
        assert(hex_digits(x as nat, (16 - k) as nat) == hex_digits((x / 16) as nat, (16 - k - 1) as nat).push(c));
        x = x / 16;
        k = k + 1;
    }
    assert(hex_digits(x as nat, 0) == Seq::<char>::empty());
    assert(hex_digits(full, 16) =~= digits@.reverse());
    let mut out = String::new();
    let mut j: usize = 0;
    while j < 16
        invariant
            j <= 16,
            digits@.len() == 16,
            out@ == digits@.reverse().take(j as int),
        decreases 16 - j,
    {
        push_char(&mut out, digits[15 - j]);
        assert(digits@.reverse().take(j + 1) =~= digits@.reverse().take(j as int).push(digits@[15 - j]));
        j = j + 1;
    }
    assert(digits@.reverse().take(16) == digits@.reverse());
    out
}

/// The newer of two optional times; a missing time never wins.
pub open spec fn bumped(newest: Option<i128>, candidate: Option<i128>) -> Option<i128> {
    match candidate {
        Some(t) => match newest {
            Some(n) => if t > n { Some(t) } else { Some(n) },
            None => Some(t),
        },
        None => newest,
    }
}

/// Keeps the newest of the times seen; times are nanoseconds relative to
/// the UNIX epoch.
pub fn bump(newest: &mut Option<i128>, candidate: Option<i128>)
    ensures
        *final(newest) == bumped(*old(newest), candidate),
{
    if let Some(t) = candidate {
        let take = match *newest {
            Some(n) => t > n,
            None => true,
        };
        if take {
            *newest = Some(t);
        }
    }
}

/// The newest of the first `n` times.
pub open spec fn newest_of_spec(ts: Seq<Option<i128>>, n: nat) -> Option<i128>
    decreases n,
{
    if n == 0 {
        None
    } else {
        bumped(newest_of_spec(ts, (n - 1) as nat), ts[n - 1])
    }
}

/// The newest of the given times, if any is present.
pub fn newest_of(ts: &[Option<i128>]) -> (r: Option<i128>)
    ensures
        r == newest_of_spec(ts@, ts@.len()),
{
    let mut newest: Option<i128> = None;
    let mut i: usize = 0;
    while i < ts.len()
        invariant
            i <= ts.len(),
            newest == newest_of_spec(ts@, i as nat),
        decreases ts.len() - i,
    {
        bump(&mut newest, ts[i]);
        i = i + 1;
    }
    newest
}

/// The newest of the first `n` times is one of them and no time among them
/// is newer; there is none only when none of them is present.
pub proof fn lemma_newest_of_is_latest(ts: Seq<Option<i128>>, n: nat)
    requires
        n <= ts.len(),
    ensures
        match newest_of_spec(ts, n) {
            None => forall|i: int| 0 <= i < n ==> (#[trigger] ts[i]) is None,
            Some(m) => (exists|i: int| 0 <= i < n && ts[i] == Some(m)) && forall|i: int|
                0 <= i < n ==> (#[trigger] ts[i] matches Some(t) ==> t <= m),
        },
    decreases n,
{
    if n > 0 {
        lemma_newest_of_is_latest(ts, (n - 1) as nat);
        let prev = newest_of_spec(ts, (n - 1) as nat);
        if let Some(t) = ts[n - 1] {
            if let Some(p) = prev {
                let k = choose|i: int| 0 <= i < n - 1 && ts[i] == Some(p);
                assert(0 <= k < n && ts[k] == Some(p));
            }
        } else {
            if let Some(p) = prev {
                let k = choose|i: int| 0 <= i < n - 1 && ts[i] == Some(p);
                assert(0 <= k < n && ts[k] == Some(p));
            }
        }
    }
}

/// How long fetched runtime values are reused: 60 seconds, in nanoseconds.
pub const NATIVE_TTL_NANOS: i128 = 60_000_000_000i128;

/// Whether runtime values cached at `cache_time` (none when there is no
/// cache) may be reused at `now`: cached no later than now, and less than a
/// minute ago (times in nanoseconds relative to the UNIX epoch).
pub open spec fn native_fresh_spec(cache_time: Option<i128>, now: i128) -> bool {
    match cache_time {
        Some(t) => t <= now && now - t < NATIVE_TTL_NANOS,
        None => false,
    }
}

/// Whether cached runtime values may be reused (see `native_fresh_spec`).
pub fn native_cache_fresh(cache_time: Option<i128>, now: i128) -> (r: bool)
    ensures
        r == native_fresh_spec(cache_time, now),
{
    match cache_time {
        Some(t) => t <= now && match now.checked_sub(t) {
            Some(d) => d < NATIVE_TTL_NANOS,
            None => false,
        },
        None => false,
    }
}

/// A cache is stale when it is missing or empty, or when a watched source
/// is newer than it.
pub open spec fn is_stale_spec(cache_time: Option<i128>, cache_len: Option<u64>, newest: Option<i128>) -> bool {
    match cache_time {
        None => true,
        Some(c) => match cache_len {
            None => true,
            Some(len) => if len == 0 {
                true
            } else {
                match newest {
                    Some(src) => src > c,
                    None => false,
                }
            },
        },
    }
}

/// Staleness of a cache file from its modification time and length (each
/// `None` when it could not be read) and the newest watched source time.
pub fn is_stale(cache_time: Option<i128>, cache_len: Option<u64>, newest: Option<i128>) -> (r: bool)
    ensures
        r == is_stale_spec(cache_time, cache_len, newest),
{
    let c = match cache_time {
        None => return true,
        Some(c) => c,
    };
    match cache_len {
        None => return true,
        Some(len) => if len == 0 {
            return true;
        },
    }
    match newest {
        Some(src) => src > c,
        None => false,
    }
}

} // verus!

verus! {

/// How a kind is written in the value cache.
pub open spec fn kind_tag(k: Kind) -> Seq<char> {
    match k {
        Kind::Argument => "argument"@,
        Kind::Option => "option"@,
    }
}

/// How a kind is read back: anything but `option` is an argument.
pub open spec fn kind_of_tag(t: Seq<char>) -> Kind {
    if t == "option"@ {
        Kind::Option
    } else {
        Kind::Argument
    }
}

/// The cache lines of one row: `kind<TAB>name<TAB>value` per value.
pub open spec fn row_lines(k: Kind, name: Seq<char>, vs: Seq<Seq<char>>) -> Seq<Seq<char>>
    decreases vs.len(),
{
    if vs.len() == 0 {
        seq![]
    } else {
        row_lines(k, name, vs.drop_last()).push(kind_tag(k) + seq!['\t'] + name + seq!['\t'] + vs.last())
    }
}

/// The cache lines of the first `n` rows.
pub open spec fn rows_lines(rows: Seq<Row>, n: nat) -> Seq<Seq<char>>
    decreases n,
{
    if n == 0 {
        seq![]
    } else {
        rows_lines(rows, (n - 1) as nat) + row_lines(rows[n - 1].0, rows[n - 1].1, rows[n - 1].2)
    }
}

/// The header line of the value cache; it keeps the file non-empty when no
/// value was found, so an empty result does not read as a stale cache.
pub open spec fn values_header() -> Seq<char> {
    "# artisan-comp values"@
}

/// The whole value cache text.
pub open spec fn values_text(rows: Seq<Row>) -> Seq<char> {
    unlines(seq![values_header()] + rows_lines(rows, rows.len()))
}

/// `rows` with `value` appended to the parameter `(k, name)`.
pub open spec fn push_value(rows: Seq<Row>, k: Kind, name: Seq<char>, value: Seq<char>) -> Seq<Row> {
    match find_row(rows, k, name) {
        Some(i) => rows.update(i, (k, name, rows[i].2.push(value))),
        None => rows.push((k, name, seq![value])),
    }
}

/// The rows after reading one cache line: comments and lines with fewer
/// than two tabs are skipped; the value is everything after the second tab.
pub open spec fn values_apply(rows: Seq<Row>, line: Seq<char>) -> Seq<Row> {
    if line.len() > 0 && line[0] == '#' {
        rows
    } else {
        match index_of_char(line, '\t') {
            None => rows,
            Some(t1) => {
                let rest = line.skip(t1 + 1);
                match index_of_char(rest, '\t') {
                    None => rows,
                    Some(t2) => push_value(rows, kind_of_tag(line.take(t1)), rest.take(t2), rest.skip(t2 + 1)),
                }
            },
        }
    }
}

/// The rows after reading the lines `ls`, starting from `rows`.
pub open spec fn values_fold(rows: Seq<Row>, ls: Seq<Seq<char>>) -> Seq<Row>
    decreases ls.len(),
{
    if ls.len() == 0 {
        rows
    } else {
        values_apply(values_fold(rows, ls.drop_last()), ls.last())
    }
}

impl Values {
    fn push_value_exec(&mut self, kind: Kind, name: String, value: String)
        ensures
            final(self)@ == push_value(old(self)@, kind, name@, value@),
    {
        match self.position(kind, &name) {
            Some(i) => self.push_at(i, value),
            None => self.push_new(kind, name, value),
        }
    }

    /// The value cache text: a header line, then `kind<TAB>name<TAB>value`
    /// for each value of each parameter.
    pub fn to_cache_text(&self) -> (r: String)
        ensures
            r@ == values_text(self@),
    {
        let ghost rows = self@;
        let mut out = String::new();
        push_str(&mut out, "# artisan-comp values");
        push_char(&mut out, '\n');
        assert(out@ == unlines(seq![values_header()])) by {
            assert(seq![values_header()].drop_last() =~= Seq::<Seq<char>>::empty());
            assert(unlines(Seq::<Seq<char>>::empty()) == Seq::<char>::empty());
            assert(Seq::<char>::empty() + values_header() =~= values_header());
        }
        let mut i: usize = 0;
        while i < self.entries.len()
            invariant
                rows == self@,
                i <= self.entries.len(),
                out@ == unlines(seq![values_header()] + rows_lines(rows, i as nat)),
            decreases self.entries.len() - i,
        {
            let e = &self.entries[i];
            let ghost r = rows[i as int];
            assert(r == (e.kind, e.name@, views_of_strings(e.values@)));
            let mut j: usize = 0;
            while j < e.values.len()
                invariant
                    rows == self@,
                    i < self.entries.len(),
                    *e == self.entries@[i as int],
                    r == rows[i as int],
                    r == (e.kind, e.name@, views_of_strings(e.values@)),
                    j <= e.values.len(),
                    out@ == unlines(
                        seq![values_header()] + rows_lines(rows, i as nat) + row_lines(r.0, r.1, r.2.take(j as int)),
                    ),
                decreases e.values.len() - j,
            {
                let ghost prefix = seq![values_header()] + rows_lines(rows, i as nat);
                let ghost line = kind_tag(r.0) + seq!['\t'] + r.1 + seq!['\t'] + e.values@[j as int]@;
                match e.kind {
                    Kind::Argument => push_str(&mut out, "argument"),
                    Kind::Option => push_str(&mut out, "option"),
                }
                push_char(&mut out, '\t');
                push_str(&mut out, e.name.as_str());
                push_char(&mut out, '\t');
                push_str(&mut out, e.values[j].as_str());
                push_char(&mut out, '\n');
                assert(r.2.take(j + 1).drop_last() == r.2.take(j as int));
                assert(r.2.take(j + 1).last() == e.values@[j as int]@);
                let ghost all = prefix + row_lines(r.0, r.1, r.2.take(j + 1));
                assert(all == (prefix + row_lines(r.0, r.1, r.2.take(j as int))).push(line));
                assert(all.drop_last() == prefix + row_lines(r.0, r.1, r.2.take(j as int)));
                assert(out@ =~= unlines(all));
                j = j + 1;
            }
            assert(r.2.take(e.values.len() as int) == r.2);
            assert(seq![values_header()] + rows_lines(rows, (i + 1) as nat) == seq![values_header()] + rows_lines(rows, i as nat) + row_lines(r.0, r.1, r.2));
            i = i + 1;
        }
        out
    }

    /// Reads the value cache text back.
    pub fn from_cache_text(text: &str) -> (r: Values)
        ensures
            r@ == values_fold(Seq::<Row>::empty(), lines_of(text@)),
    {
        let chars = str_chars(text);
        let lines = split_lines(&chars);
        let ghost ls = lines_of(text@);
        let mut vals = Values::new();
        let mut i: usize = 0;
        while i < lines.len()
            invariant
                views_of(lines@) == ls,
                i <= lines.len(),
                vals@ == values_fold(Seq::<Row>::empty(), ls.take(i as int)),
            decreases lines.len() - i,
        {
            let line = &lines[i];
            let ghost l = ls[i as int];
            assert(line@ == l);
            assert(ls.take(i + 1).drop_last() == ls.take(i as int));
            assert(ls.take(i + 1).last() == l);
            if line.len() > 0 && line[0] == '#' {
            } else {
                match find_char(line, '\t') {
                    None => {},
                    Some(t1) => {
                        let rest = slice_chars(line, t1 + 1, line.len());
                        assert(rest@ == l.skip(t1 + 1));
                        match find_char(&rest, '\t') {
                            None => {},
                            Some(t2) => {
                                let tag = slice_chars(line, 0, t1);
                                let name = slice_chars(&rest, 0, t2);
                                let value = slice_chars(&rest, t2 + 1, rest.len());
                                assert(tag@ == l.take(t1 as int));
                                assert(name@ == rest@.take(t2 as int));
                                assert(value@ == rest@.skip(t2 + 1));
                                let kind = if is_lit(&tag, "option") { Kind::Option } else { Kind::Argument };
                                vals.push_value_exec(kind, string_of(&name), string_of(&value));
                            },
                        }
                    },
                }
            }
            i = i + 1;
        }
        assert(ls.take(lines.len() as int) == ls);
        vals
    }
}

} // verus!

verus! {

/// Rows the value cache reproduces exactly: one row per parameter, each with
/// at least one value; names free of tabs and newlines; values free of
/// newlines and not ending in `\r`.
pub open spec fn cache_safe(rows: Seq<Row>) -> bool {
    &&& forall|i: int, j: int|
        0 <= i < j < rows.len() ==> !(rows[i].0 == rows[j].0 && rows[i].1 == rows[j].1)
    &&& forall|i: int|
        0 <= i < rows.len() ==> {
            let r = #[trigger] rows[i];
            &&& r.2.len() > 0
            &&& !r.1.contains('\t')
            &&& !r.1.contains('\n')
            &&& forall|j: int|
                0 <= j < r.2.len() ==> !(#[trigger] r.2[j]).contains('\n') && !(r.2[j].len() > 0
                    && r.2[j].last() == '\r')
        }
}

proof fn lemma_values_fold_concat(rows: Seq<Row>, a: Seq<Seq<char>>, b: Seq<Seq<char>>)
    ensures
        values_fold(rows, a + b) == values_fold(values_fold(rows, a), b),
    decreases b.len(),
{
    if b.len() == 0 {
        assert(a + b == a);
    } else {
        lemma_values_fold_concat(rows, a, b.drop_last());
        assert((a + b).drop_last() == a + b.drop_last());
        assert((a + b).last() == b.last());
    }
}

proof fn lemma_kind_tag(k: Kind)
    ensures
        kind_of_tag(kind_tag(k)) == k,
        kind_tag(k).len() > 0,
        kind_tag(k)[0] != '#',
        !kind_tag(k).contains('\t'),
        !kind_tag(k).contains('\n'),
        kind_tag(k)[kind_tag(k).len() - 1] != '\r',
{
    reveal_strlit("argument");
    reveal_strlit("option");
    assert("argument"@.len() != "option"@.len());
}

proof fn lemma_parse_value_line(k: Kind, name: Seq<char>, v: Seq<char>)
    requires
        !name.contains('\t'),
    ensures
        ({
            let line = kind_tag(k) + seq!['\t'] + name + seq!['\t'] + v;
            &&& !(line.len() > 0 && line[0] == '#')
            &&& index_of_char(line, '\t') == Some(kind_tag(k).len() as int)
            &&& line.take(kind_tag(k).len() as int) == kind_tag(k)
            &&& line.skip(kind_tag(k).len() as int + 1) == name + seq!['\t'] + v
        }),
        index_of_char(name + seq!['\t'] + v, '\t') == Some(name.len() as int),
        (name + seq!['\t'] + v).take(name.len() as int) == name,
        (name + seq!['\t'] + v).skip(name.len() as int + 1) == v,
{
    lemma_kind_tag(k);
    let t = kind_tag(k);
    let line = t + seq!['\t'] + name + seq!['\t'] + v;
    assert(line[0] == t[0]);
    assert forall|j: int| 0 <= j < t.len() implies line[j] != '\t' by {
        assert(line[j] == t[j]);
        if t[j] == '\t' {
            assert(t.contains('\t'));
        }
    }
    assert(first_at(line, '\t', t.len() as int));
    lemma_index_of_char(line, '\t', t.len() as int);
    assert(line.take(t.len() as int) == t);
    assert(line.skip(t.len() as int + 1) =~= name + seq!['\t'] + v);
    let rest = name + seq!['\t'] + v;
    assert forall|j: int| 0 <= j < name.len() implies rest[j] != '\t' by {
        assert(rest[j] == name[j]);
        if name[j] == '\t' {
            assert(name.contains('\t'));
        }
    }
    assert(first_at(rest, '\t', name.len() as int));
    lemma_index_of_char(rest, '\t', name.len() as int);
    assert(rest.take(name.len() as int) == name);
    assert(rest.skip(name.len() as int + 1) =~= v);
}

proof fn lemma_fold_row(s: Seq<Row>, k: Kind, name: Seq<char>, vs: Seq<Seq<char>>)
    requires
        vs.len() > 0,
        !name.contains('\t'),
        forall|i: int| 0 <= i < s.len() ==> !row_is(s, i, k, name),
    ensures
        values_fold(s, row_lines(k, name, vs)) == s.push((k, name, vs)),
    decreases vs.len(),
{
    let init = vs.drop_last();
    let v = vs.last();
    let line = kind_tag(k) + seq!['\t'] + name + seq!['\t'] + v;
    lemma_parse_value_line(k, name, v);
    lemma_kind_tag(k);
    assert(row_lines(k, name, vs) == row_lines(k, name, init).push(line));
    assert(row_lines(k, name, vs).drop_last() == row_lines(k, name, init));
    let x = values_fold(s, row_lines(k, name, init));
    assert(values_fold(s, row_lines(k, name, vs)) == values_apply(x, line));
    let t = kind_tag(k);
    let rest = name + seq!['\t'] + v;
    assert(line.skip(t.len() as int + 1) == rest);
    assert(values_apply(x, line) == push_value(x, kind_of_tag(line.take(t.len() as int)), rest.take(name.len() as int), rest.skip(name.len() as int + 1)));
    assert(values_apply(x, line) == push_value(x, k, name, v));
    if init.len() == 0 {
        assert(row_lines(k, name, init) == Seq::<Seq<char>>::empty());
        assert(find_row(s, k, name) is None);
        assert(vs =~= seq![v]);
    } else {
        lemma_fold_row(s, k, name, init);
        let mid = s.push((k, name, init));
        assert(row_is(mid, s.len() as int, k, name));
        assert forall|j: int| 0 <= j < s.len() implies !row_is(mid, j, k, name) by {
            assert(mid[j] == s[j]);
            assert(!row_is(s, j, k, name));
        }
        lemma_find_row(mid, k, name, s.len() as int);
        assert(vs =~= init.push(v));
        assert(mid.update(s.len() as int, (k, name, init.push(v))) =~= s.push((k, name, vs)));
    }
}

proof fn lemma_rows_lines_safe(rows: Seq<Row>, n: nat)
    requires
        n <= rows.len(),
        cache_safe(rows),
    ensures
        forall|i: int|
            0 <= i < rows_lines(rows, n).len() ==> !(#[trigger] rows_lines(rows, n)[i]).contains('\n')
                && strip_cr(rows_lines(rows, n)[i]) == rows_lines(rows, n)[i],
        values_fold(Seq::<Row>::empty(), rows_lines(rows, n)) == rows.take(n as int),
    decreases n,
{
    if n == 0 {
        assert(rows.take(0) =~= Seq::<Row>::empty());
    } else {
        let m = (n - 1) as nat;
        lemma_rows_lines_safe(rows, m);
        let r = rows[m as int];
        lemma_row_lines_safe(r.0, r.1, r.2);
        let a = rows_lines(rows, m);
        let b = row_lines(r.0, r.1, r.2);
        assert forall|i: int| 0 <= i < (a + b).len() implies !(#[trigger] (a + b)[i]).contains('\n') && strip_cr(
            (a + b)[i],
        ) == (a + b)[i] by {
            if i < a.len() {
                assert((a + b)[i] == a[i]);
            } else {
                assert((a + b)[i] == b[i - a.len()]);
            }
        }
        lemma_values_fold_concat(Seq::<Row>::empty(), a, b);
        let s = rows.take(m as int);
        assert forall|i: int| 0 <= i < s.len() implies !row_is(s, i, r.0, r.1) by {
            assert(s[i] == rows[i]);
        }
        lemma_fold_row(s, r.0, r.1, r.2);
        assert(s.push((r.0, r.1, r.2)) =~= rows.take(n as int));
    }
}

proof fn lemma_row_lines_safe(k: Kind, name: Seq<char>, vs: Seq<Seq<char>>)
    requires
        !name.contains('\n'),
        forall|j: int| 0 <= j < vs.len() ==> !(#[trigger] vs[j]).contains('\n') && !(vs[j].len() > 0 && vs[j].last() == '\r'),
    ensures
        forall|i: int|
            0 <= i < row_lines(k, name, vs).len() ==> !(#[trigger] row_lines(k, name, vs)[i]).contains('\n')
                && strip_cr(row_lines(k, name, vs)[i]) == row_lines(k, name, vs)[i],
    decreases vs.len(),
{
    if vs.len() > 0 {
        let init = vs.drop_last();
        assert forall|j: int| 0 <= j < init.len() implies !(#[trigger] init[j]).contains('\n') && !(init[j].len() > 0 && init[j].last() == '\r') by {
            assert(init[j] == vs[j]);
        }
        lemma_row_lines_safe(k, name, init);
        lemma_kind_tag(k);
        let v = vs.last();
        assert(!v.contains('\n') && !(v.len() > 0 && v.last() == '\r')) by {
            assert(v == vs[vs.len() - 1]);
        }
        let t = kind_tag(k);
        let line = t + seq!['\t'] + name + seq!['\t'] + v;
        assert(!line.contains('\n')) by {
            if line.contains('\n') {
                let x = choose|x: int| 0 <= x < line.len() && line[x] == '\n';
                if x < t.len() {
                    assert(t[x] == '\n');
                } else if t.len() < x < t.len() + 1 + name.len() {
                    assert(name[x - t.len() - 1] == '\n');
                } else if x > t.len() + 1 + name.len() {
                    assert(v[x - t.len() - 2 - name.len()] == '\n');
                }
            }
        }
        assert(strip_cr(line) == line) by {
            if v.len() > 0 {
                assert(line.last() == v.last());
            } else {
                assert(line.last() == '\t');
            }
        }
        let prev = row_lines(k, name, init);
        assert(row_lines(k, name, vs) == prev.push(line));
        assert forall|i: int| 0 <= i < prev.len() implies (#[trigger] prev.push(line)[i]) == prev[i] by {}
    }
}

/// Reading back the value cache text gives the same values, for rows that
/// the format can carry (see `cache_safe`).
pub proof fn lemma_values_cache_roundtrip(vals: &Values)
    requires
        cache_safe(vals@),
    ensures
        values_fold(Seq::<Row>::empty(), lines_of(values_text(vals@))) == vals@,
{
    lemma_rows_cache_roundtrip(vals@);
}

/// Reading back the cache text of rows that the format can carry gives the
/// rows.
pub proof fn lemma_rows_cache_roundtrip(rows: Seq<Row>)
    requires
        cache_safe(rows),
    ensures
        values_fold(Seq::<Row>::empty(), lines_of(values_text(rows))) == rows,
{
    reveal_strlit("# artisan-comp values");
    let h = values_header();
    lemma_rows_lines_safe(rows, rows.len());
    let rl = rows_lines(rows, rows.len());
    let ls = seq![h] + rl;
    assert forall|i: int| 0 <= i < ls.len() implies !(#[trigger] ls[i]).contains('\n') by {
        if i > 0 {
            assert(ls[i] == rl[i - 1]);
        }
    }
    lemma_lines_of_unlines(ls);
    assert(strip_cr(h) == h);
    assert(ls.map_values(|l: Seq<char>| strip_cr(l)) =~= ls) by {
        assert forall|i: int| 0 <= i < ls.len() implies strip_cr(#[trigger] ls[i]) == ls[i] by {
            if i > 0 {
                assert(ls[i] == rl[i - 1]);
            }
        }
    }
    lemma_values_fold_concat(Seq::<Row>::empty(), seq![h], rl);
    assert(seq![h].drop_last() =~= Seq::<Seq<char>>::empty());
    assert(h.len() > 0 && h[0] == '#');
    assert(values_fold(Seq::<Row>::empty(), seq![h]) == values_apply(values_fold(Seq::<Row>::empty(), seq![h].drop_last()), h));
    assert(rows.take(rows.len() as int) == rows);
}

} // verus!
