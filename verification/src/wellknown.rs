//! Project-wide catalog of well-known Laravel values (class names, config
//! keys, test identifiers, migrations, environments), and its cache format.

use vstd::prelude::*;
use crate::text::{
    str_chars, starts_with, is_lit, push_str, push_char, push_chars, string_of, find_char,
    slice_chars, contains_char, clone_strings, split_lines, lines_of, unlines, strip_cr, views_of,
    index_of_char, first_at, lemma_index_of_char, lemma_lines_of_unlines, has_prefix,
};
use crate::values::Kind;

verus! {

broadcast use vstd::string::group_string_axioms;

/// The number of sets a catalog holds.
pub const BUCKETS: usize = 18;

/// The sets of well-known values a project offers.
pub struct Catalog {
    models: Vec<String>,
    seeders: Vec<String>,
    providers: Vec<String>,
    config_keys: Vec<String>,
    queue_connections: Vec<String>,
    db_connections: Vec<String>,
    stores: Vec<String>,
    disks: Vec<String>,
    guards: Vec<String>,
    tests: Vec<String>,
    migrations: Vec<String>,
    envs: Vec<String>,
    events: Vec<String>,
    tables: Vec<String>,
    suites: Vec<String>,
    groups: Vec<String>,
    route_names: Vec<String>,
    queues: Vec<String>,
}

pub open spec fn strs(v: Vec<String>) -> Seq<Seq<char>> {
    v@.map_values(|s: String| s@)
}

impl View for Catalog {
    /// The sets in the order of their fields (and of their cache sections).
    type V = Seq<Seq<Seq<char>>>;

    closed spec fn view(&self) -> Seq<Seq<Seq<char>>> {
        seq![
            strs(self.models),
            strs(self.seeders),
            strs(self.providers),
            strs(self.config_keys),
            strs(self.queue_connections),
            strs(self.db_connections),
            strs(self.stores),
            strs(self.disks),
            strs(self.guards),
            strs(self.tests),
            strs(self.migrations),
            strs(self.envs),
            strs(self.events),
            strs(self.tables),
            strs(self.suites),
            strs(self.groups),
            strs(self.route_names),
            strs(self.queues),
        ]
    }
}

/// The cache tag of each set.
pub open spec fn tag_name(b: int) -> Seq<char> {
    if b == 0 {
        "model"@
    } else if b == 1 {
        "seeder"@
    } else if b == 2 {
        "provider"@
    } else if b == 3 {
        "configkey"@
    } else if b == 4 {
        "qconn"@
    } else if b == 5 {
        "dbconn"@
    } else if b == 6 {
        "store"@
    } else if b == 7 {
        "disk"@
    } else if b == 8 {
        "guard"@
    } else if b == 9 {
        "test"@
    } else if b == 10 {
        "migration"@
    } else if b == 11 {
        "env"@
    } else if b == 12 {
        "event"@
    } else if b == 13 {
        "table"@
    } else if b == 14 {
        "suite"@
    } else if b == 15 {
        "group"@
    } else if b == 16 {
        "route"@
    } else {
        "queue"@
    }
}

/// The first set, from `k` on, whose tag is `t`.
pub open spec fn tag_index_from(t: Seq<char>, k: int) -> Option<int>
    decreases BUCKETS - k,
{
    if k >= BUCKETS || k < 0 {
        None
    } else if t == tag_name(k) {
        Some(k)
    } else {
        tag_index_from(t, k + 1)
    }
}

/// The set that a cache tag names.
pub open spec fn tag_index(t: Seq<char>) -> Option<int> {
    tag_index_from(t, 0)
}

fn tag_chars(b: usize) -> (r: Vec<char>)
    requires
        b < BUCKETS,
    ensures
        r@ == tag_name(b as int),
{
    if b == 0 {
        str_chars("model")
    } else if b == 1 {
        str_chars("seeder")
    } else if b == 2 {
        str_chars("provider")
    } else if b == 3 {
        str_chars("configkey")
    } else if b == 4 {
        str_chars("qconn")
    } else if b == 5 {
        str_chars("dbconn")
    } else if b == 6 {
        str_chars("store")
    } else if b == 7 {
        str_chars("disk")
    } else if b == 8 {
        str_chars("guard")
    } else if b == 9 {
        str_chars("test")
    } else if b == 10 {
        str_chars("migration")
    } else if b == 11 {
        str_chars("env")
    } else if b == 12 {
        str_chars("event")
    } else if b == 13 {
        str_chars("table")
    } else if b == 14 {
        str_chars("suite")
    } else if b == 15 {
        str_chars("group")
    } else if b == 16 {
        str_chars("route")
    } else {
        str_chars("queue")
    }
}

fn tag_lookup(t: &[char]) -> (r: Option<usize>)
    ensures
        match r {
            Some(b) => tag_index(t@) == Some(b as int) && b < BUCKETS,
            None => tag_index(t@) is None,
        },
{
    let mut k: usize = 0;
    while k < BUCKETS
        invariant
            k <= BUCKETS,
            tag_index(t@) == tag_index_from(t@, k as int),
        decreases BUCKETS - k,
    {
        let tag = tag_chars(k);
        if crate::text::chars_eq(t, &tag) {
            return Some(k);
        }
        k = k + 1;
    }
    None
}

/// The value may be written to a cache line: no tab and no newline.
pub open spec fn cacheable(v: Seq<char>) -> bool {
    !v.contains('\t') && !v.contains('\n')
}

/// The cache lines of one set: `tag<TAB>value` for each cacheable value.
pub open spec fn bucket_lines(tag: Seq<char>, vs: Seq<Seq<char>>) -> Seq<Seq<char>>
    decreases vs.len(),
{
    if vs.len() == 0 {
        seq![]
    } else if cacheable(vs.last()) {
        bucket_lines(tag, vs.drop_last()).push(tag + seq!['\t'] + vs.last())
    } else {
        bucket_lines(tag, vs.drop_last())
    }
}

/// The cache lines of the first `n` sets.
pub open spec fn section_lines(bs: Seq<Seq<Seq<char>>>, n: nat) -> Seq<Seq<char>>
    decreases n,
{
    if n == 0 {
        seq![]
    } else {
        section_lines(bs, (n - 1) as nat) + bucket_lines(tag_name(n - 1), bs[n - 1])
    }
}

/// The header line of the cache file.
pub open spec fn catalog_header() -> Seq<char> {
    "# catalog"@
}

/// All lines of the cache file.
pub open spec fn tsv_lines(bs: Seq<Seq<Seq<char>>>) -> Seq<Seq<char>> {
    seq![catalog_header()] + section_lines(bs, BUCKETS as nat)
}

/// A catalog with every set empty.
pub open spec fn empty_buckets() -> Seq<Seq<Seq<char>>> {
    Seq::new(BUCKETS as nat, |i: int| Seq::<Seq<char>>::empty())
}

/// The catalog after reading one cache line: comment lines, lines without a
/// tab and lines with an unknown tag are skipped.
pub open spec fn tsv_apply(bs: Seq<Seq<Seq<char>>>, line: Seq<char>) -> Seq<Seq<Seq<char>>> {
    if line.len() > 0 && line[0] == '#' {
        bs
    } else {
        match index_of_char(line, '\t') {
            None => bs,
            Some(t) => match tag_index(line.take(t)) {
                Some(b) => bs.update(b, bs[b].push(line.skip(t + 1))),
                None => bs,
            },
        }
    }
}

/// The catalog after reading the lines `ls`, starting from `bs`.
pub open spec fn tsv_fold(bs: Seq<Seq<Seq<char>>>, ls: Seq<Seq<char>>) -> Seq<Seq<Seq<char>>>
    decreases ls.len(),
{
    if ls.len() == 0 {
        bs
    } else {
        tsv_apply(tsv_fold(bs, ls.drop_last()), ls.last())
    }
}

impl Catalog {
    /// A catalog holding the given sets, in the order of its sections.
    pub(crate) fn from_sets(
        models: Vec<String>,
        seeders: Vec<String>,
        providers: Vec<String>,
        config_keys: Vec<String>,
        queue_connections: Vec<String>,
        db_connections: Vec<String>,
        stores: Vec<String>,
        disks: Vec<String>,
        guards: Vec<String>,
        tests: Vec<String>,
        migrations: Vec<String>,
        envs: Vec<String>,
        events: Vec<String>,
        tables: Vec<String>,
        suites: Vec<String>,
        groups: Vec<String>,
        route_names: Vec<String>,
        queues: Vec<String>,
    ) -> (c: Catalog)
        ensures
            c@ == seq![
                strs(models),
                strs(seeders),
                strs(providers),
                strs(config_keys),
                strs(queue_connections),
                strs(db_connections),
                strs(stores),
                strs(disks),
                strs(guards),
                strs(tests),
                strs(migrations),
                strs(envs),
                strs(events),
                strs(tables),
                strs(suites),
                strs(groups),
                strs(route_names),
                strs(queues),
            ],
    {
        Catalog {
            models,
            seeders,
            providers,
            config_keys,
            queue_connections,
            db_connections,
            stores,
            disks,
            guards,
            tests,
            migrations,
            envs,
            events,
            tables,
            suites,
            groups,
            route_names,
            queues,
        }
    }

    /// A catalog with every set empty.
    pub fn empty() -> (c: Catalog)
        ensures
            c@ == empty_buckets(),
    {
        let c = Catalog {
            models: Vec::new(),
            seeders: Vec::new(),
            providers: Vec::new(),
            config_keys: Vec::new(),
            queue_connections: Vec::new(),
            db_connections: Vec::new(),
            stores: Vec::new(),
            disks: Vec::new(),
            guards: Vec::new(),
            tests: Vec::new(),
            migrations: Vec::new(),
            envs: Vec::new(),
            events: Vec::new(),
            tables: Vec::new(),
            suites: Vec::new(),
            groups: Vec::new(),
            route_names: Vec::new(),
            queues: Vec::new(),
        };
        assert forall|k: int| 0 <= k < BUCKETS implies (#[trigger] c@[k]) =~= empty_buckets()[k] by {
            assert(c@[k].len() == 0);
        }
        assert(c@ =~= empty_buckets());
        c
    }

    fn bucket(&self, b: usize) -> (r: &Vec<String>)
        requires
            b < BUCKETS,
        ensures
            strs(*r) == self@[b as int],
    {
        if b == 0 {
            &self.models
        } else if b == 1 {
            &self.seeders
        } else if b == 2 {
            &self.providers
        } else if b == 3 {
            &self.config_keys
        } else if b == 4 {
            &self.queue_connections
        } else if b == 5 {
            &self.db_connections
        } else if b == 6 {
            &self.stores
        } else if b == 7 {
            &self.disks
        } else if b == 8 {
            &self.guards
        } else if b == 9 {
            &self.tests
        } else if b == 10 {
            &self.migrations
        } else if b == 11 {
            &self.envs
        } else if b == 12 {
            &self.events
        } else if b == 13 {
            &self.tables
        } else if b == 14 {
            &self.suites
        } else if b == 15 {
            &self.groups
        } else if b == 16 {
            &self.route_names
        } else {
            &self.queues
        }
    }

    fn push_bucket(&mut self, b: usize, v: String)
        requires
            b < BUCKETS,
        ensures
            final(self)@ == old(self)@.update(b as int, old(self)@[b as int].push(v@)),
    {
        let ghost before = self@;
        let ghost vv = v@;
        if b == 0 {
            self.models.push(v);
        } else if b == 1 {
            self.seeders.push(v);
        } else if b == 2 {
            self.providers.push(v);
        } else if b == 3 {
            self.config_keys.push(v);
        } else if b == 4 {
            self.queue_connections.push(v);
        } else if b == 5 {
            self.db_connections.push(v);
        } else if b == 6 {
            self.stores.push(v);
        } else if b == 7 {
            self.disks.push(v);
        } else if b == 8 {
            self.guards.push(v);
        } else if b == 9 {
            self.tests.push(v);
        } else if b == 10 {
            self.migrations.push(v);
        } else if b == 11 {
            self.envs.push(v);
        } else if b == 12 {
            self.events.push(v);
        } else if b == 13 {
            self.tables.push(v);
        } else if b == 14 {
            self.suites.push(v);
        } else if b == 15 {
            self.groups.push(v);
        } else if b == 16 {
            self.route_names.push(v);
        } else {
            self.queues.push(v);
        }
        assert forall|k: int| 0 <= k < BUCKETS implies (#[trigger] self@[k]) == before.update(
            b as int,
            before[b as int].push(vv),
        )[k] by {
            if k == b {
                assert(self@[k] =~= before[k].push(vv));
            }
        }
        assert(self@ =~= before.update(b as int, before[b as int].push(vv)));
    }

    /// Writes the catalog in its cache format: a header line, then one
    /// `tag<TAB>value` line per value. A value holding a tab or newline
    /// would split the line, so such values are left out.
    pub fn to_tsv(&self) -> (r: String)
        ensures
            r@ == unlines(tsv_lines(self@)),
    {
        let mut out = String::new();
        push_str(&mut out, "# catalog");
        push_char(&mut out, '\n');
        let ghost bs = self@;
        assert(out@ == unlines(seq![catalog_header()])) by {
            assert(seq![catalog_header()].drop_last() =~= Seq::<Seq<char>>::empty());
            assert(unlines(Seq::<Seq<char>>::empty()) == Seq::<char>::empty());
            assert(Seq::<char>::empty() + catalog_header() =~= catalog_header());
        }
        let mut b: usize = 0;
        while b < BUCKETS
            invariant
                bs == self@,
                b <= BUCKETS,
                out@ == unlines(seq![catalog_header()] + section_lines(bs, b as nat)),
            decreases BUCKETS - b,
        {
            let tag = tag_chars(b);
            let items = self.bucket(b);
            let mut j: usize = 0;
            while j < items.len()
                invariant
                    bs == self@,
                    b < BUCKETS,
                    tag@ == tag_name(b as int),
                    strs(*items) == bs[b as int],
                    j <= items.len(),
                    out@ == unlines(
                        seq![catalog_header()] + section_lines(bs, b as nat) + bucket_lines(
                            tag_name(b as int),
                            bs[b as int].take(j as int),
                        ),
                    ),
                decreases items.len() - j,
            {
                let v = &items[j];
                let chars = str_chars(v.as_str());
                let ghost prefix = seq![catalog_header()] + section_lines(bs, b as nat);
                let ghost vs = bs[b as int].take(j + 1);
                assert(vs.drop_last() == bs[b as int].take(j as int));
                assert(vs.last() == v@);
                if !contains_char(&chars, '\n') && !contains_char(&chars, '\t') {
                    let ghost line = tag_name(b as int) + seq!['\t'] + v@;
                    push_chars(&mut out, &tag);
                    push_char(&mut out, '\t');
                    push_str(&mut out, v.as_str());
                    push_char(&mut out, '\n');
                    assert(bucket_lines(tag_name(b as int), vs) == bucket_lines(
                        tag_name(b as int),
                        bs[b as int].take(j as int),
                    ).push(line));
                    let ghost all = prefix + bucket_lines(tag_name(b as int), vs);
                    assert(all == (prefix + bucket_lines(tag_name(b as int), bs[b as int].take(j as int))).push(line));
                    assert(all.drop_last() == prefix + bucket_lines(tag_name(b as int), bs[b as int].take(j as int)));
                    assert(out@ =~= unlines(all));
                }
                j = j + 1;
            }
            assert(bs[b as int].take(items.len() as int) == bs[b as int]);
            assert(section_lines(bs, (b + 1) as nat) == section_lines(bs, b as nat) + bucket_lines(
                tag_name(b as int),
                bs[b as int],
            ));
            assert(seq![catalog_header()] + section_lines(bs, (b + 1) as nat) == seq![catalog_header()]
                + section_lines(bs, b as nat) + bucket_lines(tag_name(b as int), bs[b as int]));
            b = b + 1;
        }
        out
    }

    /// Reads a catalog from its cache format; lines that are comments, lack
    /// a tab, or carry an unknown tag are skipped.
    pub fn from_tsv(text: &str) -> (c: Catalog)
        ensures
            c@ == tsv_fold(empty_buckets(), lines_of(text@)),
    {
        let chars = str_chars(text);
        let lines = split_lines(&chars);
        let ghost ls = lines_of(text@);
        let mut c = Catalog::empty();
        let mut i: usize = 0;
        while i < lines.len()
            invariant
                views_of(lines@) == ls,
                i <= lines.len(),
                c@ == tsv_fold(empty_buckets(), ls.take(i as int)),
            decreases lines.len() - i,
        {
            let line = &lines[i];
            let ghost l = ls[i as int];
            assert(line@ == l);
            assert(ls.take(i + 1).drop_last() == ls.take(i as int));
            assert(ls.take(i + 1).last() == l);
            if line.len() > 0 && line[0] == '#' {
            } else {
                match find_char(line, '\t') {
                    None => {},
                    Some(t) => {
                        let tag = slice_chars(line, 0, t);
                        assert(tag@ == l.take(t as int));
                        match tag_lookup(&tag) {
                            None => {},
                            Some(b) => {
                                let value = slice_chars(line, t + 1, line.len());
                                assert(value@ == l.skip(t + 1));
                                c.push_bucket(b, string_of(&value));
                            },
                        }
                    },
                }
            }
            i = i + 1;
        }
        assert(ls.take(lines.len() as int) == ls);
        c
    }
}

} // verus!

verus! {

/// What a set reads back as after a cache round trip: values holding a tab
/// or newline are gone, and a value ending in `\r` loses it.
pub open spec fn roundtrip_bucket(vs: Seq<Seq<char>>) -> Seq<Seq<char>>
    decreases vs.len(),
{
    if vs.len() == 0 {
        seq![]
    } else if cacheable(vs.last()) {
        roundtrip_bucket(vs.drop_last()).push(strip_cr(vs.last()))
    } else {
        roundtrip_bucket(vs.drop_last())
    }
}

/// Length and first two characters of a tag.
spec fn tag_sig(s: Seq<char>) -> (int, char, char) {
    (s.len() as int, s[0], s[1])
}

proof fn lemma_tag_index_from(t: Seq<char>, k: int, b: int)
    requires
        0 <= k <= b < BUCKETS,
        t == tag_name(b),
        forall|j: int| k <= j < b ==> tag_name(j) != t,
    ensures
        tag_index_from(t, k) == Some(b),
    decreases b - k,
{
    if k < b {
        lemma_tag_index_from(t, k + 1, b);
    }
}

proof fn lemma_tag(b: int)
    requires
        0 <= b < BUCKETS,
    ensures
        tag_name(b).len() > 0,
        tag_name(b)[0] != '#',
        !tag_name(b).contains('\t'),
        !tag_name(b).contains('\n'),
        tag_index(tag_name(b)) == Some(b),
{
    reveal_strlit("model");
    reveal_strlit("seeder");
    reveal_strlit("provider");
    reveal_strlit("configkey");
    reveal_strlit("qconn");
    reveal_strlit("dbconn");
    reveal_strlit("store");
    reveal_strlit("disk");
    reveal_strlit("guard");
    reveal_strlit("test");
    reveal_strlit("migration");
    reveal_strlit("env");
    reveal_strlit("event");
    reveal_strlit("table");
    reveal_strlit("suite");
    reveal_strlit("group");
    reveal_strlit("route");
    reveal_strlit("queue");
    let t = tag_name(b);
    assert(!t.contains('\t'));
    assert(!t.contains('\n'));
    assert forall|j: int| 0 <= j < b implies tag_name(j) != t by {
        assert(tag_sig(tag_name(j)) != tag_sig(t));
    }
    lemma_tag_index_from(t, 0, b);
}

proof fn lemma_fold_concat(bs: Seq<Seq<Seq<char>>>, a: Seq<Seq<char>>, b: Seq<Seq<char>>)
    ensures
        tsv_fold(bs, a + b) == tsv_fold(tsv_fold(bs, a), b),
    decreases b.len(),
{
    if b.len() == 0 {
        assert(a + b == a);
    } else {
        lemma_fold_concat(bs, a, b.drop_last());
        assert((a + b).drop_last() == a + b.drop_last());
        assert((a + b).last() == b.last());
    }
}

proof fn lemma_strip_cr_tagged(tag: Seq<char>, v: Seq<char>)
    ensures
        strip_cr(tag + seq!['\t'] + v) == tag + seq!['\t'] + strip_cr(v),
{
    let l = tag + seq!['\t'] + v;
    if v.len() > 0 {
        assert(l.last() == v.last());
        if v.last() == '\r' {
            assert(l.drop_last() == tag + seq!['\t'] + v.drop_last());
        }
    } else {
        assert(l.last() == '\t');
        assert(v == Seq::<char>::empty());
        assert(strip_cr(v) == v);
    }
}

proof fn lemma_apply_tagged(st: Seq<Seq<Seq<char>>>, b: int, v: Seq<char>)
    requires
        0 <= b < BUCKETS,
        st.len() == BUCKETS,
        !v.contains('\t'),
    ensures
        tsv_apply(st, tag_name(b) + seq!['\t'] + v) == st.update(b, st[b].push(v)),
{
    lemma_tag(b);
    let tag = tag_name(b);
    let l = tag + seq!['\t'] + v;
    assert(l[0] == tag[0]);
    assert forall|j: int| 0 <= j < tag.len() implies l[j] != '\t' by {
        assert(l[j] == tag[j]);
        if tag[j] == '\t' {
            assert(tag.contains('\t'));
        }
    }
    assert(first_at(l, '\t', tag.len() as int));
    lemma_index_of_char(l, '\t', tag.len() as int);
    assert(l.take(tag.len() as int) == tag);
    assert(l.skip(tag.len() as int + 1) == v);
}

proof fn lemma_fold_bucket(st: Seq<Seq<Seq<char>>>, b: int, vs: Seq<Seq<char>>)
    requires
        0 <= b < BUCKETS,
        st.len() == BUCKETS,
    ensures
        tsv_fold(st, bucket_lines(tag_name(b), vs).map_values(|l: Seq<char>| strip_cr(l))) == st.update(
            b,
            st[b] + roundtrip_bucket(vs),
        ),
    decreases vs.len(),
{
    let f = |l: Seq<char>| strip_cr(l);
    if vs.len() == 0 {
        assert(bucket_lines(tag_name(b), vs).map_values(f) =~= Seq::<Seq<char>>::empty());
        assert(st[b] + roundtrip_bucket(vs) =~= st[b]);
        assert(st.update(b, st[b]) =~= st);
    } else {
        let init = vs.drop_last();
        lemma_fold_bucket(st, b, init);
        let mid = st.update(b, st[b] + roundtrip_bucket(init));
        if cacheable(vs.last()) {
            let line = tag_name(b) + seq!['\t'] + vs.last();
            let prev = bucket_lines(tag_name(b), init).map_values(f);
            assert(bucket_lines(tag_name(b), vs).map_values(f) =~= prev.push(strip_cr(line)));
            assert(prev.push(strip_cr(line)).drop_last() == prev);
            lemma_strip_cr_tagged(tag_name(b), vs.last());
            let v2 = strip_cr(vs.last());
            assert(!v2.contains('\t')) by {
                if v2.contains('\t') {
                    let k = choose|k: int| 0 <= k < v2.len() && v2[k] == '\t';
                    assert(vs.last()[k] == '\t');
                }
            }
            lemma_apply_tagged(mid, b, v2);
            assert(mid[b].push(v2) =~= st[b] + roundtrip_bucket(vs));
            assert(mid.update(b, mid[b].push(v2)) =~= st.update(b, st[b] + roundtrip_bucket(vs)));
        } else {
            assert(bucket_lines(tag_name(b), vs) == bucket_lines(tag_name(b), init));
            assert(roundtrip_bucket(vs) == roundtrip_bucket(init));
        }
    }
}

/// The catalog after reading back the first `n` sections.
pub open spec fn restored_prefix(bs: Seq<Seq<Seq<char>>>, n: int) -> Seq<Seq<Seq<char>>> {
    Seq::new(BUCKETS as nat, |k: int| if k < n { roundtrip_bucket(bs[k]) } else { Seq::<Seq<char>>::empty() })
}

proof fn lemma_fold_sections(bs: Seq<Seq<Seq<char>>>, n: nat)
    requires
        bs.len() == BUCKETS,
        n <= BUCKETS,
    ensures
        tsv_fold(empty_buckets(), section_lines(bs, n).map_values(|l: Seq<char>| strip_cr(l)))
            == restored_prefix(bs, n as int),
    decreases n,
{
    let f = |l: Seq<char>| strip_cr(l);
    if n == 0 {
        assert(section_lines(bs, n).map_values(f) =~= Seq::<Seq<char>>::empty());
        assert(restored_prefix(bs, 0) =~= empty_buckets());
    } else {
        let m = (n - 1) as nat;
        lemma_fold_sections(bs, m);
        assert(section_lines(bs, n).map_values(f) =~= section_lines(bs, m).map_values(f)
            + bucket_lines(tag_name(m as int), bs[m as int]).map_values(f));
        lemma_fold_concat(
            empty_buckets(),
            section_lines(bs, m).map_values(f),
            bucket_lines(tag_name(m as int), bs[m as int]).map_values(f),
        );
        let st = restored_prefix(bs, m as int);
        lemma_fold_bucket(st, m as int, bs[m as int]);
        assert(st[m as int] + roundtrip_bucket(bs[m as int]) =~= roundtrip_bucket(bs[m as int]));
        assert(st.update(m as int, roundtrip_bucket(bs[m as int])) =~= restored_prefix(bs, n as int));
    }
}

proof fn lemma_lines_no_newline(bs: Seq<Seq<Seq<char>>>, n: nat)
    requires
        n <= BUCKETS,
        bs.len() == BUCKETS,
    ensures
        forall|i: int|
            0 <= i < section_lines(bs, n).len() ==> !(#[trigger] section_lines(bs, n)[i]).contains('\n'),
    decreases n,
{
    if n > 0 {
        let m = (n - 1) as nat;
        lemma_lines_no_newline(bs, m);
        lemma_bucket_no_newline(m as int, bs[m as int]);
        let a = section_lines(bs, m);
        let b = bucket_lines(tag_name(m as int), bs[m as int]);
        assert forall|i: int| 0 <= i < (a + b).len() implies !(#[trigger] (a + b)[i]).contains('\n') by {
            if i < a.len() {
                assert((a + b)[i] == a[i]);
            } else {
                assert((a + b)[i] == b[i - a.len()]);
            }
        }
    }
}

proof fn lemma_bucket_no_newline(b: int, vs: Seq<Seq<char>>)
    requires
        0 <= b < BUCKETS,
    ensures
        forall|i: int|
            0 <= i < bucket_lines(tag_name(b), vs).len() ==> !(#[trigger] bucket_lines(
                tag_name(b),
                vs,
            )[i]).contains('\n'),
    decreases vs.len(),
{
    if vs.len() > 0 {
        lemma_bucket_no_newline(b, vs.drop_last());
        let prev = bucket_lines(tag_name(b), vs.drop_last());
        if cacheable(vs.last()) {
            lemma_tag(b);
            let line = tag_name(b) + seq!['\t'] + vs.last();
            assert forall|i: int| 0 <= i < prev.len() implies (#[trigger] prev.push(line)[i]) == prev[i] by {}
            assert(!line.contains('\n')) by {
                if line.contains('\n') {
                    let k = choose|k: int| 0 <= k < line.len() && line[k] == '\n';
                    if k < tag_name(b).len() {
                        assert(tag_name(b)[k] == '\n');
                    } else if k > tag_name(b).len() {
                        assert(vs.last()[k - tag_name(b).len() - 1] == '\n');
                    }
                }
            }
        }
    }
}

/// Reading back what `to_tsv` writes gives every set again, except for
/// values holding a tab or newline (which are not written) and a trailing
/// `\r` (which line splitting removes).
pub proof fn lemma_tsv_roundtrip(c: &Catalog)
    ensures
        tsv_fold(empty_buckets(), lines_of(unlines(tsv_lines(c@)))) == Seq::new(
            BUCKETS as nat,
            |b: int| roundtrip_bucket(c@[b]),
        ),
{
    let bs = c@;
    let f = |l: Seq<char>| strip_cr(l);
    reveal_strlit("# catalog");
    let h = catalog_header();
    assert(!h.contains('\n'));
    lemma_lines_no_newline(bs, BUCKETS as nat);
    let ls = tsv_lines(bs);
    let sl = section_lines(bs, BUCKETS as nat);
    assert forall|i: int| 0 <= i < ls.len() implies !(#[trigger] ls[i]).contains('\n') by {
        if i > 0 {
            assert(ls[i] == sl[i - 1]);
        }
    }
    lemma_lines_of_unlines(ls);
    assert(ls.map_values(f) =~= seq![strip_cr(h)] + sl.map_values(f));
    assert(strip_cr(h) == h);
    lemma_fold_concat(empty_buckets(), seq![h], sl.map_values(f));
    assert(seq![h].drop_last() =~= Seq::<Seq<char>>::empty());
    assert(h.len() > 0 && h[0] == '#');
    assert(seq![h].last() == h);
    assert(tsv_fold(empty_buckets(), seq![h]) == tsv_apply(tsv_fold(empty_buckets(), seq![h].drop_last()), h));
    assert(tsv_fold(empty_buckets(), seq![h]) == empty_buckets());
    lemma_fold_sections(bs, BUCKETS as nat);
    assert(restored_prefix(bs, BUCKETS as int) =~= Seq::new(BUCKETS as nat, |b: int| roundtrip_bucket(bs[b])));
}

/// A set whose values are all cacheable and none ends in `\r` comes back
/// unchanged.
pub proof fn lemma_roundtrip_bucket_clean(vs: Seq<Seq<char>>)
    requires
        forall|i: int|
            0 <= i < vs.len() ==> cacheable(#[trigger] vs[i]) && !(vs[i].len() > 0 && vs[i].last()
                == '\r'),
    ensures
        roundtrip_bucket(vs) == vs,
    decreases vs.len(),
{
    if vs.len() > 0 {
        let init = vs.drop_last();
        assert forall|i: int| 0 <= i < init.len() implies cacheable(#[trigger] init[i]) && !(
        init[i].len() > 0 && init[i].last() == '\r') by {
            assert(init[i] == vs[i]);
        }
        lemma_roundtrip_bucket_clean(init);
        assert(cacheable(vs[vs.len() - 1]));
        assert(vs == init.push(vs.last()));
    }
}

} // verus!

verus! {

/// The HTTP verbs offered for `route:list --method`.
pub open spec fn http_methods() -> Seq<Seq<char>> {
    seq!["GET"@, "POST"@, "PUT"@, "PATCH"@, "DELETE"@, "OPTIONS"@, "HEAD"@]
}

/// The well-known values for parameter `name` of command `subcmd`.
pub open spec fn catalog_values(
    bs: Seq<Seq<Seq<char>>>,
    subcmd: Seq<char>,
    kind: Kind,
    name: Seq<char>,
) -> Seq<Seq<char>> {
    if name == "model"@ {
        bs[0]
    } else if name == "class"@ && subcmd == "db:seed"@ {
        bs[1]
    } else if name == "provider"@ && subcmd == "vendor:publish"@ {
        bs[2]
    } else if name == "connection"@ {
        bs[4]
    } else if name == "database"@ && kind == Kind::Option {
        bs[5]
    } else if name == "store"@ {
        bs[6]
    } else if name == "disk"@ {
        bs[7]
    } else if name == "guard"@ {
        bs[8]
    } else if name == "config"@ && subcmd == "config:show"@ {
        bs[3]
    } else if name == "filter"@ && subcmd == "test"@ {
        bs[9]
    } else if name == "path"@ && has_prefix(subcmd, "migrate"@) {
        bs[10]
    } else if name == "method"@ && subcmd == "route:list"@ {
        http_methods()
    } else if name == "env"@ {
        bs[11]
    } else if name == "event"@ && subcmd == "make:listener"@ {
        bs[12]
    } else if name == "table"@ {
        bs[13]
    } else if name == "testsuite"@ {
        bs[14]
    } else if (name == "group"@ || name == "exclude-group"@) && subcmd == "test"@ {
        bs[15]
    } else if name == "name"@ && subcmd == "route:list"@ {
        bs[16]
    } else if name == "queue"@ {
        bs[17]
    } else {
        seq![]
    }
}

fn http_method_list() -> (r: Vec<String>)
    ensures
        strs(r) == http_methods(),
{
    let mut r: Vec<String> = Vec::new();
    r.push(String::from_str("GET"));
    r.push(String::from_str("POST"));
    r.push(String::from_str("PUT"));
    r.push(String::from_str("PATCH"));
    r.push(String::from_str("DELETE"));
    r.push(String::from_str("OPTIONS"));
    r.push(String::from_str("HEAD"));
    assert(strs(r) =~= http_methods());
    r
}

impl Catalog {
    /// Values for a given command and argument/option name.
    pub fn values(&self, subcmd: &str, kind: &Kind, name: &str) -> (r: Vec<String>)
        ensures
            strs(r) == catalog_values(self@, subcmd@, *kind, name@),
    {
        let n = str_chars(name);
        let s = str_chars(subcmd);
        let b: usize = if is_lit(&n, "model") {
            0
        } else if is_lit(&n, "class") && is_lit(&s, "db:seed") {
            1
        } else if is_lit(&n, "provider") && is_lit(&s, "vendor:publish") {
            2
        } else if is_lit(&n, "connection") {
            4
        } else if is_lit(&n, "database") && *kind == Kind::Option {
            5
        } else if is_lit(&n, "store") {
            6
        } else if is_lit(&n, "disk") {
            7
        } else if is_lit(&n, "guard") {
            8
        } else if is_lit(&n, "config") && is_lit(&s, "config:show") {
            3
        } else if is_lit(&n, "filter") && is_lit(&s, "test") {
            9
        } else if is_lit(&n, "path") && starts_with(&s, &str_chars("migrate")) {
            10
        } else if is_lit(&n, "method") && is_lit(&s, "route:list") {
            return http_method_list();
        } else if is_lit(&n, "env") {
            11
        } else if is_lit(&n, "event") && is_lit(&s, "make:listener") {
            12
        } else if is_lit(&n, "table") {
            13
        } else if is_lit(&n, "testsuite") {
            14
        } else if (is_lit(&n, "group") || is_lit(&n, "exclude-group")) && is_lit(&s, "test") {
            15
        } else if is_lit(&n, "name") && is_lit(&s, "route:list") {
            16
        } else if is_lit(&n, "queue") {
            17
        } else {
            return Vec::new();
        };
        clone_strings(self.bucket(b))
    }
}

} // verus!
