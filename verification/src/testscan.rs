//! Test identifiers for `test --filter` (class names, PHPUnit test methods —
//! named `test*`, with a `#[Test]` attribute, or after a `@test` docblock —
//! and Pest `it()`/`test()` descriptions), and group names for `test --group`
//! (`#[Group('x')]` attributes and `@group x` docblock tags).

use vstd::prelude::*;
use crate::php::{PhpNode, Tree, trees_of, source_tree, parse_tree, Comment};
use crate::tree::{
    wrapper, sole, kind_is, wraps, text_is, lit_str_of, lit_str, decl_name, decl_name_exec,
    ident_of, ident_exec, last_segment, last_segment_exec, last_segment_is, eq_ignore_ascii_case,
    arg_value, nth_arg, nth_arg_exec,
};
use crate::text::{str_chars, has_prefix, starts_with, is_lit};
use crate::bytes::{lossy_text, utf8_lossy};
use crate::sorted::strs_of;
use crate::scan::{test_tag_from, contains_test_tag, groups_from, collect_group_tags};
use crate::extract::{pre_order, forest_pre, lemma_forest_pre_step};

verus! {

broadcast use vstd::string::group_string_axioms;

/// The non-empty string literals among argument values, in order.
pub open spec fn arg_strings(args: Seq<Tree>) -> Seq<Seq<char>>
    decreases args.len(),
{
    if args.len() == 0 {
        seq![]
    } else {
        let before = arg_strings(args.drop_last());
        match arg_value(args.last()) {
            Some(v) => match lit_str_of(v) {
                Some(s) => if s.len() > 0 {
                    before.push(s)
                } else {
                    before
                },
                None => before,
            },
            None => before,
        }
    }
}

/// The attribute's name ends in `name`, ignoring ASCII case.
pub open spec fn attr_named(attr: Tree, name: Seq<char>) -> bool {
    attr.kind == "Attribute"@ && attr.kids.len() >= 1 && eq_ignore_ascii_case(last_segment(attr.kids[0].text), name)
}

/// The groups of the `#[Group(...)]` attributes of one attribute list.
pub open spec fn attrs_groups(attrs: Seq<Tree>) -> Seq<Seq<char>>
    decreases attrs.len(),
{
    if attrs.len() == 0 {
        seq![]
    } else {
        let a = attrs.last();
        attrs_groups(attrs.drop_last()) + if attr_named(a, "group"@) && a.kids.len() >= 2
            && a.kids[1].kind == "ArgumentList"@ {
            arg_strings(a.kids[1].kids)
        } else {
            seq![]
        }
    }
}

/// The groups of the `#[Group(...)]` attributes among a declaration's
/// attribute lists.
pub open spec fn group_attrs(kids: Seq<Tree>) -> Seq<Seq<char>>
    decreases kids.len(),
{
    if kids.len() == 0 {
        seq![]
    } else {
        let k = kids.last();
        group_attrs(kids.drop_last()) + if k.kind == "AttributeList"@ {
            attrs_groups(k.kids)
        } else {
            seq![]
        }
    }
}

/// Some attribute list among `kids` holds a `#[Test]` attribute.
pub open spec fn has_test_attr(kids: Seq<Tree>) -> bool {
    exists|i: int, j: int|
        0 <= i < kids.len() && kids[i].kind == "AttributeList"@ && 0 <= j < kids[i].kids.len()
            && attr_named(#[trigger] kids[i].kids[j], "test"@)
}

/// Of the docblocks ending at or before `start`, the one that ends last
/// (the later one in the listing, where two end together).
pub open spec fn last_docblock(ds: Seq<(u32, bool)>, start: u32) -> Option<(u32, bool)>
    decreases ds.len(),
{
    if ds.len() == 0 {
        None
    } else {
        let prev = last_docblock(ds.drop_last(), start);
        let d = ds.last();
        if d.0 <= start {
            match prev {
                Some(p) => if d.0 >= p.0 {
                    Some(d)
                } else {
                    prev
                },
                None => Some(d),
            }
        } else {
            prev
        }
    }
}

/// The closest docblock before `start` is a `@test` one, and lies after the
/// previous method (so it is this method's).
pub open spec fn test_docblock_before(start: u32, prev_end: u32, ds: Seq<(u32, bool)>) -> bool {
    match last_docblock(ds, start) {
        Some(d) => d.1 && d.0 > prev_end,
        None => false,
    }
}

/// A method name that marks a PHPUnit test: `test` and more.
pub open spec fn test_method_name(name: Seq<char>) -> bool {
    has_prefix(name, "test"@) && name.len() > "test"@.len()
}

/// Names found, groups found, and the end of the last method seen.
pub type TestState = (Seq<Seq<char>>, Seq<Seq<char>>, u32);

/// The scan at one node.
pub open spec fn test_step(st: TestState, n: Tree, ds: Seq<(u32, bool)>) -> TestState {
    if n.kind == "Class"@ {
        (
            match decl_name(n) {
                Some(nm) => st.0.push(nm),
                None => st.0,
            },
            st.1 + group_attrs(n.kids),
            st.2,
        )
    } else if n.kind == "Method"@ {
        let name = match decl_name(n) {
            Some(nm) => nm,
            None => seq![],
        };
        let is_test = test_method_name(name) || has_test_attr(n.kids) || test_docblock_before(
            n.start,
            st.2,
            ds,
        );
        (if is_test {
            st.0.push(name)
        } else {
            st.0
        }, st.1 + group_attrs(n.kids), n.end)
    } else if n.kind == "FunctionCall"@ && n.kids.len() == 2 {
        match ident_of(n.kids[0]) {
            Some(f) => if last_segment(f) == "it"@ || last_segment(f) == "test"@ {
                match nth_arg(n.kids[1], 0) {
                    Some(a) => match lit_str_of(a) {
                        Some(d) => if d.len() > 0 {
                            (st.0.push(d), st.1, st.2)
                        } else {
                            st
                        },
                        None => st,
                    },
                    None => st,
                }
            } else {
                st
            },
            None => st,
        }
    } else {
        st
    }
}

/// The scan over a sequence of nodes.
pub open spec fn test_fold(st: TestState, nodes: Seq<Tree>, ds: Seq<(u32, bool)>) -> TestState
    decreases nodes.len(),
{
    if nodes.len() == 0 {
        st
    } else {
        test_step(test_fold(st, nodes.drop_last(), ds), nodes.last(), ds)
    }
}

pub proof fn lemma_test_fold_append(st: TestState, a: Seq<Tree>, b: Seq<Tree>, ds: Seq<(u32, bool)>)
    ensures
        test_fold(st, a + b, ds) == test_fold(test_fold(st, a, ds), b, ds),
    decreases b.len(),
{
    if b.len() == 0 {
        assert(a + b == a);
    } else {
        lemma_test_fold_append(st, a, b.drop_last(), ds);
        assert((a + b).drop_last() == a + b.drop_last());
    }
}

/// Each comment's end and whether it holds a `@test` tag.
pub open spec fn docblocks_of(cs: Seq<(u32, Seq<char>)>) -> Seq<(u32, bool)> {
    cs.map_values(|c: (u32, Seq<char>)| (c.0, test_tag_from(c.1, 0)))
}

/// The `@group` names of the comments, in order.
pub open spec fn comment_groups(cs: Seq<(u32, Seq<char>)>) -> Seq<Seq<char>>
    decreases cs.len(),
{
    if cs.len() == 0 {
        seq![]
    } else {
        comment_groups(cs.drop_last()) + groups_from(cs.last().1, 0)
    }
}

/// What a test file yields: its test names and its group names, in the
/// order found (docblock groups first).
pub open spec fn scan_tests_of(text: Seq<char>) -> (Seq<Seq<char>>, Seq<Seq<char>>) {
    let cs = crate::php::php_syntax(text).1;
    let groups = comment_groups(cs);
    match source_tree(text) {
        Some(t) => {
            let st = test_fold((seq![], groups, 0), pre_order(t), docblocks_of(cs));
            (st.0, st.1)
        },
        None => (seq![], groups),
    }
}


fn push_all(out: &mut Vec<String>, more: Vec<String>)
    ensures
        strs_of(final(out)@) == strs_of(old(out)@) + strs_of(more@),
{
    let ghost before = strs_of(out@);
    let mut k: usize = 0;
    while k < more.len()
        invariant
            k <= more.len(),
            strs_of(out@) == before + strs_of(more@).take(k as int),
        decreases more.len() - k,
    {
        let ghost b = out@;
        out.push(more[k].clone());
        assert(strs_of(out@) == strs_of(b).push(more@[k as int]@));
        assert(strs_of(more@).take(k + 1) == strs_of(more@).take(k as int).push(more@[k as int]@));
        k = k + 1;
    }
    assert(strs_of(more@).take(more.len() as int) == strs_of(more@));
}

fn arg_strings_exec(args: &Vec<PhpNode>) -> (r: Vec<String>)
    ensures
        strs_of(r@) == arg_strings(trees_of(args@)),
{
    let ghost ts = trees_of(args@);
    let mut out: Vec<String> = Vec::new();
    assert(strs_of(out@) =~= Seq::<Seq<char>>::empty());
    let mut i: usize = 0;
    while i < args.len()
        invariant
            i <= args.len(),
            ts == trees_of(args@),
            strs_of(out@) == arg_strings(ts.take(i as int)),
        decreases args.len() - i,
    {
        assert(ts.take(i + 1).drop_last() == ts.take(i as int));
        assert(ts.take(i + 1).last() == args@[i as int]@);
        match crate::tree::arg_value_exec(&args[i]) {
            Some(v) => match lit_str(v) {
                Some(s) => {
                    if !s.as_str().is_empty() {
                        let ghost before = out@;
                        out.push(s);
                        assert(strs_of(out@) == strs_of(before).push(out@.last()@));
                    }
                },
                None => {},
            },
            None => {},
        }
        i = i + 1;
    }
    assert(ts.take(args.len() as int) == ts);
    out
}

fn attr_named_exec(attr: &PhpNode, name: &str) -> (r: bool)
    ensures
        r == attr_named(attr@, name@),
{
    if kind_is(attr, "Attribute") && attr.children.len() >= 1 {
        assert(attr@.kids[0] == attr.children@[0]@);
        last_segment_is(&attr.children[0].text, name)
    } else {
        false
    }
}

fn attrs_groups_exec(attrs: &Vec<PhpNode>) -> (r: Vec<String>)
    ensures
        strs_of(r@) == attrs_groups(trees_of(attrs@)),
{
    let ghost ts = trees_of(attrs@);
    let mut out: Vec<String> = Vec::new();
    assert(strs_of(out@) =~= Seq::<Seq<char>>::empty());
    let mut i: usize = 0;
    while i < attrs.len()
        invariant
            i <= attrs.len(),
            ts == trees_of(attrs@),
            strs_of(out@) == attrs_groups(ts.take(i as int)),
        decreases attrs.len() - i,
    {
        assert(ts.take(i + 1).drop_last() == ts.take(i as int));
        let a = &attrs[i];
        assert(ts.take(i + 1).last() == a@);
        let ghost before = strs_of(out@);
        if attr_named_exec(a, "group") && a.children.len() >= 2 && kind_is(&a.children[1], "ArgumentList") {
            assert(a@.kids[1] == a.children@[1]@);
            assert(a@.kids[1].kids == trees_of(a.children@[1].children@));
            let more = arg_strings_exec(&a.children[1].children);
            push_all(&mut out, more);
        } else {
            assert(before + Seq::<Seq<char>>::empty() == before);
        }
        i = i + 1;
    }
    assert(ts.take(attrs.len() as int) == ts);
    out
}

fn collect_group_attrs(kids: &Vec<PhpNode>) -> (r: Vec<String>)
    ensures
        strs_of(r@) == group_attrs(trees_of(kids@)),
{
    let ghost ts = trees_of(kids@);
    let mut out: Vec<String> = Vec::new();
    assert(strs_of(out@) =~= Seq::<Seq<char>>::empty());
    let mut i: usize = 0;
    while i < kids.len()
        invariant
            i <= kids.len(),
            ts == trees_of(kids@),
            strs_of(out@) == group_attrs(ts.take(i as int)),
        decreases kids.len() - i,
    {
        assert(ts.take(i + 1).drop_last() == ts.take(i as int));
        let k = &kids[i];
        assert(ts.take(i + 1).last() == k@);
        let ghost before = strs_of(out@);
        if kind_is(k, "AttributeList") {
            assert(k@.kids == trees_of(k.children@));
            let more = attrs_groups_exec(&k.children);
            push_all(&mut out, more);
        } else {
            assert(before + Seq::<Seq<char>>::empty() == before);
        }
        i = i + 1;
    }
    assert(ts.take(kids.len() as int) == ts);
    out
}

fn has_test_attribute(kids: &Vec<PhpNode>) -> (r: bool)
    ensures
        r == has_test_attr(trees_of(kids@)),
{
    let ghost ts = trees_of(kids@);
    let mut i: usize = 0;
    while i < kids.len()
        invariant
            i <= kids.len(),
            ts == trees_of(kids@),
            forall|a: int, b: int|
                0 <= a < i && ts[a].kind == "AttributeList"@ && 0 <= b < ts[a].kids.len() ==> !attr_named(
                    #[trigger] ts[a].kids[b],
                    "test"@,
                ),
        decreases kids.len() - i,
    {
        let k = &kids[i];
        assert(ts[i as int] == k@);
        if kind_is(k, "AttributeList") {
            let mut j: usize = 0;
            while j < k.children.len()
                invariant
                    j <= k.children.len(),
                    i < kids.len(),
                    ts == trees_of(kids@),
                    ts[i as int] == k@,
                    k@.kind == "AttributeList"@,
                    forall|b: int| 0 <= b < j ==> !attr_named(#[trigger] k@.kids[b], "test"@),
                decreases k.children.len() - j,
            {
                assert(k@.kids[j as int] == k.children@[j as int]@);
                if attr_named_exec(&k.children[j], "test") {
                    assert(attr_named(ts[i as int].kids[j as int], "test"@));
                    return true;
                }
                j = j + 1;
            }
        }
        i = i + 1;
    }
    false
}

fn last_docblock_exec(ds: &Vec<(u32, bool)>, start: u32) -> (r: Option<(u32, bool)>)
    ensures
        r == last_docblock(ds@, start),
{
    let mut best: Option<(u32, bool)> = None;
    let mut i: usize = 0;
    while i < ds.len()
        invariant
            i <= ds.len(),
            best == last_docblock(ds@.take(i as int), start),
        decreases ds.len() - i,
    {
        assert(ds@.take(i + 1).drop_last() == ds@.take(i as int));
        assert(ds@.take(i + 1).last() == ds@[i as int]);
        let d = ds[i];
        if d.0 <= start {
            best = match best {
                Some(p) => if d.0 >= p.0 {
                    Some(d)
                } else {
                    Some(p)
                },
                None => Some(d),
            };
        }
        i = i + 1;
    }
    assert(ds@.take(ds.len() as int) == ds@);
    best
}

/// Whether the method starting at `start` carries a `@test` docblock: the
/// closest docblock ending before it is a test one and ends after the
/// previous method (`prev_end`). `docblocks` holds each docblock's end
/// offset and whether it marks a test.
pub fn preceded_by_test_docblock(start: u32, prev_end: u32, docblocks: &Vec<(u32, bool)>) -> (r: bool)
    ensures
        r == test_docblock_before(start, prev_end, docblocks@),
{
    match last_docblock_exec(docblocks, start) {
        Some(d) => d.1 && d.0 > prev_end,
        None => false,
    }
}

/// The scan's state: names and groups found, end of the last method.
pub struct TestScan {
    pub names: Vec<String>,
    pub groups: Vec<String>,
    pub prev_end: u32,
}

impl View for TestScan {
    type V = TestState;

    open spec fn view(&self) -> TestState {
        (strs_of(self.names@), strs_of(self.groups@), self.prev_end)
    }
}

fn test_node(n: &PhpNode, st: &mut TestScan, ds: &Vec<(u32, bool)>)
    ensures
        final(st)@ == test_step(old(st)@, n@, ds@),
{
    assert(n@.kids == trees_of(n.children@));
    if kind_is(n, "Class") {
        match decl_name_exec(n) {
            Some(nm) => {
                let ghost before = st.names@;
                st.names.push(nm.clone());
                assert(strs_of(st.names@) == strs_of(before).push(nm@));
            },
            None => {},
        }
        let more = collect_group_attrs(&n.children);
        push_all(&mut st.groups, more);
    } else if kind_is(n, "Method") {
        let name = match decl_name_exec(n) {
            Some(nm) => nm.clone(),
            None => String::new(),
        };
        let nc = str_chars(name.as_str());
        let pre = str_chars("test");
        let by_name = starts_with(&nc, &pre) && nc.len() > pre.len();
        let is_test = by_name || has_test_attribute(&n.children) || preceded_by_test_docblock(n.start, st.prev_end, ds);
        if is_test {
            let ghost before = st.names@;
            st.names.push(name);
            assert(strs_of(st.names@) == strs_of(before).push(nc@));
        }
        let more = collect_group_attrs(&n.children);
        push_all(&mut st.groups, more);
        st.prev_end = n.end;
    } else if kind_is(n, "FunctionCall") && n.children.len() == 2 {
        assert(n@.kids[0] == n.children@[0]@);
        assert(n@.kids[1] == n.children@[1]@);
        match ident_exec(&n.children[0]) {
            Some(f) => {
                let fc = str_chars(f.as_str());
                let seg = last_segment_exec(&fc);
                if is_lit(&seg, "it") || is_lit(&seg, "test") {
                    match nth_arg_exec(&n.children[1], 0) {
                        Some(a) => match lit_str(a) {
                            Some(d) => {
                                if !d.as_str().is_empty() {
                                    let ghost before = st.names@;
                                    st.names.push(d);
                                    assert(strs_of(st.names@) == strs_of(before).push(st.names@.last()@));
                                }
                            },
                            None => {},
                        },
                        None => {},
                    }
                }
            },
            None => {},
        }
    }
}

pub fn test_walk(n: &PhpNode, st: &mut TestScan, ds: &Vec<(u32, bool)>)
    ensures
        final(st)@ == test_fold(old(st)@, pre_order(n@), ds@),
    decreases n,
{
    let ghost s0 = st@;
    test_node(n, st, ds);
    proof {
        assert(seq![n@].drop_last() == Seq::<Tree>::empty());
        assert(seq![n@].last() == n@);
        assert(test_fold(s0, Seq::<Tree>::empty(), ds@) == s0);
        assert(n@.kids.take(0) == Seq::<Tree>::empty());
        assert(seq![n@] + forest_pre(n@.kids.take(0)) == seq![n@]);
    }
    let mut i: usize = 0;
    while i < n.children.len()
        invariant
            i <= n.children.len(),
            st@ == test_fold(s0, seq![n@] + forest_pre(n@.kids.take(i as int)), ds@),
        decreases n.children.len() - i,
    {
        test_walk(&n.children[i], st, ds);
        proof {
            lemma_forest_pre_step(n@.kids, i as int);
            let a = seq![n@] + forest_pre(n@.kids.take(i as int));
            lemma_test_fold_append(s0, a, pre_order(n@.kids[i as int]), ds@);
            assert(a + pre_order(n@.kids[i as int]) == seq![n@] + forest_pre(n@.kids.take(i + 1)));
        }
        i = i + 1;
    }
    assert(n@.kids.take(n.children.len() as int) == n@.kids);
}

/// The test names and group names of one test file (see `scan_tests_of`).
pub fn scan_tests(src: &[u8]) -> (r: (Vec<String>, Vec<String>))
    ensures
        (strs_of(r.0@), strs_of(r.1@)) == scan_tests_of(lossy_text(src@)),
{
    let text = utf8_lossy(src);
    let (tree, comments) = parse_tree(text.as_str());
    let ghost cs = comments@.map_values(|c: Comment| c@);
    let mut groups: Vec<String> = Vec::new();
    assert(strs_of(groups@) =~= Seq::<Seq<char>>::empty());
    let mut ds: Vec<(u32, bool)> = Vec::new();
    let mut i: usize = 0;
    while i < comments.len()
        invariant
            i <= comments.len(),
            cs == comments@.map_values(|c: Comment| c@),
            strs_of(groups@) == comment_groups(cs.take(i as int)),
            ds@ == docblocks_of(cs.take(i as int)),
        decreases comments.len() - i,
    {
        assert(cs.take(i + 1).drop_last() == cs.take(i as int));
        assert(cs.take(i + 1).last() == comments@[i as int]@);
        let c = &comments[i];
        let more = collect_group_tags(c.text.as_str());
        push_all(&mut groups, more);
        let is_test = contains_test_tag(c.text.as_str());
        ds.push((c.end, is_test));
        assert(docblocks_of(cs.take(i + 1)) =~= docblocks_of(cs.take(i as int)).push((c.end, is_test)));
        i = i + 1;
    }
    assert(cs.take(comments.len() as int) == cs);
    match tree {
        Some(t) => {
            let mut st = TestScan { names: Vec::new(), groups, prev_end: 0 };
            assert(strs_of(st.names@) =~= Seq::<Seq<char>>::empty());
            test_walk(&t, &mut st, &ds);
            (st.names, st.groups)
        },
        None => {
            let names: Vec<String> = Vec::new();
            assert(strs_of(names@) =~= Seq::<Seq<char>>::empty());
            (names, groups)
        },
    }
}

} // verus!
