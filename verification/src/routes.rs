//! Route names of a routes file: `->name('x')` / `Route::name('x')`, with
//! the names of `Route::name('admin.')->group(fn)` composed into the names
//! declared inside the group.

use vstd::prelude::*;
use crate::php::{PhpNode, Tree, trees_of, source_tree, parse_tree};
use crate::tree::{
    wrapper, sole, kind_is, wraps, lit_str_of, lit_str, member_name, member_name_is, nth_arg,
    nth_arg_exec, arg_value, unparen, unparen_exec,
};
use crate::text::{str_chars, push_str};
use crate::bytes::{lossy_text, utf8_lossy};
use crate::sorted::strs_of;

verus! {

broadcast use vstd::string::group_string_axioms;

/// One call of a route chain: `name('x')` / `as('x')` names, `group(body)`
/// gives the group's body.
pub open spec fn chain_part(call: Tree, name: Option<Seq<char>>, group: Option<Tree>) -> (Option<Seq<char>>, Option<Tree>) {
    match member_name(call.kids[1]) {
        Some(m) => if m == "name"@ || m == "as"@ {
            match nth_arg(call.kids[2], 0) {
                Some(a) => match lit_str_of(a) {
                    Some(n) => (Some(n), group),
                    None => (name, group),
                },
                None => (name, group),
            }
        } else if m == "group"@ {
            (name, nth_arg(call.kids[2], 0))
        } else {
            (name, group)
        },
        None => (name, group),
    }
}

/// The name and group body of a fluent route chain, walking from the
/// outermost call inwards (the innermost `name()` and `group()` win): method
/// calls lead to their object, a static call ends the chain.
pub open spec fn chain(cur: Tree, name: Option<Seq<char>>, group: Option<Tree>) -> (Option<Seq<char>>, Option<Tree>)
    decreases cur,
{
    if wrapper(cur, "Expression"@) {
        let v = sole(cur);
        if wrapper(v, "Parenthesized"@) {
            chain(sole(v), name, group)
        } else if wrapper(v, "Call"@) && sole(v).kind == "MethodCall"@ && sole(v).kids.len() == 3 {
            let p = chain_part(sole(v), name, group);
            chain(sole(v).kids[0], p.0, p.1)
        } else if wrapper(v, "Call"@) && sole(v).kind == "StaticMethodCall"@ && sole(v).kids.len() == 3 {
            chain_part(sole(v), name, group)
        } else {
            (name, group)
        }
    } else {
        (name, group)
    }
}

/// The statements of a closure (possibly in parentheses).
pub open spec fn closure_stmts(body: Tree) -> Option<Seq<Tree>> {
    let u = unparen(body);
    if wrapper(u, "Expression"@) && sole(u).kind == "Closure"@ && sole(u).kids.len() > 0
        && sole(u).kids.last().kind == "Block"@ {
        Some(sole(u).kids.last().kids)
    } else {
        None
    }
}

pub proof fn lemma_nth_arg_within(list: Tree, i: int)
    ensures
        nth_arg(list, i) matches Some(a) ==> decreases_to!(list => a),
{
    if nth_arg(list, i) is Some {
        let arg = list.kids[i];
        assert(decreases_to!(list => arg));
        assert(decreases_to!(arg => sole(arg)));
        let inner = sole(arg);
        assert(decreases_to!(inner => inner.kids[inner.kids.len() - 1]));
    }
}

pub proof fn lemma_chain_part_within(call: Tree, name: Option<Seq<char>>, group: Option<Tree>)
    requires
        call.kids.len() == 3,
    ensures
        chain_part(call, name, group).1 matches Some(g) ==> group == Some(g) || decreases_to!(call => g),
{
    lemma_nth_arg_within(call.kids[2], 0);
    if let Some(a) = nth_arg(call.kids[2], 0) {
        assert(decreases_to!(call => call.kids[2]));
    }
}

pub proof fn lemma_chain_within(cur: Tree, name: Option<Seq<char>>, group: Option<Tree>)
    ensures
        chain(cur, name, group).1 matches Some(g) ==> group == Some(g) || decreases_to!(cur => g),
    decreases cur,
{
    if wrapper(cur, "Expression"@) {
        let v = sole(cur);
        if wrapper(v, "Parenthesized"@) {
            lemma_chain_within(sole(v), name, group);
        } else if wrapper(v, "Call"@) && sole(v).kind == "MethodCall"@ && sole(v).kids.len() == 3 {
            let mc = sole(v);
            let p = chain_part(mc, name, group);
            lemma_chain_part_within(mc, name, group);
            lemma_chain_within(mc.kids[0], p.0, p.1);
        } else if wrapper(v, "Call"@) && sole(v).kind == "StaticMethodCall"@ && sole(v).kids.len() == 3 {
            lemma_chain_part_within(sole(v), name, group);
        }
    }
}

pub proof fn lemma_unparen_within(e: Tree)
    ensures
        unparen(e) == e || decreases_to!(e => unparen(e)),
    decreases e,
{
    if wrapper(e, "Expression"@) && wrapper(sole(e), "Parenthesized"@) {
        lemma_unparen_within(sole(sole(e)));
    }
}

pub proof fn lemma_closure_within(body: Tree)
    ensures
        closure_stmts(body) matches Some(stmts) ==> decreases_to!(body => stmts),
{
    lemma_unparen_within(body);
}


/// The route names declared by statements under a name prefix, in order:
/// expression statements, blocks, and namespace bodies.
pub open spec fn route_stmts(stmts: Seq<Tree>, prefix: Seq<char>) -> Seq<Seq<char>>
    decreases stmts,
{
    if stmts.len() == 0 {
        seq![]
    } else {
        let s = stmts[0];
        let here = if wrapper(s, "Statement"@) && sole(s).kind == "ExpressionStatement"@ && sole(s).kids.len() >= 1 {
            route_expr(sole(s).kids[0], prefix)
        } else if wrapper(s, "Statement"@) && sole(s).kind == "Block"@ {
            route_stmts(sole(s).kids, prefix)
        } else if wrapper(s, "Statement"@) && sole(s).kind == "Namespace"@ && sole(s).kids.len() > 0
            && wrapper(sole(s).kids.last(), "NamespaceBody"@) {
            route_stmts(sole(sole(s).kids.last()).kids, prefix)
        } else {
            seq![]
        };
        here + route_stmts(stmts.drop_first(), prefix)
    }
}

/// The route names one fluent chain declares: a group's names under the
/// composed prefix, or else the chain's own full name (when not empty).
pub open spec fn route_expr(expr: Tree, prefix: Seq<char>) -> Seq<Seq<char>>
    decreases expr,
{
    let c = chain(expr, None, None);
    match c.1 {
        Some(body) => {
            let composed = match c.0 {
                Some(n) => prefix + n,
                None => prefix,
            };
            match closure_stmts(body) {
                Some(stmts) => {
                    proof {
                        lemma_chain_within(expr, None, None);
                        lemma_closure_within(body);
                    }
                    route_stmts(stmts, composed)
                },
                None => seq![],
            }
        },
        None => match c.0 {
            Some(n) => if (prefix + n).len() > 0 {
                seq![prefix + n]
            } else {
                seq![]
            },
            None => seq![],
        },
    }
}

/// The route names a routes file declares, in order.
pub open spec fn route_names_of(text: Seq<char>) -> Seq<Seq<char>> {
    match source_tree(text) {
        Some(t) => route_stmts(t.kids, seq![]),
        None => seq![],
    }
}

pub open spec fn chain_view(p: (Option<String>, Option<&PhpNode>)) -> (Option<Seq<char>>, Option<Tree>) {
    (
        crate::php::opt_view(p.0),
        match p.1 {
            Some(g) => Some(g@),
            None => None,
        },
    )
}

fn part_exec<'a>(call: &'a PhpNode, name: Option<String>, group: Option<&'a PhpNode>) -> (r: (Option<String>, Option<&'a PhpNode>))
    requires
        call.children.len() == 3,
    ensures
        chain_view(r) == chain_part(call@, crate::php::opt_view(name), match group {
            Some(g) => Some(g@),
            None => None,
        }),
{
    assert(call@.kids[1] == call.children@[1]@);
    assert(call@.kids[2] == call.children@[2]@);
    if member_name_is(&call.children[1], "name") || member_name_is(&call.children[1], "as") {
        match nth_arg_exec(&call.children[2], 0) {
            Some(a) => match lit_str(a) {
                Some(n) => (Some(n), group),
                None => (name, group),
            },
            None => (name, group),
        }
    } else if member_name_is(&call.children[1], "group") {
        (name, nth_arg_exec(&call.children[2], 0))
    } else {
        (name, group)
    }
}

fn chain_exec<'a>(cur: &'a PhpNode, name: Option<String>, group: Option<&'a PhpNode>) -> (r: (Option<String>, Option<&'a PhpNode>))
    ensures
        chain_view(r) == chain(cur@, crate::php::opt_view(name), match group {
            Some(g) => Some(g@),
            None => None,
        }),
    decreases cur,
{
    if !wraps(cur, "Expression") {
        return (name, group);
    }
    let v = &cur.children[0];
    assert(sole(cur@) == v@);
    if wraps(v, "Parenthesized") {
        return chain_exec(&v.children[0], name, group);
    }
    if wraps(v, "Call") && kind_is(&v.children[0], "MethodCall") && v.children[0].children.len() == 3 {
        let mc = &v.children[0];
        assert(sole(v@) == mc@);
        assert(mc@.kids[0] == mc.children@[0]@);
        let (n2, g2) = part_exec(mc, name, group);
        return chain_exec(&mc.children[0], n2, g2);
    }
    if wraps(v, "Call") && kind_is(&v.children[0], "StaticMethodCall") && v.children[0].children.len() == 3 {
        assert(sole(v@) == v.children@[0]@);
        return part_exec(&v.children[0], name, group);
    }
    (name, group)
}

fn append_names(out: &mut Vec<String>, more: Vec<String>)
    ensures
        strs_of(final(out)@) == strs_of(old(out)@) + strs_of(more@),
{
    let ghost before = strs_of(out@);
    let mut k: usize = 0;
    while k < more.len()
        invariant
            k <= more.len(),
            strs_of(out@) == before + strs_of(more@).take(k as int),
        decreases more.len() - k,
    {
        let ghost b = out@;
        out.push(more[k].clone());
        assert(strs_of(out@) == strs_of(b).push(more@[k as int]@));
        assert(strs_of(more@).take(k + 1) == strs_of(more@).take(k as int).push(more@[k as int]@));
        k = k + 1;
    }
    assert(strs_of(more@).take(more.len() as int) == strs_of(more@));
}

fn no_names() -> (r: Vec<String>)
    ensures
        strs_of(r@) == Seq::<Seq<char>>::empty(),
{
    let r: Vec<String> = Vec::new();
    assert(strs_of(r@) =~= Seq::<Seq<char>>::empty());
    r
}

pub fn scan_route_expr(expr: &PhpNode, prefix: &String) -> (r: Vec<String>)
    ensures
        strs_of(r@) == route_expr(expr@, prefix@),
    decreases expr@,
{
    let (name, group) = chain_exec(expr, None, None);
    match group {
        Some(body) => {
            let mut composed = prefix.clone();
            match &name {
                Some(n) => push_str(&mut composed, n.as_str()),
                None => {},
            }
            let u = unparen_exec(body);
            if wraps(u, "Expression") && kind_is(&u.children[0], "Closure") && u.children[0].children.len() > 0
                && kind_is(&u.children[0].children[u.children[0].children.len() - 1], "Block") {
                let c = &u.children[0];
                let blk = &c.children[c.children.len() - 1];
                proof {
                    assert(sole(u@) == c@);
                    assert(c@.kids.last() == blk@);
                    assert(blk@.kids == trees_of(blk.children@));
                    lemma_chain_within(expr@, None, None);
                    lemma_closure_within(body@);
                }
                scan_route_stmts(&blk.children, &composed)
            } else {
                no_names()
            }
        },
        None => match name {
            Some(n) => {
                let mut full = prefix.clone();
                push_str(&mut full, n.as_str());
                if full.as_str().is_empty() {
                    no_names()
                } else {
                    let mut out: Vec<String> = Vec::new();
                    out.push(full);
                    assert(strs_of(out@) =~= seq![out@[0]@]);
                    out
                }
            },
            None => no_names(),
        },
    }
}

pub fn scan_route_stmts(stmts: &Vec<PhpNode>, prefix: &String) -> (r: Vec<String>)
    ensures
        strs_of(r@) == route_stmts(trees_of(stmts@), prefix@),
    decreases trees_of(stmts@),
{
    let ghost ts = trees_of(stmts@);
    let mut out = no_names();
    assert(ts.skip(0) == ts);
    let mut i: usize = 0;
    while i < stmts.len()
        invariant
            i <= stmts.len(),
            ts == trees_of(stmts@),
            strs_of(out@) + route_stmts(ts.skip(i as int), prefix@) == route_stmts(ts, prefix@),
        decreases stmts.len() - i,
    {
        let s = &stmts[i];
        let ghost rest = ts.skip(i as int);
        assert(rest[0] == s@);
        assert(ts[i as int] == s@);
        assert(rest.drop_first() == ts.skip(i + 1));
        let ghost before = strs_of(out@);
        if wraps(s, "Statement") && kind_is(&s.children[0], "ExpressionStatement") && s.children[0].children.len() >= 1 {
            let es = &s.children[0];
            proof {
                assert(sole(s@) == es@);
                assert(es@.kids[0] == es.children@[0]@);
                assert(decreases_to!(ts => ts[i as int]));
            }
            let more = scan_route_expr(&es.children[0], prefix);
            append_names(&mut out, more);
        } else if wraps(s, "Statement") && kind_is(&s.children[0], "Block") {
            let b = &s.children[0];
            proof {
                assert(sole(s@) == b@);
                assert(b@.kids == trees_of(b.children@));
                assert(decreases_to!(ts => ts[i as int]));
            }
            let more = scan_route_stmts(&b.children, prefix);
            append_names(&mut out, more);
        } else if wraps(s, "Statement") && kind_is(&s.children[0], "Namespace") && s.children[0].children.len() > 0
            && wraps(&s.children[0].children[s.children[0].children.len() - 1], "NamespaceBody") {
            let n = &s.children[0];
            let body = &n.children[n.children.len() - 1];
            let inner = &body.children[0];
            proof {
                assert(sole(s@) == n@);
                assert(n@.kids.last() == body@);
                assert(sole(body@) == inner@);
                assert(inner@.kids == trees_of(inner.children@));
                assert(decreases_to!(ts => ts[i as int]));
            }
            let more = scan_route_stmts(&inner.children, prefix);
            append_names(&mut out, more);
        } else {
            assert(before + Seq::<Seq<char>>::empty() == before);
        }
        i = i + 1;
    }
    assert(ts.skip(stmts.len() as int) == Seq::<Tree>::empty());
    assert(strs_of(out@) + Seq::<Seq<char>>::empty() == strs_of(out@));
    out
}

/// The route names a routes file declares, in order.
pub fn route_names_in(src: &[u8]) -> (r: Vec<String>)
    ensures
        strs_of(r@) == route_names_of(lossy_text(src@)),
{
    let text = utf8_lossy(src);
    let (tree, _comments) = parse_tree(text.as_str());
    match tree {
        Some(t) => {
            assert(t@.kids == trees_of(t.children@));
            let prefix = String::new();
            scan_route_stmts(&t.children, &prefix)
        },
        None => no_names(),
    }
}

} // verus!
