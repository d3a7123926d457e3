//! What PHP files of a project declare: class names with their namespace,
//! and the keys and queue names of configuration files.

use vstd::prelude::*;
use crate::php::{PhpNode, Tree, trees_of, source_tree, parse_tree};
use crate::tree::{
    wrapper, sole, kind_is, wraps, lit_str_of, lit_str, decl_name, decl_name_exec, unparen,
    unparen_exec, array_elements, array_elements_exec, key_value, key_value_exec, ident_of,
    ident_exec, last_segment, last_segment_is, eq_ignore_ascii_case, nth_arg, nth_arg_exec,
};
use crate::text::{str_chars, push_str, push_chars, string_of};
use crate::bytes::{lossy_text, utf8_lossy};
use crate::sorted::{strs_of, sorted_set, sorted_set_exec};

verus! {

broadcast use vstd::string::group_string_axioms;

// --- class names -------------------------------------------------------------

/// A class name within a namespace.
pub open spec fn qualify(ns: Seq<char>, name: Seq<char>) -> Seq<char> {
    if ns.len() == 0 {
        name
    } else {
        ns + seq!['\\'] + name
    }
}

/// The name a namespace declaration gives, or the empty name.
pub open spec fn namespace_name(ns: Tree) -> Seq<char> {
    if ns.kids.len() >= 2 && ns.kids[1].kind == "Identifier"@ {
        ns.kids[1].text
    } else {
        seq![]
    }
}

/// The full names of the classes declared among statements, in order,
/// looking into namespaces.
pub open spec fn fqns_in(stmts: Seq<Tree>, ns: Seq<char>) -> Seq<Seq<char>>
    decreases stmts,
{
    if stmts.len() == 0 {
        seq![]
    } else {
        let s = stmts[0];
        let here = if wrapper(s, "Statement"@) && sole(s).kind == "Class"@ {
            match decl_name(sole(s)) {
                Some(n) => seq![qualify(ns, n)],
                None => seq![],
            }
        } else if wrapper(s, "Statement"@) && sole(s).kind == "Namespace"@ && sole(s).kids.len() > 0
            && wrapper(sole(s).kids.last(), "NamespaceBody"@) {
            fqns_in(sole(sole(s).kids.last()).kids, namespace_name(sole(s)))
        } else {
            seq![]
        };
        here + fqns_in(stmts.drop_first(), ns)
    }
}

/// The full names of the classes a PHP source declares.
pub open spec fn class_fqns_of(text: Seq<char>) -> Seq<Seq<char>> {
    match source_tree(text) {
        Some(t) => fqns_in(t.kids, seq![]),
        None => seq![],
    }
}

fn append_all(out: &mut Vec<String>, more: Vec<String>)
    ensures
        strs_of(final(out)@) == strs_of(old(out)@) + strs_of(more@),
{
    let ghost before = strs_of(out@);
    let mut k: usize = 0;
    while k < more.len()
        invariant
            k <= more.len(),
            strs_of(out@) == before + strs_of(more@).take(k as int),
        decreases more.len() - k,
    {
        let ghost b = out@;
        out.push(more[k].clone());
        assert(strs_of(out@) == strs_of(b).push(more@[k as int]@));
        assert(strs_of(more@).take(k + 1) == strs_of(more@).take(k as int).push(more@[k as int]@));
        k = k + 1;
    }
    assert(strs_of(more@).take(more.len() as int) == strs_of(more@));
}

fn qualify_exec(ns: &String, name: &String) -> (r: String)
    ensures
        r@ == qualify(ns@, name@),
{
    if ns.as_str().is_empty() {
        name.clone()
    } else {
        let mut s = ns.clone();
        crate::text::push_char(&mut s, '\\');
        push_str(&mut s, name.as_str());
        s
    }
}

fn namespace_name_exec(ns: &PhpNode) -> (r: String)
    ensures
        r@ == namespace_name(ns@),
{
    if ns.children.len() >= 2 && kind_is(&ns.children[1], "Identifier") {
        assert(ns@.kids[1] == ns.children@[1]@);
        ns.children[1].text.clone()
    } else {
        let e = String::new();
        e
    }
}

pub fn fqns_exec(stmts: &Vec<PhpNode>, ns: &String) -> (r: Vec<String>)
    ensures
        strs_of(r@) == fqns_in(trees_of(stmts@), ns@),
    decreases stmts@,
{
    let ghost ts = trees_of(stmts@);
    let mut out: Vec<String> = Vec::new();
    assert(strs_of(out@) =~= Seq::<Seq<char>>::empty());
    assert(ts.skip(0) == ts);
    let mut i: usize = 0;
    while i < stmts.len()
        invariant
            i <= stmts.len(),
            ts == trees_of(stmts@),
            strs_of(out@) + fqns_in(ts.skip(i as int), ns@) == fqns_in(ts, ns@),
        decreases stmts.len() - i,
    {
        let s = &stmts[i];
        let ghost rest = ts.skip(i as int);
        assert(rest[0] == s@);
        assert(rest.drop_first() == ts.skip(i + 1));
        let ghost before = strs_of(out@);
        if wraps(s, "Statement") && kind_is(&s.children[0], "Class") {
            let c = &s.children[0];
            assert(sole(s@) == c@);
            match decl_name_exec(c) {
                Some(n) => {
                    out.push(qualify_exec(ns, n));
                    assert(strs_of(out@) == before + seq![qualify(ns@, n@)]);
                },
                None => {
                    assert(before + Seq::<Seq<char>>::empty() == before);
                },
            }
        } else if wraps(s, "Statement") && kind_is(&s.children[0], "Namespace") && s.children[0].children.len() > 0
            && wraps(&s.children[0].children[s.children[0].children.len() - 1], "NamespaceBody") {
            let n = &s.children[0];
            let body = &n.children[n.children.len() - 1];
            assert(sole(s@) == n@);
            assert(n@.kids.last() == body@);
            let inner = &body.children[0];
            assert(sole(body@) == inner@);
            assert(inner@.kids == trees_of(inner.children@));
            let name = namespace_name_exec(n);
            let found = fqns_exec(&inner.children, &name);
            append_all(&mut out, found);
        } else {
            assert(before + Seq::<Seq<char>>::empty() == before);
        }
        i = i + 1;
    }
    assert(ts.skip(stmts.len() as int) == Seq::<Tree>::empty());
    assert(strs_of(out@) + Seq::<Seq<char>>::empty() == strs_of(out@));
    out
}

/// The full names of the classes a PHP source declares, in order.
pub fn class_fqns(src: &[u8]) -> (r: Vec<String>)
    ensures
        strs_of(r@) == class_fqns_of(lossy_text(src@)),
{
    let text = utf8_lossy(src);
    let (tree, _comments) = parse_tree(text.as_str());
    match tree {
        Some(t) => {
            assert(t@.kids == trees_of(t.children@));
            let ns = String::new();
            fqns_exec(&t.children, &ns)
        },
        None => {
            let out: Vec<String> = Vec::new();
            assert(strs_of(out@) =~= Seq::<Seq<char>>::empty());
            out
        },
    }
}


// --- configuration files -------------------------------------------------------

/// The value of a `return <value>;` statement.
pub open spec fn return_value(s: Tree) -> Option<Tree> {
    if wrapper(s, "Statement"@) && sole(s).kind == "Return"@ && sole(s).kids.len() == 3
        && sole(s).kids[1].kind == "Expression"@ {
        Some(sole(s).kids[1])
    } else {
        None
    }
}

pub fn return_value_exec(s: &PhpNode) -> (r: Option<&PhpNode>)
    ensures
        match r {
            Some(x) => return_value(s@) == Some(x@),
            None => return_value(s@) is None,
        },
{
    if wraps(s, "Statement") && kind_is(&s.children[0], "Return") && s.children[0].children.len() == 3
        && kind_is(&s.children[0].children[1], "Expression") {
        let r = &s.children[0];
        assert(sole(s@) == r@);
        assert(r@.kids[1] == r.children@[1]@);
        Some(&r.children[1])
    } else {
        None
    }
}

/// The literal keys of the `key => value` elements, in order.
pub open spec fn literal_keys(els: Seq<Tree>) -> Seq<Seq<char>>
    decreases els.len(),
{
    if els.len() == 0 {
        seq![]
    } else {
        let before = literal_keys(els.drop_last());
        match key_value(els.last()) {
            Some((k, _)) => match lit_str_of(k) {
                Some(key) => before.push(key),
                None => before,
            },
            None => before,
        }
    }
}

fn literal_keys_exec(els: &Vec<PhpNode>) -> (r: Vec<String>)
    ensures
        strs_of(r@) == literal_keys(trees_of(els@)),
{
    let ghost ts = trees_of(els@);
    let mut out: Vec<String> = Vec::new();
    assert(strs_of(out@) =~= Seq::<Seq<char>>::empty());
    let mut i: usize = 0;
    while i < els.len()
        invariant
            i <= els.len(),
            ts == trees_of(els@),
            strs_of(out@) == literal_keys(ts.take(i as int)),
        decreases els.len() - i,
    {
        assert(ts.take(i + 1).drop_last() == ts.take(i as int));
        assert(ts.take(i + 1).last() == els@[i as int]@);
        match key_value_exec(&els[i]) {
            Some((k, _)) => match lit_str(k) {
                Some(key) => {
                    let ghost before = out@;
                    out.push(key);
                    assert(strs_of(out@) == strs_of(before).push(out@.last()@));
                },
                None => {},
            },
            None => {},
        }
        i = i + 1;
    }
    assert(ts.take(els.len() as int) == ts);
    out
}

/// The keys of the array under key `top`: the first element keyed `top`
/// decides.
pub open spec fn nested_keys_in(els: Seq<Tree>, top: Seq<char>) -> Option<Seq<Seq<char>>>
    decreases els.len(),
{
    if els.len() == 0 {
        None
    } else {
        match key_value(els[0]) {
            Some((k, v)) => if lit_str_of(k) == Some(top) {
                match array_elements(unparen(v)) {
                    Some(inner) => Some(literal_keys(inner)),
                    None => None,
                }
            } else {
                nested_keys_in(els.drop_first(), top)
            },
            None => nested_keys_in(els.drop_first(), top),
        }
    }
}

/// The keys of the first returned array whose element `top` is an array.
pub open spec fn config_keys_in(stmts: Seq<Tree>, top: Seq<char>) -> Seq<Seq<char>>
    decreases stmts.len(),
{
    if stmts.len() == 0 {
        seq![]
    } else {
        match return_value(stmts[0]) {
            Some(v) => match array_elements(unparen(v)) {
                Some(els) => match nested_keys_in(els, top) {
                    Some(keys) => keys,
                    None => config_keys_in(stmts.drop_first(), top),
                },
                None => config_keys_in(stmts.drop_first(), top),
            },
            None => config_keys_in(stmts.drop_first(), top),
        }
    }
}

/// The top-level keys of `<top> => [...]` in a configuration file's
/// returned array, e.g. the connection names of `config/database.php`.
pub open spec fn config_keys_of(text: Seq<char>, top: Seq<char>) -> Seq<Seq<char>> {
    match source_tree(text) {
        Some(t) => config_keys_in(t.kids, top),
        None => seq![],
    }
}

pub fn nested_keys(els: &Vec<PhpNode>, top: &str) -> (r: Option<Vec<String>>)
    ensures
        match r {
            Some(x) => nested_keys_in(trees_of(els@), top@) == Some(strs_of(x@)),
            None => nested_keys_in(trees_of(els@), top@) is None,
        },
{
    let ghost ts = trees_of(els@);
    let topc = str_chars(top);
    assert(ts.skip(0) == ts);
    let mut i: usize = 0;
    while i < els.len()
        invariant
            i <= els.len(),
            ts == trees_of(els@),
            topc@ == top@,
            nested_keys_in(ts, top@) == nested_keys_in(ts.skip(i as int), top@),
        decreases els.len() - i,
    {
        let ghost rest = ts.skip(i as int);
        assert(rest[0] == els@[i as int]@);
        assert(rest.drop_first() == ts.skip(i + 1));
        match key_value_exec(&els[i]) {
            Some((k, v)) => {
                let key_is_top = match lit_str(k) {
                    Some(key) => {
                        let kc = str_chars(key.as_str());
                        crate::text::chars_eq(&kc, &topc)
                    },
                    None => false,
                };
                if key_is_top {
                    return match array_elements_exec(unparen_exec(v)) {
                        Some(inner) => Some(literal_keys_exec(inner)),
                        None => None,
                    };
                }
            },
            None => {},
        }
        i = i + 1;
    }
    None
}

/// The top-level keys of `<top> => [...]` in a configuration file.
pub fn config_keys(src: &[u8], top: &str) -> (r: Vec<String>)
    ensures
        strs_of(r@) == config_keys_of(lossy_text(src@), top@),
{
    let text = utf8_lossy(src);
    let (tree, _comments) = parse_tree(text.as_str());
    let mut none: Vec<String> = Vec::new();
    assert(strs_of(none@) =~= Seq::<Seq<char>>::empty());
    match tree {
        Some(t) => {
            let ghost ts = t@.kids;
            assert(ts == trees_of(t.children@));
            assert(ts.skip(0) == ts);
            let mut i: usize = 0;
            while i < t.children.len()
                invariant
                    i <= t.children.len(),
                    ts == t@.kids,
                    ts == trees_of(t.children@),
                    source_tree(lossy_text(src@)) == Some(t@),
                    strs_of(none@) == Seq::<Seq<char>>::empty(),
                    config_keys_in(ts, top@) == config_keys_in(ts.skip(i as int), top@),
                decreases t.children.len() - i,
            {
                let ghost rest = ts.skip(i as int);
                assert(rest[0] == t.children@[i as int]@);
                assert(rest.drop_first() == ts.skip(i + 1));
                match return_value_exec(&t.children[i]) {
                    Some(v) => match array_elements_exec(unparen_exec(v)) {
                        Some(els) => match nested_keys(els, top) {
                            Some(keys) => {
                                return keys;
                            },
                            None => {},
                        },
                        None => {},
                    },
                    None => {},
                }
                i = i + 1;
            }
            none
        },
        None => none,
    }
}

// --- dotted configuration keys ----------------------------------------------------

/// The dotted keys under `prefix` of a configuration value: each literal
/// key of an array, after the keys nested below it.
pub open spec fn dotted_of(e: Tree, prefix: Seq<char>) -> Seq<Seq<char>>
    decreases e,
{
    if wrapper(e, "Expression"@) && wrapper(sole(e), "Parenthesized"@) {
        dotted_of(sole(sole(e)), prefix)
    } else if wrapper(e, "Expression"@) && (sole(e).kind == "Array"@ || sole(e).kind == "LegacyArray"@) {
        dotted_els(sole(e).kids, prefix)
    } else {
        seq![]
    }
}

pub open spec fn dotted_els(els: Seq<Tree>, prefix: Seq<char>) -> Seq<Seq<char>>
    decreases els,
{
    if els.len() == 0 {
        seq![]
    } else {
        let el = els.last();
        let here = if wrapper(el, "ArrayElement"@) && sole(el).kind == "KeyValueArrayElement"@
            && sole(el).kids.len() == 2 {
            match lit_str_of(sole(el).kids[0]) {
                Some(key) => {
                    let d = prefix + seq!['.'] + key;
                    dotted_of(sole(el).kids[1], d).push(d)
                },
                None => seq![],
            }
        } else {
            seq![]
        };
        dotted_els(els.drop_last(), prefix) + here
    }
}

pub fn emit_dotted(e: &PhpNode, prefix: &String) -> (r: Vec<String>)
    ensures
        strs_of(r@) == dotted_of(e@, prefix@),
    decreases e,
{
    if wraps(e, "Expression") && wraps(&e.children[0], "Parenthesized") {
        return emit_dotted(&e.children[0].children[0], prefix);
    }
    if wraps(e, "Expression") && (kind_is(&e.children[0], "Array") || kind_is(&e.children[0], "LegacyArray")) {
        let a = &e.children[0];
        assert(sole(e@) == a@);
        let ghost ts = a@.kids;
        assert(ts == trees_of(a.children@));
        let mut out: Vec<String> = Vec::new();
        assert(strs_of(out@) =~= Seq::<Seq<char>>::empty());
        let mut i: usize = 0;
        while i < a.children.len()
            invariant
                i <= a.children.len(),
                e.children@.len() == 1,
                *a == e.children@[0],
                ts == a@.kids,
                ts == trees_of(a.children@),
                strs_of(out@) == dotted_els(ts.take(i as int), prefix@),
            decreases a.children.len() - i,
        {
            assert(ts.take(i + 1).drop_last() == ts.take(i as int));
            let el = &e.children[0].children[i];
            assert(ts.take(i + 1).last() == el@);
            let ghost before = strs_of(out@);
            if wraps(el, "ArrayElement") && kind_is(&el.children[0], "KeyValueArrayElement")
                && el.children[0].children.len() == 2 {
                let kv = &e.children[0].children[i].children[0];
                assert(sole(el@) == kv@);
                assert(kv@.kids[0] == kv.children@[0]@);
                assert(kv@.kids[1] == kv.children@[1]@);
                match lit_str(&kv.children[0]) {
                    Some(key) => {
                        let mut d = prefix.clone();
                        crate::text::push_char(&mut d, '.');
                        push_str(&mut d, key.as_str());
                        assert(d@ =~= prefix@ + seq!['.'] + key@);
                        let nested = emit_dotted(&e.children[0].children[i].children[0].children[1], &d);
                        append_all(&mut out, nested);
                        let ghost mid = out@;
                        out.push(d);
                        assert(strs_of(out@) == strs_of(mid).push(out@.last()@));
                    },
                    None => {
                        assert(before + Seq::<Seq<char>>::empty() == before);
                    },
                }
            } else {
                assert(before + Seq::<Seq<char>>::empty() == before);
            }
            i = i + 1;
        }
        assert(ts.take(a.children.len() as int) == ts);
        return out;
    }
    let out: Vec<String> = Vec::new();
    assert(strs_of(out@) =~= Seq::<Seq<char>>::empty());
    out
}

/// The dotted keys of the values a file's statements return, in order.
pub open spec fn returns_dotted(stmts: Seq<Tree>, stem: Seq<char>) -> Seq<Seq<char>>
    decreases stmts.len(),
{
    if stmts.len() == 0 {
        seq![]
    } else {
        returns_dotted(stmts.drop_last(), stem) + match return_value(stmts.last()) {
            Some(v) => dotted_of(v, stem),
            None => seq![],
        }
    }
}

/// The dotted keys of one configuration file: its name, then the dotted
/// keys of what it returns (`app`, `app.name`, ...).
pub open spec fn file_dotted_keys(stem: Seq<char>, text: Seq<char>) -> Seq<Seq<char>> {
    seq![stem] + match source_tree(text) {
        Some(t) => returns_dotted(t.kids, stem),
        None => seq![],
    }
}

/// The dotted keys of one configuration file, in order.
pub fn config_file_dotted(stem: &String, src: &[u8]) -> (r: Vec<String>)
    ensures
        strs_of(r@) == file_dotted_keys(stem@, lossy_text(src@)),
{
    let mut out: Vec<String> = Vec::new();
    out.push(stem.clone());
    assert(strs_of(out@) =~= seq![stem@]);
    let text = utf8_lossy(src);
    let (tree, _comments) = parse_tree(text.as_str());
    match tree {
        Some(t) => {
            let ghost ts = t@.kids;
            assert(ts == trees_of(t.children@));
            let mut i: usize = 0;
            while i < t.children.len()
                invariant
                    i <= t.children.len(),
                    ts == t@.kids,
                    ts == trees_of(t.children@),
                    source_tree(lossy_text(src@)) == Some(t@),
                    strs_of(out@) == seq![stem@] + returns_dotted(ts.take(i as int), stem@),
                decreases t.children.len() - i,
            {
                assert(ts.take(i + 1).drop_last() == ts.take(i as int));
                assert(ts.take(i + 1).last() == t.children@[i as int]@);
                let ghost before = strs_of(out@);
                match return_value_exec(&t.children[i]) {
                    Some(v) => {
                        let more = emit_dotted(v, stem);
                        append_all(&mut out, more);
                    },
                    None => {
                        assert(before + Seq::<Seq<char>>::empty() == before);
                    },
                }
                i = i + 1;
            }
            assert(ts.take(t.children.len() as int) == ts);
            out
        },
        None => {
            assert(seq![stem@] + Seq::<Seq<char>>::empty() == seq![stem@]);
            out
        },
    }
}


// --- queue names -----------------------------------------------------------------

/// A string literal, or the default of `env('X', 'default')`.
pub open spec fn env_default(e: Tree) -> Option<Seq<char>> {
    match lit_str_of(e) {
        Some(s) => Some(s),
        None => if wrapper(e, "Expression"@) && wrapper(sole(e), "Call"@) && sole(sole(e)).kind
            == "FunctionCall"@ && sole(sole(e)).kids.len() == 2 {
            let fc = sole(sole(e));
            match ident_of(fc.kids[0]) {
                Some(f) => if eq_ignore_ascii_case(last_segment(f), "env"@) {
                    match nth_arg(fc.kids[1], 1) {
                        Some(a) => lit_str_of(a),
                        None => None,
                    }
                } else {
                    None
                },
                None => None,
            }
        } else {
            None
        },
    }
}

pub fn scalar_or_env_default(e: &PhpNode) -> (r: Option<String>)
    ensures
        match r {
            Some(x) => env_default(e@) == Some(x@),
            None => env_default(e@) is None,
        },
{
    match lit_str(e) {
        Some(s) => Some(s),
        None => {
            if wraps(e, "Expression") && wraps(&e.children[0], "Call") && kind_is(&e.children[0].children[0], "FunctionCall")
                && e.children[0].children[0].children.len() == 2 {
                let fc = &e.children[0].children[0];
                assert(sole(sole(e@)) == fc@);
                assert(fc@.kids[0] == fc.children@[0]@);
                assert(fc@.kids[1] == fc.children@[1]@);
                match ident_exec(&fc.children[0]) {
                    Some(f) => if last_segment_is(f, "env") {
                        match nth_arg_exec(&fc.children[1], 1) {
                            Some(a) => lit_str(a),
                            None => None,
                        }
                    } else {
                        None
                    },
                    None => None,
                }
            } else {
                None
            }
        },
    }
}

/// The `queue` of each field list.
pub open spec fn queue_fields(fields: Seq<Tree>) -> Seq<Seq<char>>
    decreases fields.len(),
{
    if fields.len() == 0 {
        seq![]
    } else {
        let before = queue_fields(fields.drop_last());
        match key_value(fields.last()) {
            Some((k, v)) => if lit_str_of(k) == Some("queue"@) {
                match env_default(unparen(v)) {
                    Some(q) => before.push(q),
                    None => before,
                }
            } else {
                before
            },
            None => before,
        }
    }
}

/// The queues of each connection.
pub open spec fn queue_conns(conns: Seq<Tree>) -> Seq<Seq<char>>
    decreases conns.len(),
{
    if conns.len() == 0 {
        seq![]
    } else {
        queue_conns(conns.drop_last()) + match key_value(conns.last()) {
            Some((_, v)) => match array_elements(unparen(v)) {
                Some(fields) => queue_fields(fields),
                None => seq![],
            },
            None => seq![],
        }
    }
}

/// The queues under `connections` of a returned array.
pub open spec fn queue_top(els: Seq<Tree>) -> Seq<Seq<char>>
    decreases els.len(),
{
    if els.len() == 0 {
        seq![]
    } else {
        queue_top(els.drop_last()) + match key_value(els.last()) {
            Some((k, v)) => if lit_str_of(k) == Some("connections"@) {
                match array_elements(unparen(v)) {
                    Some(conns) => queue_conns(conns),
                    None => seq![],
                }
            } else {
                seq![]
            },
            None => seq![],
        }
    }
}

/// The queues of the arrays a file's statements return.
pub open spec fn queue_stmts(stmts: Seq<Tree>) -> Seq<Seq<char>>
    decreases stmts.len(),
{
    if stmts.len() == 0 {
        seq![]
    } else {
        queue_stmts(stmts.drop_last()) + match return_value(stmts.last()) {
            Some(v) => match array_elements(unparen(v)) {
                Some(els) => queue_top(els),
                None => seq![],
            },
            None => seq![],
        }
    }
}

/// Queue names of `config/queue.php`: each connection's `queue`, with
/// `env('X', 'default')` read as its default.
pub open spec fn queue_names_of(text: Seq<char>) -> Seq<Seq<char>> {
    match source_tree(text) {
        Some(t) => queue_stmts(t.kids),
        None => seq![],
    }
}

fn queue_fields_exec(fields: &Vec<PhpNode>) -> (r: Vec<String>)
    ensures
        strs_of(r@) == queue_fields(trees_of(fields@)),
{
    let ghost ts = trees_of(fields@);
    let mut out: Vec<String> = Vec::new();
    assert(strs_of(out@) =~= Seq::<Seq<char>>::empty());
    let mut i: usize = 0;
    while i < fields.len()
        invariant
            i <= fields.len(),
            ts == trees_of(fields@),
            strs_of(out@) == queue_fields(ts.take(i as int)),
        decreases fields.len() - i,
    {
        assert(ts.take(i + 1).drop_last() == ts.take(i as int));
        assert(ts.take(i + 1).last() == fields@[i as int]@);
        match key_value_exec(&fields[i]) {
            Some((k, v)) => {
                let is_queue = match lit_str(k) {
                    Some(key) => {
                        let kc = str_chars(key.as_str());
                        crate::text::is_lit(&kc, "queue")
                    },
                    None => false,
                };
                if is_queue {
                    match scalar_or_env_default(unparen_exec(v)) {
                        Some(q) => {
                            let ghost before = out@;
                            out.push(q);
                            assert(strs_of(out@) == strs_of(before).push(out@.last()@));
                        },
                        None => {},
                    }
                }
            },
            None => {},
        }
        i = i + 1;
    }
    assert(ts.take(fields.len() as int) == ts);
    out
}

fn queue_conns_exec(conns: &Vec<PhpNode>) -> (r: Vec<String>)
    ensures
        strs_of(r@) == queue_conns(trees_of(conns@)),
{
    let ghost ts = trees_of(conns@);
    let mut out: Vec<String> = Vec::new();
    assert(strs_of(out@) =~= Seq::<Seq<char>>::empty());
    let mut i: usize = 0;
    while i < conns.len()
        invariant
            i <= conns.len(),
            ts == trees_of(conns@),
            strs_of(out@) == queue_conns(ts.take(i as int)),
        decreases conns.len() - i,
    {
        assert(ts.take(i + 1).drop_last() == ts.take(i as int));
        assert(ts.take(i + 1).last() == conns@[i as int]@);
        let ghost before = strs_of(out@);
        match key_value_exec(&conns[i]) {
            Some((_, v)) => match array_elements_exec(unparen_exec(v)) {
                Some(fields) => {
                    let more = queue_fields_exec(fields);
                    append_all(&mut out, more);
                },
                None => {
                    assert(before + Seq::<Seq<char>>::empty() == before);
                },
            },
            None => {
                assert(before + Seq::<Seq<char>>::empty() == before);
            },
        }
        i = i + 1;
    }
    assert(ts.take(conns.len() as int) == ts);
    out
}

pub fn queue_top_exec(els: &Vec<PhpNode>) -> (r: Vec<String>)
    ensures
        strs_of(r@) == queue_top(trees_of(els@)),
{
    let ghost ts = trees_of(els@);
    let mut out: Vec<String> = Vec::new();
    assert(strs_of(out@) =~= Seq::<Seq<char>>::empty());
    let mut i: usize = 0;
    while i < els.len()
        invariant
            i <= els.len(),
            ts == trees_of(els@),
            strs_of(out@) == queue_top(ts.take(i as int)),
        decreases els.len() - i,
    {
        assert(ts.take(i + 1).drop_last() == ts.take(i as int));
        assert(ts.take(i + 1).last() == els@[i as int]@);
        let ghost before = strs_of(out@);
        let mut done = false;
        match key_value_exec(&els[i]) {
            Some((k, v)) => {
                let is_conns = match lit_str(k) {
                    Some(key) => {
                        let kc = str_chars(key.as_str());
                        crate::text::is_lit(&kc, "connections")
                    },
                    None => false,
                };
                if is_conns {
                    match array_elements_exec(unparen_exec(v)) {
                        Some(conns) => {
                            let more = queue_conns_exec(conns);
                            append_all(&mut out, more);
                            done = true;
                        },
                        None => {},
                    }
                }
            },
            None => {},
        }
        if !done {
            assert(before + Seq::<Seq<char>>::empty() == before);
        }
        i = i + 1;
    }
    assert(ts.take(els.len() as int) == ts);
    out
}

/// Queue names of `config/queue.php`, as a sorted set (each once, in
/// order).
pub fn queue_names(src: &[u8]) -> (r: Vec<String>)
    ensures
        strs_of(r@) == sorted_set(queue_names_of(lossy_text(src@))),
{
    let all = queue_names_in_order(src);
    sorted_set_exec(&all)
}

/// Queue names of `config/queue.php`, in document order.
fn queue_names_in_order(src: &[u8]) -> (r: Vec<String>)
    ensures
        strs_of(r@) == queue_names_of(lossy_text(src@)),
{
    let text = utf8_lossy(src);
    let (tree, _comments) = parse_tree(text.as_str());
    let mut out: Vec<String> = Vec::new();
    assert(strs_of(out@) =~= Seq::<Seq<char>>::empty());
    match tree {
        Some(t) => {
            let ghost ts = t@.kids;
            assert(ts == trees_of(t.children@));
            let mut i: usize = 0;
            while i < t.children.len()
                invariant
                    i <= t.children.len(),
                    ts == t@.kids,
                    ts == trees_of(t.children@),
                    source_tree(lossy_text(src@)) == Some(t@),
                    strs_of(out@) == queue_stmts(ts.take(i as int)),
                decreases t.children.len() - i,
            {
                assert(ts.take(i + 1).drop_last() == ts.take(i as int));
                assert(ts.take(i + 1).last() == t.children@[i as int]@);
                let ghost before = strs_of(out@);
                let mut done = false;
                match return_value_exec(&t.children[i]) {
                    Some(v) => match array_elements_exec(unparen_exec(v)) {
                        Some(els) => {
                            let more = queue_top_exec(els);
                            append_all(&mut out, more);
                            done = true;
                        },
                        None => {},
                    },
                    None => {},
                }
                if !done {
                    assert(before + Seq::<Seq<char>>::empty() == before);
                }
                i = i + 1;
            }
            assert(ts.take(t.children.len() as int) == ts);
            out
        },
        None => out,
    }
}

} // verus!
