//! Candidate values for a command's arguments and options, read from the
//! PHP source of the command: the string literals its code compares them
//! against (`===`, `==`, `!=`, `!==`, `in_array()`, `match`, `switch`),
//! through one level of variable aliasing (`$x = $this->argument('x')`),
//! same-file class constants (`self::MODES`) and backed enums
//! (`Source::Github->value`, `Source::tryFrom(...)`, `Source::cases()`).

use vstd::prelude::*;
use crate::values::Kind;
use crate::php::{PhpNode, Tree};
use crate::tree::{
    wrapper, sole, kind_is, wraps, text_is, lit_str_of, lit_str, nth_arg, nth_arg_exec,
    member_name, member_name_is, direct_var, direct_var_exec, array_elements, array_elements_exec,
    element_value, element_value_exec, assoc_get, assoc_put, key_index, keys_of, find_key,
    lemma_key_index_keys,
};
use crate::text::str_chars;
use crate::values::{Values, Row, add_values, views_of_strings};
use crate::enums::{
    enum_lookup, lookup_enum, pairs_view, files_view, FilesView,
};
use crate::tree::{
    ident_of, ident_exec, constant_name, constant_name_exec, last_segment, last_segment_exec,
    eq_ignore_ascii_case, eq_ignore_case_exec, last_segment_is,
};

verus! {

broadcast use vstd::string::group_string_axioms;

/// A parameter of the command: its kind and its name.
pub type RefKey = (Kind, Seq<char>);

/// The nodes of a tree in the order a walk enters them: a node, then the
/// nodes of each of its children in turn.
pub open spec fn pre_order(n: Tree) -> Seq<Tree>
    decreases n,
{
    seq![n] + forest_pre(n.kids)
}

/// The walk of a sequence of trees, one after another.
pub open spec fn forest_pre(ts: Seq<Tree>) -> Seq<Tree>
    decreases ts,
{
    if ts.len() == 0 {
        seq![]
    } else {
        forest_pre(ts.drop_last()) + pre_order(ts.last())
    }
}

/// What `$this->argument('x')` or `$this->option('x')` refers to.
pub open spec fn param_kind(m: Seq<char>) -> Option<Kind> {
    if m == "argument"@ {
        Some(Kind::Argument)
    } else if m == "option"@ {
        Some(Kind::Option)
    } else {
        None
    }
}

/// The parameter a method call `$this->argument('x')` / `$this->option('x')`
/// reads.
pub open spec fn this_param(mc: Tree) -> Option<RefKey> {
    if mc.kind == "MethodCall"@ && mc.kids.len() == 3 && direct_var(mc.kids[0]) == Some("$this"@) {
        match member_name(mc.kids[1]) {
            Some(m) => match param_kind(m) {
                Some(k) => match nth_arg(mc.kids[2], 0) {
                    Some(a) => match lit_str_of(a) {
                        Some(name) => Some((k, name)),
                        None => None,
                    },
                    None => None,
                },
                None => None,
            },
            None => None,
        }
    } else {
        None
    }
}

/// The parameter an expression reads: a `$this->argument('x')` call, an
/// aliased variable, possibly in parentheses or before `?? default`.
pub open spec fn expr_ref_of(e: Tree, aliases: Seq<(Seq<char>, RefKey)>) -> Option<RefKey>
    decreases e,
{
    if !wrapper(e, "Expression"@) {
        None
    } else {
        let v = sole(e);
        if wrapper(v, "Parenthesized"@) {
            expr_ref_of(sole(v), aliases)
        } else if v.kind == "Binary"@ && v.kids.len() == 3 && v.kids[1].text == "??"@ {
            expr_ref_of(v.kids[0], aliases)
        } else if wrapper(v, "Call"@) {
            this_param(sole(v))
        } else {
            match direct_var(e) {
                Some(name) => assoc_get(aliases, name),
                None => None,
            }
        }
    }
}

/// The string literals among array elements' values, in order.
pub open spec fn element_lits(els: Seq<Tree>) -> Seq<Seq<char>>
    decreases els.len(),
{
    if els.len() == 0 {
        seq![]
    } else {
        let rest = element_lits(els.drop_last());
        match element_value(els.last()) {
            Some(v) => match lit_str_of(v) {
                Some(s) => rest.push(s),
                None => rest,
            },
            None => rest,
        }
    }
}

/// The strings a constant's definition holds: a string literal, or the
/// string literals of an array.
pub open spec fn const_strings_of(e: Tree) -> Seq<Seq<char>>
    decreases e,
{
    match lit_str_of(e) {
        Some(s) => seq![s],
        None => if wrapper(e, "Expression"@) && wrapper(sole(e), "Parenthesized"@) {
            const_strings_of(sole(sole(e)))
        } else {
            match array_elements(e) {
                Some(els) => element_lits(els),
                None => seq![],
            }
        },
    }
}

/// What the first pass learns: variable aliases and class constants.
pub type ScopeView = (Seq<(Seq<char>, RefKey)>, Seq<(Seq<char>, Seq<Seq<char>>)>);

/// Class constants after the items of one constant declaration.
pub open spec fn const_items(consts: Seq<(Seq<char>, Seq<Seq<char>>)>, kids: Seq<Tree>) -> Seq<(Seq<char>, Seq<Seq<char>>)>
    decreases kids.len(),
{
    if kids.len() == 0 {
        consts
    } else {
        let before = const_items(consts, kids.drop_last());
        let item = kids.last();
        if item.kind == "ClassLikeConstantItem"@ && item.kids.len() == 2 {
            let vals = const_strings_of(item.kids[1]);
            if vals.len() > 0 {
                assoc_put(before, item.kids[0].text, vals)
            } else {
                before
            }
        } else {
            before
        }
    }
}

/// The variable an assignment `$x = <expr>` binds, and what it binds it to.
pub open spec fn alias_of(v: Tree, aliases: Seq<(Seq<char>, RefKey)>) -> Option<(Seq<char>, RefKey)> {
    if v.kind == "Assignment"@ && v.kids.len() == 3 && v.kids[1].text == "="@ {
        match direct_var(v.kids[0]) {
            Some(name) => match expr_ref_of(v.kids[2], aliases) {
                Some(r) => Some((name, r)),
                None => None,
            },
            None => None,
        }
    } else {
        None
    }
}

/// The first pass at one node.
pub open spec fn scope_step(s: ScopeView, n: Tree) -> ScopeView {
    if n.kind == "ClassLikeConstant"@ {
        (s.0, const_items(s.1, n.kids))
    } else if wrapper(n, "Expression"@) {
        match alias_of(sole(n), s.0) {
            Some((name, r)) => (assoc_put(s.0, name, r), s.1),
            None => s,
        }
    } else {
        s
    }
}

/// The first pass over a sequence of nodes.
pub open spec fn scope_fold(s: ScopeView, nodes: Seq<Tree>) -> ScopeView
    decreases nodes.len(),
{
    if nodes.len() == 0 {
        s
    } else {
        scope_step(scope_fold(s, nodes.drop_last()), nodes.last())
    }
}

pub proof fn lemma_scope_fold_append(s: ScopeView, a: Seq<Tree>, b: Seq<Tree>)
    ensures
        scope_fold(s, a + b) == scope_fold(scope_fold(s, a), b),
    decreases b.len(),
{
    if b.len() == 0 {
        assert(a + b == a);
    } else {
        lemma_scope_fold_append(s, a, b.drop_last());
        assert((a + b).drop_last() == a + b.drop_last());
    }
}

pub proof fn lemma_forest_pre_step(ts: Seq<Tree>, i: int)
    requires
        0 <= i < ts.len(),
    ensures
        forest_pre(ts.take(i + 1)) == forest_pre(ts.take(i)) + pre_order(ts[i]),
{
    assert(ts.take(i + 1).drop_last() == ts.take(i));
}

/// Aliases and class constants, as the first pass records them.
pub struct Scope {
    pub aliases: Vec<(String, (Kind, String))>,
    pub consts: Vec<(String, Vec<String>)>,
}

pub open spec fn aliases_view(l: Seq<(String, (Kind, String))>) -> Seq<(Seq<char>, RefKey)> {
    l.map_values(|e: (String, (Kind, String))| (e.0@, (e.1.0, e.1.1@)))
}

pub open spec fn consts_view(l: Seq<(String, Vec<String>)>) -> Seq<(Seq<char>, Seq<Seq<char>>)> {
    l.map_values(|e: (String, Vec<String>)| (e.0@, e.1@.map_values(|s: String| s@)))
}

impl View for Scope {
    type V = ScopeView;

    open spec fn view(&self) -> ScopeView {
        (aliases_view(self.aliases@), consts_view(self.consts@))
    }
}

fn alias_lookup(aliases: &Vec<(String, (Kind, String))>, name: &String) -> (r: Option<(Kind, String)>)
    ensures
        match r {
            Some(x) => assoc_get(aliases_view(aliases@), name@) == Some((x.0, x.1@)),
            None => assoc_get(aliases_view(aliases@), name@) is None,
        },
{
    proof {
        let a = aliases_view(aliases@);
        let b = keys_of(aliases@);
        assert forall|i: int| 0 <= i < a.len() implies a[i].0 == b[i].0 by {}
        lemma_key_index_keys(a, b, name@);
    }
    match find_key(aliases, name) {
        Some(i) => {
            let e = &aliases[i];
            Some((e.1.0, e.1.1.clone()))
        },
        None => None,
    }
}

fn this_param_exec(mc: &PhpNode) -> (r: Option<(Kind, String)>)
    ensures
        match r {
            Some(x) => this_param(mc@) == Some((x.0, x.1@)),
            None => this_param(mc@) is None,
        },
{
    if !(kind_is(mc, "MethodCall") && mc.children.len() == 3) {
        return None;
    }
    match direct_var_exec(&mc.children[0]) {
        Some(v) => {
            let vc = str_chars(v.as_str());
            if !crate::text::is_lit(&vc, "$this") {
                return None;
            }
        },
        None => {
            return None;
        },
    }
    let kind = if member_name_is(&mc.children[1], "argument") {
        Kind::Argument
    } else if member_name_is(&mc.children[1], "option") {
        Kind::Option
    } else {
        return None;
    };
    match nth_arg_exec(&mc.children[2], 0) {
        Some(a) => match lit_str(a) {
            Some(name) => Some((kind, name)),
            None => None,
        },
        None => None,
    }
}

/// The parameter an expression reads, if any.
pub fn expr_ref(e: &PhpNode, aliases: &Vec<(String, (Kind, String))>) -> (r: Option<(Kind, String)>)
    ensures
        match r {
            Some(x) => expr_ref_of(e@, aliases_view(aliases@)) == Some((x.0, x.1@)),
            None => expr_ref_of(e@, aliases_view(aliases@)) is None,
        },
    decreases e,
{
    if !wraps(e, "Expression") {
        return None;
    }
    let v = &e.children[0];
    if wraps(v, "Parenthesized") {
        expr_ref(&v.children[0], aliases)
    } else if kind_is(v, "Binary") && v.children.len() == 3 && text_is(&v.children[1], "??") {
        expr_ref(&v.children[0], aliases)
    } else if wraps(v, "Call") {
        this_param_exec(&v.children[0])
    } else {
        match direct_var_exec(e) {
            Some(name) => alias_lookup(aliases, name),
            None => None,
        }
    }
}

fn element_lits_exec(els: &Vec<PhpNode>) -> (r: Vec<String>)
    ensures
        r@.map_values(|s: String| s@) == element_lits(crate::php::trees_of(els@)),
{
    let ghost ts = crate::php::trees_of(els@);
    let mut out: Vec<String> = Vec::new();
    let mut i: usize = 0;
    while i < els.len()
        invariant
            i <= els.len(),
            ts == crate::php::trees_of(els@),
            out@.map_values(|s: String| s@) == element_lits(ts.take(i as int)),
        decreases els.len() - i,
    {
        assert(ts.take(i + 1).drop_last() == ts.take(i as int));
        assert(ts.take(i + 1).last() == els@[i as int]@);
        let ghost before = out@;
        match element_value_exec(&els[i]) {
            Some(v) => match lit_str(v) {
                Some(s) => {
                    out.push(s);
                    assert(out@.map_values(|s: String| s@) == before.map_values(|s: String| s@).push(
                        out@.last()@,
                    ));
                },
                None => {},
            },
            None => {},
        }
        i = i + 1;
    }
    assert(ts.take(els.len() as int) == ts);
    out
}

/// The strings a constant's definition holds.
pub fn const_strings(e: &PhpNode) -> (r: Vec<String>)
    ensures
        r@.map_values(|s: String| s@) == const_strings_of(e@),
    decreases e,
{
    match lit_str(e) {
        Some(s) => {
            let mut v: Vec<String> = Vec::new();
            v.push(s);
            assert(v@.map_values(|s: String| s@) == seq![v@[0]@]);
            v
        },
        None => {
            if wraps(e, "Expression") && wraps(&e.children[0], "Parenthesized") {
                const_strings(&e.children[0].children[0])
            } else {
                match array_elements_exec(e) {
                    Some(els) => element_lits_exec(els),
                    None => Vec::new(),
                }
            }
        },
    }
}


#[verifier::rlimit(30)]
fn put_alias(aliases: &mut Vec<(String, (Kind, String))>, name: String, r: (Kind, String))
    ensures
        aliases_view(final(aliases)@) == assoc_put(aliases_view(old(aliases)@), name@, (r.0, r.1@)),
{
    proof {
        let a = aliases_view(aliases@);
        let b = keys_of(aliases@);
        assert forall|i: int| 0 <= i < a.len() implies a[i].0 == b[i].0 by {}
        lemma_key_index_keys(a, b, name@);
    }
    let ghost before = aliases_view(aliases@);
    let ghost entry = (name@, (r.0, r.1@));
    match find_key(aliases, &name) {
        Some(i) => {
            aliases.set(i, (name, r));
            assert(aliases_view(aliases@) == before.update(i as int, entry));
        },
        None => {
            aliases.push((name, r));
            assert(aliases_view(aliases@) == before.push(entry));
        },
    }
}

fn put_const(consts: &mut Vec<(String, Vec<String>)>, name: String, vals: Vec<String>)
    ensures
        consts_view(final(consts)@) == assoc_put(
            consts_view(old(consts)@),
            name@,
            vals@.map_values(|s: String| s@),
        ),
{
    proof {
        let a = consts_view(consts@);
        let b = keys_of(consts@);
        assert forall|i: int| 0 <= i < a.len() implies a[i].0 == b[i].0 by {}
        lemma_key_index_keys(a, b, name@);
    }
    let ghost before = consts_view(consts@);
    let ghost entry = (name@, vals@.map_values(|s: String| s@));
    match find_key(consts, &name) {
        Some(i) => {
            consts.set(i, (name, vals));
            assert(consts_view(consts@) == before.update(i as int, entry));
        },
        None => {
            consts.push((name, vals));
            assert(consts_view(consts@) == before.push(entry));
        },
    }
}

fn const_items_exec(consts: &mut Vec<(String, Vec<String>)>, kids: &Vec<PhpNode>)
    ensures
        consts_view(final(consts)@) == const_items(consts_view(old(consts)@), crate::php::trees_of(kids@)),
{
    let ghost start = consts_view(consts@);
    let ghost ts = crate::php::trees_of(kids@);
    let mut i: usize = 0;
    while i < kids.len()
        invariant
            i <= kids.len(),
            ts == crate::php::trees_of(kids@),
            consts_view(consts@) == const_items(start, ts.take(i as int)),
        decreases kids.len() - i,
    {
        assert(ts.take(i + 1).drop_last() == ts.take(i as int));
        assert(ts.take(i + 1).last() == kids@[i as int]@);
        let item = &kids[i];
        if kind_is(item, "ClassLikeConstantItem") && item.children.len() == 2 {
            assert(item@.kids[1] == item.children@[1]@);
            assert(item@.kids[0] == item.children@[0]@);
            let vals = const_strings(&item.children[1]);
            if vals.len() > 0 {
                put_const(consts, item.children[0].text.clone(), vals);
            }
        }
        i = i + 1;
    }
    assert(ts.take(kids.len() as int) == ts);
}

fn alias_of_exec(v: &PhpNode, aliases: &Vec<(String, (Kind, String))>) -> (r: Option<(String, (Kind, String))>)
    ensures
        match r {
            Some(x) => alias_of(v@, aliases_view(aliases@)) == Some((x.0@, (x.1.0, x.1.1@))),
            None => alias_of(v@, aliases_view(aliases@)) is None,
        },
{
    if kind_is(v, "Assignment") && v.children.len() == 3 && text_is(&v.children[1], "=") {
        match direct_var_exec(&v.children[0]) {
            Some(name) => match expr_ref(&v.children[2], aliases) {
                Some(r) => Some((name.clone(), r)),
                None => None,
            },
            None => None,
        }
    } else {
        None
    }
}

fn scope_node(n: &PhpNode, s: &mut Scope)
    ensures
        final(s)@ == scope_step(old(s)@, n@),
{
    if kind_is(n, "ClassLikeConstant") {
        assert(n@.kids =~= crate::php::trees_of(n.children@));
        const_items_exec(&mut s.consts, &n.children);
    } else if wraps(n, "Expression") {
        assert(sole(n@) == n.children@[0]@);
        match alias_of_exec(&n.children[0], &s.aliases) {
            Some((name, r)) => {
                put_alias(&mut s.aliases, name, r);
            },
            None => {},
        }
    }
}

/// The first pass over a tree: aliases and class constants, in walk order.
pub fn scope_walk(n: &PhpNode, s: &mut Scope)
    ensures
        final(s)@ == scope_fold(old(s)@, pre_order(n@)),
    decreases n,
{
    let ghost s0 = s@;
    scope_node(n, s);
    proof {
        assert(seq![n@].drop_last() == Seq::<Tree>::empty());
        assert(seq![n@].last() == n@);
        assert(scope_fold(s0, Seq::<Tree>::empty()) == s0);
        assert(scope_fold(s0, seq![n@]) == s@);
        assert(n@.kids.take(0) == Seq::<Tree>::empty());
        assert(seq![n@] + forest_pre(n@.kids.take(0)) == seq![n@]);
    }
    let mut i: usize = 0;
    while i < n.children.len()
        invariant
            i <= n.children.len(),
            s@ == scope_fold(s0, seq![n@] + forest_pre(n@.kids.take(i as int))),
        decreases n.children.len() - i,
    {
        let ghost mid = s@;
        scope_walk(&n.children[i], s);
        proof {
            lemma_forest_pre_step(n@.kids, i as int);
            let a = seq![n@] + forest_pre(n@.kids.take(i as int));
            lemma_scope_fold_append(s0, a, pre_order(n@.kids[i as int]));
            assert(a + pre_order(n@.kids[i as int]) == seq![n@] + forest_pre(n@.kids.take(i + 1)));
        }
        i = i + 1;
    }
    assert(n@.kids.take(n.children.len() as int) == n@.kids);
}


// --- second pass: collecting values ------------------------------------------

/// What the second pass consults: the first pass's scope, the file's
/// imports, and the files read so far.
pub type Env = (ScopeView, Seq<(Seq<char>, Seq<char>)>, FilesView);

/// Strings found, or the path of a file that has to be read first.
pub type Found = Result<Seq<Seq<char>>, Seq<char>>;

/// Enum cases found, or the path of a file that has to be read first.
pub type CasesFound = Result<Option<Seq<(Seq<char>, Seq<char>)>>, Seq<char>>;

/// The value of one case.
pub open spec fn case_value(found: CasesFound, case: Seq<char>) -> Found {
    match found {
        Err(p) => Err(p),
        Ok(None) => Ok(seq![]),
        Ok(Some(cs)) => Ok(
            match assoc_get(cs, case) {
                Some(v) => seq![v],
                None => seq![],
            },
        ),
    }
}

/// The values of all cases.
pub open spec fn all_case_values(found: CasesFound) -> Found {
    match found {
        Err(p) => Err(p),
        Ok(None) => Ok(seq![]),
        Ok(Some(cs)) => Ok(cs.map_values(|e: (Seq<char>, Seq<char>)| e.1)),
    }
}

/// Both finds, one after the other.
pub open spec fn join(a: Found, b: Found) -> Found {
    match a {
        Err(p) => Err(p),
        Ok(x) => match b {
            Err(q) => Err(q),
            Ok(y) => Ok(x + y),
        },
    }
}

/// `Enum::Case->value`, given the property access.
pub open spec fn enum_value_of(pa: Tree, env: Env) -> Found {
    if member_name(pa.kids[1]) == Some("value"@) {
        let obj = pa.kids[0];
        if wrapper(obj, "Expression"@) && wrapper(sole(obj), "Access"@) && sole(sole(obj)).kind
            == "ClassConstantAccess"@ && sole(sole(obj)).kids.len() == 2 {
            let cca = sole(sole(obj));
            match (ident_of(cca.kids[0]), constant_name(cca.kids[1])) {
                (Some(w), Some(c)) => case_value(enum_lookup(env.1, env.2, w), c),
                _ => Ok(seq![]),
            }
        } else {
            Ok(seq![])
        }
    } else {
        Ok(seq![])
    }
}

/// The strings an expression can evaluate to: a string literal, a class
/// constant of the file (scalar or array, whatever class it is written on),
/// or `Enum::Case->value`.
pub open spec fn lit_strings_of(e: Tree, env: Env) -> Found
    decreases e,
{
    match lit_str_of(e) {
        Some(s) => Ok(seq![s]),
        None => if !wrapper(e, "Expression"@) {
            Ok(seq![])
        } else {
            let v = sole(e);
            if wrapper(v, "Parenthesized"@) {
                lit_strings_of(sole(v), env)
            } else if wrapper(v, "Access"@) && sole(v).kind == "ClassConstantAccess"@ && sole(v).kids.len() == 2 {
                Ok(
                    match constant_name(sole(v).kids[1]) {
                        Some(c) => match assoc_get(env.0.1, c) {
                            Some(vals) => vals,
                            None => seq![],
                        },
                        None => seq![],
                    },
                )
            } else if wrapper(v, "Access"@) && sole(v).kind == "PropertyAccess"@ && sole(v).kids.len() == 2 {
                enum_value_of(sole(v), env)
            } else {
                Ok(seq![])
            }
        },
    }
}

/// The argument list's `i`-th argument has a value.
pub open spec fn has_arg(list: Tree, i: int) -> bool {
    list.kind == "ArgumentList"@ && 0 <= i < list.kids.len() && wrapper(list.kids[i], "Argument"@)
        && sole(list.kids[i]).kids.len() >= 1
}

/// The values of all cases of an enum-cases expression: `Enum::cases()`,
/// `array_column(Enum::cases(), 'value')`, `array_map(fn, Enum::cases())`.
pub open spec fn enum_all_values_of(e: Tree, env: Env) -> Found
    decreases e,
{
    if !wrapper(e, "Expression"@) {
        Ok(seq![])
    } else {
        let v = sole(e);
        if wrapper(v, "Parenthesized"@) {
            enum_all_values_of(sole(v), env)
        } else if wrapper(v, "Call"@) && sole(v).kind == "StaticMethodCall"@ && sole(v).kids.len() == 3 {
            let smc = sole(v);
            if member_name(smc.kids[1]) == Some("cases"@) {
                match ident_of(smc.kids[0]) {
                    Some(w) => all_case_values(enum_lookup(env.1, env.2, w)),
                    None => Ok(seq![]),
                }
            } else {
                Ok(seq![])
            }
        } else if wrapper(v, "Call"@) && sole(v).kind == "FunctionCall"@ && sole(v).kids.len() == 2 {
            let fc = sole(v);
            let args = fc.kids[1];
            match ident_of(fc.kids[0]) {
                Some(f) => {
                    let k = if eq_ignore_ascii_case(last_segment(f), "array_column"@) {
                        0int
                    } else if eq_ignore_ascii_case(last_segment(f), "array_map"@) {
                        1int
                    } else {
                        -1int
                    };
                    if k >= 0 && has_arg(args, k) {
                        enum_all_values_of(
                            sole(args.kids[k]).kids[sole(args.kids[k]).kids.len() - 1],
                            env,
                        )
                    } else {
                        Ok(seq![])
                    }
                },
                None => Ok(seq![]),
            }
        } else {
            Ok(seq![])
        }
    }
}

/// The strings of the values of array elements, in order.
pub open spec fn element_strings(els: Seq<Tree>, env: Env) -> Found
    decreases els.len(),
{
    if els.len() == 0 {
        Ok(seq![])
    } else {
        let before = element_strings(els.drop_last(), env);
        match element_value(els.last()) {
            Some(v) => join(before, lit_strings_of(v, env)),
            None => before,
        }
    }
}

/// The strings of an `in_array()` haystack: an array literal (whose
/// elements may be constants or enum values), a constant array, or an
/// enum-cases expression.
pub open spec fn collect_strings_of(e: Tree, env: Env) -> Found
    decreases e,
{
    if wrapper(e, "Expression"@) && wrapper(sole(e), "Parenthesized"@) {
        collect_strings_of(sole(sole(e)), env)
    } else {
        match array_elements(e) {
            Some(els) => element_strings(els, env),
            None => join(lit_strings_of(e, env), enum_all_values_of(e, env)),
        }
    }
}

pub open spec fn found_view(r: Result<Vec<String>, String>) -> Found {
    match r {
        Ok(v) => Ok(views_of_strings(v@)),
        Err(p) => Err(p@),
    }
}

pub open spec fn cases_view(r: Result<Option<Vec<(String, String)>>, String>) -> CasesFound {
    match r {
        Ok(Some(v)) => Ok(Some(pairs_view(v@))),
        Ok(None) => Ok(None),
        Err(p) => Err(p@),
    }
}

fn no_strings() -> (r: Vec<String>)
    ensures
        views_of_strings(r@) == Seq::<Seq<char>>::empty(),
{
    let v: Vec<String> = Vec::new();
    assert(views_of_strings(v@) =~= Seq::<Seq<char>>::empty());
    v
}

fn one_string(s: String) -> (r: Vec<String>)
    ensures
        views_of_strings(r@) == seq![s@],
{
    let mut v: Vec<String> = Vec::new();
    v.push(s);
    assert(views_of_strings(v@) == seq![v@[0]@]);
    v
}

fn lookup_cases(
    uses: &Vec<(String, String)>,
    files: &Vec<(String, Option<String>)>,
    written: &String,
) -> (r: Result<Option<Vec<(String, String)>>, String>)
    ensures
        cases_view(r) == enum_lookup(pairs_view(uses@), files_view(files@), written@),
{
    lookup_enum(uses, files, written)
}

fn case_value_exec(found: Result<Option<Vec<(String, String)>>, String>, case: &String) -> (r: Result<Vec<String>, String>)
    ensures
        found_view(r) == case_value(cases_view(found), case@),
{
    match found {
        Err(p) => Err(p),
        Ok(None) => Ok(no_strings()),
        Ok(Some(cs)) => {
            proof {
                let a = pairs_view(cs@);
                let b = keys_of(cs@);
                assert forall|i: int| 0 <= i < a.len() implies a[i].0 == b[i].0 by {}
                lemma_key_index_keys(a, b, case@);
            }
            match find_key(&cs, case) {
                Some(i) => Ok(one_string(cs[i].1.clone())),
                None => Ok(no_strings()),
            }
        },
    }
}

fn all_case_values_exec(found: Result<Option<Vec<(String, String)>>, String>) -> (r: Result<Vec<String>, String>)
    ensures
        found_view(r) == all_case_values(cases_view(found)),
{
    match found {
        Err(p) => Err(p),
        Ok(None) => Ok(no_strings()),
        Ok(Some(cs)) => {
            let ghost want = pairs_view(cs@).map_values(|e: (Seq<char>, Seq<char>)| e.1);
            let mut out: Vec<String> = no_strings();
            let mut i: usize = 0;
            while i < cs.len()
                invariant
                    i <= cs.len(),
                    want == pairs_view(cs@).map_values(|e: (Seq<char>, Seq<char>)| e.1),
                    views_of_strings(out@) == want.take(i as int),
                decreases cs.len() - i,
            {
                let ghost before = out@;
                out.push(cs[i].1.clone());
                assert(views_of_strings(out@) == views_of_strings(before).push(cs@[i as int].1@));
                assert(want.take(i + 1) == want.take(i as int).push(want[i as int]));
                i = i + 1;
            }
            assert(want.take(cs.len() as int) == want);
            Ok(out)
        },
    }
}

pub(crate) fn join_exec(a: Result<Vec<String>, String>, b: Result<Vec<String>, String>) -> (r: Result<Vec<String>, String>)
    ensures
        found_view(r) == join(found_view(a), found_view(b)),
{
    match a {
        Err(p) => Err(p),
        Ok(mut x) => match b {
            Err(q) => Err(q),
            Ok(y) => {
                let ghost xv = views_of_strings(x@);
                let mut i: usize = 0;
                while i < y.len()
                    invariant
                        i <= y.len(),
                        views_of_strings(x@) == xv + views_of_strings(y@).take(i as int),
                    decreases y.len() - i,
                {
                    let ghost before = x@;
                    x.push(y[i].clone());
                    assert(views_of_strings(x@) == views_of_strings(before).push(y@[i as int]@));
                    assert(views_of_strings(y@).take(i + 1) == views_of_strings(y@).take(i as int).push(
                        y@[i as int]@,
                    ));
                    i = i + 1;
                }
                assert(views_of_strings(y@).take(y.len() as int) == views_of_strings(y@));
                Ok(x)
            },
        },
    }
}

pub open spec fn env_of(
    scope: ScopeView,
    uses: Seq<(String, String)>,
    files: Seq<(String, Option<String>)>,
) -> Env {
    (scope, pairs_view(uses), files_view(files))
}

fn const_lookup(consts: &Vec<(String, Vec<String>)>, name: &String) -> (r: Vec<String>)
    ensures
        views_of_strings(r@) == (match assoc_get(consts_view(consts@), name@) {
            Some(vals) => vals,
            None => seq![],
        }),
{
    proof {
        let a = consts_view(consts@);
        let b = keys_of(consts@);
        assert forall|i: int| 0 <= i < a.len() implies a[i].0 == b[i].0 by {}
        lemma_key_index_keys(a, b, name@);
    }
    match find_key(consts, name) {
        Some(i) => crate::text::clone_strings(&consts[i].1),
        None => no_strings(),
    }
}

fn enum_value(
    pa: &PhpNode,
    scope: &Scope,
    uses: &Vec<(String, String)>,
    files: &Vec<(String, Option<String>)>,
) -> (r: Result<Vec<String>, String>)
    requires
        pa.children.len() == 2,
    ensures
        found_view(r) == enum_value_of(pa@, env_of(scope@, uses@, files@)),
{
    if !member_name_is(&pa.children[1], "value") {
        return Ok(no_strings());
    }
    let obj = &pa.children[0];
    if wraps(obj, "Expression") && wraps(&obj.children[0], "Access") && kind_is(&obj.children[0].children[0], "ClassConstantAccess")
        && obj.children[0].children[0].children.len() == 2 {
        let cca = &obj.children[0].children[0];
        assert(sole(sole(obj@)) == cca@);
        match (ident_exec(&cca.children[0]), constant_name_exec(&cca.children[1])) {
            (Some(w), Some(c)) => case_value_exec(lookup_cases(uses, files, w), c),
            _ => Ok(no_strings()),
        }
    } else {
        Ok(no_strings())
    }
}

/// The strings an expression can evaluate to (see `lit_strings_of`).
pub fn lit_strings(
    e: &PhpNode,
    scope: &Scope,
    uses: &Vec<(String, String)>,
    files: &Vec<(String, Option<String>)>,
) -> (r: Result<Vec<String>, String>)
    ensures
        found_view(r) == lit_strings_of(e@, env_of(scope@, uses@, files@)),
    decreases e,
{
    match lit_str(e) {
        Some(s) => Ok(one_string(s)),
        None => {
            if !wraps(e, "Expression") {
                return Ok(no_strings());
            }
            let v = &e.children[0];
            if wraps(v, "Parenthesized") {
                lit_strings(&v.children[0], scope, uses, files)
            } else if wraps(v, "Access") && kind_is(&v.children[0], "ClassConstantAccess") && v.children[0].children.len() == 2 {
                let cca = &v.children[0];
                match constant_name_exec(&cca.children[1]) {
                    Some(c) => Ok(const_lookup(&scope.consts, c)),
                    None => Ok(no_strings()),
                }
            } else if wraps(v, "Access") && kind_is(&v.children[0], "PropertyAccess") && v.children[0].children.len() == 2 {
                enum_value(&v.children[0], scope, uses, files)
            } else {
                Ok(no_strings())
            }
        },
    }
}

fn arg_at(list: &PhpNode, i: usize) -> (r: Option<&PhpNode>)
    ensures
        match r {
            Some(x) => has_arg(list@, i as int) && x@ == sole(list@.kids[i as int]).kids[sole(
                list@.kids[i as int],
            ).kids.len() - 1],
            None => !has_arg(list@, i as int),
        },
{
    if !(kind_is(list, "ArgumentList") && i < list.children.len()) {
        return None;
    }
    let a = &list.children[i];
    assert(list@.kids[i as int] == a@);
    if !wraps(a, "Argument") {
        return None;
    }
    let inner = &a.children[0];
    assert(sole(a@) == inner@);
    if inner.children.len() >= 1 {
        let last = &inner.children[inner.children.len() - 1];
        assert(inner@.kids[inner@.kids.len() - 1] == last@);
        Some(last)
    } else {
        None
    }
}

/// The values of all cases of an enum-cases expression.
pub fn enum_all_values(
    e: &PhpNode,
    scope: &Scope,
    uses: &Vec<(String, String)>,
    files: &Vec<(String, Option<String>)>,
) -> (r: Result<Vec<String>, String>)
    ensures
        found_view(r) == enum_all_values_of(e@, env_of(scope@, uses@, files@)),
    decreases e,
{
    if !wraps(e, "Expression") {
        return Ok(no_strings());
    }
    let v = &e.children[0];
    if wraps(v, "Parenthesized") {
        return enum_all_values(&v.children[0], scope, uses, files);
    }
    if wraps(v, "Call") && kind_is(&v.children[0], "StaticMethodCall") && v.children[0].children.len() == 3 {
        let smc = &v.children[0];
        if member_name_is(&smc.children[1], "cases") {
            return match ident_exec(&smc.children[0]) {
                Some(w) => all_case_values_exec(lookup_cases(uses, files, w)),
                None => Ok(no_strings()),
            };
        }
        return Ok(no_strings());
    }
    if wraps(v, "Call") && kind_is(&v.children[0], "FunctionCall") && v.children[0].children.len() == 2 {
        let fc = &v.children[0];
        let args = &fc.children[1];
        assert(sole(v@) == fc@);
        assert(fc@.kids[1] == args@);
        match ident_exec(&fc.children[0]) {
            Some(f) => {
                let k: usize = if last_segment_is(f, "array_column") {
                    0
                } else if last_segment_is(f, "array_map") {
                    1
                } else {
                    return Ok(no_strings());
                };
                if arg_at(args, k).is_none() {
                    return Ok(no_strings());
                }
                let arg = &args.children[k];
                assert(args@.kids[k as int] == arg@);
                let a = &arg.children[0];
                assert(sole(arg@) == a@);
                let inner = &a.children[a.children.len() - 1];
                assert(a@.kids[a@.kids.len() - 1] == inner@);
                return enum_all_values(inner, scope, uses, files);
            },
            None => {
                return Ok(no_strings());
            },
        }
    }
    Ok(no_strings())
}

fn element_strings_exec(
    els: &Vec<PhpNode>,
    scope: &Scope,
    uses: &Vec<(String, String)>,
    files: &Vec<(String, Option<String>)>,
) -> (r: Result<Vec<String>, String>)
    ensures
        found_view(r) == element_strings(crate::php::trees_of(els@), env_of(scope@, uses@, files@)),
{
    let ghost ts = crate::php::trees_of(els@);
    let ghost env = env_of(scope@, uses@, files@);
    let mut acc: Result<Vec<String>, String> = Ok(no_strings());
    let mut i: usize = 0;
    while i < els.len()
        invariant
            i <= els.len(),
            ts == crate::php::trees_of(els@),
            env == env_of(scope@, uses@, files@),
            found_view(acc) == element_strings(ts.take(i as int), env),
        decreases els.len() - i,
    {
        assert(ts.take(i + 1).drop_last() == ts.take(i as int));
        assert(ts.take(i + 1).last() == els@[i as int]@);
        match element_value_exec(&els[i]) {
            Some(v) => {
                let found = lit_strings(v, scope, uses, files);
                acc = join_exec(acc, found);
            },
            None => {},
        }
        i = i + 1;
    }
    assert(ts.take(els.len() as int) == ts);
    acc
}

/// The strings of an `in_array()` haystack (see `collect_strings_of`).
pub fn collect_strings(
    e: &PhpNode,
    scope: &Scope,
    uses: &Vec<(String, String)>,
    files: &Vec<(String, Option<String>)>,
) -> (r: Result<Vec<String>, String>)
    ensures
        found_view(r) == collect_strings_of(e@, env_of(scope@, uses@, files@)),
    decreases e,
{
    if wraps(e, "Expression") && wraps(&e.children[0], "Parenthesized") {
        return collect_strings(&e.children[0].children[0], scope, uses, files);
    }
    match array_elements_exec(e) {
        Some(els) => element_strings_exec(els, scope, uses, files),
        None => {
            let a = lit_strings(e, scope, uses, files);
            let b = enum_all_values(e, scope, uses, files);
            join_exec(a, b)
        },
    }
}

} // verus!
