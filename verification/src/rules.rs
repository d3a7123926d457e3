//! Values a command declares outside comparisons: the options of a prompt
//! given as a fallback (`?? $this->choice(..)`, `?: select(..)`), the `in:`
//! validation rules and `Rule::in([...])`, and the `suggestValues([...])` of
//! a `complete()` override.

use vstd::prelude::*;
use crate::values::Kind;
use crate::php::{PhpNode, Tree, trees_of};
use crate::tree::{
    wrapper, sole, kind_is, wraps, lit_str_of, lit_str, member_name, member_name_is, nth_arg, nth_arg_exec,
    ident_of, ident_exec, last_segment, last_segment_is, eq_ignore_ascii_case, unparen, unparen_exec,
    array_elements, array_elements_exec, element_value, element_value_exec,
};
use crate::text::{str_chars, starts_with, has_prefix, views_of, string_of, slice_chars};
use crate::values::views_of_strings;
use crate::extract::{
    Env, Found, RefKey, Scope, collect_strings_of, collect_strings, found_view, env_of, join, pre_order,
    forest_pre, lemma_forest_pre_step,
};

verus! {

broadcast use vstd::string::group_string_axioms;

// --- splitting rule strings --------------------------------------------------------

/// The pieces of `s` between the occurrences of `c` (as `explode`).
pub open spec fn split_on(s: Seq<char>, c: char) -> Seq<Seq<char>>
    decreases s.len(),
{
    if s.len() == 0 {
        seq![seq![]]
    } else {
        let p = split_on(s.drop_last(), c);
        if s.last() == c {
            p.push(seq![])
        } else {
            p.update(p.len() - 1, p.last().push(s.last()))
        }
    }
}

proof fn lemma_split_on_len(s: Seq<char>, c: char)
    ensures
        split_on(s, c).len() >= 1,
    decreases s.len(),
{
    if s.len() > 0 {
        lemma_split_on_len(s.drop_last(), c);
    }
}

/// The pieces of `s` between the occurrences of `c`.
pub fn split_on_exec(s: &[char], c: char) -> (r: Vec<Vec<char>>)
    ensures
        views_of(r@) == split_on(s@, c),
{
    let mut done: Vec<Vec<char>> = Vec::new();
    let mut cur: Vec<char> = Vec::new();
    let mut i: usize = 0;
    assert(s@.take(0) == Seq::<char>::empty());
    assert(views_of(done@).push(cur@) =~= split_on(s@.take(0), c));
    while i < s.len()
        invariant
            i <= s.len(),
            views_of(done@).push(cur@) == split_on(s@.take(i as int), c),
        decreases s.len() - i,
    {
        let ghost before = views_of(done@).push(cur@);
        assert(s@.take(i + 1).drop_last() == s@.take(i as int));
        assert(s@.take(i + 1).last() == s@[i as int]);
        if s[i] == c {
            let full = cur;
            done.push(full);
            cur = Vec::new();
            assert(views_of(done@).push(cur@) =~= before.push(seq![]));
        } else {
            cur.push(s[i]);
            assert(views_of(done@).push(cur@) =~= before.update(before.len() - 1, before.last().push(s@[i as int])));
        }
        i = i + 1;
    }
    assert(s@.take(s.len() as int) == s@);
    let ghost before = views_of(done@);
    done.push(cur);
    assert(views_of(done@) =~= before.push(cur@));
    done
}

/// The values of the `in:` rules among `parts`: the comma-separated list
/// after `in:`, rule by rule.
pub open spec fn in_rules(parts: Seq<Seq<char>>) -> Seq<Seq<char>>
    decreases parts.len(),
{
    if parts.len() == 0 {
        seq![]
    } else {
        in_rules(parts.drop_last()) + if has_prefix(parts.last(), "in:"@) {
            split_on(parts.last().skip(3), ',')
        } else {
            seq![]
        }
    }
}

/// The values a rule string such as `required|in:fast,slow` allows.
pub open spec fn rule_string_values(rules: Seq<char>) -> Seq<Seq<char>> {
    in_rules(split_on(rules, '|'))
}

fn push_strings_of(out: &mut Vec<String>, pieces: &Vec<Vec<char>>)
    ensures
        views_of_strings(final(out)@) == views_of_strings(old(out)@) + views_of(pieces@),
{
    let ghost start = views_of_strings(out@);
    let mut i: usize = 0;
    while i < pieces.len()
        invariant
            i <= pieces.len(),
            views_of_strings(out@) == start + views_of(pieces@).take(i as int),
        decreases pieces.len() - i,
    {
        let ghost before = out@;
        out.push(string_of(&pieces[i]));
        assert(views_of_strings(out@) =~= views_of_strings(before).push(pieces@[i as int]@));
        assert(views_of(pieces@).take(i + 1) =~= views_of(pieces@).take(i as int).push(pieces@[i as int]@));
        i = i + 1;
    }
    assert(views_of(pieces@).take(pieces.len() as int) == views_of(pieces@));
}

/// The values a rule string allows (see `rule_string_values`).
pub fn rule_string_values_exec(rules: &String) -> (r: Vec<String>)
    ensures
        views_of_strings(r@) == rule_string_values(rules@),
{
    let chars = str_chars(rules.as_str());
    let parts = split_on_exec(&chars, '|');
    let ghost ps = views_of(parts@);
    let pre = str_chars("in:");
    let mut out: Vec<String> = Vec::new();
    assert(views_of_strings(out@) =~= Seq::<Seq<char>>::empty());
    let mut i: usize = 0;
    while i < parts.len()
        invariant
            i <= parts.len(),
            ps == views_of(parts@),
            ps == split_on(rules@, '|'),
            pre@ == "in:"@,
            views_of_strings(out@) == in_rules(ps.take(i as int)),
        decreases parts.len() - i,
    {
        assert(ps.take(i + 1).drop_last() == ps.take(i as int));
        assert(ps.take(i + 1).last() == parts@[i as int]@);
        let p = &parts[i];
        if starts_with(p, &pre) {
            proof {
                reveal_strlit("in:");
            }
            let rest = slice_chars(p, 3, p.len());
            assert(rest@ == p@.skip(3));
            let vals = split_on_exec(&rest, ',');
            push_strings_of(&mut out, &vals);
        } else {
            assert(in_rules(ps.take(i + 1)) == in_rules(ps.take(i as int)) + Seq::<Seq<char>>::empty());
        }
        i = i + 1;
    }
    assert(ps.take(parts.len() as int) == ps);
    out
}

// --- validation rules --------------------------------------------------------------

/// `Rule::in(<values>)`: its values.
pub open spec fn rule_in_values(x: Tree, env: Env) -> Found {
    if wrapper(x, "Expression"@) && wrapper(sole(x), "Call"@) && sole(sole(x)).kind == "StaticMethodCall"@
        && sole(sole(x)).kids.len() == 3 {
        let smc = sole(sole(x));
        match ident_of(smc.kids[0]) {
            Some(w) => if eq_ignore_ascii_case(last_segment(w), "Rule"@) && member_name(smc.kids[1]) == Some(
                "in"@,
            ) {
                match nth_arg(smc.kids[2], 0) {
                    Some(a) => collect_strings_of(a, env),
                    None => Ok(seq![]),
                }
            } else {
                Ok(seq![])
            },
            None => Ok(seq![]),
        }
    } else {
        Ok(seq![])
    }
}

/// One rule: a rule string, or `Rule::in(..)`.
pub open spec fn rule_item(x: Tree, env: Env) -> Found {
    match lit_str_of(x) {
        Some(rules) => Ok(rule_string_values(rules)),
        None => rule_in_values(x, env),
    }
}

/// The rules of a rule array, element by element.
pub open spec fn rule_elements(els: Seq<Tree>, env: Env) -> Found
    decreases els.len(),
{
    if els.len() == 0 {
        Ok(seq![])
    } else {
        join(
            rule_elements(els.drop_last(), env),
            match element_value(els.last()) {
                Some(x) => rule_item(x, env),
                None => Ok(seq![]),
            },
        )
    }
}

/// The values the rules of one validated parameter allow: a rule string,
/// an array of rules, or a single `Rule::in(..)`.
pub open spec fn rule_values(v: Tree, env: Env) -> Found {
    match array_elements(v) {
        Some(els) => rule_elements(els, env),
        None => rule_item(v, env),
    }
}

pub(crate) fn empty_found() -> (r: Result<Vec<String>, String>)
    ensures
        found_view(r) == Ok::<Seq<Seq<char>>, Seq<char>>(seq![]),
{
    let v: Vec<String> = Vec::new();
    assert(views_of_strings(v@) =~= Seq::<Seq<char>>::empty());
    Ok(v)
}

fn rule_in_exec(
    x: &PhpNode,
    scope: &Scope,
    uses: &Vec<(String, String)>,
    files: &Vec<(String, Option<String>)>,
) -> (r: Result<Vec<String>, String>)
    ensures
        found_view(r) == rule_in_values(x@, env_of(scope@, uses@, files@)),
{
    if wraps(x, "Expression") && wraps(&x.children[0], "Call") && kind_is(&x.children[0].children[0], "StaticMethodCall")
        && x.children[0].children[0].children.len() == 3 {
        let smc = &x.children[0].children[0];
        assert(sole(x@) == x.children@[0]@);
        assert(sole(sole(x@)) == smc@);
        assert(smc@.kids == trees_of(smc.children@));
        match ident_exec(&smc.children[0]) {
            Some(w) => if last_segment_is(w, "Rule") && member_name_is(&smc.children[1], "in") {
                match nth_arg_exec(&smc.children[2], 0) {
                    Some(a) => collect_strings(a, scope, uses, files),
                    None => empty_found(),
                }
            } else {
                empty_found()
            },
            None => empty_found(),
        }
    } else {
        empty_found()
    }
}

fn rule_item_exec(
    x: &PhpNode,
    scope: &Scope,
    uses: &Vec<(String, String)>,
    files: &Vec<(String, Option<String>)>,
) -> (r: Result<Vec<String>, String>)
    ensures
        found_view(r) == rule_item(x@, env_of(scope@, uses@, files@)),
{
    match lit_str(x) {
        Some(rules) => Ok(rule_string_values_exec(&rules)),
        None => rule_in_exec(x, scope, uses, files),
    }
}

/// The values the rules of one validated parameter allow (see
/// `rule_values`).
pub fn rule_values_exec(
    v: &PhpNode,
    scope: &Scope,
    uses: &Vec<(String, String)>,
    files: &Vec<(String, Option<String>)>,
) -> (r: Result<Vec<String>, String>)
    ensures
        found_view(r) == rule_values(v@, env_of(scope@, uses@, files@)),
{
    let ghost env = env_of(scope@, uses@, files@);
    match array_elements_exec(v) {
        Some(els) => {
            let ghost ts = trees_of(els@);
            let mut acc = empty_found();
            assert(ts.take(0) == Seq::<Tree>::empty());
            let mut i: usize = 0;
            while i < els.len()
                invariant
                    i <= els.len(),
                    ts == trees_of(els@),
                    env == env_of(scope@, uses@, files@),
                    found_view(acc) == rule_elements(ts.take(i as int), env),
                decreases els.len() - i,
            {
                assert(ts.take(i + 1).drop_last() == ts.take(i as int));
                assert(ts.take(i + 1).last() == els@[i as int]@);
                let item = match element_value_exec(&els[i]) {
                    Some(x) => rule_item_exec(x, scope, uses, files),
                    None => empty_found(),
                };
                acc = crate::extract::join_exec(acc, item);
                i = i + 1;
            }
            assert(ts.take(els.len() as int) == ts);
            acc
        },
        None => rule_item_exec(v, scope, uses, files),
    }
}

// --- prompt fallbacks --------------------------------------------------------------

/// A call of Laravel Prompts' `select` or `multiselect` (any namespace, any
/// case).
pub open spec fn prompt_function(f: Tree) -> bool {
    match ident_of(f) {
        Some(n) => eq_ignore_ascii_case(last_segment(n), "select"@) || eq_ignore_ascii_case(
            last_segment(n),
            "multiselect"@,
        ),
        None => false,
    }
}

/// The options a prompt offers: the second argument of `->choice(..)`,
/// `select(..)` or `multiselect(..)`; none for another expression.
pub open spec fn prompt_values(e: Tree, env: Env) -> Found {
    let u = unparen(e);
    if wrapper(u, "Expression"@) && wrapper(sole(u), "Call"@) {
        let c = sole(sole(u));
        if c.kind == "MethodCall"@ && c.kids.len() == 3 && member_name(c.kids[1]) == Some("choice"@) {
            match nth_arg(c.kids[2], 1) {
                Some(a) => collect_strings_of(a, env),
                None => Ok(seq![]),
            }
        } else if c.kind == "FunctionCall"@ && c.kids.len() == 2 && prompt_function(c.kids[0]) {
            match nth_arg(c.kids[1], 1) {
                Some(a) => collect_strings_of(a, env),
                None => Ok(seq![]),
            }
        } else {
            Ok(seq![])
        }
    } else {
        Ok(seq![])
    }
}

fn prompt_function_exec(f: &PhpNode) -> (r: bool)
    ensures
        r == prompt_function(f@),
{
    match ident_exec(f) {
        Some(n) => last_segment_is(n, "select") || last_segment_is(n, "multiselect"),
        None => false,
    }
}

/// The options a prompt offers (see `prompt_values`).
pub fn prompt_values_exec(
    e: &PhpNode,
    scope: &Scope,
    uses: &Vec<(String, String)>,
    files: &Vec<(String, Option<String>)>,
) -> (r: Result<Vec<String>, String>)
    ensures
        found_view(r) == prompt_values(e@, env_of(scope@, uses@, files@)),
{
    let u = unparen_exec(e);
    if wraps(u, "Expression") && wraps(&u.children[0], "Call") {
        let c = &u.children[0].children[0];
        assert(sole(u@) == u.children@[0]@);
        assert(sole(sole(u@)) == c@);
        assert(c@.kids == trees_of(c.children@));
        if kind_is(c, "MethodCall") && c.children.len() == 3 && member_name_is(&c.children[1], "choice") {
            match nth_arg_exec(&c.children[2], 1) {
                Some(a) => collect_strings(a, scope, uses, files),
                None => empty_found(),
            }
        } else if kind_is(c, "FunctionCall") && c.children.len() == 2 && prompt_function_exec(&c.children[0]) {
            match nth_arg_exec(&c.children[1], 1) {
                Some(a) => collect_strings(a, scope, uses, files),
                None => empty_found(),
            }
        } else {
            empty_found()
        }
    } else {
        empty_found()
    }
}

// --- completion overrides ----------------------------------------------------------

/// The parameter an `if` condition `$input->mustSuggestOptionValuesFor('x')`
/// (or `mustSuggestArgumentValuesFor`) names.
pub open spec fn suggest_target(cond: Tree) -> Option<RefKey> {
    if wrapper(cond, "Expression"@) && wrapper(sole(cond), "Call"@) && sole(sole(cond)).kind == "MethodCall"@
        && sole(sole(cond)).kids.len() == 3 {
        let mc = sole(sole(cond));
        let k = if member_name(mc.kids[1]) == Some("mustSuggestOptionValuesFor"@) {
            Some(Kind::Option)
        } else if member_name(mc.kids[1]) == Some("mustSuggestArgumentValuesFor"@) {
            Some(Kind::Argument)
        } else {
            None
        };
        match k {
            Some(kind) => match nth_arg(mc.kids[2], 0) {
                Some(a) => match lit_str_of(a) {
                    Some(name) => Some((kind, name)),
                    None => None,
                },
                None => None,
            },
            None => None,
        }
    } else {
        None
    }
}

/// The values one node offers: `->suggestValues(<values>)`.
pub open spec fn suggested_at(n: Tree, env: Env) -> Found {
    if wrapper(n, "Expression"@) && wrapper(sole(n), "Call"@) && sole(sole(n)).kind == "MethodCall"@
        && sole(sole(n)).kids.len() == 3 && member_name(sole(sole(n)).kids[1]) == Some("suggestValues"@) {
        match nth_arg(sole(sole(n)).kids[2], 0) {
            Some(a) => collect_strings_of(a, env),
            None => Ok(seq![]),
        }
    } else {
        Ok(seq![])
    }
}

/// The values offered along a walk, in order.
pub open spec fn suggest_fold(acc: Found, nodes: Seq<Tree>, env: Env) -> Found
    decreases nodes.len(),
{
    if nodes.len() == 0 {
        acc
    } else {
        join(suggest_fold(acc, nodes.drop_last(), env), suggested_at(nodes.last(), env))
    }
}

pub proof fn lemma_suggest_fold_append(acc: Found, a: Seq<Tree>, b: Seq<Tree>, env: Env)
    ensures
        suggest_fold(acc, a + b, env) == suggest_fold(suggest_fold(acc, a, env), b, env),
    decreases b.len(),
{
    if b.len() == 0 {
        assert(a + b == a);
    } else {
        lemma_suggest_fold_append(acc, a, b.drop_last(), env);
        assert((a + b).drop_last() == a + b.drop_last());
    }
}

/// The parameter an `if` condition names for completion (see
/// `suggest_target`).
pub fn suggest_target_exec(cond: &PhpNode) -> (r: Option<(Kind, String)>)
    ensures
        match r {
            Some(x) => suggest_target(cond@) == Some((x.0, x.1@)),
            None => suggest_target(cond@) is None,
        },
{
    if wraps(cond, "Expression") && wraps(&cond.children[0], "Call") && kind_is(&cond.children[0].children[0], "MethodCall")
        && cond.children[0].children[0].children.len() == 3 {
        let mc = &cond.children[0].children[0];
        assert(sole(cond@) == cond.children@[0]@);
        assert(sole(sole(cond@)) == mc@);
        assert(mc@.kids == trees_of(mc.children@));
        let kind = if member_name_is(&mc.children[1], "mustSuggestOptionValuesFor") {
            Kind::Option
        } else if member_name_is(&mc.children[1], "mustSuggestArgumentValuesFor") {
            Kind::Argument
        } else {
            return None;
        };
        match nth_arg_exec(&mc.children[2], 0) {
            Some(a) => match lit_str(a) {
                Some(name) => Some((kind, name)),
                None => None,
            },
            None => None,
        }
    } else {
        None
    }
}

fn suggested_at_exec(
    n: &PhpNode,
    scope: &Scope,
    uses: &Vec<(String, String)>,
    files: &Vec<(String, Option<String>)>,
) -> (r: Result<Vec<String>, String>)
    ensures
        found_view(r) == suggested_at(n@, env_of(scope@, uses@, files@)),
{
    if wraps(n, "Expression") && wraps(&n.children[0], "Call") && kind_is(&n.children[0].children[0], "MethodCall")
        && n.children[0].children[0].children.len() == 3 && member_name_is(
        &n.children[0].children[0].children[1],
        "suggestValues",
    ) {
        let mc = &n.children[0].children[0];
        assert(sole(n@) == n.children@[0]@);
        assert(sole(sole(n@)) == mc@);
        assert(mc@.kids == trees_of(mc.children@));
        match nth_arg_exec(&mc.children[2], 0) {
            Some(a) => collect_strings(a, scope, uses, files),
            None => empty_found(),
        }
    } else {
        empty_found()
    }
}

/// The values offered along the walk of `n`, added to `acc`.
pub fn suggest_walk(
    n: &PhpNode,
    scope: &Scope,
    uses: &Vec<(String, String)>,
    files: &Vec<(String, Option<String>)>,
    acc: Result<Vec<String>, String>,
) -> (r: Result<Vec<String>, String>)
    ensures
        found_view(r) == suggest_fold(found_view(acc), pre_order(n@), env_of(scope@, uses@, files@)),
    decreases n,
{
    let ghost a0 = found_view(acc);
    let ghost env = env_of(scope@, uses@, files@);
    let here = suggested_at_exec(n, scope, uses, files);
    let mut cur = crate::extract::join_exec(acc, here);
    proof {
        assert(seq![n@].drop_last() == Seq::<Tree>::empty());
        assert(seq![n@].last() == n@);
        assert(suggest_fold(a0, Seq::<Tree>::empty(), env) == a0);
        assert(suggest_fold(a0, seq![n@], env) == join(
            suggest_fold(a0, seq![n@].drop_last(), env),
            suggested_at(n@, env),
        ));
        assert(suggest_fold(a0, seq![n@], env) == found_view(cur));
        assert(n@.kids == trees_of(n.children@));
        assert(n@.kids.take(0) == Seq::<Tree>::empty());
        assert(seq![n@] + forest_pre(n@.kids.take(0)) == seq![n@]);
    }
    let mut i: usize = 0;
    while i < n.children.len()
        invariant
            i <= n.children.len(),
            env == env_of(scope@, uses@, files@),
            n@.kids == trees_of(n.children@),
            found_view(cur) == suggest_fold(a0, seq![n@] + forest_pre(n@.kids.take(i as int)), env),
        decreases n.children.len() - i,
    {
        cur = suggest_walk(&n.children[i], scope, uses, files, cur);
        proof {
            lemma_forest_pre_step(n@.kids, i as int);
            let a = seq![n@] + forest_pre(n@.kids.take(i as int));
            lemma_suggest_fold_append(a0, a, pre_order(n@.kids[i as int]), env);
            assert(a + pre_order(n@.kids[i as int]) == seq![n@] + forest_pre(n@.kids.take(i + 1)));
        }
        i = i + 1;
    }
    assert(n@.kids.take(n.children.len() as int) == n@.kids);
    assert(pre_order(n@) == seq![n@] + forest_pre(n@.kids));
    cur
}

} // verus!
