//! The second pass over a command's source: the places where a parameter is
//! compared with strings, and the strings it is compared with.

use vstd::prelude::*;
use crate::values::{
    Kind, Values, Row, add_values, views_of_strings, grows, extracted_clean, lemma_grows_refl, lemma_grows_trans,
    lemma_add_values_grows,
};
use crate::php::{PhpNode, Tree, trees_of};
use crate::tree::{
    wrapper, sole, kind_is, wraps, text_is, member_name, member_name_is, ident_of, ident_exec,
    last_segment, last_segment_is, eq_ignore_ascii_case, nth_arg, nth_arg_exec,
};
use crate::enums::{enum_lookup, pairs_view, files_view, FilesView, uses_of, parse_uses};
use crate::php::{source_tree, parse_tree};
use crate::bytes::{lossy_text, utf8_lossy, defines_command, defines_command_spec};
use crate::tree::{lit_str_of, lit_str, key_value, key_value_exec};
use crate::rules::{
    prompt_values, prompt_values_exec, rule_values, rule_values_exec, rule_elements, rule_item, rule_in_values,
    suggest_target, suggest_target_exec, suggest_fold, suggested_at, suggest_walk, empty_found, prompt_function,
};
use crate::tree::unparen;
use crate::cache::{cache_safe, values_fold, values_text, lemma_rows_cache_roundtrip};
use crate::text::lines_of;
use crate::values::{values_clean, lookup, acceptable_value, lemma_add_value_clean, lemma_lookup_grows};
use crate::extract::{
    enum_value_of, enum_all_values_of, element_strings, join, case_value, CasesFound,
    RefKey, Env, Found, Scope, expr_ref_of, expr_ref, lit_strings_of, lit_strings,
    collect_strings_of, collect_strings, all_case_values, found_view, env_of, pre_order,
    forest_pre, lemma_forest_pre_step, ScopeView, scope_fold, scope_walk, aliases_view, consts_view,
};

verus! {

broadcast use vstd::string::group_string_axioms;

/// The values found so far, or the path of a file that has to be read
/// before the pass can go on.
pub type Outcome = Result<Seq<Row>, Seq<char>>;

/// `out` after adding what was found for the parameter `r`.
pub open spec fn add_found(out: Outcome, r: RefKey, f: Found) -> Outcome {
    match out {
        Err(p) => Err(p),
        Ok(rows) => match f {
            Err(p) => Err(p),
            Ok(vals) => Ok(add_values(rows, r.0, r.1, vals)),
        },
    }
}

/// The operators that compare for (in)equality.
pub open spec fn is_equality_op(t: Seq<char>) -> bool {
    t == "=="@ || t == "!="@ || t == "==="@ || t == "!=="@ || t == "<>"@ || t == "<=>"@
}

/// A comparison: the parameter on one side, the strings on the other.
pub open spec fn binary_step(out: Outcome, v: Tree, env: Env) -> Outcome {
    match expr_ref_of(v.kids[0], env.0.0) {
        Some(r) => add_found(out, r, lit_strings_of(v.kids[2], env)),
        None => match expr_ref_of(v.kids[2], env.0.0) {
            Some(r) => add_found(out, r, lit_strings_of(v.kids[0], env)),
            None => out,
        },
    }
}

/// A call of `in_array` (any namespace, any case).
pub open spec fn in_array_call(fc: Tree) -> bool {
    match ident_of(fc.kids[0]) {
        Some(f) => eq_ignore_ascii_case(last_segment(f), "in_array"@),
        None => false,
    }
}

/// `in_array(<parameter>, <haystack>)`.
pub open spec fn in_array_step(out: Outcome, fc: Tree, env: Env) -> Outcome {
    match (nth_arg(fc.kids[1], 0), nth_arg(fc.kids[1], 1)) {
        (Some(a), Some(b)) => match expr_ref_of(a, env.0.0) {
            Some(r) => add_found(out, r, collect_strings_of(b, env)),
            None => out,
        },
        _ => out,
    }
}

/// `Enum::from(<parameter>)` / `Enum::tryFrom(<parameter>)`: every case value.
pub open spec fn from_step(out: Outcome, smc: Tree, env: Env) -> Outcome {
    if member_name(smc.kids[1]) == Some("from"@) || member_name(smc.kids[1]) == Some("tryFrom"@) {
        match (ident_of(smc.kids[0]), nth_arg(smc.kids[2], 0)) {
            (Some(w), Some(a)) => match expr_ref_of(a, env.0.0) {
                Some(r) => add_found(out, r, all_case_values(enum_lookup(env.1, env.2, w))),
                None => out,
            },
            _ => out,
        }
    } else {
        out
    }
}

/// The conditions of one `match` arm.
pub open spec fn cond_fold(out: Outcome, r: RefKey, conds: Seq<Tree>, env: Env) -> Outcome
    decreases conds.len(),
{
    if conds.len() == 0 {
        out
    } else {
        add_found(cond_fold(out, r, conds.drop_last(), env), r, lit_strings_of(conds.last(), env))
    }
}

/// The arms of a `match`: each condition of each non-default arm.
pub open spec fn arms_fold(out: Outcome, r: RefKey, arms: Seq<Tree>, env: Env) -> Outcome
    decreases arms.len(),
{
    if arms.len() == 0 {
        out
    } else {
        let before = arms_fold(out, r, arms.drop_last(), env);
        let arm = arms.last();
        if wrapper(arm, "MatchArm"@) && sole(arm).kind == "MatchExpressionArm"@ && sole(arm).kids.len() >= 1 {
            cond_fold(before, r, sole(arm).kids.drop_last(), env)
        } else {
            before
        }
    }
}

/// The cases of a `switch`: the expression of each non-default case.
pub open spec fn cases_fold(out: Outcome, r: RefKey, cases: Seq<Tree>, env: Env) -> Outcome
    decreases cases.len(),
{
    if cases.len() == 0 {
        out
    } else {
        let before = cases_fold(out, r, cases.drop_last(), env);
        let c = cases.last();
        if wrapper(c, "SwitchCase"@) && sole(c).kind == "SwitchExpressionCase"@ && sole(c).kids.len() >= 2 {
            add_found(before, r, lit_strings_of(sole(c).kids[1], env))
        } else {
            before
        }
    }
}

/// `switch (<parameter>) { case ...: }`.
pub open spec fn switch_step(out: Outcome, sw: Tree, env: Env) -> Outcome {
    match expr_ref_of(sw.kids[1], env.0.0) {
        Some(r) => if wrapper(sw.kids[2], "SwitchBody"@) {
            cases_fold(out, r, sole(sw.kids[2]).kids, env)
        } else {
            out
        },
        None => out,
    }
}

/// A prompt given as the fallback of a parameter, `<parameter> ?? <prompt>`
/// or `<parameter> ?: <prompt>`: the options the prompt offers.
pub open spec fn fallback_step(out: Outcome, lhs: Tree, rhs: Tree, env: Env) -> Outcome {
    match expr_ref_of(lhs, env.0.0) {
        Some(r) => add_found(out, r, prompt_values(rhs, env)),
        None => out,
    }
}

/// A validation rule `'<name>' => <rules>`: the values its `in:` rules and
/// `Rule::in(..)` allow, for the argument and for the option of that name
/// (the rule names the parameter, not its kind).
pub open spec fn rule_step(out: Outcome, k: Tree, v: Tree, env: Env) -> Outcome {
    match lit_str_of(k) {
        Some(name) => add_found(
            add_found(out, (Kind::Argument, name), rule_values(v, env)),
            (Kind::Option, name),
            rule_values(v, env),
        ),
        None => out,
    }
}

/// A completion override, `if ($input->mustSuggestOptionValuesFor('<name>'))
/// { .. ->suggestValues(<values>) .. }` (or `mustSuggestArgumentValuesFor`):
/// every value suggested within the `if`.
pub open spec fn suggest_step(out: Outcome, ifn: Tree, env: Env) -> Outcome {
    match suggest_target(ifn.kids[1]) {
        Some(r) => add_found(out, r, suggest_fold(Ok(seq![]), pre_order(ifn.kids[2]), env)),
        None => out,
    }
}

/// The second pass at one node.
pub open spec fn collect_step(out: Outcome, n: Tree, env: Env) -> Outcome {
    match out {
        Err(p) => Err(p),
        Ok(_) => if wrapper(n, "Expression"@) {
            let v = sole(n);
            if v.kind == "Binary"@ && v.kids.len() == 3 && is_equality_op(v.kids[1].text) {
                binary_step(out, v, env)
            } else if v.kind == "Binary"@ && v.kids.len() == 3 && v.kids[1].text == "??"@ {
                fallback_step(out, v.kids[0], v.kids[2], env)
            } else if v.kind == "Conditional"@ && v.kids.len() == 2 {
                fallback_step(out, v.kids[0], v.kids[1], env)
            } else if wrapper(v, "Call"@) && sole(v).kind == "FunctionCall"@ && sole(v).kids.len() == 2
                && in_array_call(sole(v)) {
                in_array_step(out, sole(v), env)
            } else if wrapper(v, "Call"@) && sole(v).kind == "StaticMethodCall"@ && sole(v).kids.len() == 3 {
                from_step(out, sole(v), env)
            } else if v.kind == "Match"@ && v.kids.len() >= 2 {
                match expr_ref_of(v.kids[1], env.0.0) {
                    Some(r) => arms_fold(out, r, v.kids, env),
                    None => out,
                }
            } else {
                out
            }
        } else if wrapper(n, "Statement"@) && sole(n).kind == "Switch"@ && sole(n).kids.len() == 3 {
            switch_step(out, sole(n), env)
        } else if n.kind == "If"@ && n.kids.len() == 3 {
            suggest_step(out, n, env)
        } else {
            match key_value(n) {
                Some(kv) => rule_step(out, kv.0, kv.1, env),
                None => out,
            }
        },
    }
}

/// The second pass over a sequence of nodes.
pub open spec fn collect_fold(out: Outcome, nodes: Seq<Tree>, env: Env) -> Outcome
    decreases nodes.len(),
{
    if nodes.len() == 0 {
        out
    } else {
        collect_step(collect_fold(out, nodes.drop_last(), env), nodes.last(), env)
    }
}

pub proof fn lemma_collect_fold_append(out: Outcome, a: Seq<Tree>, b: Seq<Tree>, env: Env)
    ensures
        collect_fold(out, a + b, env) == collect_fold(collect_fold(out, a, env), b, env),
    decreases b.len(),
{
    if b.len() == 0 {
        assert(a + b == a);
    } else {
        lemma_collect_fold_append(out, a, b.drop_last(), env);
        assert((a + b).drop_last() == a + b.drop_last());
    }
}

/// The outcome an exec state stands for.
pub open spec fn outcome(vals: Values, err: Option<String>) -> Outcome {
    match err {
        None => Ok(vals@),
        Some(p) => Err(p@),
    }
}

fn add_found_exec(out: &mut Values, r: &(Kind, String), f: Result<Vec<String>, String>) -> (e: Option<String>)
    ensures
        outcome(*final(out), e) == add_found(Ok(old(out)@), (r.0, r.1@), found_view(f)),
{
    match f {
        Err(p) => Some(p),
        Ok(vals) => {
            out.add_all(r, vals);
            None
        },
    }
}

fn binary_exec(
    v: &PhpNode,
    scope: &Scope,
    uses: &Vec<(String, String)>,
    files: &Vec<(String, Option<String>)>,
    out: &mut Values,
) -> (e: Option<String>)
    requires
        v.children.len() == 3,
    ensures
        outcome(*final(out), e) == binary_step(Ok(old(out)@), v@, env_of(scope@, uses@, files@)),
{
    assert(v@.kids[0] == v.children@[0]@);
    assert(v@.kids[2] == v.children@[2]@);
    match expr_ref(&v.children[0], &scope.aliases) {
        Some(r) => {
            let f = lit_strings(&v.children[2], scope, uses, files);
            add_found_exec(out, &r, f)
        },
        None => match expr_ref(&v.children[2], &scope.aliases) {
            Some(r) => {
                let f = lit_strings(&v.children[0], scope, uses, files);
                add_found_exec(out, &r, f)
            },
            None => None,
        },
    }
}

fn in_array_exec(
    fc: &PhpNode,
    scope: &Scope,
    uses: &Vec<(String, String)>,
    files: &Vec<(String, Option<String>)>,
    out: &mut Values,
) -> (e: Option<String>)
    requires
        fc.children.len() == 2,
    ensures
        outcome(*final(out), e) == in_array_step(Ok(old(out)@), fc@, env_of(scope@, uses@, files@)),
{
    assert(fc@.kids[1] == fc.children@[1]@);
    match (nth_arg_exec(&fc.children[1], 0), nth_arg_exec(&fc.children[1], 1)) {
        (Some(a), Some(b)) => match expr_ref(a, &scope.aliases) {
            Some(r) => {
                let f = collect_strings(b, scope, uses, files);
                add_found_exec(out, &r, f)
            },
            None => None,
        },
        _ => None,
    }
}

fn from_exec(
    smc: &PhpNode,
    scope: &Scope,
    uses: &Vec<(String, String)>,
    files: &Vec<(String, Option<String>)>,
    out: &mut Values,
) -> (e: Option<String>)
    requires
        smc.children.len() == 3,
    ensures
        outcome(*final(out), e) == from_step(Ok(old(out)@), smc@, env_of(scope@, uses@, files@)),
{
    assert(smc@.kids[0] == smc.children@[0]@);
    assert(smc@.kids[1] == smc.children@[1]@);
    assert(smc@.kids[2] == smc.children@[2]@);
    if !(member_name_is(&smc.children[1], "from") || member_name_is(&smc.children[1], "tryFrom")) {
        return None;
    }
    match (ident_exec(&smc.children[0]), nth_arg_exec(&smc.children[2], 0)) {
        (Some(w), Some(a)) => match expr_ref(a, &scope.aliases) {
            Some(r) => {
                let cases = crate::enums::lookup_enum(uses, files, w);
                let f = all_values_of_cases(cases);
                add_found_exec(out, &r, f)
            },
            None => None,
        },
        _ => None,
    }
}

fn all_values_of_cases(found: Result<Option<Vec<(String, String)>>, String>) -> (r: Result<Vec<String>, String>)
    ensures
        found_view(r) == all_case_values(crate::extract::cases_view(found)),
{
    let mut out: Vec<String> = Vec::new();
    assert(views_of_strings(out@) =~= Seq::<Seq<char>>::empty());
    match found {
        Err(p) => Err(p),
        Ok(None) => Ok(out),
        Ok(Some(cs)) => {
            let ghost want = pairs_view(cs@).map_values(|e: (Seq<char>, Seq<char>)| e.1);
            let mut i: usize = 0;
            while i < cs.len()
                invariant
                    i <= cs.len(),
                    want == pairs_view(cs@).map_values(|e: (Seq<char>, Seq<char>)| e.1),
                    views_of_strings(out@) == want.take(i as int),
                decreases cs.len() - i,
            {
                let ghost before = out@;
                out.push(cs[i].1.clone());
                assert(views_of_strings(out@) == views_of_strings(before).push(cs@[i as int].1@));
                assert(want.take(i + 1) == want.take(i as int).push(want[i as int]));
                i = i + 1;
            }
            assert(want.take(cs.len() as int) == want);
            Ok(out)
        },
    }
}

fn cond_exec(
    r: &(Kind, String),
    conds: &Vec<PhpNode>,
    count: usize,
    scope: &Scope,
    uses: &Vec<(String, String)>,
    files: &Vec<(String, Option<String>)>,
    out: &mut Values,
    err: &mut Option<String>,
)
    requires
        count <= conds.len(),
    ensures
        outcome(*final(out), *final(err)) == cond_fold(
            outcome(*old(out), *old(err)),
            (r.0, r.1@),
            trees_of(conds@).take(count as int),
            env_of(scope@, uses@, files@),
        ),
{
    let ghost start = outcome(*out, *err);
    let ghost ts = trees_of(conds@).take(count as int);
    let ghost env = env_of(scope@, uses@, files@);
    let mut i: usize = 0;
    while i < count
        invariant
            i <= count <= conds.len(),
            ts == trees_of(conds@).take(count as int),
            env == env_of(scope@, uses@, files@),
            outcome(*out, *err) == cond_fold(start, (r.0, r.1@), ts.take(i as int), env),
        decreases count - i,
    {
        assert(ts.take(i + 1).drop_last() == ts.take(i as int));
        assert(ts.take(i + 1).last() == conds@[i as int]@);
        if err.is_none() {
            let f = lit_strings(&conds[i], scope, uses, files);
            *err = add_found_exec(out, r, f);
        }
        i = i + 1;
    }
    assert(ts.take(count as int) == ts);
}

fn arms_exec(
    r: &(Kind, String),
    arms: &Vec<PhpNode>,
    scope: &Scope,
    uses: &Vec<(String, String)>,
    files: &Vec<(String, Option<String>)>,
    out: &mut Values,
) -> (e: Option<String>)
    ensures
        outcome(*final(out), e) == arms_fold(
            Ok(old(out)@),
            (r.0, r.1@),
            trees_of(arms@),
            env_of(scope@, uses@, files@),
        ),
{
    let ghost ts = trees_of(arms@);
    let ghost env = env_of(scope@, uses@, files@);
    let ghost start = Ok::<Seq<Row>, Seq<char>>(out@);
    let mut err: Option<String> = None;
    let mut i: usize = 0;
    while i < arms.len()
        invariant
            i <= arms.len(),
            ts == trees_of(arms@),
            env == env_of(scope@, uses@, files@),
            outcome(*out, err) == arms_fold(start, (r.0, r.1@), ts.take(i as int), env),
        decreases arms.len() - i,
    {
        assert(ts.take(i + 1).drop_last() == ts.take(i as int));
        let arm = &arms[i];
        assert(ts.take(i + 1).last() == arm@);
        if wraps(arm, "MatchArm") && kind_is(&arm.children[0], "MatchExpressionArm")
            && arm.children[0].children.len() >= 1 {
            let inner = &arm.children[0];
            assert(sole(arm@) == inner@);
            assert(trees_of(inner.children@).take(inner.children.len() - 1) == inner@.kids.drop_last());
            cond_exec(r, &inner.children, inner.children.len() - 1, scope, uses, files, out, &mut err);
        }
        i = i + 1;
    }
    assert(ts.take(arms.len() as int) == ts);
    err
}

fn cases_exec(
    r: &(Kind, String),
    cases: &Vec<PhpNode>,
    scope: &Scope,
    uses: &Vec<(String, String)>,
    files: &Vec<(String, Option<String>)>,
    out: &mut Values,
) -> (e: Option<String>)
    ensures
        outcome(*final(out), e) == cases_fold(
            Ok(old(out)@),
            (r.0, r.1@),
            trees_of(cases@),
            env_of(scope@, uses@, files@),
        ),
{
    let ghost ts = trees_of(cases@);
    let ghost env = env_of(scope@, uses@, files@);
    let ghost start = Ok::<Seq<Row>, Seq<char>>(out@);
    let mut err: Option<String> = None;
    let mut i: usize = 0;
    while i < cases.len()
        invariant
            i <= cases.len(),
            ts == trees_of(cases@),
            env == env_of(scope@, uses@, files@),
            outcome(*out, err) == cases_fold(start, (r.0, r.1@), ts.take(i as int), env),
        decreases cases.len() - i,
    {
        assert(ts.take(i + 1).drop_last() == ts.take(i as int));
        let c = &cases[i];
        assert(ts.take(i + 1).last() == c@);
        if wraps(c, "SwitchCase") && kind_is(&c.children[0], "SwitchExpressionCase")
            && c.children[0].children.len() >= 2 {
            let inner = &c.children[0];
            assert(sole(c@) == inner@);
            assert(inner@.kids[1] == inner.children@[1]@);
            if err.is_none() {
                let f = lit_strings(&inner.children[1], scope, uses, files);
                err = add_found_exec(out, r, f);
            }
        }
        i = i + 1;
    }
    assert(ts.take(cases.len() as int) == ts);
    err
}

fn in_array_call_exec(fc: &PhpNode) -> (r: bool)
    requires
        fc.children.len() == 2,
    ensures
        r == in_array_call(fc@),
{
    assert(fc@.kids[0] == fc.children@[0]@);
    match ident_exec(&fc.children[0]) {
        Some(f) => last_segment_is(f, "in_array"),
        None => false,
    }
}

fn equality_op(t: &PhpNode) -> (r: bool)
    ensures
        r == is_equality_op(t@.text),
{
    text_is(t, "==") || text_is(t, "!=") || text_is(t, "===") || text_is(t, "!==") || text_is(t, "<>")
        || text_is(t, "<=>")
}

fn fallback_exec(
    lhs: &PhpNode,
    rhs: &PhpNode,
    scope: &Scope,
    uses: &Vec<(String, String)>,
    files: &Vec<(String, Option<String>)>,
    out: &mut Values,
) -> (e: Option<String>)
    ensures
        outcome(*final(out), e) == fallback_step(Ok(old(out)@), lhs@, rhs@, env_of(scope@, uses@, files@)),
{
    match expr_ref(lhs, &scope.aliases) {
        Some(r) => {
            let f = prompt_values_exec(rhs, scope, uses, files);
            add_found_exec(out, &r, f)
        },
        None => None,
    }
}

fn rule_exec(
    k: &PhpNode,
    v: &PhpNode,
    scope: &Scope,
    uses: &Vec<(String, String)>,
    files: &Vec<(String, Option<String>)>,
    out: &mut Values,
) -> (e: Option<String>)
    ensures
        outcome(*final(out), e) == rule_step(Ok(old(out)@), k@, v@, env_of(scope@, uses@, files@)),
{
    match lit_str(k) {
        Some(name) => {
            let f1 = rule_values_exec(v, scope, uses, files);
            let ra = (Kind::Argument, name.clone());
            match add_found_exec(out, &ra, f1) {
                Some(p) => return Some(p),
                None => {},
            }
            let f2 = rule_values_exec(v, scope, uses, files);
            let ro = (Kind::Option, name);
            add_found_exec(out, &ro, f2)
        },
        None => None,
    }
}

fn suggest_exec(
    ifn: &PhpNode,
    scope: &Scope,
    uses: &Vec<(String, String)>,
    files: &Vec<(String, Option<String>)>,
    out: &mut Values,
) -> (e: Option<String>)
    requires
        ifn.children.len() == 3,
    ensures
        outcome(*final(out), e) == suggest_step(Ok(old(out)@), ifn@, env_of(scope@, uses@, files@)),
{
    assert(ifn@.kids[1] == ifn.children@[1]@);
    assert(ifn@.kids[2] == ifn.children@[2]@);
    match suggest_target_exec(&ifn.children[1]) {
        Some(r) => {
            let f = suggest_walk(&ifn.children[2], scope, uses, files, empty_found());
            add_found_exec(out, &r, f)
        },
        None => None,
    }
}

/// The second pass at one node.
fn collect_node(
    n: &PhpNode,
    scope: &Scope,
    uses: &Vec<(String, String)>,
    files: &Vec<(String, Option<String>)>,
    out: &mut Values,
) -> (e: Option<String>)
    ensures
        outcome(*final(out), e) == collect_step(Ok(old(out)@), n@, env_of(scope@, uses@, files@)),
{
    if wraps(n, "Expression") {
        let v = &n.children[0];
        assert(sole(n@) == v@);
        if kind_is(v, "Binary") && v.children.len() == 3 && equality_op(&v.children[1]) {
            assert(v@.kids[1] == v.children@[1]@);
            return binary_exec(v, scope, uses, files, out);
        }
        if kind_is(v, "Binary") && v.children.len() == 3 && text_is(&v.children[1], "??") {
            assert(v@.kids[0] == v.children@[0]@);
            assert(v@.kids[1] == v.children@[1]@);
            assert(v@.kids[2] == v.children@[2]@);
            return fallback_exec(&v.children[0], &v.children[2], scope, uses, files, out);
        }
        if kind_is(v, "Conditional") && v.children.len() == 2 {
            assert(v@.kids[0] == v.children@[0]@);
            assert(v@.kids[1] == v.children@[1]@);
            return fallback_exec(&v.children[0], &v.children[1], scope, uses, files, out);
        }
        if wraps(v, "Call") && kind_is(&v.children[0], "FunctionCall") && v.children[0].children.len() == 2
            && in_array_call_exec(&v.children[0]) {
            assert(sole(v@) == v.children@[0]@);
            return in_array_exec(&v.children[0], scope, uses, files, out);
        }
        if wraps(v, "Call") && kind_is(&v.children[0], "StaticMethodCall") && v.children[0].children.len() == 3 {
            assert(sole(v@) == v.children@[0]@);
            return from_exec(&v.children[0], scope, uses, files, out);
        }
        if kind_is(v, "Match") && v.children.len() >= 2 {
            assert(v@.kids[1] == v.children@[1]@);
            assert(v@.kids == trees_of(v.children@));
            return match expr_ref(&v.children[1], &scope.aliases) {
                Some(r) => arms_exec(&r, &v.children, scope, uses, files, out),
                None => None,
            };
        }
        return None;
    }
    if wraps(n, "Statement") && kind_is(&n.children[0], "Switch") && n.children[0].children.len() == 3 {
        let sw = &n.children[0];
        assert(sole(n@) == sw@);
        assert(sw@.kids[1] == sw.children@[1]@);
        assert(sw@.kids[2] == sw.children@[2]@);
        return match expr_ref(&sw.children[1], &scope.aliases) {
            Some(r) => {
                let body = &sw.children[2];
                if wraps(body, "SwitchBody") {
                    let inner = &body.children[0];
                    assert(sole(body@) == inner@);
                    assert(inner@.kids == trees_of(inner.children@));
                    cases_exec(&r, &inner.children, scope, uses, files, out)
                } else {
                    None
                }
            },
            None => None,
        };
    }
    if kind_is(n, "If") && n.children.len() == 3 {
        return suggest_exec(n, scope, uses, files, out);
    }
    match key_value_exec(n) {
        Some(kv) => rule_exec(kv.0, kv.1, scope, uses, files, out),
        None => None,
    }
}

/// The second pass over a tree, in walk order.
pub fn collect_walk(
    n: &PhpNode,
    scope: &Scope,
    uses: &Vec<(String, String)>,
    files: &Vec<(String, Option<String>)>,
    out: &mut Values,
    err: &mut Option<String>,
)
    ensures
        outcome(*final(out), *final(err)) == collect_fold(
            outcome(*old(out), *old(err)),
            pre_order(n@),
            env_of(scope@, uses@, files@),
        ),
    decreases n,
{
    let ghost s0 = outcome(*out, *err);
    let ghost env = env_of(scope@, uses@, files@);
    if err.is_none() {
        *err = collect_node(n, scope, uses, files, out);
    }
    proof {
        assert(seq![n@].drop_last() == Seq::<Tree>::empty());
        assert(seq![n@].last() == n@);
        assert(collect_fold(s0, Seq::<Tree>::empty(), env) == s0);
        assert(collect_fold(s0, seq![n@], env) == outcome(*out, *err));
        assert(n@.kids.take(0) == Seq::<Tree>::empty());
        assert(seq![n@] + forest_pre(n@.kids.take(0)) == seq![n@]);
    }
    let mut i: usize = 0;
    while i < n.children.len()
        invariant
            i <= n.children.len(),
            env == env_of(scope@, uses@, files@),
            outcome(*out, *err) == collect_fold(s0, seq![n@] + forest_pre(n@.kids.take(i as int)), env),
        decreases n.children.len() - i,
    {
        collect_walk(&n.children[i], scope, uses, files, out, err);
        proof {
            lemma_forest_pre_step(n@.kids, i as int);
            let a = seq![n@] + forest_pre(n@.kids.take(i as int));
            lemma_collect_fold_append(s0, a, pre_order(n@.kids[i as int]), env);
            assert(a + pre_order(n@.kids[i as int]) == seq![n@] + forest_pre(n@.kids.take(i + 1)));
        }
        i = i + 1;
    }
    assert(n@.kids.take(n.children.len() as int) == n@.kids);
}


/// What a command's source text yields for its parameters, added to
/// `rows`: aliases and constants are learnt over the whole file first, then
/// values are collected in walk order.
pub open spec fn extraction(text: Seq<char>, files: FilesView, rows: Seq<Row>) -> Outcome {
    match source_tree(text) {
        None => Ok(rows),
        Some(t) => {
            let scope = scope_fold((seq![], seq![]), pre_order(t));
            collect_fold(Ok(rows), pre_order(t), (scope, uses_of(text), files))
        },
    }
}

/// Adds to `out` the values a command's PHP source compares its arguments
/// and options with. `files` holds the enum files read so far (path relative
/// to the project, and text); where an enum's file has not been read yet,
/// the result is that file's path and `out` is left as it was.
pub fn extract_from(src: &[u8], files: &Vec<(String, Option<String>)>, out: &mut Values) -> (r: Option<String>)
    ensures
        match r {
            None => extraction(lossy_text(src@), files_view(files@), old(out)@) == Ok::<
                Seq<Row>,
                Seq<char>,
            >(final(out)@),
            Some(p) => extraction(lossy_text(src@), files_view(files@), old(out)@) == Err::<
                Seq<Row>,
                Seq<char>,
            >(p@) && final(out)@ == old(out)@,
        },
{
    let text = utf8_lossy(src);
    let (tree, _comments) = parse_tree(text.as_str());
    match tree {
        None => None,
        Some(t) => {
            let uses = parse_uses(text.as_str());
            let mut scope = Scope { aliases: Vec::new(), consts: Vec::new() };
            assert(aliases_view(scope.aliases@) =~= Seq::<(Seq<char>, RefKey)>::empty());
            assert(consts_view(scope.consts@) =~= Seq::<(Seq<char>, Seq<Seq<char>>)>::empty());
            scope_walk(&t, &mut scope);
            let mut work = out.duplicate();
            let mut err: Option<String> = None;
            collect_walk(&t, &scope, &uses, files, &mut work, &mut err);
            match err {
                None => {
                    *out = work;
                    None
                },
                Some(p) => Some(p),
            }
        },
    }
}


/// The bytes of each source.
pub open spec fn sources_view(sources: Seq<Vec<u8>>) -> Seq<Seq<u8>> {
    sources.map_values(|s: Vec<u8>| s@)
}

/// What the candidate sources that define the command `cmd` yield, taken in
/// order: the values found, or the path of the first enum file that has to
/// be read before the extraction can go on.
pub open spec fn command_extraction(sources: Seq<Seq<u8>>, cmd: Seq<char>, files: FilesView) -> Outcome
    decreases sources.len(),
{
    if sources.len() == 0 {
        Ok(seq![])
    } else {
        match command_extraction(sources.drop_last(), cmd, files) {
            Err(p) => Err(p),
            Ok(rows) => if defines_command_spec(sources.last(), cmd) {
                extraction(lossy_text(sources.last()), files, rows)
            } else {
                Ok(rows)
            },
        }
    }
}

proof fn lemma_command_extraction_err(sources: Seq<Seq<u8>>, k: int, cmd: Seq<char>, files: FilesView)
    requires
        0 <= k <= sources.len(),
        command_extraction(sources.take(k), cmd, files) is Err,
    ensures
        command_extraction(sources, cmd, files) == command_extraction(sources.take(k), cmd, files),
    decreases sources.len() - k,
{
    if k < sources.len() {
        assert(sources.take(k + 1).drop_last() == sources.take(k));
        lemma_command_extraction_err(sources, k + 1, cmd, files);
    } else {
        assert(sources.take(k) == sources);
    }
}

/// The values the parameters of the command `cmd` are compared with in the
/// candidate sources, or the path of an enum file that has to be read first
/// (see `command_extraction`). `files` holds the enum files read so far.
pub fn extract(sources: &Vec<Vec<u8>>, cmd: &str, files: &Vec<(String, Option<String>)>) -> (r: Result<Values, String>)
    ensures
        match r {
            Ok(v) => command_extraction(sources_view(sources@), cmd@, files_view(files@)) == Ok::<
                Seq<Row>,
                Seq<char>,
            >(v@),
            Err(p) => command_extraction(sources_view(sources@), cmd@, files_view(files@)) == Err::<
                Seq<Row>,
                Seq<char>,
            >(p@),
        },
{
    let ghost srcs = sources_view(sources@);
    let ghost fv = files_view(files@);
    let mut out = Values::new();
    assert(srcs.take(0) == Seq::<Seq<u8>>::empty());
    let mut i: usize = 0;
    while i < sources.len()
        invariant
            i <= sources.len(),
            srcs == sources_view(sources@),
            fv == files_view(files@),
            command_extraction(srcs.take(i as int), cmd@, fv) == Ok::<Seq<Row>, Seq<char>>(out@),
        decreases sources.len() - i,
    {
        assert(srcs.take(i + 1).drop_last() == srcs.take(i as int));
        assert(srcs.take(i + 1).last() == sources@[i as int]@);
        let src = sources[i].as_slice();
        if defines_command(src, cmd) {
            match extract_from(src, files, &mut out) {
                Some(p) => {
                    proof {
                        lemma_command_extraction_err(srcs, i + 1, cmd@, fv);
                    }
                    return Err(p);
                },
                None => {},
            }
        }
        i = i + 1;
    }
    assert(srcs.take(sources.len() as int) == srcs);
    Ok(out)
}

// --- progress: a file asked for has not been read --------------------------------

/// The file `p` is not among those read.
pub open spec fn unread(files: FilesView, p: Seq<char>) -> bool {
    crate::tree::assoc_get(files, p) is None
}

/// A result that is a success, or asks for a file not read yet.
pub open spec fn ok_or_unread<T>(r: Result<T, Seq<char>>, files: FilesView) -> bool {
    r matches Err(p) ==> unread(files, p)
}

pub proof fn lemma_lookup_unread(uses: Seq<(Seq<char>, Seq<char>)>, files: FilesView, w: Seq<char>)
    ensures
        ok_or_unread(enum_lookup(uses, files, w), files),
{
}

pub proof fn lemma_enum_value_unread(pa: Tree, env: Env)
    ensures
        ok_or_unread(enum_value_of(pa, env), env.2),
{
    if member_name(pa.kids[1]) == Some("value"@) {
        let obj = pa.kids[0];
        if wrapper(obj, "Expression"@) && wrapper(sole(obj), "Access"@) && sole(sole(obj)).kind
            == "ClassConstantAccess"@ && sole(sole(obj)).kids.len() == 2 {
            let cca = sole(sole(obj));
            if let (Some(w), Some(c)) = (ident_of(cca.kids[0]), crate::tree::constant_name(cca.kids[1])) {
                lemma_lookup_unread(env.1, env.2, w);
            }
        }
    }
}

pub proof fn lemma_lit_strings_unread(e: Tree, env: Env)
    ensures
        ok_or_unread(lit_strings_of(e, env), env.2),
    decreases e,
{
    if crate::tree::lit_str_of(e) is None && wrapper(e, "Expression"@) {
        let v = sole(e);
        if wrapper(v, "Parenthesized"@) {
            lemma_lit_strings_unread(sole(v), env);
        } else if wrapper(v, "Access"@) && sole(v).kind == "PropertyAccess"@ && sole(v).kids.len() == 2 {
            lemma_enum_value_unread(sole(v), env);
        }
    }
}

pub proof fn lemma_enum_all_values_unread(e: Tree, env: Env)
    ensures
        ok_or_unread(enum_all_values_of(e, env), env.2),
    decreases e,
{
    if wrapper(e, "Expression"@) {
        let v = sole(e);
        if wrapper(v, "Parenthesized"@) {
            lemma_enum_all_values_unread(sole(v), env);
        } else if wrapper(v, "Call"@) && sole(v).kind == "StaticMethodCall"@ && sole(v).kids.len() == 3 {
            if let Some(w) = ident_of(sole(v).kids[0]) {
                lemma_lookup_unread(env.1, env.2, w);
            }
        } else if wrapper(v, "Call"@) && sole(v).kind == "FunctionCall"@ && sole(v).kids.len() == 2 {
            let fc = sole(v);
            let args = fc.kids[1];
            if let Some(f) = ident_of(fc.kids[0]) {
                let k = if eq_ignore_ascii_case(last_segment(f), "array_column"@) {
                    0int
                } else if eq_ignore_ascii_case(last_segment(f), "array_map"@) {
                    1int
                } else {
                    -1int
                };
                if k >= 0 && crate::extract::has_arg(args, k) {
                    lemma_enum_all_values_unread(sole(args.kids[k]).kids[sole(args.kids[k]).kids.len() - 1], env);
                }
            }
        }
    }
}

pub proof fn lemma_element_strings_unread(els: Seq<Tree>, env: Env)
    ensures
        ok_or_unread(element_strings(els, env), env.2),
    decreases els.len(),
{
    if els.len() > 0 {
        lemma_element_strings_unread(els.drop_last(), env);
        if let Some(v) = crate::tree::element_value(els.last()) {
            lemma_lit_strings_unread(v, env);
        }
    }
}

pub proof fn lemma_collect_strings_unread(e: Tree, env: Env)
    ensures
        ok_or_unread(collect_strings_of(e, env), env.2),
    decreases e,
{
    if wrapper(e, "Expression"@) && wrapper(sole(e), "Parenthesized"@) {
        lemma_collect_strings_unread(sole(sole(e)), env);
    } else {
        match crate::tree::array_elements(e) {
            Some(els) => lemma_element_strings_unread(els, env),
            None => {
                lemma_lit_strings_unread(e, env);
                lemma_enum_all_values_unread(e, env);
            },
        }
    }
}

pub proof fn lemma_cond_fold_unread(out: Outcome, r: RefKey, conds: Seq<Tree>, env: Env)
    requires
        ok_or_unread(out, env.2),
    ensures
        ok_or_unread(cond_fold(out, r, conds, env), env.2),
    decreases conds.len(),
{
    if conds.len() > 0 {
        lemma_cond_fold_unread(out, r, conds.drop_last(), env);
        lemma_lit_strings_unread(conds.last(), env);
    }
}

pub proof fn lemma_arms_fold_unread(out: Outcome, r: RefKey, arms: Seq<Tree>, env: Env)
    requires
        ok_or_unread(out, env.2),
    ensures
        ok_or_unread(arms_fold(out, r, arms, env), env.2),
    decreases arms.len(),
{
    if arms.len() > 0 {
        lemma_arms_fold_unread(out, r, arms.drop_last(), env);
        let arm = arms.last();
        if wrapper(arm, "MatchArm"@) && sole(arm).kind == "MatchExpressionArm"@ && sole(arm).kids.len() >= 1 {
            lemma_cond_fold_unread(arms_fold(out, r, arms.drop_last(), env), r, sole(arm).kids.drop_last(), env);
        }
    }
}

pub proof fn lemma_cases_fold_unread(out: Outcome, r: RefKey, cases: Seq<Tree>, env: Env)
    requires
        ok_or_unread(out, env.2),
    ensures
        ok_or_unread(cases_fold(out, r, cases, env), env.2),
    decreases cases.len(),
{
    if cases.len() > 0 {
        lemma_cases_fold_unread(out, r, cases.drop_last(), env);
        let c = cases.last();
        if wrapper(c, "SwitchCase"@) && sole(c).kind == "SwitchExpressionCase"@ && sole(c).kids.len() >= 2 {
            lemma_lit_strings_unread(sole(c).kids[1], env);
        }
    }
}

pub proof fn lemma_prompt_values_unread(e: Tree, env: Env)
    ensures
        ok_or_unread(prompt_values(e, env), env.2),
{
    let u = unparen(e);
    if wrapper(u, "Expression"@) && wrapper(sole(u), "Call"@) {
        let c = sole(sole(u));
        if c.kind == "MethodCall"@ && c.kids.len() == 3 && member_name(c.kids[1]) == Some("choice"@) {
            if let Some(a) = nth_arg(c.kids[2], 1) {
                lemma_collect_strings_unread(a, env);
            }
        } else if c.kind == "FunctionCall"@ && c.kids.len() == 2 && prompt_function(c.kids[0]) {
            if let Some(a) = nth_arg(c.kids[1], 1) {
                lemma_collect_strings_unread(a, env);
            }
        }
    }
}

pub proof fn lemma_rule_item_unread(x: Tree, env: Env)
    ensures
        ok_or_unread(rule_item(x, env), env.2),
{
    if lit_str_of(x) is None && wrapper(x, "Expression"@) && wrapper(sole(x), "Call"@) && sole(sole(x)).kind
        == "StaticMethodCall"@ && sole(sole(x)).kids.len() == 3 {
        if let Some(a) = nth_arg(sole(sole(x)).kids[2], 0) {
            lemma_collect_strings_unread(a, env);
        }
    }
}

pub proof fn lemma_rule_elements_unread(els: Seq<Tree>, env: Env)
    ensures
        ok_or_unread(rule_elements(els, env), env.2),
    decreases els.len(),
{
    if els.len() > 0 {
        lemma_rule_elements_unread(els.drop_last(), env);
        if let Some(x) = crate::tree::element_value(els.last()) {
            lemma_rule_item_unread(x, env);
        }
    }
}

pub proof fn lemma_rule_values_unread(v: Tree, env: Env)
    ensures
        ok_or_unread(rule_values(v, env), env.2),
{
    match crate::tree::array_elements(v) {
        Some(els) => lemma_rule_elements_unread(els, env),
        None => lemma_rule_item_unread(v, env),
    }
}

pub proof fn lemma_suggest_fold_unread(acc: Found, nodes: Seq<Tree>, env: Env)
    requires
        ok_or_unread(acc, env.2),
    ensures
        ok_or_unread(suggest_fold(acc, nodes, env), env.2),
    decreases nodes.len(),
{
    if nodes.len() > 0 {
        lemma_suggest_fold_unread(acc, nodes.drop_last(), env);
        let n = nodes.last();
        if wrapper(n, "Expression"@) && wrapper(sole(n), "Call"@) && sole(sole(n)).kind == "MethodCall"@
            && sole(sole(n)).kids.len() == 3 {
            if let Some(a) = nth_arg(sole(sole(n)).kids[2], 0) {
                lemma_collect_strings_unread(a, env);
            }
        }
    }
}

proof fn lemma_new_steps_unread(out: Outcome, n: Tree, env: Env)
    requires
        ok_or_unread(out, env.2),
    ensures
        wrapper(n, "Expression"@) && sole(n).kind == "Binary"@ && sole(n).kids.len() == 3 ==> ok_or_unread(
            fallback_step(out, sole(n).kids[0], sole(n).kids[2], env),
            env.2,
        ),
        wrapper(n, "Expression"@) && sole(n).kind == "Conditional"@ && sole(n).kids.len() == 2 ==> ok_or_unread(
            fallback_step(out, sole(n).kids[0], sole(n).kids[1], env),
            env.2,
        ),
        n.kind == "If"@ && n.kids.len() == 3 ==> ok_or_unread(suggest_step(out, n, env), env.2),
        key_value(n) matches Some(kv) ==> ok_or_unread(rule_step(out, kv.0, kv.1, env), env.2),
{
    if wrapper(n, "Expression"@) && sole(n).kids.len() >= 2 {
        lemma_prompt_values_unread(sole(n).kids[sole(n).kids.len() - 1], env);
    }
    if n.kind == "If"@ && n.kids.len() == 3 {
        lemma_suggest_fold_unread(Ok(seq![]), pre_order(n.kids[2]), env);
    }
    if let Some(kv) = key_value(n) {
        lemma_rule_values_unread(kv.1, env);
    }
}

pub proof fn lemma_collect_step_unread(out: Outcome, n: Tree, env: Env)
    requires
        ok_or_unread(out, env.2),
    ensures
        ok_or_unread(collect_step(out, n, env), env.2),
{
    lemma_new_steps_unread(out, n, env);
    if out is Ok && wrapper(n, "Expression"@) {
        let v = sole(n);
        if v.kind == "Binary"@ && v.kids.len() == 3 && is_equality_op(v.kids[1].text) {
            lemma_lit_strings_unread(v.kids[0], env);
            lemma_lit_strings_unread(v.kids[2], env);
        } else if wrapper(v, "Call"@) && sole(v).kind == "FunctionCall"@ && sole(v).kids.len() == 2
            && in_array_call(sole(v)) {
            let fc = sole(v);
            if let Some(b) = nth_arg(fc.kids[1], 1) {
                lemma_collect_strings_unread(b, env);
            }
        } else if wrapper(v, "Call"@) && sole(v).kind == "StaticMethodCall"@ && sole(v).kids.len() == 3 {
            if let Some(w) = ident_of(sole(v).kids[0]) {
                lemma_lookup_unread(env.1, env.2, w);
            }
        } else if v.kind == "Match"@ && v.kids.len() >= 2 {
            if let Some(r) = expr_ref_of(v.kids[1], env.0.0) {
                lemma_arms_fold_unread(out, r, v.kids, env);
            }
        }
    } else if out is Ok && wrapper(n, "Statement"@) && sole(n).kind == "Switch"@ && sole(n).kids.len() == 3 {
        let sw = sole(n);
        if let Some(r) = expr_ref_of(sw.kids[1], env.0.0) {
            if wrapper(sw.kids[2], "SwitchBody"@) {
                lemma_cases_fold_unread(out, r, sole(sw.kids[2]).kids, env);
            }
        }
    }
}

pub proof fn lemma_collect_fold_unread(out: Outcome, nodes: Seq<Tree>, env: Env)
    requires
        ok_or_unread(out, env.2),
    ensures
        ok_or_unread(collect_fold(out, nodes, env), env.2),
    decreases nodes.len(),
{
    if nodes.len() > 0 {
        lemma_collect_fold_unread(out, nodes.drop_last(), env);
        lemma_collect_step_unread(collect_fold(out, nodes.drop_last(), env), nodes.last(), env);
    }
}

/// A source whose values wait on a file names a file not read yet: so
/// reading each file asked for, and trying again, ends.
pub proof fn lemma_extraction_asks_unread(text: Seq<char>, files: FilesView, rows: Seq<Row>)
    ensures
        extraction(text, files, rows) matches Err(p) ==> unread(files, p),
{
    if let Some(t) = source_tree(text) {
        let scope = scope_fold((seq![], seq![]), pre_order(t));
        lemma_collect_fold_unread(Ok(rows), pre_order(t), (scope, uses_of(text), files));
    }
}

/// Extraction over all candidate sources asks only for a file not read yet.
pub proof fn lemma_command_extraction_asks_unread(sources: Seq<Seq<u8>>, cmd: Seq<char>, files: FilesView)
    ensures
        command_extraction(sources, cmd, files) matches Err(p) ==> unread(files, p),
    decreases sources.len(),
{
    if sources.len() > 0 {
        lemma_command_extraction_asks_unread(sources.drop_last(), cmd, files);
        if let Ok(rows) = command_extraction(sources.drop_last(), cmd, files) {
            lemma_extraction_asks_unread(lossy_text(sources.last()), files, rows);
        }
    }
}

// --- extraction keeps values clean and only adds to them ---------------------------

/// An outcome whose values, if any, are clean, have no parameter without
/// values, and grow `start`.
pub open spec fn kept(out: Outcome, start: Seq<Row>) -> bool {
    out matches Ok(r) ==> extracted_clean(r) && grows(start, r)
}

proof fn lemma_add_found_kept(out: Outcome, r: RefKey, f: Found, start: Seq<Row>)
    requires
        kept(out, start),
    ensures
        kept(add_found(out, r, f), start),
{
    if let Ok(rows) = out {
        if let Ok(vals) = f {
            lemma_add_values_grows(rows, r.0, r.1, vals);
            lemma_grows_trans(start, rows, add_values(rows, r.0, r.1, vals));
        }
    }
}

proof fn lemma_cond_fold_kept(out: Outcome, r: RefKey, conds: Seq<Tree>, env: Env, start: Seq<Row>)
    requires
        kept(out, start),
    ensures
        kept(cond_fold(out, r, conds, env), start),
    decreases conds.len(),
{
    if conds.len() > 0 {
        lemma_cond_fold_kept(out, r, conds.drop_last(), env, start);
        lemma_add_found_kept(cond_fold(out, r, conds.drop_last(), env), r, lit_strings_of(conds.last(), env), start);
    }
}

proof fn lemma_arms_fold_kept(out: Outcome, r: RefKey, arms: Seq<Tree>, env: Env, start: Seq<Row>)
    requires
        kept(out, start),
    ensures
        kept(arms_fold(out, r, arms, env), start),
    decreases arms.len(),
{
    if arms.len() > 0 {
        lemma_arms_fold_kept(out, r, arms.drop_last(), env, start);
        let arm = arms.last();
        if wrapper(arm, "MatchArm"@) && sole(arm).kind == "MatchExpressionArm"@ && sole(arm).kids.len() >= 1 {
            lemma_cond_fold_kept(arms_fold(out, r, arms.drop_last(), env), r, sole(arm).kids.drop_last(), env, start);
        }
    }
}

proof fn lemma_cases_fold_kept(out: Outcome, r: RefKey, cases: Seq<Tree>, env: Env, start: Seq<Row>)
    requires
        kept(out, start),
    ensures
        kept(cases_fold(out, r, cases, env), start),
    decreases cases.len(),
{
    if cases.len() > 0 {
        lemma_cases_fold_kept(out, r, cases.drop_last(), env, start);
        let c = cases.last();
        if wrapper(c, "SwitchCase"@) && sole(c).kind == "SwitchExpressionCase"@ && sole(c).kids.len() >= 2 {
            lemma_add_found_kept(
                cases_fold(out, r, cases.drop_last(), env),
                r,
                lit_strings_of(sole(c).kids[1], env),
                start,
            );
        }
    }
}

proof fn lemma_collect_step_kept(out: Outcome, n: Tree, env: Env, start: Seq<Row>)
    requires
        kept(out, start),
    ensures
        kept(collect_step(out, n, env), start),
{
    if out is Ok {
        if wrapper(n, "Expression"@) {
            let v = sole(n);
            if v.kind == "Binary"@ && v.kids.len() == 3 && is_equality_op(v.kids[1].text) {
                match expr_ref_of(v.kids[0], env.0.0) {
                    Some(r) => lemma_add_found_kept(out, r, lit_strings_of(v.kids[2], env), start),
                    None => if let Some(r) = expr_ref_of(v.kids[2], env.0.0) {
                        lemma_add_found_kept(out, r, lit_strings_of(v.kids[0], env), start);
                    },
                }
            } else if v.kind == "Binary"@ && v.kids.len() == 3 && v.kids[1].text == "??"@ {
                if let Some(r) = expr_ref_of(v.kids[0], env.0.0) {
                    lemma_add_found_kept(out, r, prompt_values(v.kids[2], env), start);
                }
            } else if v.kind == "Conditional"@ && v.kids.len() == 2 {
                if let Some(r) = expr_ref_of(v.kids[0], env.0.0) {
                    lemma_add_found_kept(out, r, prompt_values(v.kids[1], env), start);
                }
            } else if wrapper(v, "Call"@) && sole(v).kind == "FunctionCall"@ && sole(v).kids.len() == 2
                && in_array_call(sole(v)) {
                let fc = sole(v);
                if let (Some(a), Some(b)) = (nth_arg(fc.kids[1], 0), nth_arg(fc.kids[1], 1)) {
                    if let Some(r) = expr_ref_of(a, env.0.0) {
                        lemma_add_found_kept(out, r, collect_strings_of(b, env), start);
                    }
                }
            } else if wrapper(v, "Call"@) && sole(v).kind == "StaticMethodCall"@ && sole(v).kids.len() == 3 {
                let smc = sole(v);
                if let (Some(w), Some(a)) = (ident_of(smc.kids[0]), nth_arg(smc.kids[2], 0)) {
                    if let Some(r) = expr_ref_of(a, env.0.0) {
                        lemma_add_found_kept(out, r, all_case_values(enum_lookup(env.1, env.2, w)), start);
                    }
                }
            } else if v.kind == "Match"@ && v.kids.len() >= 2 {
                if let Some(r) = expr_ref_of(v.kids[1], env.0.0) {
                    lemma_arms_fold_kept(out, r, v.kids, env, start);
                }
            }
        } else if wrapper(n, "Statement"@) && sole(n).kind == "Switch"@ && sole(n).kids.len() == 3 {
            let sw = sole(n);
            if let Some(r) = expr_ref_of(sw.kids[1], env.0.0) {
                if wrapper(sw.kids[2], "SwitchBody"@) {
                    lemma_cases_fold_kept(out, r, sole(sw.kids[2]).kids, env, start);
                }
            }
        } else if n.kind == "If"@ && n.kids.len() == 3 {
            if let Some(r) = suggest_target(n.kids[1]) {
                lemma_add_found_kept(out, r, suggest_fold(Ok(seq![]), pre_order(n.kids[2]), env), start);
            }
        } else if let Some(kv) = key_value(n) {
            if let Some(name) = lit_str_of(kv.0) {
                let f = rule_values(kv.1, env);
                lemma_add_found_kept(out, (Kind::Argument, name), f, start);
                lemma_add_found_kept(add_found(out, (Kind::Argument, name), f), (Kind::Option, name), f, start);
            }
        }
    }
}

proof fn lemma_collect_fold_kept(out: Outcome, nodes: Seq<Tree>, env: Env, start: Seq<Row>)
    requires
        kept(out, start),
    ensures
        kept(collect_fold(out, nodes, env), start),
    decreases nodes.len(),
{
    if nodes.len() > 0 {
        lemma_collect_fold_kept(out, nodes.drop_last(), env, start);
        lemma_collect_step_kept(collect_fold(out, nodes.drop_last(), env), nodes.last(), env, start);
    }
}

/// Extraction only adds to the values it is given: starting from clean
/// values with no parameter left without values, what it yields is again
/// so, every parameter keeps its place, and its earlier values come first.
pub proof fn lemma_extraction_grows(text: Seq<char>, files: FilesView, rows: Seq<Row>)
    requires
        extracted_clean(rows),
    ensures
        extraction(text, files, rows) matches Ok(r) ==> extracted_clean(r) && grows(rows, r),
{
    lemma_grows_refl(rows);
    if let Some(t) = source_tree(text) {
        let scope = scope_fold((seq![], seq![]), pre_order(t));
        lemma_collect_fold_kept(Ok(rows), pre_order(t), (scope, uses_of(text), files), rows);
    }
}

/// What extraction yields for a command over all its sources is clean
/// (each parameter once, each value once, no value empty or holding a tab
/// or newline) and holds no parameter without values.
pub proof fn lemma_command_extraction_clean(sources: Seq<Seq<u8>>, cmd: Seq<char>, files: FilesView)
    ensures
        command_extraction(sources, cmd, files) matches Ok(r) ==> extracted_clean(r),
    decreases sources.len(),
{
    if sources.len() == 0 {
        assert(extracted_clean(Seq::<Row>::empty()));
    } else {
        lemma_command_extraction_clean(sources.drop_last(), cmd, files);
        if let Ok(rows) = command_extraction(sources.drop_last(), cmd, files) {
            lemma_extraction_grows(lossy_text(sources.last()), files, rows);
        }
    }
}

/// Parameter names and values that the value cache carries as they are: no
/// name holds a tab or newline, and no value ends in `\r`.
pub open spec fn cache_writable(rows: Seq<Row>) -> bool {
    forall|i: int|
        0 <= i < rows.len() ==> !(#[trigger] rows[i]).1.contains('\t') && !rows[i].1.contains('\n') && forall|j: int|
            0 <= j < rows[i].2.len() ==> !((#[trigger] rows[i].2[j]).len() > 0 && rows[i].2[j].last() == '\r')
}

/// What extraction yields for a command, written to the value cache and
/// read back, is what it yielded, wherever names and values are ones the
/// cache carries as they are (see `cache_writable`).
pub proof fn lemma_extracted_values_cache_roundtrip(sources: Seq<Seq<u8>>, cmd: Seq<char>, files: FilesView)
    ensures
        command_extraction(sources, cmd, files) matches Ok(r) ==> (cache_writable(r) ==> values_fold(
            Seq::<Row>::empty(),
            lines_of(values_text(r)),
        ) == r),
{
    lemma_command_extraction_clean(sources, cmd, files);
    if let Ok(r) = command_extraction(sources, cmd, files) {
        if cache_writable(r) {
            assert forall|i: int, j: int| 0 <= i < r.len() && 0 <= j < r[i].2.len() implies !(#[trigger] r[i].2[j]).contains(
                '\n',
            ) by {
                assert(crate::values::acceptable_value(r[i].2[j]));
            }
            assert(cache_safe(r));
            lemma_rows_cache_roundtrip(r);
        }
    }
}

// --- what a comparison yields ------------------------------------------------------

proof fn lemma_literal_is_no_param(e: Tree, aliases: Seq<(Seq<char>, RefKey)>)
    requires
        lit_str_of(e) is Some,
    ensures
        expr_ref_of(e, aliases) is None,
    decreases e,
{
    reveal_strlit("Literal");
    reveal_strlit("Binary");
    reveal_strlit("Call");
    reveal_strlit("Variable");
    reveal_strlit("Parenthesized");
    assert("Literal"@[0] == 'L' && "Binary"@[0] == 'B' && "Call"@[0] == 'C' && "Variable"@[0] == 'V');
    assert("Parenthesized"@[0] == 'P');
    let v = sole(e);
    if wrapper(v, "Parenthesized"@) {
        lemma_literal_is_no_param(sole(v), aliases);
    }
}

/// A string literal that `==`, `!=`, `===` or `!==` compares with a
/// parameter, on either side, is among that parameter's values afterwards
/// (when it is a value the completer can offer: not empty, no tab or
/// newline).
pub proof fn lemma_comparison_adds_literal(
    rows: Seq<Row>,
    n: Tree,
    env: Env,
    r: RefKey,
    s: Seq<char>,
    param_first: bool,
)
    requires
        values_clean(rows),
        wrapper(n, "Expression"@),
        sole(n).kind == "Binary"@,
        sole(n).kids.len() == 3,
        sole(n).kids[1].text == "=="@ || sole(n).kids[1].text == "!="@ || sole(n).kids[1].text == "==="@
            || sole(n).kids[1].text == "!=="@,
        param_first ==> expr_ref_of(sole(n).kids[0], env.0.0) == Some(r) && lit_str_of(sole(n).kids[2]) == Some(s),
        !param_first ==> expr_ref_of(sole(n).kids[2], env.0.0) == Some(r) && lit_str_of(sole(n).kids[0]) == Some(s),
        acceptable_value(s),
    ensures
        collect_step(Ok(rows), n, env) matches Ok(out) && lookup(out, r.0, r.1) matches Some(vs) && vs.contains(s),
{
    let v = sole(n);
    if !param_first {
        lemma_literal_is_no_param(v.kids[0], env.0.0);
    }
    assert(seq![s].drop_last() =~= Seq::<Seq<char>>::empty());
    assert(seq![s].last() == s);
    assert(add_values(rows, r.0, r.1, seq![s]) == crate::values::add_value(
        add_values(rows, r.0, r.1, Seq::<Seq<char>>::empty()),
        r.0,
        r.1,
        s,
    ));
    lemma_add_value_clean(rows, r.0, r.1, s);
}

proof fn lemma_collect_fold_err(p: Seq<char>, nodes: Seq<Tree>, env: Env)
    ensures
        collect_fold(Err(p), nodes, env) == Err::<Seq<Row>, Seq<char>>(p),
    decreases nodes.len(),
{
    if nodes.len() > 0 {
        lemma_collect_fold_err(p, nodes.drop_last(), env);
    }
}

/// `$this->argument('x')` or `$this->option('x')`, read directly.
pub open spec fn param_call(e: Tree) -> Option<RefKey> {
    if wrapper(e, "Expression"@) && wrapper(sole(e), "Call"@) {
        crate::extract::this_param(sole(sole(e)))
    } else {
        None
    }
}

/// `n` compares, by `==`, `!=`, `===` or `!==`, the parameter `r` read
/// directly on one side with the string literal `s` on the other.
pub open spec fn compares_with(n: Tree, r: RefKey, s: Seq<char>) -> bool {
    &&& wrapper(n, "Expression"@) && sole(n).kind == "Binary"@ && sole(n).kids.len() == 3
    &&& {
        let t = sole(n).kids[1].text;
        t == "=="@ || t == "!="@ || t == "==="@ || t == "!=="@
    }
    &&& {
        ||| param_call(sole(n).kids[0]) == Some(r) && lit_str_of(sole(n).kids[2]) == Some(s)
        ||| param_call(sole(n).kids[2]) == Some(r) && lit_str_of(sole(n).kids[0]) == Some(s)
    }
}

proof fn lemma_param_call_ref(e: Tree, aliases: Seq<(Seq<char>, RefKey)>)
    requires
        param_call(e) is Some,
    ensures
        expr_ref_of(e, aliases) == param_call(e),
{
    reveal_strlit("Call");
    reveal_strlit("Binary");
    reveal_strlit("Parenthesized");
    assert("Call"@[0] == 'C' && "Binary"@[0] == 'B' && "Parenthesized"@[0] == 'P');
}

proof fn lemma_compared_then_rest(m: Seq<Row>, n: Tree, b: Seq<Tree>, env: Env, r: RefKey, s: Seq<char>)
    requires
        extracted_clean(m),
        compares_with(n, r, s),
        acceptable_value(s),
    ensures
        collect_fold(collect_step(Ok(m), n, env), b, env) matches Ok(out) ==> (lookup(out, r.0, r.1) matches Some(
            vs,
        ) && vs.contains(s)),
{
    let v = sole(n);
    let first = param_call(v.kids[0]) == Some(r) && lit_str_of(v.kids[2]) == Some(s);
    if first {
        lemma_param_call_ref(v.kids[0], env.0.0);
    } else {
        lemma_param_call_ref(v.kids[2], env.0.0);
    }
    lemma_comparison_adds_literal(m, n, env, r, s, first);
    let m2 = collect_step(Ok(m), n, env)->Ok_0;
    lemma_grows_refl(m);
    lemma_collect_step_kept(Ok(m), n, env, m);
    lemma_grows_refl(m2);
    lemma_collect_fold_kept(Ok(m2), b, env, m2);
    if let Ok(out) = collect_fold(Ok(m2), b, env) {
        lemma_lookup_grows(m2, out, r.0, r.1, s);
    }
}

proof fn lemma_fold_around(out0: Outcome, a: Seq<Tree>, n: Tree, b: Seq<Tree>, env: Env)
    ensures
        collect_fold(out0, a + seq![n] + b, env) == collect_fold(collect_step(collect_fold(out0, a, env), n, env), b, env),
{
    lemma_collect_fold_append(out0, a + seq![n], b, env);
    lemma_collect_fold_append(out0, a, seq![n], env);
    let mid = collect_fold(out0, a, env);
    assert(seq![n].drop_last() =~= Seq::<Tree>::empty());
    assert(seq![n].last() == n);
    assert(collect_fold(mid, Seq::<Tree>::empty(), env) == mid);
    assert(collect_fold(mid, seq![n], env) == collect_step(collect_fold(mid, seq![n].drop_last(), env), n, env));
    assert(collect_fold(mid, seq![n], env) == collect_step(mid, n, env));
}

/// A string literal that a command's source compares with a parameter read
/// directly (`$this->argument('x')`, `$this->option('x')`), by `==`, `!=`,
/// `===` or `!==` and on either side, anywhere in the source, is among that
/// parameter's values once extraction is done (when it is a value the
/// completer can offer: not empty, no tab or newline).
pub proof fn lemma_extraction_keeps_compared_literal(
    text: Seq<char>,
    files: FilesView,
    rows: Seq<Row>,
    k: int,
    r: RefKey,
    s: Seq<char>,
)
    requires
        extracted_clean(rows),
        source_tree(text) matches Some(t) && 0 <= k < pre_order(t).len() && compares_with(pre_order(t)[k], r, s),
        acceptable_value(s),
    ensures
        extraction(text, files, rows) matches Ok(out) ==> (lookup(out, r.0, r.1) matches Some(vs) && vs.contains(s)),
{
    let t = source_tree(text)->Some_0;
    let pre = pre_order(t);
    let env = (scope_fold((seq![], seq![]), pre), uses_of(text), files);
    let n = pre[k];
    let a = pre.take(k);
    let b = pre.skip(k + 1);
    assert(pre == a + seq![n] + b);
    lemma_fold_around(Ok(rows), a, n, b, env);
    lemma_grows_refl(rows);
    lemma_collect_fold_kept(Ok(rows), a, env, rows);
    match collect_fold(Ok(rows), a, env) {
        Err(p) => {
            assert(collect_step(Err(p), n, env) == Err::<Seq<Row>, Seq<char>>(p));
            lemma_collect_fold_err(p, b, env);
        },
        Ok(m) => {
            lemma_compared_then_rest(m, n, b, env, r, s);
        },
    }
}

} // verus!
