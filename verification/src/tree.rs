//! Reading PHP syntax trees: the shapes of the constructs the library looks
//! for (literals, calls, arguments, arrays, names), and small keyed lists.

use vstd::prelude::*;
use crate::php::{PhpNode, Tree, trees_of};
use crate::text::{str_chars, is_lit, slice_chars, string_of};

verus! {

broadcast use vstd::string::group_string_axioms;

/// `n` is a node of kind `k` with exactly one child.
pub open spec fn wrapper(n: Tree, k: Seq<char>) -> bool {
    n.kind == k && n.kids.len() == 1
}

/// The first child of `n`.
pub open spec fn sole(n: Tree) -> Tree {
    n.kids[0]
}

/// Whether `n` is of kind `k`.
pub fn kind_is(n: &PhpNode, k: &str) -> (r: bool)
    ensures
        r == (n@.kind == k@),
{
    let c = str_chars(n.kind.as_str());
    is_lit(&c, k)
}

/// Whether `n` is of kind `k` with exactly one child.
pub fn wraps(n: &PhpNode, k: &str) -> (r: bool)
    ensures
        r == wrapper(n@, k@),
{
    n.children.len() == 1 && kind_is(n, k)
}

/// Whether the source text of `n` is `t`.
pub fn text_is(n: &PhpNode, t: &str) -> (r: bool)
    ensures
        r == (n@.text == t@),
{
    let c = str_chars(n.text.as_str());
    is_lit(&c, t)
}

/// The value of a string literal node: the parser's unescaped value, or
/// else the raw text without its quotes.
pub open spec fn string_value(s: Tree) -> Seq<char> {
    match s.literal {
        Some(v) => v,
        None => if s.text.len() >= 2 {
            s.text.subrange(1, s.text.len() - 1)
        } else {
            s.text
        },
    }
}

/// The string an expression is, when it is a string literal, possibly in
/// parentheses.
pub open spec fn lit_str_of(e: Tree) -> Option<Seq<char>>
    decreases e,
{
    if wrapper(e, "Expression"@) {
        let v = sole(e);
        if wrapper(v, "Parenthesized"@) {
            lit_str_of(sole(v))
        } else if wrapper(v, "Literal"@) && sole(v).kind == "LiteralString"@ {
            Some(string_value(sole(v)))
        } else {
            None
        }
    } else {
        None
    }
}

fn string_value_exec(s: &PhpNode) -> (r: String)
    ensures
        r@ == string_value(s@),
{
    match &s.literal {
        Some(v) => v.clone(),
        None => {
            let t = str_chars(s.text.as_str());
            if t.len() >= 2 {
                let inner = slice_chars(&t, 1, t.len() - 1);
                string_of(&inner)
            } else {
                s.text.clone()
            }
        },
    }
}

/// The string an expression is, when it is a string literal.
pub fn lit_str(e: &PhpNode) -> (r: Option<String>)
    ensures
        match r {
            Some(s) => lit_str_of(e@) == Some(s@),
            None => lit_str_of(e@) is None,
        },
    decreases e,
{
    if !wraps(e, "Expression") {
        return None;
    }
    let v = &e.children[0];
    if wraps(v, "Parenthesized") {
        lit_str(&v.children[0])
    } else if wraps(v, "Literal") && kind_is(&v.children[0], "LiteralString") {
        Some(string_value_exec(&v.children[0]))
    } else {
        None
    }
}

/// Strips parentheses from an expression.
pub open spec fn unparen(e: Tree) -> Tree
    decreases e,
{
    if wrapper(e, "Expression"@) && wrapper(sole(e), "Parenthesized"@) {
        unparen(sole(sole(e)))
    } else {
        e
    }
}

pub fn unparen_exec(e: &PhpNode) -> (r: &PhpNode)
    ensures
        r@ == unparen(e@),
    decreases e,
{
    if wraps(e, "Expression") && wraps(&e.children[0], "Parenthesized") {
        unparen_exec(&e.children[0].children[0])
    } else {
        e
    }
}

/// The value expression of an argument (positional or named).
pub open spec fn arg_value(a: Tree) -> Option<Tree> {
    if wrapper(a, "Argument"@) && sole(a).kids.len() >= 1 {
        Some(sole(a).kids.last())
    } else {
        None
    }
}

pub fn arg_value_exec(a: &PhpNode) -> (r: Option<&PhpNode>)
    ensures
        match r {
            Some(x) => arg_value(a@) == Some(x@),
            None => arg_value(a@) is None,
        },
{
    if wraps(a, "Argument") && a.children[0].children.len() >= 1 {
        let inner = &a.children[0];
        let last = &inner.children[inner.children.len() - 1];
        assert(a@.kids[0] == inner@);
        assert(inner@.kids.last() == last@);
        Some(last)
    } else {
        None
    }
}

/// The value of argument `i` of an argument list.
pub open spec fn nth_arg(list: Tree, i: int) -> Option<Tree> {
    if list.kind == "ArgumentList"@ && 0 <= i < list.kids.len() {
        arg_value(list.kids[i])
    } else {
        None
    }
}

pub fn nth_arg_exec(list: &PhpNode, i: usize) -> (r: Option<&PhpNode>)
    ensures
        match r {
            Some(x) => nth_arg(list@, i as int) == Some(x@),
            None => nth_arg(list@, i as int) is None,
        },
{
    if kind_is(list, "ArgumentList") && i < list.children.len() {
        arg_value_exec(&list.children[i])
    } else {
        None
    }
}

/// The identifier a member selector (`->name`, `::name()`) names.
pub open spec fn member_name(sel: Tree) -> Option<Seq<char>> {
    if wrapper(sel, "ClassLikeMemberSelector"@) && sole(sel).kind == "LocalIdentifier"@ {
        Some(sole(sel).text)
    } else {
        None
    }
}

pub fn member_name_is(sel: &PhpNode, name: &str) -> (r: bool)
    ensures
        r == (member_name(sel@) == Some(name@)),
{
    wraps(sel, "ClassLikeMemberSelector") && kind_is(&sel.children[0], "LocalIdentifier")
        && text_is(&sel.children[0], name)
}

/// The identifier a constant selector (`::NAME`) names.
pub open spec fn constant_name(sel: Tree) -> Option<Seq<char>> {
    if wrapper(sel, "ClassLikeConstantSelector"@) && sole(sel).kind == "LocalIdentifier"@ {
        Some(sole(sel).text)
    } else {
        None
    }
}

pub fn constant_name_exec(sel: &PhpNode) -> (r: Option<&String>)
    ensures
        match r {
            Some(x) => constant_name(sel@) == Some(x@),
            None => constant_name(sel@) is None,
        },
{
    if wraps(sel, "ClassLikeConstantSelector") && kind_is(&sel.children[0], "LocalIdentifier") {
        Some(&sel.children[0].text)
    } else {
        None
    }
}

/// The name of a plain variable expression (`$name`).
pub open spec fn direct_var(e: Tree) -> Option<Seq<char>> {
    if wrapper(e, "Expression"@) && wrapper(sole(e), "Variable"@) && sole(sole(e)).kind
        == "DirectVariable"@ {
        Some(sole(sole(e)).text)
    } else {
        None
    }
}

pub fn direct_var_exec(e: &PhpNode) -> (r: Option<&String>)
    ensures
        match r {
            Some(x) => direct_var(e@) == Some(x@),
            None => direct_var(e@) is None,
        },
{
    if wraps(e, "Expression") && wraps(&e.children[0], "Variable") && kind_is(
        &e.children[0].children[0],
        "DirectVariable",
    ) {
        Some(&e.children[0].children[0].text)
    } else {
        None
    }
}

/// The name an identifier expression is written as (`Foo`, `App\Foo`).
pub open spec fn ident_of(e: Tree) -> Option<Seq<char>> {
    if wrapper(e, "Expression"@) && sole(e).kind == "Identifier"@ {
        Some(sole(e).text)
    } else {
        None
    }
}

pub fn ident_exec(e: &PhpNode) -> (r: Option<&String>)
    ensures
        match r {
            Some(x) => ident_of(e@) == Some(x@),
            None => ident_of(e@) is None,
        },
{
    if wraps(e, "Expression") && kind_is(&e.children[0], "Identifier") {
        Some(&e.children[0].text)
    } else {
        None
    }
}

/// The position of the first child of `n` of kind `k`, searching from `i`.
pub open spec fn first_kind_from(kids: Seq<Tree>, k: Seq<char>, i: int) -> Option<int>
    decreases kids.len() - i,
{
    if i < 0 || i >= kids.len() {
        None
    } else if kids[i].kind == k {
        Some(i)
    } else {
        first_kind_from(kids, k, i + 1)
    }
}

/// The name of a declaration: its first identifier child.
pub open spec fn decl_name(n: Tree) -> Option<Seq<char>> {
    match first_kind_from(n.kids, "LocalIdentifier"@, 0) {
        Some(i) => Some(n.kids[i].text),
        None => None,
    }
}

pub fn decl_name_exec(n: &PhpNode) -> (r: Option<&String>)
    ensures
        match r {
            Some(x) => decl_name(n@) == Some(x@),
            None => decl_name(n@) is None,
        },
{
    let mut i: usize = 0;
    while i < n.children.len()
        invariant
            i <= n.children.len(),
            first_kind_from(n@.kids, "LocalIdentifier"@, 0) == first_kind_from(
                n@.kids,
                "LocalIdentifier"@,
                i as int,
            ),
        decreases n.children.len() - i,
    {
        if kind_is(&n.children[i], "LocalIdentifier") {
            return Some(&n.children[i].text);
        }
        i = i + 1;
    }
    None
}

/// The elements of an array expression (`[...]` or `array(...)`).
pub open spec fn array_elements(e: Tree) -> Option<Seq<Tree>> {
    if wrapper(e, "Expression"@) && (sole(e).kind == "Array"@ || sole(e).kind == "LegacyArray"@) {
        Some(sole(e).kids)
    } else {
        None
    }
}

pub fn array_elements_exec(e: &PhpNode) -> (r: Option<&Vec<PhpNode>>)
    ensures
        match r {
            Some(x) => array_elements(e@) == Some(trees_of(x@)),
            None => array_elements(e@) is None,
        },
{
    if wraps(e, "Expression") && (kind_is(&e.children[0], "Array") || kind_is(
        &e.children[0],
        "LegacyArray",
    )) {
        Some(&e.children[0].children)
    } else {
        None
    }
}

/// The value of an array element, when it has one.
pub open spec fn element_value(el: Tree) -> Option<Tree> {
    if wrapper(el, "ArrayElement"@) && sole(el).kids.len() >= 1 {
        Some(sole(el).kids.last())
    } else {
        None
    }
}

pub fn element_value_exec(el: &PhpNode) -> (r: Option<&PhpNode>)
    ensures
        match r {
            Some(x) => element_value(el@) == Some(x@),
            None => element_value(el@) is None,
        },
{
    if wraps(el, "ArrayElement") && el.children[0].children.len() >= 1 {
        let inner = &el.children[0];
        let last = &inner.children[inner.children.len() - 1];
        assert(el@.kids[0] == inner@);
        assert(inner@.kids.last() == last@);
        Some(last)
    } else {
        None
    }
}

/// The key and value of a `key => value` array element.
pub open spec fn key_value(el: Tree) -> Option<(Tree, Tree)> {
    if wrapper(el, "ArrayElement"@) && sole(el).kind == "KeyValueArrayElement"@
        && sole(el).kids.len() == 2 {
        Some((sole(el).kids[0], sole(el).kids[1]))
    } else {
        None
    }
}

pub fn key_value_exec(el: &PhpNode) -> (r: Option<(&PhpNode, &PhpNode)>)
    ensures
        match r {
            Some(x) => key_value(el@) == Some((x.0@, x.1@)),
            None => key_value(el@) is None,
        },
{
    if wraps(el, "ArrayElement") && kind_is(&el.children[0], "KeyValueArrayElement")
        && el.children[0].children.len() == 2 {
        Some((&el.children[0].children[0], &el.children[0].children[1]))
    } else {
        None
    }
}

/// The part of a name after its last backslash.
pub open spec fn last_segment(t: Seq<char>) -> Seq<char>
    decreases t.len(),
{
    if t.len() == 0 {
        t
    } else if t.last() == '\\' {
        seq![]
    } else {
        last_segment(t.drop_last()).push(t.last())
    }
}

pub fn last_segment_exec(t: &[char]) -> (r: Vec<char>)
    ensures
        r@ == last_segment(t@),
{
    let mut start: usize = 0;
    let mut i: usize = 0;
    while i < t.len()
        invariant
            start <= i <= t.len(),
            last_segment(t@.take(i as int)) == t@.subrange(start as int, i as int),
        decreases t.len() - i,
    {
        assert(t@.take(i + 1).drop_last() == t@.take(i as int));
        if t[i] == '\\' {
            start = i + 1;
        }
        assert(t@.subrange(start as int, i + 1) == t@.subrange(start as int, i as int).push(t@[i as int])
            || start == i + 1);
        i = i + 1;
    }
    assert(t@.take(t.len() as int) == t@);
    slice_chars(t, start, t.len())
}

/// ASCII letters folded to lower case.
pub open spec fn ascii_lower(c: char) -> u32 {
    if 65 <= (c as u32) && (c as u32) <= 90 {
        ((c as u32) + 32) as u32
    } else {
        c as u32
    }
}

/// Equal but for the case of ASCII letters.
pub open spec fn eq_ignore_ascii_case(a: Seq<char>, b: Seq<char>) -> bool {
    a.len() == b.len() && forall|i: int| 0 <= i < a.len() ==> ascii_lower(#[trigger] a[i]) == ascii_lower(b[i])
}

fn lower_exec(c: char) -> (r: u32)
    ensures
        r == ascii_lower(c),
{
    let u = c as u32;
    if 65 <= u && u <= 90 {
        u + 32
    } else {
        u
    }
}

pub fn eq_ignore_case_exec(a: &[char], b: &str) -> (r: bool)
    ensures
        r == eq_ignore_ascii_case(a@, b@),
{
    let bc = str_chars(b);
    if a.len() != bc.len() {
        return false;
    }
    let mut i: usize = 0;
    while i < a.len()
        invariant
            a.len() == bc.len(),
            bc@ == b@,
            i <= a.len(),
            forall|j: int| 0 <= j < i ==> ascii_lower(#[trigger] a@[j]) == ascii_lower(bc@[j]),
        decreases a.len() - i,
    {
        if lower_exec(a[i]) != lower_exec(bc[i]) {
            return false;
        }
        i = i + 1;
    }
    true
}

/// The last segment of a name equals `lit`, ignoring ASCII case.
pub fn last_segment_is(name: &String, lit: &str) -> (r: bool)
    ensures
        r == eq_ignore_ascii_case(last_segment(name@), lit@),
{
    let c = str_chars(name.as_str());
    let seg = last_segment_exec(&c);
    eq_ignore_case_exec(&seg, lit)
}

// --- keyed lists ---------------------------------------------------------

/// Entry `i` has key `k`.
pub open spec fn key_at<V>(l: Seq<(Seq<char>, V)>, i: int, k: Seq<char>) -> bool {
    0 <= i < l.len() && l[i].0 == k
}

/// Position of the first entry with key `k`.
pub open spec fn key_index<V>(l: Seq<(Seq<char>, V)>, k: Seq<char>) -> Option<int> {
    if exists|i: int| key_at(l, i, k) {
        Some(choose|i: int| key_at(l, i, k) && forall|j: int| 0 <= j < i ==> !key_at(l, j, k))
    } else {
        None
    }
}

pub proof fn lemma_key_index<V>(l: Seq<(Seq<char>, V)>, k: Seq<char>, i: int)
    requires
        key_at(l, i, k),
        forall|j: int| 0 <= j < i ==> !key_at(l, j, k),
    ensures
        key_index(l, k) == Some(i),
{
    let m = choose|m: int| key_at(l, m, k) && forall|j: int| 0 <= j < m ==> !key_at(l, j, k);
    if m < i {
        assert(!key_at(l, m, k));
    }
    if m > i {
        assert(!key_at(l, i, k));
    }
}

/// The value stored under key `k`.
pub open spec fn assoc_get<V>(l: Seq<(Seq<char>, V)>, k: Seq<char>) -> Option<V> {
    match key_index(l, k) {
        Some(i) => Some(l[i].1),
        None => None,
    }
}

/// `l` with `v` stored under `k`: replacing the value of an existing entry,
/// or added at the end.
pub open spec fn assoc_put<V>(l: Seq<(Seq<char>, V)>, k: Seq<char>, v: V) -> Seq<(Seq<char>, V)> {
    match key_index(l, k) {
        Some(i) => l.update(i, (k, v)),
        None => l.push((k, v)),
    }
}

/// The keys of an exec keyed list.
pub open spec fn keys_of<V>(l: Seq<(String, V)>) -> Seq<(Seq<char>, ())> {
    l.map_values(|e: (String, V)| (e.0@, ()))
}

pub proof fn lemma_key_index_keys<V, W>(a: Seq<(Seq<char>, V)>, b: Seq<(Seq<char>, W)>, k: Seq<char>)
    requires
        a.len() == b.len(),
        forall|i: int| 0 <= i < a.len() ==> a[i].0 == b[i].0,
    ensures
        key_index(a, k) == key_index(b, k),
{
    if exists|i: int| key_at(a, i, k) {
        let i = choose|i: int| key_at(a, i, k) && forall|j: int| 0 <= j < i ==> !key_at(a, j, k);
        assert(key_at(a, i, k) && forall|j: int| 0 <= j < i ==> !key_at(a, j, k)) by {
            lemma_first_key(a, k);
        }
        assert forall|j: int| 0 <= j < i implies !key_at(b, j, k) by {
            assert(!key_at(a, j, k));
        }
        lemma_key_index(a, k, i);
        lemma_key_index(b, k, i);
    } else {
        assert forall|i: int| !key_at(b, i, k) by {
            if key_at(b, i, k) {
                assert(key_at(a, i, k));
            }
        }
    }
}

/// An entry found stays the one found when more entries follow.
pub proof fn lemma_assoc_get_append<V>(l: Seq<(Seq<char>, V)>, more: Seq<(Seq<char>, V)>, k: Seq<char>)
    requires
        assoc_get(l, k) is Some,
    ensures
        assoc_get(l + more, k) == assoc_get(l, k),
{
    lemma_first_key(l, k);
    let i = choose|i: int| key_at(l, i, k) && forall|j: int| 0 <= j < i ==> !key_at(l, j, k);
    lemma_key_index(l, k, i);
    let m = l + more;
    assert(key_at(m, i, k));
    assert forall|j: int| 0 <= j < i implies !key_at(m, j, k) by {
        assert(m[j] == l[j]);
        assert(!key_at(l, j, k));
    }
    lemma_key_index(m, k, i);
}

proof fn lemma_first_key<V>(l: Seq<(Seq<char>, V)>, k: Seq<char>)
    requires
        exists|i: int| key_at(l, i, k),
    ensures
        exists|i: int| key_at(l, i, k) && forall|j: int| 0 <= j < i ==> !key_at(l, j, k),
{
    let i = choose|i: int| key_at(l, i, k);
    lemma_first_key_below(l, k, i);
}

proof fn lemma_first_key_below<V>(l: Seq<(Seq<char>, V)>, k: Seq<char>, i: int)
    requires
        key_at(l, i, k),
    ensures
        exists|m: int| key_at(l, m, k) && forall|j: int| 0 <= j < m ==> !key_at(l, j, k),
    decreases i,
{
    if exists|j: int| 0 <= j < i && key_at(l, j, k) {
        let j = choose|j: int| 0 <= j < i && key_at(l, j, k);
        lemma_first_key_below(l, k, j);
    } else {
        assert(key_at(l, i, k) && forall|j: int| 0 <= j < i ==> !key_at(l, j, k));
    }
}

/// Position of the first entry of an exec keyed list with key `k`.
pub fn find_key<V>(l: &Vec<(String, V)>, k: &String) -> (r: Option<usize>)
    ensures
        r.is_some() ==> r.unwrap() < l.len(),
        match r {
            Some(i) => key_index(keys_of(l@), k@) == Some(i as int),
            None => key_index(keys_of(l@), k@) is None,
        },
{
    let ghost ks = keys_of(l@);
    let mut i: usize = 0;
    while i < l.len()
        invariant
            ks == keys_of(l@),
            i <= l.len(),
            forall|j: int| 0 <= j < i ==> !key_at(ks, j, k@),
        decreases l.len() - i,
    {
        if l[i].0 == *k {
            proof {
                lemma_key_index(ks, k@, i as int);
            }
            return Some(i);
        }
        i = i + 1;
    }
    proof {
        assert forall|j: int| !key_at(ks, j, k@) by {
            if key_at(ks, j, k@) {
                assert(0 <= j < i);
            }
        }
    }
    None
}

} // verus!
