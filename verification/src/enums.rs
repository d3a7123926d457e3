//! Backed enums a command refers to: the names its `use` lines import, the
//! file an enum of the application lives in, and the enum's backed cases.

use vstd::prelude::*;
use crate::php::{PhpNode, Tree, source_tree, parse_tree, trees_of};
use crate::tree::{
    wrapper, sole, kind_is, wraps, lit_str_of, lit_str, decl_name, decl_name_exec, first_kind_from,
    last_segment, last_segment_exec, assoc_get, assoc_put, keys_of, find_key, lemma_key_index_keys,
    lemma_assoc_get_append,
};
use crate::text::{
    str_chars, string_of, slice_chars, contains_char, starts_with, has_prefix, has_suffix, trim,
    trim_exec, first_occurrence, find_chars, split_lines, lines_of, views_of, push_str, push_chars,
};

verus! {

broadcast use vstd::string::group_string_axioms;

/// `t` without its leading backslashes.
pub open spec fn trim_backslashes(t: Seq<char>) -> Seq<char>
    decreases t.len(),
{
    if t.len() > 0 && t[0] == '\\' {
        trim_backslashes(t.drop_first())
    } else {
        t
    }
}

pub fn trim_backslashes_exec(t: &[char]) -> (r: Vec<char>)
    ensures
        r@ == trim_backslashes(t@),
{
    let mut a: usize = 0;
    assert(t@.skip(0) == t@);
    while a < t.len() && t[a] == '\\'
        invariant
            a <= t.len(),
            trim_backslashes(t@) == trim_backslashes(t@.skip(a as int)),
        decreases t.len() - a,
    {
        assert(t@.skip(a as int).drop_first() == t@.skip(a + 1));
        a = a + 1;
    }
    let r = slice_chars(t, a, t.len());
    assert(r@ == t@.skip(a as int));
    r
}

/// What one line of a source file imports, as `(alias, full name)`:
/// `use App\Enums\Source;` or `use App\Enums\Source as Src;`. Group
/// imports and `use function` / `use const` lines import nothing here.
pub open spec fn use_line(line: Seq<char>) -> Option<(Seq<char>, Seq<char>)> {
    let l = trim(line);
    if has_prefix(l, "use "@) && l.len() > "use "@.len() && l.last() == ';' {
        let rest = l.subrange("use "@.len() as int, l.len() - 1);
        if rest.contains('{') || has_prefix(rest, "function "@) || has_prefix(rest, "const "@) {
            None
        } else {
            Some(split_use_spec(rest))
        }
    } else {
        None
    }
}

/// The imports of a source text: alias to full name, a later line for the
/// same alias replacing an earlier one.
pub open spec fn uses_fold(acc: Seq<(Seq<char>, Seq<char>)>, lines: Seq<Seq<char>>) -> Seq<(Seq<char>, Seq<char>)>
    decreases lines.len(),
{
    if lines.len() == 0 {
        acc
    } else {
        let before = uses_fold(acc, lines.drop_last());
        match use_line(lines.last()) {
            Some((alias, fqn)) => assoc_put(before, alias, fqn),
            None => before,
        }
    }
}

pub open spec fn uses_of(text: Seq<char>) -> Seq<(Seq<char>, Seq<char>)> {
    uses_fold(seq![], lines_of(text))
}

pub open spec fn pairs_view(l: Seq<(String, String)>) -> Seq<(Seq<char>, Seq<char>)> {
    l.map_values(|e: (String, String)| (e.0@, e.1@))
}

fn use_line_exec(line: &[char]) -> (r: Option<(String, String)>)
    ensures
        match r {
            Some(x) => use_line(line@) == Some((x.0@, x.1@)),
            None => use_line(line@) is None,
        },
{
    let l = trim_exec(line);
    let pre = str_chars("use ");
    if !(starts_with(&l, &pre) && l.len() > pre.len() && l[l.len() - 1] == ';') {
        return None;
    }
    let rest = slice_chars(&l, pre.len(), l.len() - 1);
    assert(l@.last() == ';');
    let f = str_chars("function ");
    let c = str_chars("const ");
    if contains_char(&rest, '{') || starts_with(&rest, &f) || starts_with(&rest, &c) {
        return None;
    }
    Some(split_use(&rest))
}

/// The `(alias, full name)` of the part of a `use` line between `use ` and
/// `;`: split at the first ` as `, or else named by its last segment.
pub open spec fn split_use_spec(rest: Seq<char>) -> (Seq<char>, Seq<char>) {
    match first_occurrence(rest, " as "@) {
        Some(i) => (trim(rest.skip(i + " as "@.len())), trim_backslashes(trim(rest.take(i)))),
        None => (last_segment(trim(rest)), trim_backslashes(trim(rest))),
    }
}

#[verifier::rlimit(30)]
fn split_use(rest: &Vec<char>) -> (r: (String, String))
    ensures
        split_use_spec(rest@) == (r.0@, r.1@),
{
    let sep = str_chars(" as ");
    match find_chars(rest, &sep) {
        Some(i) => {
            let n = rest.len();
            assert(i + sep@.len() <= n);
            let head = slice_chars(rest, 0, i);
            let after = i + sep.len();
            let tail = slice_chars(rest, after, rest.len());
            assert(head@ == rest@.take(i as int));
            assert(tail@ == rest@.skip(i + sep.len()));
            let alias = trim_exec(&tail);
            let fqn = trim_backslashes_exec(&trim_exec(&head));
            (string_of(&alias), string_of(&fqn))
        },
        None => {
            let t = trim_exec(rest);
            let alias = last_segment_exec(&t);
            let fqn = trim_backslashes_exec(&t);
            (string_of(&alias), string_of(&fqn))
        },
    }
}

#[verifier::rlimit(30)]
fn put_pair(l: &mut Vec<(String, String)>, k: String, v: String)
    ensures
        pairs_view(final(l)@) == assoc_put(pairs_view(old(l)@), k@, v@),
{
    proof {
        let a = pairs_view(l@);
        let b = keys_of(l@);
        assert forall|i: int| 0 <= i < a.len() implies a[i].0 == b[i].0 by {}
        lemma_key_index_keys(a, b, k@);
    }
    let ghost before = pairs_view(l@);
    let ghost entry = (k@, v@);
    match find_key(l, &k) {
        Some(i) => {
            l.set(i, (k, v));
            assert(pairs_view(l@) == before.update(i as int, entry));
        },
        None => {
            l.push((k, v));
            assert(pairs_view(l@) == before.push(entry));
        },
    }
}

/// The names a source text imports with `use`, alias to full name.
pub fn parse_uses(text: &str) -> (r: Vec<(String, String)>)
    ensures
        pairs_view(r@) == uses_of(text@),
{
    let chars = str_chars(text);
    let lines = split_lines(&chars);
    let ghost ls = views_of(lines@);
    let mut out: Vec<(String, String)> = Vec::new();
    let mut i: usize = 0;
    while i < lines.len()
        invariant
            i <= lines.len(),
            ls == views_of(lines@),
            ls == lines_of(text@),
            pairs_view(out@) == uses_fold(seq![], ls.take(i as int)),
        decreases lines.len() - i,
    {
        assert(ls.take(i + 1).drop_last() == ls.take(i as int));
        assert(ls.take(i + 1).last() == lines@[i as int]@);
        match use_line_exec(&lines[i]) {
            Some((alias, fqn)) => {
                put_pair(&mut out, alias, fqn);
            },
            None => {},
        }
        i = i + 1;
    }
    assert(ls.take(lines.len() as int) == ls);
    out
}

// --- locating an enum ------------------------------------------------------

/// The full name a written class name stands for: its import, or the name
/// itself when it is qualified.
pub open spec fn enum_fqn(uses: Seq<(Seq<char>, Seq<char>)>, written: Seq<char>) -> Option<Seq<char>> {
    match assoc_get(uses, written) {
        Some(f) => Some(f),
        None => if written.contains('\\') {
            Some(trim_backslashes(written))
        } else {
            None
        },
    }
}

/// `t` with each backslash turned into a slash.
pub open spec fn slashed(t: Seq<char>) -> Seq<char> {
    t.map_values(|c: char| if c == '\\' { '/' } else { c })
}

/// The file, relative to the project, that holds a class of the `App\`
/// namespace (PSR-4: `App\` is `app/`).
pub open spec fn class_file(fqn: Seq<char>) -> Option<Seq<char>> {
    if has_prefix(fqn, "App\\"@) {
        Some("app/"@ + slashed(fqn.skip("App\\"@.len() as int)) + ".php"@)
    } else {
        None
    }
}

/// The enum declaration named `name` among statements, looking into
/// namespaces, first one first.
pub open spec fn find_enum(stmts: Seq<Tree>, name: Seq<char>) -> Option<Tree>
    decreases stmts,
{
    if stmts.len() == 0 {
        None
    } else {
        let s = stmts[0];
        if wrapper(s, "Statement"@) && sole(s).kind == "Enum"@ && decl_name(sole(s)) == Some(name) {
            Some(sole(s))
        } else if wrapper(s, "Statement"@) && sole(s).kind == "Namespace"@ && sole(s).kids.len() > 0
            && wrapper(sole(s).kids.last(), "NamespaceBody"@) && find_enum(
            sole(sole(s).kids.last()).kids,
            name,
        ) is Some {
            find_enum(sole(sole(s).kids.last()).kids, name)
        } else {
            find_enum(stmts.drop_first(), name)
        }
    }
}

/// The backed case a member of an enum declares: its name and value.
pub open spec fn backed_case(m: Tree) -> Option<(Seq<char>, Seq<char>)> {
    if wrapper(m, "ClassLikeMember"@) && sole(m).kind == "EnumCase"@ {
        match first_kind_from(sole(m).kids, "EnumCaseItem"@, 0) {
            Some(i) => {
                let it = sole(m).kids[i];
                if wrapper(it, "EnumCaseItem"@) && sole(it).kind == "EnumCaseBackedItem"@
                    && sole(it).kids.len() == 2 {
                    match lit_str_of(sole(it).kids[1]) {
                        Some(v) => Some((sole(it).kids[0].text, v)),
                        None => None,
                    }
                } else {
                    None
                }
            },
            None => None,
        }
    } else {
        None
    }
}

/// Case name to value, over the members of an enum.
pub open spec fn case_fold(acc: Seq<(Seq<char>, Seq<char>)>, members: Seq<Tree>) -> Seq<(Seq<char>, Seq<char>)>
    decreases members.len(),
{
    if members.len() == 0 {
        acc
    } else {
        let before = case_fold(acc, members.drop_last());
        match backed_case(members.last()) {
            Some((n, v)) => assoc_put(before, n, v),
            None => before,
        }
    }
}

/// The backed cases of the enum `name` declared in a source text.
#[verifier::opaque]
pub open spec fn enum_cases_in(text: Seq<char>, name: Seq<char>) -> Option<Seq<(Seq<char>, Seq<char>)>> {
    match source_tree(text) {
        Some(t) => match find_enum(t.kids, name) {
            Some(e) => Some(case_fold(seq![], e.kids)),
            None => None,
        },
        None => None,
    }
}

/// The files read so far: path relative to the project, and the text, or
/// `None` where the file could not be read.
pub type FilesView = Seq<(Seq<char>, Option<Seq<char>>)>;

/// The backed cases of the enum a written name stands for: `Err(path)`
/// where the file that would hold it has not been read yet, `Ok(None)` where
/// the name does not lead to an enum of the application.
pub open spec fn enum_lookup(
    uses: Seq<(Seq<char>, Seq<char>)>,
    files: FilesView,
    written: Seq<char>,
) -> Result<Option<Seq<(Seq<char>, Seq<char>)>>, Seq<char>> {
    match enum_fqn(uses, written) {
        None => Ok(None),
        Some(fqn) => match class_file(fqn) {
            None => Ok(None),
            Some(p) => match assoc_get(files, p) {
                None => Err(p),
                Some(None) => Ok(None),
                Some(Some(text)) => Ok(enum_cases_in(text, last_segment(fqn))),
            },
        },
    }
}

/// The files read serve as the memo of enum lookups: once a lookup is
/// answered, reading more files never changes its answer, so each file is
/// asked for, and read, once.
pub proof fn lemma_lookup_answered_stays(
    uses: Seq<(Seq<char>, Seq<char>)>,
    files: FilesView,
    more: FilesView,
    written: Seq<char>,
)
    ensures
        enum_lookup(uses, files, written) is Ok ==> enum_lookup(uses, files + more, written) == enum_lookup(
            uses,
            files,
            written,
        ),
{
    if let Some(fqn) = enum_fqn(uses, written) {
        if let Some(p) = class_file(fqn) {
            if assoc_get(files, p) is Some {
                lemma_assoc_get_append(files, more, p);
            }
        }
    }
}

pub open spec fn files_view(l: Seq<(String, Option<String>)>) -> FilesView {
    l.map_values(|e: (String, Option<String>)| (e.0@, crate::php::opt_view(e.1)))
}

fn enum_fqn_exec(uses: &Vec<(String, String)>, written: &String) -> (r: Option<Vec<char>>)
    ensures
        match r {
            Some(x) => enum_fqn(pairs_view(uses@), written@) == Some(x@),
            None => enum_fqn(pairs_view(uses@), written@) is None,
        },
{
    proof {
        let a = pairs_view(uses@);
        let b = keys_of(uses@);
        assert forall|i: int| 0 <= i < a.len() implies a[i].0 == b[i].0 by {}
        lemma_key_index_keys(a, b, written@);
    }
    match find_key(uses, written) {
        Some(i) => Some(str_chars(uses[i].1.as_str())),
        None => {
            let w = str_chars(written.as_str());
            if contains_char(&w, '\\') {
                Some(trim_backslashes_exec(&w))
            } else {
                None
            }
        },
    }
}

fn class_file_exec(fqn: &[char]) -> (r: Option<String>)
    ensures
        match r {
            Some(x) => class_file(fqn@) == Some(x@),
            None => class_file(fqn@) is None,
        },
{
    let pre = str_chars("App\\");
    if !starts_with(fqn, &pre) {
        return None;
    }
    let mut rel: Vec<char> = Vec::new();
    let mut i: usize = pre.len();
    while i < fqn.len()
        invariant
            pre@ == "App\\"@,
            pre.len() <= i <= fqn.len(),
            rel@ == slashed(fqn@.subrange(pre.len() as int, i as int)),
        decreases fqn.len() - i,
    {
        let c = fqn[i];
        rel.push(if c == '\\' { '/' } else { c });
        assert(fqn@.subrange(pre.len() as int, i + 1) == fqn@.subrange(pre.len() as int, i as int).push(c));
        assert(slashed(fqn@.subrange(pre.len() as int, i + 1)) == slashed(fqn@.subrange(pre.len() as int, i as int)).push(
            if c == '\\' { '/' } else { c },
        ));
        i = i + 1;
    }
    assert(fqn@.subrange(pre.len() as int, fqn.len() as int) == fqn@.skip("App\\"@.len() as int));
    let mut path = String::new();
    push_str(&mut path, "app/");
    push_chars(&mut path, &rel);
    push_str(&mut path, ".php");
    Some(path)
}

pub fn find_enum_exec<'a>(stmts: &'a Vec<PhpNode>, name: &Vec<char>) -> (r: Option<&'a PhpNode>)
    ensures
        match r {
            Some(x) => find_enum(trees_of(stmts@), name@) == Some(x@),
            None => find_enum(trees_of(stmts@), name@) is None,
        },
    decreases stmts@,
{
    let ghost ts = trees_of(stmts@);
    let mut i: usize = 0;
    assert(ts.skip(0) == ts);
    while i < stmts.len()
        invariant
            i <= stmts.len(),
            ts == trees_of(stmts@),
            find_enum(ts, name@) == find_enum(ts.skip(i as int), name@),
        decreases stmts.len() - i,
    {
        let s = &stmts[i];
        let ghost rest = ts.skip(i as int);
        assert(rest[0] == s@);
        assert(rest.drop_first() == ts.skip(i + 1));
        if wraps(s, "Statement") && kind_is(&s.children[0], "Enum") {
            let e = &s.children[0];
            assert(sole(s@) == e@);
            match decl_name_exec(e) {
                Some(n) => {
                    let nc = str_chars(n.as_str());
                    if crate::text::chars_eq(&nc, name) {
                        return Some(e);
                    }
                },
                None => {},
            }
        }
        if wraps(s, "Statement") && kind_is(&s.children[0], "Namespace") && s.children[0].children.len() > 0 {
            let ns = &s.children[0];
            let body = &ns.children[ns.children.len() - 1];
            assert(sole(s@) == ns@);
            assert(ns@.kids.last() == body@);
            if wraps(body, "NamespaceBody") {
                let inner = &body.children[0];
                assert(sole(body@) == inner@);
                assert(inner@.kids == trees_of(inner.children@));
                match find_enum_exec(&inner.children, name) {
                    Some(e) => {
                        return Some(e);
                    },
                    None => {},
                }
            }
        }
        i = i + 1;
    }
    None
}

fn backed_case_exec(m: &PhpNode) -> (r: Option<(String, String)>)
    ensures
        match r {
            Some(x) => backed_case(m@) == Some((x.0@, x.1@)),
            None => backed_case(m@) is None,
        },
{
    if !(wraps(m, "ClassLikeMember") && kind_is(&m.children[0], "EnumCase")) {
        return None;
    }
    let c = &m.children[0];
    assert(sole(m@) == c@);
    let mut i: usize = 0;
    while i < c.children.len()
        invariant
            i <= c.children.len(),
            wrapper(m@, "ClassLikeMember"@),
            sole(m@) == c@,
            c@.kind == "EnumCase"@,
            first_kind_from(c@.kids, "EnumCaseItem"@, 0) == first_kind_from(c@.kids, "EnumCaseItem"@, i as int),
        decreases c.children.len() - i,
    {
        assert(c@.kids[i as int] == c.children@[i as int]@);
        if kind_is(&c.children[i], "EnumCaseItem") {
            let it = &c.children[i];
            assert(first_kind_from(c@.kids, "EnumCaseItem"@, i as int) == Some(i as int));
            assert(c@.kids[i as int] == it@);
            if wraps(it, "EnumCaseItem") {
                let b = &it.children[0];
                assert(sole(it@) == b@);
                if kind_is(b, "EnumCaseBackedItem") && b.children.len() == 2 {
                    assert(b@.kids[0] == b.children@[0]@);
                    assert(b@.kids[1] == b.children@[1]@);
                    return match lit_str(&b.children[1]) {
                        Some(v) => Some((b.children[0].text.clone(), v)),
                        None => None,
                    };
                }
            }
            return None;
        }
        i = i + 1;
    }
    None
}

pub fn enum_cases_exec(e: &PhpNode) -> (r: Vec<(String, String)>)
    ensures
        pairs_view(r@) == case_fold(seq![], e@.kids),
{
    let ghost ts = e@.kids;
    let mut out: Vec<(String, String)> = Vec::new();
    let mut i: usize = 0;
    while i < e.children.len()
        invariant
            i <= e.children.len(),
            ts == e@.kids,
            pairs_view(out@) == case_fold(seq![], ts.take(i as int)),
        decreases e.children.len() - i,
    {
        assert(ts.take(i + 1).drop_last() == ts.take(i as int));
        assert(ts.take(i + 1).last() == e.children@[i as int]@);
        match backed_case_exec(&e.children[i]) {
            Some((n, v)) => {
                put_pair(&mut out, n, v);
            },
            None => {},
        }
        i = i + 1;
    }
    assert(ts.take(e.children.len() as int) == ts);
    out
}

/// The backed cases of the enum `name` declared in a source text.
pub fn load_enum_cases(text: &str, name: &Vec<char>) -> (r: Option<Vec<(String, String)>>)
    ensures
        match r {
            Some(x) => enum_cases_in(text@, name@) == Some(pairs_view(x@)),
            None => enum_cases_in(text@, name@) is None,
        },
{
    reveal(enum_cases_in);
    let (tree, _comments) = parse_tree(text);
    match tree {
        Some(t) => {
            assert(t@.kids == trees_of(t.children@));
            match find_enum_exec(&t.children, name) {
                Some(e) => Some(enum_cases_exec(e)),
                None => None,
            }
        },
        None => None,
    }
}

/// The backed cases of the enum a written name stands for (see
/// `enum_lookup`).
pub fn lookup_enum(
    uses: &Vec<(String, String)>,
    files: &Vec<(String, Option<String>)>,
    written: &String,
) -> (r: Result<Option<Vec<(String, String)>>, String>)
    ensures
        match r {
            Ok(Some(x)) => enum_lookup(pairs_view(uses@), files_view(files@), written@) == Ok::<
                Option<Seq<(Seq<char>, Seq<char>)>>,
                Seq<char>,
            >(Some(pairs_view(x@))),
            Ok(None) => enum_lookup(pairs_view(uses@), files_view(files@), written@) == Ok::<
                Option<Seq<(Seq<char>, Seq<char>)>>,
                Seq<char>,
            >(None),
            Err(p) => enum_lookup(pairs_view(uses@), files_view(files@), written@) == Err::<
                Option<Seq<(Seq<char>, Seq<char>)>>,
                Seq<char>,
            >(p@),
        },
{
    let fqn = match enum_fqn_exec(uses, written) {
        Some(f) => f,
        None => {
            return Ok(None);
        },
    };
    let path = match class_file_exec(&fqn) {
        Some(p) => p,
        None => {
            return Ok(None);
        },
    };
    match file_text(files, &path) {
        None => Err(path),
        Some(None) => Ok(None),
        Some(Some(text)) => {
            let short = last_segment_exec(&fqn);
            Ok(load_enum_cases(text.as_str(), &short))
        },
    }
}

/// The text read for the file at `path`: `None` where it has not been read,
/// `Some(None)` where it could not be.
fn file_text<'a>(files: &'a Vec<(String, Option<String>)>, path: &String) -> (r: Option<Option<&'a String>>)
    ensures
        match r {
            None => assoc_get(files_view(files@), path@) is None,
            Some(None) => assoc_get(files_view(files@), path@) == Some(None::<Seq<char>>),
            Some(Some(t)) => assoc_get(files_view(files@), path@) == Some(Some(t@)),
        },
{
    proof {
        let a = files_view(files@);
        let b = keys_of(files@);
        assert forall|i: int| 0 <= i < a.len() implies a[i].0 == b[i].0 by {}
        lemma_key_index_keys(a, b, path@);
    }
    match find_key(files, path) {
        None => None,
        Some(i) => match &files[i].1 {
            None => Some(None),
            Some(text) => Some(Some(text)),
        },
    }
}

} // verus!
