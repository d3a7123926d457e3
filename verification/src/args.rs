//! Completion of the arguments and options of one command: the decisions
//! that turn the command list, the line typed so far and the known values
//! into the candidate listing.

use vstd::prelude::*;
use crate::text::{
    str_chars, push_str, push_char, push_chars, starts_with, is_lit, lines_of, split_lines, views_of,
    has_prefix, find_char, index_of_char, slice_chars, chars_eq, contains_char, string_of,
};
use crate::command::{
    CommandList, CommandInfo, Definition, Param, ParamEntry, or_empty, or_bool, clean_spec, hints_spec,
    hints, command_lines, command_lines_spec,
};
use crate::values::{Kind, Values, lookup, views_of_strings};
use crate::wellknown::{Catalog, catalog_values, strs};
use crate::line::{
    scan_prior_words, scan_result, word_seq, option_used, option_used_spec, is_dash_word, answers_as, first_separator,
    separator, lemma_first_separator_none,
};

verus! {

broadcast use vstd::string::group_string_axioms;

/// Values from the command's own source, then the well-known catalog's
/// values that are not already among them.
pub open spec fn merge_values(v: Seq<Seq<char>>, xs: Seq<Seq<char>>) -> Seq<Seq<char>>
    decreases xs.len(),
{
    if xs.len() == 0 {
        v
    } else {
        let m = merge_values(v, xs.drop_last());
        if m.contains(xs.last()) {
            m
        } else {
            m.push(xs.last())
        }
    }
}

/// All known values of a parameter of command `subcmd`.
pub open spec fn combined_spec(
    vals: Seq<crate::values::Row>,
    cat: Seq<Seq<Seq<char>>>,
    subcmd: Seq<char>,
    kind: Kind,
    name: Seq<char>,
) -> Seq<Seq<char>> {
    let own = match lookup(vals, kind, name) {
        Some(v) => v,
        None => seq![],
    };
    merge_values(own, catalog_values(cat, subcmd, kind, name))
}

fn merge_into(v: &mut Vec<String>, xs: Vec<String>)
    ensures
        views_of_strings(final(v)@) == merge_values(views_of_strings(old(v)@), views_of_strings(xs@)),
{
    let ghost start = views_of_strings(v@);
    let ghost xv = views_of_strings(xs@);
    let mut i: usize = 0;
    while i < xs.len()
        invariant
            i <= xs.len(),
            xv == views_of_strings(xs@),
            views_of_strings(v@) == merge_values(start, xv.take(i as int)),
        decreases xs.len() - i,
    {
        let x = xs[i].clone();
        assert(xv.take(i + 1).drop_last() == xv.take(i as int));
        assert(xv.take(i + 1).last() == x@);
        if !crate::values::contains_string(v, &x) {
            let ghost before = v@;
            v.push(x);
            assert(views_of_strings(v@) =~= views_of_strings(before).push(x@));
        }
        i = i + 1;
    }
    assert(xv.take(xs.len() as int) == xv);
}

fn combined(vals: &Values, catalog: &Catalog, subcmd: &str, kind: Kind, name: &str) -> (r: Vec<String>)
    ensures
        views_of_strings(r@) == combined_spec(vals@, catalog@, subcmd@, kind, name@),
{
    let mut v: Vec<String> = match vals.get(&kind, name) {
        Some(own) => crate::text::clone_strings(own),
        None => {
            let e: Vec<String> = Vec::new();
            assert(views_of_strings(e@) =~= Seq::<Seq<char>>::empty());
            e
        },
    };
    let extra = catalog.values(subcmd, &kind, name);
    merge_into(&mut v, extra);
    v
}

/// Whether runtime values may be asked for when no static value is known.
pub enum Native {
    /// Runtime values are not consulted.
    Off,
    /// Runtime values are consulted but have not been fetched yet.
    Pending,
    /// The runtime values for the cursor position.
    Ready(Vec<String>),
}

/// The values offered for an option, or `None` when the runtime values are
/// needed first.
pub open spec fn option_values_spec(
    vals: Seq<crate::values::Row>,
    cat: Seq<Seq<Seq<char>>>,
    subcmd: Seq<char>,
    key: Seq<char>,
    native: Native,
) -> Option<Seq<Seq<char>>> {
    let vs = combined_spec(vals, cat, subcmd, Kind::Option, key);
    if vs.len() > 0 {
        Some(vs)
    } else {
        match native {
            Native::Off => Some(seq![]),
            Native::Pending => None,
            Native::Ready(v) => Some(views_of_strings(v@)),
        }
    }
}

fn option_values(vals: &Values, catalog: &Catalog, subcmd: &str, key: &str, native: &Native) -> (r: Option<
    Vec<String>,
>)
    ensures
        match r {
            Some(v) => option_values_spec(vals@, catalog@, subcmd@, key@, *native) == Some(
                views_of_strings(v@),
            ),
            None => option_values_spec(vals@, catalog@, subcmd@, key@, *native) is None,
        },
{
    let vs = combined(vals, catalog, subcmd, Kind::Option, key);
    if vs.len() > 0 {
        Some(vs)
    } else {
        match native {
            Native::Off => Some(Vec::new()),
            Native::Pending => None,
            Native::Ready(v) => Some(crate::text::clone_strings(v)),
        }
    }
}

/// The (word, option key) pairs of the value-taking options of one entry:
/// its long name and its non-empty shortcut.
pub open spec fn entry_pairs(e: ParamEntry) -> Seq<(Seq<char>, Seq<char>)> {
    match e.param {
        Some(p) => if or_bool(p.accept_value, false) {
            (match p.name {
                Some(n) => seq![(n@, e.key@)],
                None => seq![],
            }) + (match p.shortcut {
                Some(s) => if s@.len() > 0 { seq![(s@, e.key@)] } else { seq![] },
                None => seq![],
            })
        } else {
            seq![]
        },
        None => seq![],
    }
}

/// The value-taking option words of the first `n` entries, in order.
pub open spec fn option_pairs(es: Seq<ParamEntry>, n: nat) -> Seq<(Seq<char>, Seq<char>)>
    decreases n,
{
    if n == 0 {
        seq![]
    } else {
        option_pairs(es, (n - 1) as nat) + entry_pairs(es[n - 1])
    }
}

/// The value-taking option words of a definition.
pub open spec fn definition_pairs(d: Definition) -> Seq<(Seq<char>, Seq<char>)> {
    match d.options {
        Some(es) => option_pairs(es@, es@.len()),
        None => seq![],
    }
}

/// The option key a word names; a later pair for the same word wins.
pub open spec fn pair_lookup(ps: Seq<(Seq<char>, Seq<char>)>, w: Seq<char>) -> Option<Seq<char>>
    decreases ps.len(),
{
    if ps.len() == 0 {
        None
    } else if ps.last().0 == w {
        Some(ps.last().1)
    } else {
        pair_lookup(ps.drop_last(), w)
    }
}

pub struct WordKey {
    pub word: Vec<char>,
    pub key: Vec<char>,
}

pub open spec fn pairs_view(v: Seq<WordKey>) -> Seq<(Seq<char>, Seq<char>)> {
    v.map_values(|p: WordKey| (p.word@, p.key@))
}

fn push_pair(v: &mut Vec<WordKey>, word: &String, key: &String)
    ensures
        pairs_view(final(v)@) == pairs_view(old(v)@).push((word@, key@)),
{
    let ghost before = v@;
    v.push(WordKey { word: str_chars(word.as_str()), key: str_chars(key.as_str()) });
    assert(pairs_view(v@) =~= pairs_view(before).push((word@, key@)));
}

fn value_option_pairs(def: &Definition) -> (r: Vec<WordKey>)
    ensures
        pairs_view(r@) == definition_pairs(*def),
{
    let mut r: Vec<WordKey> = Vec::new();
    match &def.options {
        None => {
            assert(pairs_view(r@) =~= definition_pairs(*def));
        },
        Some(es) => {
            let mut i: usize = 0;
            while i < es.len()
                invariant
                    i <= es.len(),
                    pairs_view(r@) == option_pairs(es@, i as nat),
                decreases es.len() - i,
            {
                let e = &es[i];
                let ghost before = pairs_view(r@);
                match &e.param {
                    None => {},
                    Some(p) => {
                        if crate::command::field_bool(&p.accept_value, false) {
                            match &p.name {
                                Some(n) => push_pair(&mut r, n, &e.key),
                                None => {},
                            }
                            let ghost mid = pairs_view(r@);
                            match &p.shortcut {
                                Some(s) => {
                                    if !s.as_str().is_empty() {
                                        push_pair(&mut r, s, &e.key);
                                    }
                                },
                                None => {},
                            }
                        }
                    },
                }
                assert(pairs_view(r@) =~= before + entry_pairs(*e));
                i = i + 1;
            }
        },
    }
    r
}

fn lookup_pair(ps: &Vec<WordKey>, w: &[char]) -> (r: Option<Vec<char>>)
    ensures
        match r {
            Some(k) => pair_lookup(pairs_view(ps@), w@) == Some(k@),
            None => pair_lookup(pairs_view(ps@), w@) is None,
        },
{
    let mut i = ps.len();
    assert(pairs_view(ps@).take(i as int) == pairs_view(ps@));
    while i > 0
        invariant
            i <= ps.len(),
            pair_lookup(pairs_view(ps@), w@) == pair_lookup(pairs_view(ps@).take(i as int), w@),
        decreases i,
    {
        let ghost t = pairs_view(ps@).take(i as int);
        assert(t.last() == (ps@[i - 1].word@, ps@[i - 1].key@));
        assert(t.drop_last() == pairs_view(ps@).take(i - 1));
        if chars_eq(&ps[i - 1].word, w) {
            return Some(ps[i - 1].key.clone());
        }
        i = i - 1;
    }
    None
}

} // verus!

verus! {

/// One `value<TAB><key> value` line per value.
pub open spec fn arg_value_lines(key: Seq<char>, vs: Seq<Seq<char>>) -> Seq<char>
    decreases vs.len(),
{
    if vs.len() == 0 {
        seq![]
    } else {
        arg_value_lines(key, vs.drop_last()) + vs.last() + "\t<"@ + key + "> value\n"@
    }
}

/// The marker after an argument's name: `...` for an array argument, `?`
/// for an optional one.
pub open spec fn arg_suffix(p: Param) -> Seq<char> {
    if or_bool(p.is_array, false) {
        "..."@
    } else if !or_bool(p.is_required, false) {
        "?"@
    } else {
        seq![]
    }
}

/// The listing line of an argument.
pub open spec fn arg_line(key: Seq<char>, p: Param) -> Seq<char> {
    "<"@ + key + arg_suffix(p) + ">\t"@ + clean_spec(or_empty(p.description)) + hints_spec(p) + seq!['\n']
}

/// The argument listing of the first `n` entries, and the number of
/// positions they take: an argument already filled on the line (and not an
/// array, which absorbs the rest) is left out. The `command` argument is
/// never listed.
pub open spec fn arg_fold(
    es: Seq<ParamEntry>,
    n: nat,
    filled: int,
    vals: Seq<crate::values::Row>,
    cat: Seq<Seq<Seq<char>>>,
    subcmd: Seq<char>,
) -> (Seq<char>, int)
    decreases n,
{
    if n == 0 {
        (seq![], 0)
    } else {
        let prev = arg_fold(es, (n - 1) as nat, filled, vals, cat, subcmd);
        let e = es[n - 1];
        match e.param {
            None => prev,
            Some(p) => if e.key@ == "command"@ {
                prev
            } else if prev.1 < filled && !or_bool(p.is_array, false) {
                (prev.0, prev.1 + 1)
            } else {
                (
                    prev.0 + arg_line(e.key@, p) + arg_value_lines(
                        e.key@,
                        combined_spec(vals, cat, subcmd, Kind::Argument, e.key@),
                    ),
                    prev.1 + 1,
                )
            },
        }
    }
}

/// Options every artisan command has; they are never listed.
pub open spec fn is_global_option(k: Seq<char>) -> bool {
    k == "help"@ || k == "quiet"@ || k == "verbose"@ || k == "version"@ || k == "ansi"@ || k
        == "no-ansi"@ || k == "no-interaction"@ || k == "env"@
}

/// The listing lines of an option: by long name, then by shortcut.
pub open spec fn opt_text(p: Param) -> Seq<char> {
    let eq = if or_bool(p.accept_value, false) { "="@ } else { seq![] };
    let name = or_empty(p.name);
    let sc = or_empty(p.shortcut);
    let desc = clean_spec(or_empty(p.description));
    let h = hints_spec(p);
    let sp = if sc.len() == 0 { seq![] } else { "("@ + sc + ") "@ };
    name + eq + seq!['\t'] + sp + desc + h + seq!['\n'] + (if sc.len() > 0 {
        sc + eq + seq!['\t'] + desc + h + seq!['\n']
    } else {
        seq![]
    })
}

/// The option listing of the first `n` entries: global options, and
/// options already on the line that cannot repeat, are left out.
pub open spec fn opt_fold(es: Seq<ParamEntry>, n: nat, prior: Seq<Seq<char>>) -> Seq<char>
    decreases n,
{
    if n == 0 {
        seq![]
    } else {
        let prev = opt_fold(es, (n - 1) as nat, prior);
        let e = es[n - 1];
        match e.param {
            None => prev,
            Some(p) => if is_global_option(e.key@) {
                prev
            } else if !or_bool(p.is_multiple, false) && option_used_spec(
                prior,
                or_empty(p.name),
                or_empty(p.shortcut),
            ) {
                prev
            } else {
                prev + opt_text(p)
            },
        }
    }
}

fn push_arg_values(out: &mut String, key: &Vec<char>, vs: &Vec<String>)
    ensures
        final(out)@ == old(out)@ + arg_value_lines(key@, views_of_strings(vs@)),
{
    let ghost start = out@;
    let ghost all = views_of_strings(vs@);
    let mut i: usize = 0;
    while i < vs.len()
        invariant
            i <= vs.len(),
            all == views_of_strings(vs@),
            out@ == start + arg_value_lines(key@, all.take(i as int)),
        decreases vs.len() - i,
    {
        push_str(out, vs[i].as_str());
        push_str(out, "\t<");
        push_chars(out, key);
        push_str(out, "> value\n");
        assert(all.take(i + 1).drop_last() == all.take(i as int));
        assert(all.take(i + 1).last() == vs@[i as int]@);
        assert(out@ =~= start + arg_value_lines(key@, all.take(i + 1)));
        i = i + 1;
    }
    assert(all.take(vs.len() as int) == all);
}

fn push_arg_line(out: &mut String, key: &Vec<char>, p: &Param)
    ensures
        final(out)@ == old(out)@ + arg_line(key@, *p),
{
    push_str(out, "<");
    push_chars(out, key);
    if crate::command::field_bool(&p.is_array, false) {
        push_str(out, "...");
    } else if !crate::command::field_bool(&p.is_required, false) {
        push_str(out, "?");
    }
    push_str(out, ">\t");
    let desc = crate::command::clean(crate::command::field_string(&p.description).as_str());
    push_str(out, desc.as_str());
    let h = hints(p);
    push_str(out, h.as_str());
    push_char(out, '\n');
    assert(final(out)@ =~= old(out)@ + arg_line(key@, *p));
}

/// `=` when the option takes a value.
pub open spec fn eq_mark(accepts: bool) -> Seq<char> {
    if accepts { "="@ } else { seq![] }
}

fn push_opt_line(out: &mut String, head: &[char], accepts: bool, prefix: &[char], desc: &str, h: &str)
    ensures
        final(out)@ == old(out)@ + head@ + eq_mark(accepts) + seq!['\t'] + prefix@ + desc@ + h@ + seq!['\n'],
{
    push_chars(out, head);
    if accepts {
        push_str(out, "=");
    }
    push_char(out, '\t');
    push_chars(out, prefix);
    push_str(out, desc);
    push_str(out, h);
    push_char(out, '\n');
    assert(final(out)@ =~= old(out)@ + head@ + eq_mark(accepts) + seq!['\t'] + prefix@ + desc@ + h@ + seq!['\n']);
}

fn shortcut_prefix(sc: &Vec<char>) -> (r: Vec<char>)
    ensures
        r@ == (if sc@.len() == 0 { Seq::<char>::empty() } else { "("@ + sc@ + ") "@ }),
{
    let mut r: Vec<char> = Vec::new();
    if sc.len() > 0 {
        let open = str_chars("(");
        let close = str_chars(") ");
        let mut s = String::new();
        push_chars(&mut s, &open);
        push_chars(&mut s, sc);
        push_chars(&mut s, &close);
        r = str_chars(s.as_str());
        assert(r@ =~= "("@ + sc@ + ") "@);
    } else {
        assert(r@ =~= Seq::<char>::empty());
    }
    r
}

fn push_opt_text(out: &mut String, p: &Param)
    ensures
        final(out)@ == old(out)@ + opt_text(*p),
{
    let accepts = crate::command::field_bool(&p.accept_value, false);
    let name = crate::command::field_chars(&p.name);
    let sc = crate::command::field_chars(&p.shortcut);
    let desc = crate::command::clean(crate::command::field_string(&p.description).as_str());
    let h = hints(p);
    let sp = shortcut_prefix(&sc);
    let ghost start = out@;
    push_opt_line(out, &name, accepts, &sp, desc.as_str(), h.as_str());
    let ghost mid = out@;
    if sc.len() > 0 {
        let none: Vec<char> = Vec::new();
        push_opt_line(out, &sc, accepts, &none, desc.as_str(), h.as_str());
        assert(out@ =~= mid + (sc@ + eq_mark(accepts) + seq!['\t'] + desc@ + h@ + seq!['\n']));
    } else {
        assert(out@ =~= mid + Seq::<char>::empty());
    }
    assert(out@ =~= start + opt_text(*p));
}

fn is_global_key(k: &[char]) -> (r: bool)
    ensures
        r == is_global_option(k@),
{
    is_lit(k, "help") || is_lit(k, "quiet") || is_lit(k, "verbose") || is_lit(k, "version") || is_lit(
        k,
        "ansi",
    ) || is_lit(k, "no-ansi") || is_lit(k, "no-interaction") || is_lit(k, "env")
}

fn push_args(
    out: &mut String,
    es: &Vec<ParamEntry>,
    filled: usize,
    vals: &Values,
    catalog: &Catalog,
    subcmd: &str,
)
    ensures
        final(out)@ == old(out)@ + arg_fold(es@, es@.len(), filled as int, vals@, catalog@, subcmd@).0,
{
    let ghost start = out@;
    let mut position: usize = 0;
    let mut i: usize = 0;
    while i < es.len()
        invariant
            i <= es.len(),
            position <= i,
            out@ == start + arg_fold(es@, i as nat, filled as int, vals@, catalog@, subcmd@).0,
            position as int == arg_fold(es@, i as nat, filled as int, vals@, catalog@, subcmd@).1,
        decreases es.len() - i,
    {
        let e = &es[i];
        match &e.param {
            None => {},
            Some(p) => {
                let key = str_chars(e.key.as_str());
                if !is_lit(&key, "command") {
                    let is_array = crate::command::field_bool(&p.is_array, false);
                    let already_filled = position < filled && !is_array;
                    if !already_filled {
                        push_arg_line(out, &key, p);
                        let vs = combined(vals, catalog, subcmd, Kind::Argument, e.key.as_str());
                        push_arg_values(out, &key, &vs);
                    }
                    position = position + 1;
                }
            },
        }
        i = i + 1;
    }
}

fn push_options(out: &mut String, es: &Vec<ParamEntry>, prior: &Vec<&str>)
    ensures
        final(out)@ == old(out)@ + opt_fold(es@, es@.len(), word_seq(prior@)),
{
    let ghost start = out@;
    let mut i: usize = 0;
    while i < es.len()
        invariant
            i <= es.len(),
            out@ == start + opt_fold(es@, i as nat, word_seq(prior@)),
        decreases es.len() - i,
    {
        let e = &es[i];
        match &e.param {
            None => {},
            Some(p) => {
                let key = str_chars(e.key.as_str());
                if !is_global_key(&key) {
                    let multiple = crate::command::field_bool(&p.is_multiple, false);
                    let name = crate::command::field_string(&p.name);
                    let sc = crate::command::field_string(&p.shortcut);
                    if multiple || !option_used(prior.as_slice(), name.as_str(), sc.as_str()) {
                        let ghost before = out@;
                        push_opt_text(out, p);
                        assert(out@ =~= start + opt_fold(es@, (i + 1) as nat, word_seq(prior@)));
                    }
                }
            },
        }
        i = i + 1;
    }
}

} // verus!

verus! {

/// The first command, from position `k` on, named `name`.
pub open spec fn find_command_from(cs: Seq<CommandInfo>, name: Seq<char>, k: int) -> Option<int>
    decreases cs.len() - k,
{
    if k < 0 || k >= cs.len() {
        None
    } else if cs[k].name matches Some(n) && n@ == name {
        Some(k)
    } else {
        find_command_from(cs, name, k + 1)
    }
}

/// The definition of the first command named `subcmd`, when it has one.
pub open spec fn command_definition(list: CommandList, subcmd: Seq<char>) -> Option<Definition> {
    match list.commands {
        None => None,
        Some(cs) => match find_command_from(cs@, subcmd, 0) {
            None => None,
            Some(i) => cs@[i].definition,
        },
    }
}

/// The listing lines that start with `prefix`, each with its newline.
pub open spec fn namespace_items(ls: Seq<Seq<char>>, prefix: Seq<char>) -> Seq<char>
    decreases ls.len(),
{
    if ls.len() == 0 {
        seq![]
    } else {
        namespace_items(ls.drop_last(), prefix) + if has_prefix(ls.last(), prefix) {
            ls.last() + seq!['\n']
        } else {
            seq![]
        }
    }
}

/// For a namespace prefix or an unknown command: the commands under
/// `subcmd:`, or nothing at all.
pub open spec fn namespace_spec(list: CommandList, subcmd: Seq<char>) -> Seq<char> {
    let items = namespace_items(lines_of(command_lines_spec(list)), subcmd + seq![':']);
    if items.len() == 0 {
        seq![]
    } else {
        "Artisan Namespace\n"@ + items
    }
}

/// The words between the subcommand and the cursor.
pub open spec fn prior_words_spec(words: Seq<String>, current: int) -> Seq<Seq<char>> {
    let n = if current - 1 < 0 { 0 } else if current - 1 > words.len() { words.len() as int } else { current - 1 };
    if n <= 2 {
        seq![]
    } else {
        words.subrange(2, n).map_values(|w: String| w@)
    }
}

/// The word at 1-based position `pos`, if the line has one.
pub open spec fn word_at(words: Seq<String>, pos: int) -> Option<Seq<char>> {
    if 1 <= pos <= words.len() {
        Some(words[pos - 1]@)
    } else {
        None
    }
}

/// The reply of argument completion.
pub enum Reply {
    /// No completion at all.
    Nothing,
    /// The runtime values are needed before an answer can be given.
    NeedNative,
    /// The listing to print.
    Text(Seq<char>),
}

/// `--opt=value` lines for an option value typed inline.
pub open spec fn inline_lines(ow: Seq<char>, key: Seq<char>, vs: Seq<Seq<char>>) -> Seq<char>
    decreases vs.len(),
{
    if vs.len() == 0 {
        seq![]
    } else {
        inline_lines(ow, key, vs.drop_last()) + ow + "="@ + vs.last() + "\tvalue for --"@ + key + seq!['\n']
    }
}

/// Plain value lines for an option value typed after a space.
pub open spec fn space_lines(key: Seq<char>, vs: Seq<Seq<char>>) -> Seq<char>
    decreases vs.len(),
{
    if vs.len() == 0 {
        seq![]
    } else {
        space_lines(key, vs.drop_last()) + vs.last() + "\tvalue for --"@ + key + seq!['\n']
    }
}

/// The reply when the cursor word is `--opt=partial` for a value-taking
/// option with known values; `None` when this form does not apply.
pub open spec fn inline_reply(
    positional_only: bool,
    cw: Option<Seq<char>>,
    ps: Seq<(Seq<char>, Seq<char>)>,
    vals: Seq<crate::values::Row>,
    cat: Seq<Seq<Seq<char>>>,
    subcmd: Seq<char>,
    native: Native,
) -> Option<Reply> {
    if positional_only {
        None
    } else {
        match cw {
            None => None,
            Some(w) => if !is_dash_word(w) {
                None
            } else {
                match index_of_char(w, '=') {
                    None => None,
                    Some(e) => {
                        let ow = w.take(e);
                        match pair_lookup(ps, ow) {
                            None => None,
                            Some(key) => match option_values_spec(vals, cat, subcmd, key, native) {
                                None => Some(Reply::NeedNative),
                                Some(vs) => if vs.len() == 0 {
                                    None
                                } else {
                                    Some(Reply::Text("Artisan "@ + ow + seq!['\n'] + inline_lines(ow, key, vs)))
                                },
                            },
                        }
                    },
                }
            },
        }
    }
}

/// The reply when the previous word is a bare value-taking option with
/// known values (`--opt <cursor>`); `None` when this form does not apply.
pub open spec fn space_reply(
    positional_only: bool,
    cw: Option<Seq<char>>,
    pw: Option<Seq<char>>,
    ps: Seq<(Seq<char>, Seq<char>)>,
    vals: Seq<crate::values::Row>,
    cat: Seq<Seq<Seq<char>>>,
    subcmd: Seq<char>,
    native: Native,
) -> Option<Reply> {
    if positional_only {
        None
    } else {
        match pw {
            None => None,
            Some(p) => if cw matches Some(w) && is_dash_word(w) {
                None
            } else {
                match pair_lookup(ps, p) {
                    None => None,
                    Some(key) => match option_values_spec(vals, cat, subcmd, key, native) {
                        None => Some(Reply::NeedNative),
                        Some(vs) => if vs.len() == 0 {
                            None
                        } else {
                            Some(Reply::Text("Artisan --"@ + key + seq!['\n'] + space_lines(key, vs)))
                        },
                    },
                }
            },
        }
    }
}

/// The full listing: the arguments still to fill with their known values,
/// then (unless `--` was typed) the options still available.
pub open spec fn listing_spec(
    def: Definition,
    filled: int,
    positional_only: bool,
    prior: Seq<Seq<char>>,
    vals: Seq<crate::values::Row>,
    cat: Seq<Seq<Seq<char>>>,
    subcmd: Seq<char>,
) -> Seq<char> {
    "Artisan Args\n"@ + (match def.arguments {
        Some(es) => arg_fold(es@, es@.len(), filled, vals, cat, subcmd).0,
        None => seq![],
    }) + (if positional_only {
        seq![]
    } else {
        (match def.options {
            Some(es) => opt_fold(es@, es@.len(), prior),
            None => seq![],
        }) + passthrough_text(passthrough_missing(def, subcmd), prior)
    })
}

/// Completion of the arguments and options of the command `words[1]`, with
/// the cursor on 1-based word `current`.
pub open spec fn complete_args_spec(
    list: CommandList,
    current: int,
    words: Seq<String>,
    vals: Seq<crate::values::Row>,
    cat: Seq<Seq<Seq<char>>>,
    native: Native,
) -> Reply {
    if words.len() < 2 || words[1]@.len() == 0 {
        Reply::Nothing
    } else {
        let subcmd = words[1]@;
        match command_definition(list, subcmd) {
            None => Reply::Text(namespace_spec(list, subcmd)),
            Some(def) => {
                let ps = command_pairs(def, subcmd);
                let prior = prior_words_spec(words, current);
                let scan = scan_result(prior, |w: Seq<char>| pair_lookup(ps, w) is Some);
                let cw = word_at(words, current);
                match inline_reply(scan.1, cw, ps, vals, cat, subcmd, native) {
                    Some(r) => r,
                    None => match space_reply(scan.1, cw, word_at(words, current - 1), ps, vals, cat, subcmd, native) {
                        Some(r) => r,
                        None => Reply::Text(listing_spec(def, scan.0, scan.1, prior, vals, cat, subcmd)),
                    },
                }
            },
        }
    }
}

/// The outcome of argument completion.
pub enum ArgsStep {
    /// The listing to print, or `None` for no completion.
    Done(Option<String>),
    /// Fetch the runtime values for the cursor, then ask again with them.
    NeedNative,
}

/// The reply an outcome gives.
pub open spec fn step_reply(s: ArgsStep) -> Reply {
    match s {
        ArgsStep::Done(None) => Reply::Nothing,
        ArgsStep::Done(Some(t)) => Reply::Text(t@),
        ArgsStep::NeedNative => Reply::NeedNative,
    }
}

fn find_definition<'a>(list: &'a CommandList, subcmd: &String) -> (r: Option<&'a Definition>)
    ensures
        match r {
            Some(d) => command_definition(*list, subcmd@) == Some(*d),
            None => command_definition(*list, subcmd@) is None,
        },
{
    match &list.commands {
        None => None,
        Some(cs) => {
            let mut i: usize = 0;
            while i < cs.len()
                invariant
                    i <= cs.len(),
                    list.commands == Some(*cs),
                    find_command_from(cs@, subcmd@, 0) == find_command_from(cs@, subcmd@, i as int),
                decreases cs.len() - i,
            {
                let matches = match &cs[i].name {
                    Some(n) => *n == *subcmd,
                    None => false,
                };
                if matches {
                    assert(find_command_from(cs@, subcmd@, i as int) == Some(i as int));
                    return match &cs[i].definition {
                        Some(d) => {
                            assert(cs@[i as int].definition == Some(*d));
                            Some(d)
                        },
                        None => None,
                    };
                }
                i = i + 1;
            }
            None
        },
    }
}

/// The definition of the first command named `subcmd`, when it has one.
pub fn lookup_definition<'a>(list: &'a CommandList, subcmd: &str) -> (r: Option<&'a Definition>)
    ensures
        match r {
            Some(d) => command_definition(*list, subcmd@) == Some(*d),
            None => command_definition(*list, subcmd@) is None,
        },
{
    let s = String::from_str(subcmd);
    find_definition(list, &s)
}

fn namespace_listing(list: &CommandList, subcmd: &String) -> (r: String)
    ensures
        r@ == namespace_spec(*list, subcmd@),
{
    let text = command_lines(list);
    let chars = str_chars(text.as_str());
    let ls = split_lines(&chars);
    let mut prefix = str_chars(subcmd.as_str());
    prefix.push(':');
    let ghost lv = views_of(ls@);
    let mut items = String::new();
    let mut i: usize = 0;
    while i < ls.len()
        invariant
            i <= ls.len(),
            lv == views_of(ls@),
            lv == lines_of(command_lines_spec(*list)),
            prefix@ == subcmd@ + seq![':'],
            items@ == namespace_items(lv.take(i as int), prefix@),
        decreases ls.len() - i,
    {
        assert(lv.take(i + 1).drop_last() == lv.take(i as int));
        assert(lv.take(i + 1).last() == ls@[i as int]@);
        if starts_with(&ls[i], &prefix) {
            push_chars(&mut items, &ls[i]);
            push_char(&mut items, '\n');
        }
        assert(items@ =~= namespace_items(lv.take(i + 1), prefix@));
        i = i + 1;
    }
    assert(lv.take(ls.len() as int) == lv);
    if items.as_str().is_empty() {
        String::new()
    } else {
        let mut out = String::new();
        push_str(&mut out, "Artisan Namespace\n");
        push_str(&mut out, items.as_str());
        out
    }
}

} // verus!

verus! {

fn inline_text(ow: &Vec<char>, key: &Vec<char>, vs: &Vec<String>) -> (r: String)
    ensures
        r@ == "Artisan "@ + ow@ + seq!['\n'] + inline_lines(ow@, key@, views_of_strings(vs@)),
{
    let mut out = String::new();
    push_str(&mut out, "Artisan ");
    push_chars(&mut out, ow);
    push_char(&mut out, '\n');
    let ghost head = out@;
    let ghost all = views_of_strings(vs@);
    let mut i: usize = 0;
    while i < vs.len()
        invariant
            i <= vs.len(),
            all == views_of_strings(vs@),
            out@ == head + inline_lines(ow@, key@, all.take(i as int)),
        decreases vs.len() - i,
    {
        push_chars(&mut out, ow);
        push_str(&mut out, "=");
        push_str(&mut out, vs[i].as_str());
        push_str(&mut out, "\tvalue for --");
        push_chars(&mut out, key);
        push_char(&mut out, '\n');
        assert(all.take(i + 1).drop_last() == all.take(i as int));
        assert(all.take(i + 1).last() == vs@[i as int]@);
        assert(out@ =~= head + inline_lines(ow@, key@, all.take(i + 1)));
        i = i + 1;
    }
    assert(all.take(vs.len() as int) == all);
    out
}

fn space_text(key: &Vec<char>, vs: &Vec<String>) -> (r: String)
    ensures
        r@ == "Artisan --"@ + key@ + seq!['\n'] + space_lines(key@, views_of_strings(vs@)),
{
    let mut out = String::new();
    push_str(&mut out, "Artisan --");
    push_chars(&mut out, key);
    push_char(&mut out, '\n');
    let ghost head = out@;
    let ghost all = views_of_strings(vs@);
    let mut i: usize = 0;
    while i < vs.len()
        invariant
            i <= vs.len(),
            all == views_of_strings(vs@),
            out@ == head + space_lines(key@, all.take(i as int)),
        decreases vs.len() - i,
    {
        push_str(&mut out, vs[i].as_str());
        push_str(&mut out, "\tvalue for --");
        push_chars(&mut out, key);
        push_char(&mut out, '\n');
        assert(all.take(i + 1).drop_last() == all.take(i as int));
        assert(all.take(i + 1).last() == vs@[i as int]@);
        assert(out@ =~= head + space_lines(key@, all.take(i + 1)));
        i = i + 1;
    }
    assert(all.take(vs.len() as int) == all);
    out
}

/// The reply an optional branch reply gives, for the exec side.
pub open spec fn branch_reply(r: Option<ArgsStep>) -> Option<Reply> {
    match r {
        Some(s) => Some(step_reply(s)),
        None => None,
    }
}

fn key_string(k: &Vec<char>) -> (r: String)
    ensures
        r@ == k@,
{
    crate::text::string_of(k)
}

fn inline_branch(
    positional_only: bool,
    cw: Option<&String>,
    ps: &Vec<WordKey>,
    vals: &Values,
    catalog: &Catalog,
    subcmd: &str,
    native: &Native,
) -> (r: Option<ArgsStep>)
    ensures
        branch_reply(r) == inline_reply(
            positional_only,
            match cw {
                Some(w) => Some(w@),
                None => None,
            },
            pairs_view(ps@),
            vals@,
            catalog@,
            subcmd@,
            *native,
        ),
{
    if positional_only {
        return None;
    }
    let w = match cw {
        None => return None,
        Some(w) => str_chars(w.as_str()),
    };
    if !(w.len() > 0 && w[0] == '-') {
        return None;
    }
    let e = match find_char(&w, '=') {
        None => return None,
        Some(e) => e,
    };
    let ow = slice_chars(&w, 0, e);
    assert(ow@ == w@.take(e as int));
    let key = match lookup_pair(ps, &ow) {
        None => return None,
        Some(k) => k,
    };
    let ks = key_string(&key);
    match option_values(vals, catalog, subcmd, ks.as_str(), native) {
        None => Some(ArgsStep::NeedNative),
        Some(vs) => if vs.len() == 0 {
            None
        } else {
            Some(ArgsStep::Done(Some(inline_text(&ow, &key, &vs))))
        },
    }
}

fn space_branch(
    positional_only: bool,
    cw: Option<&String>,
    pw: Option<&String>,
    ps: &Vec<WordKey>,
    vals: &Values,
    catalog: &Catalog,
    subcmd: &str,
    native: &Native,
) -> (r: Option<ArgsStep>)
    ensures
        branch_reply(r) == space_reply(
            positional_only,
            match cw {
                Some(w) => Some(w@),
                None => None,
            },
            match pw {
                Some(w) => Some(w@),
                None => None,
            },
            pairs_view(ps@),
            vals@,
            catalog@,
            subcmd@,
            *native,
        ),
{
    if positional_only {
        return None;
    }
    let p = match pw {
        None => return None,
        Some(p) => str_chars(p.as_str()),
    };
    match cw {
        Some(w) => {
            let wc = str_chars(w.as_str());
            if wc.len() > 0 && wc[0] == '-' {
                return None;
            }
        },
        None => {},
    }
    let key = match lookup_pair(ps, &p) {
        None => return None,
        Some(k) => k,
    };
    let ks = key_string(&key);
    match option_values(vals, catalog, subcmd, ks.as_str(), native) {
        None => Some(ArgsStep::NeedNative),
        Some(vs) => if vs.len() == 0 {
            None
        } else {
            Some(ArgsStep::Done(Some(space_text(&key, &vs))))
        },
    }
}

fn listing(
    def: &Definition,
    filled: usize,
    positional_only: bool,
    prior: &Vec<&str>,
    vals: &Values,
    catalog: &Catalog,
    subcmd: &str,
) -> (r: String)
    ensures
        r@ == listing_spec(*def, filled as int, positional_only, word_seq(prior@), vals@, catalog@, subcmd@),
{
    let mut out = String::new();
    push_str(&mut out, "Artisan Args\n");
    let ghost head = out@;
    match &def.arguments {
        Some(es) => push_args(&mut out, es, filled, vals, catalog, subcmd),
        None => {},
    }
    let ghost mid = out@;
    if !positional_only {
        match &def.options {
            Some(es) => push_options(&mut out, es, prior),
            None => {},
        }
        let extra = passthrough_missing_exec(def, subcmd);
        push_passthrough(&mut out, &extra, prior);
    }
    assert(out@ =~= listing_spec(*def, filled as int, positional_only, word_seq(prior@), vals@, catalog@, subcmd@));
    out
}

fn word_ref(words: &[String], pos: usize) -> (r: Option<&String>)
    ensures
        match r {
            Some(w) => word_at(words@, pos as int) == Some(w@),
            None => word_at(words@, pos as int) is None,
        },
{
    if pos >= 1 && pos <= words.len() {
        Some(&words[pos - 1])
    } else {
        None
    }
}

/// Completes the arguments and options of the command `words[1]` with the
/// cursor on 1-based word `current`: offers the command's namespace when it
/// has no definition, the values of an option being typed, or the listing
/// of arguments (with their known values) and options still available.
/// When runtime values are consulted and not yet fetched (`native` is
/// `Pending`) and no static value is known for the option at the cursor,
/// the reply asks for them.
pub fn complete_args(
    list: &CommandList,
    current: usize,
    words: &[String],
    vals: &Values,
    catalog: &Catalog,
    native: &Native,
) -> (r: ArgsStep)
    ensures
        step_reply(r) == complete_args_spec(*list, current as int, words@, vals@, catalog@, *native),
{
    if words.len() < 2 {
        return ArgsStep::Done(None);
    }
    let subcmd = &words[1];
    if subcmd.as_str().is_empty() {
        return ArgsStep::Done(None);
    }
    let def = match find_definition(list, subcmd) {
        None => return ArgsStep::Done(Some(namespace_listing(list, subcmd))),
        Some(d) => d,
    };
    let ghost ps_view = command_pairs(*def, subcmd@);
    let mut pairs = value_option_pairs(def);
    let extra = passthrough_missing_exec(def, subcmd.as_str());
    push_passthrough_pairs(&mut pairs, &extra);
    let n: usize = if current == 0 { 0 } else if current - 1 > words.len() { words.len() } else { current - 1 };
    let mut prior: Vec<&str> = Vec::new();
    let mut i: usize = 2;
    while i < n
        invariant
            2 <= i,
            n <= words.len(),
            n >= 2 ==> i <= n,
            n < 2 ==> i == 2,
            prior@.len() == i - 2,
            forall|j: int| 0 <= j < prior@.len() ==> (#[trigger] prior@[j])@ == words@[j + 2]@,
        decreases n - i,
    {
        prior.push(words[i].as_str());
        i = i + 1;
    }
    assert(word_seq(prior@) =~= prior_words_spec(words@, current as int)) by {
        if n > 2 {
            assert(prior@.len() == n - 2);
            assert forall|j: int| 0 <= j < n - 2 implies word_seq(prior@)[j] == words@.subrange(2, n as int).map_values(
                |w: String| w@,
            )[j] by {
                assert(prior@[j]@ == words@[j + 2]@);
            }
        }
    }
    let takes = |w: &str| -> (b: bool)
        ensures
            b == (pair_lookup(pairs_view(pairs@), w@) is Some),
        {
            let wc = str_chars(w);
            lookup_pair(&pairs, &wc).is_some()
        };
    let (filled, positional_only) = scan_prior_words(prior.as_slice(), takes);
    let ghost p = |w: Seq<char>| pair_lookup(pairs_view(pairs@), w) is Some;
    assert(answers_as(takes, p));
    let cw = word_ref(words, current);
    let subcmd_str = subcmd.as_str();
    match inline_branch(positional_only, cw, &pairs, vals, catalog, subcmd_str, native) {
        Some(r) => return r,
        None => {},
    }
    let pw = if current >= 1 { word_ref(words, current - 1) } else { None };
    match space_branch(positional_only, cw, pw, &pairs, vals, catalog, subcmd_str, native) {
        Some(r) => return r,
        None => {},
    }
    ArgsStep::Done(Some(listing(def, filled, positional_only, &prior, vals, catalog, subcmd_str)))
}


// --- phpunit options that `test` forwards -----------------------------------------

/// Whether the definition declares an option under the key `k`.
pub open spec fn declares_option(def: Definition, k: Seq<char>) -> bool {
    match def.options {
        Some(es) => exists|i: int| 0 <= i < es@.len() && (#[trigger] es@[i]).key@ == k,
        None => false,
    }
}

/// `k` when the definition does not declare it.
pub open spec fn if_missing(def: Definition, k: Seq<char>) -> Seq<Seq<char>> {
    if declares_option(def, k) {
        seq![]
    } else {
        seq![k]
    }
}

/// The phpunit options that `artisan test` forwards without declaring them
/// (`filter`, `group`, `exclude-group`, `testsuite`), for the subcommand
/// `test`, each unless its definition declares it; none for another command.
pub open spec fn passthrough_missing(def: Definition, subcmd: Seq<char>) -> Seq<Seq<char>> {
    if subcmd == "test"@ {
        if_missing(def, "filter"@) + if_missing(def, "group"@) + if_missing(def, "exclude-group"@) + if_missing(
            def,
            "testsuite"@,
        )
    } else {
        seq![]
    }
}

/// The (word, key) pairs of forwarded options: each takes a value.
pub open spec fn passthrough_pairs(ks: Seq<Seq<char>>) -> Seq<(Seq<char>, Seq<char>)> {
    ks.map_values(|k: Seq<char>| ("--"@ + k, k))
}

/// The value-taking options of a command: those its definition declares,
/// then the forwarded ones it lacks.
pub open spec fn command_pairs(def: Definition, subcmd: Seq<char>) -> Seq<(Seq<char>, Seq<char>)> {
    definition_pairs(def) + passthrough_pairs(passthrough_missing(def, subcmd))
}

/// The description listed for a forwarded option.
pub open spec fn passthrough_desc(k: Seq<char>) -> Seq<char> {
    if k == "filter"@ {
        "Filter which tests to run"@
    } else if k == "group"@ {
        "Only run tests from the specified group(s)"@
    } else if k == "exclude-group"@ {
        "Exclude tests from the specified group(s)"@
    } else {
        "Only run tests from the specified test suite(s)"@
    }
}

/// The listing lines of the forwarded options not already on the line.
pub open spec fn passthrough_text(ks: Seq<Seq<char>>, prior: Seq<Seq<char>>) -> Seq<char>
    decreases ks.len(),
{
    if ks.len() == 0 {
        seq![]
    } else {
        let k = ks.last();
        passthrough_text(ks.drop_last(), prior) + if option_used_spec(prior, "--"@ + k, seq![]) {
            seq![]
        } else {
            "--"@ + k + "=\t"@ + passthrough_desc(k) + seq!['\n']
        }
    }
}

fn declares_option_exec(def: &Definition, k: &str) -> (r: bool)
    ensures
        r == declares_option(*def, k@),
{
    match &def.options {
        None => false,
        Some(es) => {
            let mut i: usize = 0;
            while i < es.len()
                invariant
                    i <= es.len(),
                    def.options == Some(*es),
                    forall|j: int| 0 <= j < i ==> (#[trigger] es@[j]).key@ != k@,
                decreases es.len() - i,
            {
                if is_lit(&str_chars(es[i].key.as_str()), k) {
                    assert(es@[i as int].key@ == k@);
                    assert(def.options == Some(*es));
                    assert(declares_option(*def, k@));
                    return true;
                }
                i = i + 1;
            }
            false
        },
    }
}

fn push_if_missing(out: &mut Vec<String>, def: &Definition, k: &str)
    ensures
        views_of_strings(final(out)@) == views_of_strings(old(out)@) + if_missing(*def, k@),
{
    let ghost before = out@;
    if !declares_option_exec(def, k) {
        out.push(string_of(&str_chars(k)));
    }
    assert(views_of_strings(out@) =~= views_of_strings(before) + if_missing(*def, k@));
}

fn passthrough_missing_exec(def: &Definition, subcmd: &str) -> (r: Vec<String>)
    ensures
        views_of_strings(r@) == passthrough_missing(*def, subcmd@),
{
    let mut out: Vec<String> = Vec::new();
    assert(views_of_strings(out@) =~= Seq::<Seq<char>>::empty());
    if is_lit(&str_chars(subcmd), "test") {
        push_if_missing(&mut out, def, "filter");
        push_if_missing(&mut out, def, "group");
        push_if_missing(&mut out, def, "exclude-group");
        push_if_missing(&mut out, def, "testsuite");
        assert(Seq::<Seq<char>>::empty() + if_missing(*def, "filter"@) + if_missing(*def, "group"@) + if_missing(
            *def,
            "exclude-group"@,
        ) + if_missing(*def, "testsuite"@) =~= passthrough_missing(*def, subcmd@));
    }
    out
}

fn dashed(k: &String) -> (r: String)
    ensures
        r@ == "--"@ + k@,
{
    let mut w = String::new();
    push_str(&mut w, "--");
    push_str(&mut w, k.as_str());
    w
}

fn push_passthrough_pairs(pairs: &mut Vec<WordKey>, ks: &Vec<String>)
    ensures
        pairs_view(final(pairs)@) == pairs_view(old(pairs)@) + passthrough_pairs(views_of_strings(ks@)),
{
    let ghost start = pairs_view(pairs@);
    let ghost kv = views_of_strings(ks@);
    let mut i: usize = 0;
    while i < ks.len()
        invariant
            i <= ks.len(),
            kv == views_of_strings(ks@),
            pairs_view(pairs@) == start + passthrough_pairs(kv.take(i as int)),
        decreases ks.len() - i,
    {
        let w = dashed(&ks[i]);
        push_pair(pairs, &w, &ks[i]);
        assert(passthrough_pairs(kv.take(i + 1)) =~= passthrough_pairs(kv.take(i as int)).push(("--"@ + ks@[i as int]@, ks@[i as int]@)));
        i = i + 1;
    }
    assert(kv.take(ks.len() as int) == kv);
}

fn passthrough_desc_exec(k: &String) -> (r: &'static str)
    ensures
        r@ == passthrough_desc(k@),
{
    let c = str_chars(k.as_str());
    if is_lit(&c, "filter") {
        "Filter which tests to run"
    } else if is_lit(&c, "group") {
        "Only run tests from the specified group(s)"
    } else if is_lit(&c, "exclude-group") {
        "Exclude tests from the specified group(s)"
    } else {
        "Only run tests from the specified test suite(s)"
    }
}

fn push_passthrough(out: &mut String, ks: &Vec<String>, prior: &Vec<&str>)
    ensures
        final(out)@ == old(out)@ + passthrough_text(views_of_strings(ks@), word_seq(prior@)),
{
    let ghost start = out@;
    let ghost kv = views_of_strings(ks@);
    let mut i: usize = 0;
    while i < ks.len()
        invariant
            i <= ks.len(),
            kv == views_of_strings(ks@),
            out@ == start + passthrough_text(kv.take(i as int), word_seq(prior@)),
        decreases ks.len() - i,
    {
        assert(kv.take(i + 1).drop_last() == kv.take(i as int));
        assert(kv.take(i + 1).last() == ks@[i as int]@);
        let w = dashed(&ks[i]);
        proof {
            reveal_strlit("");
            assert(""@ == Seq::<char>::empty());
        }
        if !option_used(prior.as_slice(), w.as_str(), "") {
            let ghost before = out@;
            push_str(out, w.as_str());
            push_str(out, "=\t");
            push_str(out, passthrough_desc_exec(&ks[i]));
            push_char(out, '\n');
            assert(out@ =~= start + passthrough_text(kv.take(i + 1), word_seq(prior@)));
        } else {
            assert(out@ =~= start + passthrough_text(kv.take(i + 1), word_seq(prior@)));
        }
        i = i + 1;
    }
    assert(kv.take(ks.len() as int) == kv);
}

// --- laws of argument completion -------------------------------------------------

/// The listing of an option's values, one per line after the header.
pub open spec fn value_listing(key: Seq<char>, vs: Seq<Seq<char>>) -> Seq<char> {
    "Artisan --"@ + key + seq!['\n'] + space_lines(key, vs)
}

/// The cursor (1-based word `current`) follows a bare value-taking option
/// of the command `words[1]` whose key is `key`, with no `--` before it.
pub open spec fn after_bare_option(list: CommandList, current: int, words: Seq<String>, key: Seq<char>) -> bool {
    &&& words.len() >= 2 && words[1]@.len() > 0
    &&& 4 <= current <= words.len() + 1
    &&& command_definition(list, words[1]@) matches Some(def) && pair_lookup(
        command_pairs(def, words[1]@),
        words[current - 2]@,
    ) == Some(key)
    &&& forall|i: int| 2 <= i < current - 1 ==> words[i]@ != separator()
}

/// A word whose first character is `-`.
pub open spec fn begins_with_dash(w: Seq<char>) -> bool {
    w.len() > 0 && w[0] == '-'
}

/// After a bare value-taking option (long name or shortcut) with no bare
/// separator before it, when the cursor word does not start with a dash (it
/// may be absent, empty or hold partial text), the reply is the listing of
/// the option's known values.
pub proof fn lemma_values_after_bare_option(
    list: CommandList,
    current: int,
    words: Seq<String>,
    vals: Seq<crate::values::Row>,
    cat: Seq<Seq<Seq<char>>>,
    native: Native,
    key: Seq<char>,
)
    requires
        after_bare_option(list, current, words, key),
        combined_spec(vals, cat, words[1]@, Kind::Option, key).len() > 0,
        current == words.len() + 1 || !begins_with_dash(words[current - 1]@),
    ensures
        complete_args_spec(list, current, words, vals, cat, native) == (Reply::Text(
            value_listing(key, combined_spec(vals, cat, words[1]@, Kind::Option, key)),
        )),
{
    let prior = prior_words_spec(words, current);
    assert(prior.len() == current - 3);
    assert forall|j: int| 0 <= j < prior.len() implies prior[j] != separator() by {
        assert(prior[j] == words[j + 2]@);
    }
    lemma_first_separator_none(prior, prior.len());
}


/// The cursor word `words[current - 1]` is `<option>=<partial>`, where the
/// option (the text before its first `=`) is value-taking with key `key`,
/// for the command `words[1]`, with no `--` before the cursor.
pub open spec fn inline_option_at(
    list: CommandList,
    current: int,
    words: Seq<String>,
    e: int,
    key: Seq<char>,
) -> bool {
    let w = words[current - 1]@;
    &&& words.len() >= 2 && words[1]@.len() > 0
    &&& 3 <= current <= words.len()
    &&& begins_with_dash(w)
    &&& 0 <= e < w.len() && w[e] == '='
    &&& forall|j: int| 0 <= j < e ==> w[j] != '='
    &&& command_definition(list, words[1]@) matches Some(def) && pair_lookup(
        command_pairs(def, words[1]@),
        w.take(e),
    ) == Some(key)
    &&& forall|i: int| 2 <= i < current - 1 ==> words[i]@ != separator()
}

/// When the cursor word is `<option>=<partial>` for a value-taking option
/// with known values and no `--` came before, the reply lists those values
/// as `<option>=<value>` lines, whatever the partial text is.
pub proof fn lemma_values_inline(
    list: CommandList,
    current: int,
    words: Seq<String>,
    vals: Seq<crate::values::Row>,
    cat: Seq<Seq<Seq<char>>>,
    native: Native,
    e: int,
    key: Seq<char>,
)
    requires
        inline_option_at(list, current, words, e, key),
        combined_spec(vals, cat, words[1]@, Kind::Option, key).len() > 0,
    ensures
        complete_args_spec(list, current, words, vals, cat, native) == (Reply::Text(
            "Artisan "@ + words[current - 1]@.take(e) + seq!['\n'] + inline_lines(
                words[current - 1]@.take(e),
                key,
                combined_spec(vals, cat, words[1]@, Kind::Option, key),
            ),
        )),
{
    let prior = prior_words_spec(words, current);
    assert forall|j: int| 0 <= j < prior.len() implies prior[j] != separator() by {
        assert(prior[j] == words[j + 2]@);
    }
    lemma_first_separator_none(prior, prior.len());
    crate::text::lemma_index_of_char(words[current - 1]@, '=', e);
}

proof fn lemma_option_values_native(
    vals: Seq<crate::values::Row>,
    cat: Seq<Seq<Seq<char>>>,
    subcmd: Seq<char>,
    key: Seq<char>,
    native: Native,
)
    ensures
        option_values_spec(vals, cat, subcmd, key, Native::Off) is Some,
        option_values_spec(vals, cat, subcmd, key, native) is None ==> native is Pending,
        option_values_spec(vals, cat, subcmd, key, Native::Pending) is Some ==> option_values_spec(
            vals,
            cat,
            subcmd,
            key,
            native,
        ) == option_values_spec(vals, cat, subcmd, key, Native::Pending),
{
}

/// Runtime values are asked for only when they are consulted and not yet
/// fetched; and they count only where the static sources find nothing:
/// whenever the reply does not ask for them, it is the reply given with
/// runtime values off, and the one given with any runtime values fetched.
pub proof fn lemma_runtime_values_only_when_static_empty(
    list: CommandList,
    current: int,
    words: Seq<String>,
    vals: Seq<crate::values::Row>,
    cat: Seq<Seq<Seq<char>>>,
    native: Native,
)
    ensures
        complete_args_spec(list, current, words, vals, cat, native) is NeedNative ==> native is Pending,
        !(complete_args_spec(list, current, words, vals, cat, Native::Pending) is NeedNative) ==> (
        complete_args_spec(list, current, words, vals, cat, native) == complete_args_spec(
            list,
            current,
            words,
            vals,
            cat,
            Native::Pending,
        )),
{
    if words.len() >= 2 && words[1]@.len() > 0 {
        let subcmd = words[1]@;
        if let Some(def) = command_definition(list, subcmd) {
            let ps = command_pairs(def, subcmd);
            let prior = prior_words_spec(words, current);
            let scan = scan_result(prior, |w: Seq<char>| pair_lookup(ps, w) is Some);
            let cw = word_at(words, current);
            let pw = word_at(words, current - 1);
            if !scan.1 {
                if let Some(w) = cw {
                    if is_dash_word(w) {
                        if let Some(e) = index_of_char(w, '=') {
                            if let Some(key) = pair_lookup(ps, w.take(e)) {
                                lemma_option_values_native(vals, cat, subcmd, key, native);
                            }
                        }
                    }
                }
                if let Some(p) = pw {
                    if let Some(key) = pair_lookup(ps, p) {
                        lemma_option_values_native(vals, cat, subcmd, key, native);
                    }
                }
            }
        }
    }
}

proof fn lemma_opt_fold_without(es: Seq<ParamEntry>, i: int, n: nat, prior: Seq<Seq<char>>)
    requires
        0 <= i < es.len(),
        n <= es.len(),
        es[i].param matches Some(p) && !or_bool(p.is_multiple, false) && option_used_spec(
            prior,
            or_empty(p.name),
            or_empty(p.shortcut),
        ),
    ensures
        n <= i ==> opt_fold(es, n, prior) == opt_fold(es.remove(i), n, prior),
        n > i ==> opt_fold(es, n, prior) == opt_fold(es.remove(i), (n - 1) as nat, prior),
    decreases n,
{
    if n > 0 {
        lemma_opt_fold_without(es, i, (n - 1) as nat, prior);
        if n - 1 < i {
            assert(es.remove(i)[n - 1] == es[n - 1]);
        } else if n - 1 > i {
            assert(es.remove(i)[n - 2] == es[n - 1]);
        }
    }
}

/// An option already on the line that cannot repeat is not offered again:
/// the option listing is the listing of the other options.
pub proof fn lemma_used_option_left_out(es: Seq<ParamEntry>, i: int, prior: Seq<Seq<char>>)
    requires
        0 <= i < es.len(),
        es[i].param matches Some(p) && !or_bool(p.is_multiple, false) && option_used_spec(
            prior,
            or_empty(p.name),
            or_empty(p.shortcut),
        ),
    ensures
        opt_fold(es, es.len(), prior) == opt_fold(es.remove(i), es.remove(i).len(), prior),
{
    lemma_opt_fold_without(es, i, es.len(), prior);
}

proof fn lemma_arg_fold_count(
    es: Seq<ParamEntry>,
    n: nat,
    filled: int,
    vals: Seq<crate::values::Row>,
    cat: Seq<Seq<Seq<char>>>,
    subcmd: Seq<char>,
)
    requires
        n <= es.len(),
        n <= filled,
        forall|j: int| 0 <= j < es.len() ==> (#[trigger] es[j].param matches Some(p) ==> !or_bool(p.is_array, false)),
    ensures
        arg_fold(es, n, filled, vals, cat, subcmd).0 == Seq::<char>::empty(),
        arg_fold(es, n, filled, vals, cat, subcmd).1 <= n,
    decreases n,
{
    if n > 0 {
        lemma_arg_fold_count(es, (n - 1) as nat, filled, vals, cat, subcmd);
        assert(es[n - 1].param matches Some(p) ==> !or_bool(p.is_array, false));
    }
}

/// Once the line fills as many positions as the command has arguments, and
/// none of them is an array, no argument is offered.
pub proof fn lemma_filled_arguments_left_out(
    es: Seq<ParamEntry>,
    filled: int,
    vals: Seq<crate::values::Row>,
    cat: Seq<Seq<Seq<char>>>,
    subcmd: Seq<char>,
)
    requires
        filled >= es.len(),
        forall|j: int| 0 <= j < es.len() ==> (#[trigger] es[j].param matches Some(p) ==> !or_bool(p.is_array, false)),
    ensures
        arg_fold(es, es.len(), filled, vals, cat, subcmd).0 == Seq::<char>::empty(),
{
    lemma_arg_fold_count(es, es.len(), filled, vals, cat, subcmd);
}

} // verus!
