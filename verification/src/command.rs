//! The artisan command list as reported by `artisan list --format=json`,
//! and the completion listings built from it.

use vstd::prelude::*;
use crate::text::{
    str_chars, push_str, push_char, push_chars, starts_with, is_lit, lines_of, split_lines, views_of,
    has_prefix,
};

verus! {

broadcast use vstd::string::group_string_axioms;

/// A scalar `default` of an argument or option, as the command list gives it.
pub enum DefaultValue {
    Null,
    Bool(bool),
    /// A number, as the JSON text renders it.
    Number(String),
    Str(String),
    /// An array or an object.
    Compound,
}

/// The fields of an argument or option definition that completion reads.
/// A field is `None` when the definition lacks it or gives it another type.
pub struct Param {
    pub name: Option<String>,
    pub shortcut: Option<String>,
    pub description: Option<String>,
    pub accept_value: Option<bool>,
    pub is_value_required: Option<bool>,
    pub is_multiple: Option<bool>,
    pub is_array: Option<bool>,
    pub is_required: Option<bool>,
    pub default: Option<DefaultValue>,
}

/// One entry of a definition's `arguments` or `options` map, in map order;
/// `param` is `None` when the entry is not an object.
pub struct ParamEntry {
    pub key: String,
    pub param: Option<Param>,
}

/// A command's `definition`; a map is `None` when missing or not an object.
pub struct Definition {
    pub arguments: Option<Vec<ParamEntry>>,
    pub options: Option<Vec<ParamEntry>>,
}

/// One command of the list.
pub struct CommandInfo {
    pub name: Option<String>,
    pub description: Option<String>,
    /// Present when the command object has a `definition` key.
    pub definition: Option<Definition>,
}

/// The command list; `commands` is `None` when missing or not an array.
pub struct CommandList {
    pub commands: Option<Vec<CommandInfo>>,
}

/// A string field, or the empty string when absent.
pub open spec fn or_empty(o: Option<String>) -> Seq<char> {
    match o {
        Some(s) => s@,
        None => seq![],
    }
}

/// A boolean field, or `d` when absent.
pub open spec fn or_bool(o: Option<bool>, d: bool) -> bool {
    match o {
        Some(b) => b,
        None => d,
    }
}

pub(crate) fn field_chars(o: &Option<String>) -> (r: Vec<char>)
    ensures
        r@ == or_empty(*o),
{
    match o {
        Some(s) => str_chars(s.as_str()),
        None => Vec::new(),
    }
}

pub(crate) fn field_bool(o: &Option<bool>, d: bool) -> (r: bool)
    ensures
        r == or_bool(*o, d),
{
    match o {
        Some(b) => *b,
        None => d,
    }
}

/// A string field, or the empty string when absent.
pub fn field_string(o: &Option<String>) -> (r: String)
    ensures
        r@ == or_empty(*o),
{
    match o {
        Some(s) => s.clone(),
        None => String::new(),
    }
}

/// Newlines and tabs replaced by spaces, so a text fits one candidate line.
pub open spec fn clean_spec(s: Seq<char>) -> Seq<char> {
    s.map_values(|c: char| if c == '\n' || c == '\t' { ' ' } else { c })
}

fn clean_chars(s: &[char]) -> (r: Vec<char>)
    ensures
        r@ == clean_spec(s@),
{
    let mut r: Vec<char> = Vec::new();
    let mut i: usize = 0;
    while i < s.len()
        invariant
            i <= s.len(),
            r@ == clean_spec(s@.take(i as int)),
        decreases s.len() - i,
    {
        let c = s[i];
        r.push(if c == '\n' || c == '\t' { ' ' } else { c });
        assert(clean_spec(s@.take(i + 1)) =~= clean_spec(s@.take(i as int)).push(
            if c == '\n' || c == '\t' { ' ' } else { c },
        ));
        i = i + 1;
    }
    assert(s@.take(s.len() as int) == s@);
    r
}

/// Replaces newlines and tabs with spaces.
pub fn clean(s: &str) -> (r: String)
    ensures
        r@ == clean_spec(s@),
{
    let c = clean_chars(&str_chars(s));
    crate::text::string_of(&c)
}

/// How a default is shown: empty strings, `false`, `null`, arrays and
/// objects are not shown.
pub open spec fn default_display(d: DefaultValue) -> Option<Seq<char>> {
    match d {
        DefaultValue::Null => None,
        DefaultValue::Bool(b) => if b { Some("true"@) } else { None },
        DefaultValue::Number(n) => Some(n@),
        DefaultValue::Str(s) => if s@.len() == 0 { None } else { Some(s@) },
        DefaultValue::Compound => None,
    }
}

/// The hint suffix of a parameter: optional value, repeatable, default.
pub open spec fn hints_spec(p: Param) -> Seq<char> {
    let accepts = or_bool(p.accept_value, false);
    let required = or_bool(p.is_value_required, true);
    let a = if accepts && !required { " [optional value]"@ } else { seq![] };
    let b = if or_bool(p.is_multiple, false) { " [repeatable]"@ } else { seq![] };
    let c = match p.default {
        Some(d) => match default_display(d) {
            Some(t) => " (default: "@ + t + ")"@,
            None => seq![],
        },
        None => seq![],
    };
    a + b + c
}

/// Hints for a parameter, as `hints_spec` describes them.
pub fn hints(p: &Param) -> (r: String)
    ensures
        r@ == hints_spec(*p),
{
    let mut h = String::new();
    let accepts = field_bool(&p.accept_value, false);
    let required = field_bool(&p.is_value_required, true);
    if accepts && !required {
        push_str(&mut h, " [optional value]");
    }
    if field_bool(&p.is_multiple, false) {
        push_str(&mut h, " [repeatable]");
    }
    match &p.default {
        Some(d) => {
            let shown: Option<&str> = match d {
                DefaultValue::Null => None,
                DefaultValue::Bool(b) => if *b { Some("true") } else { None },
                DefaultValue::Number(n) => Some(n.as_str()),
                DefaultValue::Str(s) => if s.as_str().is_empty() { None } else { Some(s.as_str()) },
                DefaultValue::Compound => None,
            };
            match shown {
                Some(t) => {
                    push_str(&mut h, " (default: ");
                    push_str(&mut h, t);
                    push_str(&mut h, ")");
                },
                None => {},
            }
        },
        None => {},
    }
    assert(h@ =~= hints_spec(*p));
    h
}

/// The listing line of a command: `name<TAB>description`; unnamed and
/// underscore-prefixed (hidden) commands have none.
pub open spec fn command_line(c: CommandInfo) -> Seq<char> {
    let name = or_empty(c.name);
    if name.len() == 0 || name[0] == '_' {
        seq![]
    } else {
        name + seq!['\t'] + clean_spec(or_empty(c.description)) + seq!['\n']
    }
}

/// The listing lines of the first `n` commands.
pub open spec fn command_lines_from(cs: Seq<CommandInfo>, n: nat) -> Seq<char>
    decreases n,
{
    if n == 0 {
        seq![]
    } else {
        command_lines_from(cs, (n - 1) as nat) + command_line(cs[n - 1])
    }
}

/// The listing of every command of the list.
pub open spec fn command_lines_spec(list: CommandList) -> Seq<char> {
    match list.commands {
        Some(cs) => command_lines_from(cs@, cs@.len()),
        None => seq![],
    }
}

fn push_command_line(out: &mut String, c: &CommandInfo)
    ensures
        final(out)@ == old(out)@ + command_line(*c),
{
    let name = field_chars(&c.name);
    if name.len() == 0 || name[0] == '_' {
        assert(old(out)@ + command_line(*c) == old(out)@);
        return;
    }
    let desc = clean_chars(&field_chars(&c.description));
    push_chars(out, &name);
    push_char(out, '\t');
    push_chars(out, &desc);
    push_char(out, '\n');
    assert(final(out)@ =~= old(out)@ + command_line(*c));
}

/// `name<TAB>description` lines for every visible command.
pub fn command_lines(list: &CommandList) -> (r: String)
    ensures
        r@ == command_lines_spec(*list),
{
    let mut out = String::new();
    match &list.commands {
        None => {},
        Some(cs) => {
            let mut i: usize = 0;
            while i < cs.len()
                invariant
                    i <= cs.len(),
                    out@ == command_lines_from(cs@, i as nat),
                decreases cs.len() - i,
            {
                push_command_line(&mut out, &cs[i]);
                i = i + 1;
            }
        },
    }
    out
}

/// The listing offered at the command position.
pub open spec fn complete_commands_spec(list: CommandList) -> Seq<char> {
    "Artisan Command\n"@ + command_lines_spec(list)
}

/// A title line, then every visible command with its description.
pub fn complete_commands(list: &CommandList) -> (r: String)
    ensures
        r@ == complete_commands_spec(*list),
{
    let mut out = String::new();
    push_str(&mut out, "Artisan Command\n");
    let lines = command_lines(list);
    push_str(&mut out, lines.as_str());
    assert(out@ =~= complete_commands_spec(*list));
    out
}

} // verus!
