//! The tool section of the system prompt for emulated tool calling: in code
//! mode, a guide to writing ```` ```execute_typescript ```` blocks and one
//! `Namespace.functionName()` line per tool; otherwise a plain list of tools.

use vstd::prelude::*;
use crate::text::{chars_of, string_of};

verus! {

/// What the prompt needs of a tool: its name and optional description.
pub struct ToolInfo {
    pub name: String,
    pub description: Option<String>,
}

pub struct ToolModel {
    pub name: Seq<char>,
    pub description: Option<Seq<char>>,
}

impl View for ToolInfo {
    type V = ToolModel;

    open spec fn view(&self) -> ToolModel {
        ToolModel {
            name: self.name@,
            description: match &self.description {
                Some(d) => Some(d@),
                None => None,
            },
        }
    }
}

pub open spec fn tools_view(tools: Seq<ToolInfo>) -> Seq<ToolModel> {
    tools.map_values(|t: ToolInfo| t@)
}

/// The characters of the uppercase mapping of `c`, as `char::to_uppercase`
/// yields them.
pub uninterp spec fn uppercase_of(c: char) -> Seq<char>;

/// `char::to_uppercase`, collected: the result is `uppercase_of(c)`.
#[verifier::external_body]
fn to_uppercase(c: char) -> (r: Vec<char>)
    ensures
        r@ == uppercase_of(c),
{
    c.to_uppercase().collect()
}

/// `s` with its first character mapped to uppercase.
pub open spec fn capitalize(s: Seq<char>) -> Seq<char> {
    if s.len() == 0 {
        s
    } else {
        uppercase_of(s[0]) + s.skip(1)
    }
}

/// What character `i` of a snake_case name contributes to its camelCase
/// form: underscores vanish and a character right after one is uppercased.
pub open spec fn camel_piece(s: Seq<char>, i: int) -> Seq<char> {
    if s[i] == '_' {
        Seq::empty()
    } else if i > 0 && s[i - 1] == '_' {
        uppercase_of(s[i])
    } else {
        seq![s[i]]
    }
}

/// The camelCase form of a snake_case name: the parts between underscores,
/// every part after the first capitalized, joined.
pub open spec fn camel_case(s: Seq<char>) -> Seq<char>
    decreases s.len(),
{
    if s.len() == 0 {
        Seq::empty()
    } else {
        camel_case(s.drop_last()) + camel_piece(s, s.len() - 1)
    }
}

pub open spec fn pair_at(s: Seq<char>, i: int) -> bool {
    0 <= i && i + 1 < s.len() && s[i] == '_' && s[i + 1] == '_'
}

/// Where the first `__` of `s` starts.
pub open spec fn first_double_underscore(s: Seq<char>) -> Option<int> {
    if exists|i: int| pair_at(s, i) {
        Some(choose|i: int| pair_at(s, i) && forall|j: int| 0 <= j < i ==> !#[trigger] pair_at(s, j))
    } else {
        None
    }
}

pub open spec fn description_or(d: Option<Seq<char>>, default: Seq<char>) -> Seq<char> {
    match d {
        Some(x) => x,
        None => default,
    }
}

/// The tools that code execution itself provides are not listed.
pub open spec fn is_code_execution_tool(name: Seq<char>) -> bool {
    name.len() >= "code_execution__"@.len() && name.take("code_execution__"@.len() as int)
        == "code_execution__"@
}

/// In code mode, a tool `namespace__snake_name` is listed as
/// `- Namespace.snakeName(): description`; other tools are left out.
#[verifier::opaque]
pub open spec fn code_mode_line(t: ToolModel) -> Seq<char> {
    if is_code_execution_tool(t.name) {
        Seq::empty()
    } else {
        match first_double_underscore(t.name) {
            Some(i) => "- "@ + capitalize(t.name.take(i)) + "."@ + camel_case(t.name.skip(i + 2))
                + "(): "@ + description_or(t.description, ""@) + "\n"@,
            None => Seq::empty(),
        }
    }
}

/// Without code mode, every tool is listed as `- name: description`.
#[verifier::opaque]
pub open spec fn plain_line(t: ToolModel) -> Seq<char> {
    "- "@ + t.name + ": "@ + description_or(t.description, "No description"@) + "\n"@
}

pub open spec fn tool_lines(tools: Seq<ToolModel>, code_mode_enabled: bool) -> Seq<char>
    decreases tools.len(),
{
    if tools.len() == 0 {
        Seq::empty()
    } else {
        tool_lines(tools.drop_last(), code_mode_enabled) + if code_mode_enabled {
            code_mode_line(tools.last())
        } else {
            plain_line(tools.last())
        }
    }
}

pub open spec fn plain_header() -> Seq<char> {
    "\n\n# Tools\n\nYou have access to the following tools:\n\n"@
}

/// The prompt section: `code_mode_header` and one line per listed tool in
/// code mode, otherwise the plain header and one line per tool.
pub open spec fn spec_tool_description(
    tools: Seq<ToolModel>,
    code_mode_enabled: bool,
    code_mode_header: Seq<char>,
) -> Seq<char> {
    (if code_mode_enabled {
        code_mode_header
    } else {
        plain_header()
    }) + tool_lines(tools, code_mode_enabled)
}

proof fn lemma_first_double_underscore(s: Seq<char>, k: int)
    requires
        pair_at(s, k),
        forall|j: int| 0 <= j < k ==> !#[trigger] pair_at(s, j),
    ensures
        first_double_underscore(s) == Some(k),
{
    let i = choose|i: int| pair_at(s, i) && forall|j: int| 0 <= j < i ==> !#[trigger] pair_at(s, j);
    assert(pair_at(s, i));
    if i < k {
        assert(!pair_at(s, i));
    } else if i > k {
        assert(!pair_at(s, k));
    }
}

fn push_all(out: &mut Vec<char>, s: &[char])
    ensures
        final(out)@ == old(out)@ + s@,
{
    let mut i: usize = 0;
    let ghost start = out@;
    while i < s.len()
        invariant
            i <= s@.len(),
            out@ == start + s@.take(i as int),
        decreases s@.len() - i,
    {
        out.push(s[i]);
        assert(out@ =~= start + s@.take(i + 1));
        i = i + 1;
    }
    assert(s@.take(i as int) =~= s@);
}

fn push_str(out: &mut Vec<char>, s: &str)
    ensures
        final(out)@ == old(out)@ + s@,
{
    let c = chars_of(s);
    push_all(out, c.as_slice());
}

/// Appends `s` with its first character mapped to uppercase.
fn push_capitalized(out: &mut Vec<char>, s: &[char])
    ensures
        final(out)@ == old(out)@ + capitalize(s@),
{
    if s.len() == 0 {
        assert(old(out)@ + capitalize(s@) =~= old(out)@);
        return;
    }
    let upper = to_uppercase(s[0]);
    let ghost before = out@;
    push_all(out, upper.as_slice());
    let rest = vstd::slice::slice_subrange(s, 1, s.len());
    push_all(out, rest);
    assert(out@ =~= before + capitalize(s@));
}

/// Appends the camelCase form of the snake_case name `s`.
fn push_camel_case(out: &mut Vec<char>, s: &[char])
    ensures
        final(out)@ == old(out)@ + camel_case(s@),
{
    let ghost start = out@;
    let mut i: usize = 0;
    while i < s.len()
        invariant
            i <= s@.len(),
            out@ == start + camel_case(s@.take(i as int)),
        decreases s@.len() - i,
    {
        let ghost before = out@;
        assert(s@.take(i + 1).drop_last() =~= s@.take(i as int));
        assert(camel_piece(s@.take(i + 1), i as int) == camel_piece(s@, i as int));
        if s[i] == '_' {
        } else if i > 0 && s[i - 1] == '_' {
            let upper = to_uppercase(s[i]);
            push_all(out, upper.as_slice());
        } else {
            out.push(s[i]);
        }
        assert(out@ =~= start + camel_case(s@.take(i + 1)));
        i = i + 1;
    }
    assert(s@.take(i as int) =~= s@);
}

/// Where the first `__` of `s` starts.
fn find_double_underscore(s: &[char]) -> (r: Option<usize>)
    ensures
        match r {
            Some(i) => first_double_underscore(s@) == Some(i as int) && i + 1 < s@.len(),
            None => first_double_underscore(s@) is None,
        },
{
    let mut i: usize = 0;
    while s.len() >= 2 && i < s.len() - 1
        invariant
            i <= s@.len(),
            forall|j: int| 0 <= j < i ==> !#[trigger] pair_at(s@, j),
        decreases s@.len() - i,
    {
        if s[i] == '_' && s[i + 1] == '_' {
            proof {
                lemma_first_double_underscore(s@, i as int);
            }
            return Some(i);
        }
        i = i + 1;
    }
    assert(!exists|j: int| pair_at(s@, j)) by {
        if exists|j: int| pair_at(s@, j) {
            let j = choose|j: int| pair_at(s@, j);
            assert(!pair_at(s@, j));
        }
    }
    None
}

fn starts_with(s: &[char], prefix: &[char]) -> (r: bool)
    ensures
        r == (s@.len() >= prefix@.len() && s@.take(prefix@.len() as int) == prefix@),
{
    if s.len() < prefix.len() {
        return false;
    }
    let mut i: usize = 0;
    while i < prefix.len()
        invariant
            i <= prefix@.len() <= s@.len(),
            forall|j: int| 0 <= j < i ==> s@[j] == prefix@[j],
        decreases prefix@.len() - i,
    {
        if s[i] != prefix[i] {
            assert(s@.take(prefix@.len() as int)[i as int] != prefix@[i as int]);
            return false;
        }
        i = i + 1;
    }
    assert(s@.take(prefix@.len() as int) =~= prefix@);
    true
}

fn push_description(out: &mut Vec<char>, description: &Option<String>, default: &str)
    ensures
        final(out)@ == old(out)@ + description_or(
            match description {
                Some(d) => Some(d@),
                None => None,
            },
            default@,
        ),
{
    match description {
        Some(d) => {
            let c = chars_of(d.as_str());
            push_all(out, c.as_slice());
        },
        None => push_str(out, default),
    }
}

/// Appends `- Namespace.camelName(): description` for the name split at
/// the `__` that starts at `i`.
fn push_api_line(out: &mut Vec<char>, name: &[char], i: usize, description: &Option<String>)
    requires
        i + 1 < name@.len(),
    ensures
        final(out)@ == old(out)@ + ("- "@ + capitalize(name@.take(i as int)) + "."@ + camel_case(
            name@.skip(i + 2),
        ) + "(): "@ + description_or(
            match description {
                Some(d) => Some(d@),
                None => None,
            },
            ""@,
        ) + "\n"@),
{
    let ghost before = out@;
    let head = vstd::slice::slice_subrange(name, 0, i);
    let n = name.len();
    let tail = vstd::slice::slice_subrange(name, i + 2, n);
    assert(head@ =~= name@.take(i as int));
    assert(tail@ =~= name@.skip(i + 2));
    push_str(out, "- ");
    push_capitalized(out, head);
    push_str(out, ".");
    push_camel_case(out, tail);
    push_str(out, "(): ");
    push_description(out, description, "");
    push_str(out, "\n");
    let ghost d = description_or(
        match description {
            Some(d) => Some(d@),
            None => None,
        },
        ""@,
    );
    assert(out@ =~= before + ("- "@ + capitalize(head@) + "."@ + camel_case(tail@) + "(): "@ + d
        + "\n"@));
}

fn push_code_mode_line(out: &mut Vec<char>, tool: &ToolInfo)
    ensures
        final(out)@ == old(out)@ + code_mode_line(tool@),
{
    reveal(code_mode_line);
    let name = chars_of(tool.name.as_str());
    let prefix = chars_of("code_execution__");
    if starts_with(name.as_slice(), prefix.as_slice()) {
        assert(old(out)@ + code_mode_line(tool@) =~= old(out)@);
        return;
    }
    match find_double_underscore(name.as_slice()) {
        Some(i) => {
            push_api_line(out, name.as_slice(), i, &tool.description);
        },
        None => {
            assert(old(out)@ + code_mode_line(tool@) =~= old(out)@);
        },
    }
}

fn push_plain_line(out: &mut Vec<char>, tool: &ToolInfo)
    ensures
        final(out)@ == old(out)@ + plain_line(tool@),
{
    reveal(plain_line);
    let ghost before = out@;
    push_str(out, "- ");
    push_str(out, tool.name.as_str());
    push_str(out, ": ");
    push_description(out, &tool.description, "No description");
    push_str(out, "\n");
    assert(out@ =~= before + plain_line(tool@));
}

/// The tool section of the prompt, opened in code mode by
/// `code_mode_header`.
pub fn tool_description(tools: &[ToolInfo], code_mode_enabled: bool, code_mode_header: &str) -> (r:
    String)
    ensures
        r@ == spec_tool_description(tools_view(tools@), code_mode_enabled, code_mode_header@),
{
    let mut out: Vec<char> = Vec::new();
    if code_mode_enabled {
        push_str(&mut out, code_mode_header);
    } else {
        push_str(&mut out, "\n\n# Tools\n\nYou have access to the following tools:\n\n");
    }
    let ghost header = out@;
    let mut i: usize = 0;
    while i < tools.len()
        invariant
            i <= tools@.len(),
            out@ == header + tool_lines(tools_view(tools@.take(i as int)), code_mode_enabled),
        decreases tools@.len() - i,
    {
        assert(tools_view(tools@.take(i + 1)).drop_last() =~= tools_view(tools@.take(i as int)));
        assert(tools_view(tools@.take(i + 1)).last() == tools@[i as int]@);
        if code_mode_enabled {
            push_code_mode_line(&mut out, &tools[i]);
        } else {
            push_plain_line(&mut out, &tools[i]);
        }
        assert(out@ =~= header + tool_lines(tools_view(tools@.take(i + 1)), code_mode_enabled));
        i = i + 1;
    }
    assert(tools@.take(i as int) =~= tools@);
    string_of(out.as_slice())
}

} // verus!
