//! What the parser, the messages, the prompt and a generation turn give on
//! whole classes of input, stated from the inputs and the results alone.

use vstd::prelude::*;
use crate::text::{first_index, strip_cr, trim};
use crate::markdown::{
    lemma_first_index, spec_closing_fence_from, spec_closing_fence_range, spec_is_closing_fence,
    spec_parse_fence, spec_parse_fence_in_container,
};
use crate::tool_emulation::{
    ActionModel, BodyModel, ParserModel, StateModel, execute_tag, spec_flush,
    spec_message_for_action, spec_update_list_container, step, step_normal_line,
};
use crate::tool_description::{ToolModel, description_or, spec_tool_description, tool_lines};
use crate::llamacpp::inference_emulated_tools::{TurnModel, stop_string_ends, stops_after_piece};
use crate::laws::{law_fence_content_is_text, only_text};
use crate::stream::{at_line_boundary, execute_fence_line, lemma_top_level_fence};

verus! {

/// The first newline of `line`, a newline and `rest`, where `line` holds
/// none, ends `line`.
proof fn lemma_line_then_rest(b: Seq<char>, line: Seq<char>, rest: Seq<char>)
    requires
        b == line + seq!['\n'] + rest,
        !line.contains('\n'),
    ensures
        first_index(b, '\n') == Some(line.len() as int),
        b.take(line.len() as int) == line,
        b.take(line.len() as int + 1) == line + seq!['\n'],
        b.skip(line.len() as int + 1) == rest,
{
    let e = line.len() as int;
    assert(b[e] == '\n');
    assert forall|j: int| 0 <= j < e implies #[trigger] b[j] != '\n' by {
        assert(b[j] == line[j]);
        if line[j] == '\n' {
            assert(line.contains('\n'));
        }
    }
    lemma_first_index(b, '\n');
    assert(b.take(e) =~= line);
    assert(b.take(e + 1) =~= line + seq!['\n']);
    assert(b.skip(e + 1) =~= rest);
}

/// A line that opens a fence is found as one whatever list item it is read
/// in.
proof fn lemma_fence_in_any_container(line: Seq<char>, container: Option<int>)
    requires
        spec_parse_fence(line) is Some,
    ensures
        spec_parse_fence_in_container(line, container) is Some,
{
    reveal(spec_parse_fence_in_container);
}

/// In code mode, a complete line read at a line start in the normal state
/// that opens a fence (whatever its info string, none included) and is not
/// a top-level backtick fence tagged `execute_typescript` is shown as text
/// and puts the parser inside a Markdown fence; what the next step reads
/// there, a `$` line included, is text only.
pub proof fn law_other_fence_line_opens_markdown_fence(m: ParserModel, line: Seq<char>, rest: Seq<char>)
    requires
        m.code_mode_enabled,
        m.state is Normal,
        m.at_line_start,
        m.buffer == line + seq!['\n'] + rest,
        !line.contains('\n'),
        spec_parse_fence(line) is Some,
        !execute_fence_line(line),
    ensures
        step(m).0,
        step(m).2 == seq![ActionModel::Text(line + seq!['\n'])],
        step(m).1.state is InMarkdownFence,
        step(m).1.buffer == rest,
        step(m).1.at_line_start,
        only_text(step(step(m).1).2),
{
    let b = m.buffer;
    let e = line.len() as int;
    lemma_line_then_rest(b, line, rest);
    assert(step(m) == step_normal_line(m, e)) by {
        reveal(step);
    }
    let lists = spec_update_list_container(
        m.list_container_indent,
        m.empty_list_item_indent,
        line,
        true,
    );
    lemma_fence_in_any_container(line, lists.0);
    let f = spec_parse_fence_in_container(line, lists.0)->0;
    if f.container_indent is None && f.marker == '`' && f.info == execute_tag() {
        lemma_top_level_fence(line, lists.0);
        assert(execute_fence_line(line));
    }
    law_fence_content_is_text(step(m).1);
}

/// No line of `b` (from a line start up to a newline or the end) closes a
/// backtick fence opened with `fence_len` markers.
pub open spec fn no_closing_line(b: Seq<char>, fence_len: int) -> bool {
    forall|i: int, j: int|
        0 <= i <= j <= b.len() && at_line_boundary(b, i) && (j == b.len() || b[j] == '\n')
            && !b.subrange(i, j).contains('\n') ==> !#[trigger] spec_is_closing_fence(
            b.subrange(i, j),
            '`',
            fence_len,
            None,
        )
}

proof fn lemma_no_closing_found(b: Seq<char>, fence_len: int, start: int)
    requires
        no_closing_line(b, fence_len),
        0 <= start <= b.len(),
        at_line_boundary(b, start),
    ensures
        spec_closing_fence_from(b, '`', fence_len, None, true, start) is None,
    decreases b.len() - start,
{
    reveal(spec_closing_fence_from);
    let s = b.skip(start);
    lemma_first_index(s, '\n');
    let line_end = match first_index(s, '\n') {
        Some(o) => start + o,
        None => b.len() as int,
    };
    let l = b.subrange(start, line_end);
    assert(!l.contains('\n')) by {
        if l.contains('\n') {
            let k = choose|k: int| 0 <= k < l.len() && l[k] == '\n';
            assert(l[k] == s[k]);
            assert(s.contains('\n'));
        }
    }
    if line_end < b.len() {
        assert(b[line_end] == s[line_end - start]);
    }
    assert(!spec_is_closing_fence(l, '`', fence_len, None));
    if line_end < b.len() {
        lemma_no_closing_found(b, fence_len, line_end + 1);
    }
}

/// At the end of the stream, an execute block none of whose held lines
/// closes it runs all the code held, trimmed (every line, not a part), or
/// nothing when that is blank.
pub proof fn law_unclosed_block_runs_all_held_code(m: ParserModel, fence_len: int)
    requires
        m.state == (StateModel::InExecuteBlock { fence_len }),
        m.buffer.len() > 0,
        no_closing_line(m.buffer, fence_len),
    ensures
        spec_flush(m).1 == if trim(m.buffer).len() > 0 {
            seq![ActionModel::ExecuteCode(trim(m.buffer))]
        } else {
            Seq::<ActionModel>::empty()
        },
{
    lemma_no_closing_found(m.buffer, fence_len, 0);
    assert(spec_closing_fence_range(m.buffer, '`', fence_len, None, true) is None);
    assert(m.buffer.take(m.buffer.len() as int) =~= m.buffer);
}

/// Code in which `async function run()` occurs, anywhere, is sent to the
/// code-execution tool as it is.
pub proof fn law_code_defining_run_is_sent_unchanged(code: Seq<char>, message_id: Seq<char>, i: int)
    requires
        0 <= i,
        i + "async function run()"@.len() <= code.len(),
        code.subrange(i, i + "async function run()"@.len()) == "async function run()"@,
    ensures
        spec_message_for_action(ActionModel::ExecuteCode(code), message_id).1,
        spec_message_for_action(ActionModel::ExecuteCode(code), message_id).0.body
            == (BodyModel::ToolRequest {
            tool_name: crate::tool_emulation::CODE_EXECUTION_TOOL@,
            argument_name: "code"@,
            argument_value: code,
        }),
{
}

/// Code in which `async function run()` occurs nowhere is sent to the
/// code-execution tool as the body of such a function.
pub proof fn law_other_code_is_wrapped(code: Seq<char>, message_id: Seq<char>)
    requires
        forall|i: int|
            0 <= i && i + "async function run()"@.len() <= code.len() ==> #[trigger] code.subrange(
                i,
                i + "async function run()"@.len(),
            ) != "async function run()"@,
    ensures
        spec_message_for_action(ActionModel::ExecuteCode(code), message_id).0.body
            == (BodyModel::ToolRequest {
            tool_name: crate::tool_emulation::CODE_EXECUTION_TOOL@,
            argument_name: "code"@,
            argument_value: "async function run() {\n"@ + code + "\n}"@,
        }),
{
}

/// In code mode, a tool whose name starts with `code_execution__` adds
/// nothing to the prompt section, whatever follows that prefix.
pub proof fn law_code_execution_tools_are_not_listed(
    tools: Seq<ToolModel>,
    tool: ToolModel,
    code_mode_header: Seq<char>,
)
    requires
        tool.name.len() >= "code_execution__"@.len(),
        tool.name.take("code_execution__"@.len() as int) == "code_execution__"@,
    ensures
        spec_tool_description(tools.push(tool), true, code_mode_header) == spec_tool_description(
            tools,
            true,
            code_mode_header,
        ),
{
    assert(tools.push(tool).drop_last() =~= tools);
    assert(tools.push(tool).last() == tool);
    reveal(crate::tool_description::code_mode_line);
    assert(tool_lines(tools.push(tool), true) =~= tool_lines(tools, true));
}

/// Once a piece is read, generation stops, and a stop string is recorded as
/// what ended the turn, when the generated text ends with any of the stop
/// strings (the first one included), unless a send failed or a tool call
/// went out, which stop it as well.
pub proof fn law_any_stop_string_stops(t: TurnModel, stop_seen: bool, stops: Seq<String>, k: int)
    requires
        0 <= k < stops.len(),
        stops[k]@.len() <= t.generated.len(),
        t.generated.skip(t.generated.len() - stops[k]@.len()) == stops[k]@,
    ensures
        stops_after_piece(t, stop_seen, stops),
        !t.send_failed && !t.tool_call_emitted ==> stop_string_ends(t, stop_seen, stops),
{
    assert(crate::llamacpp::inference_emulated_tools::ends_with(t.generated, stops[k]@));
}


/// When the lines of `b` before position `c_len` (a newline) close nothing
/// and the line `f` after it closes, the search from a line start before
/// it finds `f`.
proof fn lemma_closing_found(b: Seq<char>, c_len: int, f: Seq<char>, fence_len: int, start: int)
    requires
        0 <= c_len < b.len(),
        b[c_len] == '\n',
        no_closing_line(b.take(c_len), fence_len),
        c_len + 1 + f.len() < b.len(),
        b.subrange(c_len + 1, c_len + 1 + f.len()) == f,
        b[c_len + 1 + f.len()] == '\n',
        !f.contains('\n'),
        spec_is_closing_fence(f, '`', fence_len, None),
        0 <= start <= c_len + 1,
        at_line_boundary(b, start),
    ensures
        spec_closing_fence_from(b, '`', fence_len, None, false, start) == Some(
            (c_len + 1, c_len + 2 + f.len()),
        ),
    decreases b.len() - start,
{
    reveal(spec_closing_fence_from);
    let s = b.skip(start);
    lemma_first_index(s, '\n');
    if start == c_len + 1 {
        let o = f.len() as int;
        assert(s[o] == b[c_len + 1 + o]);
        assert forall|j: int| 0 <= j < o implies #[trigger] s[j] != '\n' by {
            assert(s[j] == f[j]);
            if f[j] == '\n' {
                assert(f.contains('\n'));
            }
        }
        assert(first_index(s, '\n') == Some(o)) by {
            crate::text::lemma_span(s, crate::text::ne('\n'), o);
        }
    } else {
        assert(s[c_len - start] == b[c_len]);
        let o = first_index(s, '\n')->0;
        assert(o <= c_len - start);
        let line_end = start + o;
        let c = b.take(c_len);
        let l = b.subrange(start, line_end);
        assert(l == c.subrange(start, line_end));
        assert(!l.contains('\n')) by {
            if l.contains('\n') {
                let k = choose|k: int| 0 <= k < l.len() && l[k] == '\n';
                assert(l[k] == s[k]);
            }
        }
        if line_end < c_len {
            assert(c[line_end] == b[line_end]);
            assert(b[line_end] == s[o]);
        }
        if start > 0 {
            assert(c[start - 1] == b[start - 1]);
        }
        assert(at_line_boundary(c, start));
        assert(!spec_is_closing_fence(c.subrange(start, line_end), '`', fence_len, None));
        assert(b[line_end] == s[o]);
        lemma_closing_found(b, c_len, f, fence_len, line_end + 1);
    }
}

/// Inside an execute block, once the held text holds the code `c`, a
/// newline, a line `f` that closes the block and a newline: the block
/// runs exactly `c` (without a final carriage return), unless blank, and
/// reading goes on after the closing line in the normal state, at a line
/// start. Lines of `c` that do not close the block are code, whatever
/// they hold.
pub proof fn law_closed_block_runs_its_code(
    m: ParserModel,
    fence_len: int,
    c: Seq<char>,
    f: Seq<char>,
    rest: Seq<char>,
)
    requires
        m.state == (StateModel::InExecuteBlock { fence_len }),
        m.buffer == c + seq!['\n'] + f + seq!['\n'] + rest,
        no_closing_line(c, fence_len),
        !f.contains('\n'),
        spec_is_closing_fence(f, '`', fence_len, None),
    ensures
        step(m).0,
        step(m).2 == if trim(strip_cr(c)).len() > 0 {
            seq![ActionModel::ExecuteCode(strip_cr(c))]
        } else {
            Seq::<ActionModel>::empty()
        },
        step(m).1.buffer == rest,
        step(m).1.state is Normal,
        step(m).1.at_line_start,
{
    let b = m.buffer;
    let n = c.len() as int;
    assert(b.take(n) =~= c);
    assert(b.subrange(n + 1, n + 1 + f.len()) =~= f);
    assert(b[n] == '\n');
    assert(b[n + 1 + f.len()] == '\n');
    lemma_closing_found(b, n, f, fence_len, 0);
    assert(b.skip(n + 2 + f.len()) =~= rest);
    reveal(step);
    reveal(crate::tool_emulation::code_actions);
}

/// At the end of the stream, text held in the normal state or in a
/// Markdown fence is handed out as it is.
pub proof fn law_flush_hands_out_held_text(m: ParserModel)
    requires
        m.state is Normal || m.state is InMarkdownFence,
        m.buffer.len() > 0,
    ensures
        spec_flush(m).1 == seq![ActionModel::Text(m.buffer)],
{
}

/// Text is sent as text, not as a tool request; a shell command is sent as
/// a `developer__shell` request whose `command` is the command itself; the
/// message carries the streamed message's id.
pub proof fn law_text_and_command_messages(text: Seq<char>, command: Seq<char>, message_id: Seq<char>)
    ensures
        spec_message_for_action(ActionModel::Text(text), message_id) == (
            crate::tool_emulation::MessageModel { id: message_id, body: BodyModel::Text(text) },
            false,
        ),
        spec_message_for_action(ActionModel::ShellCommand(command), message_id) == (
            crate::tool_emulation::MessageModel {
                id: message_id,
                body: BodyModel::ToolRequest {
                    tool_name: crate::tool_emulation::SHELL_TOOL@,
                    argument_name: "command"@,
                    argument_value: command,
                },
            },
            true,
        ),
{
}

/// Without code mode, every tool is listed, in order, as
/// `- name: description` (`No description` when it has none).
pub proof fn law_plain_mode_lists_every_tool(tools: Seq<ToolModel>, tool: ToolModel, code_mode_header: Seq<char>)
    ensures
        spec_tool_description(tools.push(tool), false, code_mode_header) == spec_tool_description(
            tools,
            false,
            code_mode_header,
        ) + "- "@ + tool.name + ": "@ + description_or(tool.description, "No description"@)
            + "\n"@,
{
    assert(tools.push(tool).drop_last() =~= tools);
    assert(tools.push(tool).last() == tool);
    reveal(crate::tool_description::plain_line);
    let h = crate::tool_description::plain_header();
    assert(h + (tool_lines(tools, false) + crate::tool_description::plain_line(tool)) =~= h
        + tool_lines(tools, false) + "- "@ + tool.name + ": "@ + description_or(
        tool.description,
        "No description"@,
    ) + "\n"@);
}

/// Generation goes on after a piece when no send failed, no tool call went
/// out, the trimmer saw no stop string and the generated text ends with
/// none of the stop strings; nothing is then recorded as a stop.
pub proof fn law_no_stop_string_goes_on(t: TurnModel, stops: Seq<String>)
    requires
        !t.send_failed,
        !t.tool_call_emitted,
        forall|k: int|
            0 <= k < stops.len() ==> !(stops[k]@.len() <= t.generated.len() && #[trigger] t.generated.skip(
                t.generated.len() - stops[k]@.len(),
            ) == stops[k]@),
    ensures
        !stops_after_piece(t, false, stops),
        !stop_string_ends(t, false, stops),
{
}

} // verus!
