//! Properties that hold of the streaming parser for every input: reading
//! stops, actions are well formed, commands and code come only from where
//! they may, and everything else passes through as text.

use vstd::prelude::*;
use crate::text::{
    first_index, lemma_trim_by_idempotent, lemma_trim_by_props, lemma_trim_by_subset, trim, ws,
};
use crate::markdown::{
    backtick_fence_line, lemma_backtick_fence_line, lemma_dollar_line_is_no_fence,
    lemma_first_index, plain_info, spec_parse_fence_in_container,
};
use crate::tool_description::{ToolModel, spec_tool_description};
use crate::tool_emulation::{
    ActionModel, ParserModel, StateModel, command_actions, contains_seq, execute_tag, initial,
    line_actions,
    measure, run, spec_flush, spec_update_list_container, step, step_normal_line, with_input,
    EXECUTE_TYPESCRIPT_GUIDE,
};

verus! {

/// Text is never empty, a command is never empty and carries no surrounding
/// whitespace, and code to execute is never blank.
pub open spec fn action_ok(a: ActionModel) -> bool {
    match a {
        ActionModel::Text(t) => t.len() > 0,
        ActionModel::ShellCommand(c) => c.len() > 0 && trim(c) == c,
        ActionModel::ExecuteCode(c) => trim(c).len() > 0,
    }
}

pub open spec fn all_ok(acts: Seq<ActionModel>) -> bool {
    forall|i: int| 0 <= i < acts.len() ==> action_ok(#[trigger] acts[i])
}

/// No command spans more than one line.
pub open spec fn single_line_commands(acts: Seq<ActionModel>) -> bool {
    forall|i: int|
        0 <= i < acts.len() ==> match #[trigger] acts[i] {
            ActionModel::ShellCommand(c) => !c.contains('\n'),
            _ => true,
        }
}

pub open spec fn no_execute(acts: Seq<ActionModel>) -> bool {
    forall|i: int| 0 <= i < acts.len() ==> !(#[trigger] acts[i] is ExecuteCode)
}

pub open spec fn only_text(acts: Seq<ActionModel>) -> bool {
    forall|i: int| 0 <= i < acts.len() ==> #[trigger] acts[i] is Text
}

pub(crate) proof fn lemma_command_actions(line: Seq<char>)
    ensures
        all_ok(command_actions(line)),
        !line.contains('\n') ==> single_line_commands(command_actions(line)),
        no_execute(command_actions(line)),
{
    let c = trim(line.skip(1));
    lemma_trim_by_idempotent(line.skip(1), ws());
    if !line.contains('\n') {
        if line.len() > 0 {
            assert(!line.skip(1).contains('\n')) by {
                if line.skip(1).contains('\n') {
                    let k = choose|k: int| 0 <= k < line.skip(1).len() && line.skip(1)[k] == '\n';
                    assert(line[k + 1] == '\n');
                }
            }
            lemma_trim_by_subset(line.skip(1), ws(), '\n');
        }
    }
}

pub(crate) proof fn lemma_concat(a: Seq<ActionModel>, b: Seq<ActionModel>)
    ensures
        all_ok(a) && all_ok(b) ==> all_ok(a + b),
        single_line_commands(a) && single_line_commands(b) ==> single_line_commands(a + b),
        no_execute(a) && no_execute(b) ==> no_execute(a + b),
        only_text(a) && only_text(b) ==> only_text(a + b),
{
    assert forall|i: int| 0 <= i < (a + b).len() implies #[trigger] (a + b)[i] == if i < a.len() {
        a[i]
    } else {
        b[i - a.len()]
    } by {}
}

/// A line read up to (not including) the first newline holds no newline.
proof fn lemma_line_before_newline(b: Seq<char>, e: int)
    requires
        first_index(b, '\n') == Some(e),
    ensures
        !b.take(e).contains('\n'),
{
    lemma_first_index(b, '\n');
    if b.take(e).contains('\n') {
        let k = choose|k: int| 0 <= k < b.take(e).len() && b.take(e)[k] == '\n';
        assert(b[k] == '\n');
    }
}

pub(crate) proof fn lemma_step_actions(m: ParserModel)
    ensures
        all_ok(step(m).2),
        single_line_commands(step(m).2),
{
    reveal(step);
    let b = m.buffer;
    lemma_first_index(b, '\n');
    match m.state {
        StateModel::InCommand => {
            if let Some(i) = first_index(b, '\n') {
                lemma_line_before_newline(b, i);
                lemma_command_actions(b.take(i));
            }
        },
        StateModel::InExecuteBlock { fence_len } => {
            reveal(crate::tool_emulation::code_actions);
        },
        StateModel::InMarkdownFence { marker, fence_len, container_indent } => {},
        StateModel::Normal => {
            if m.at_line_start {
                if let Some(e) = first_index(b, '\n') {
                    lemma_line_before_newline(b, e);
                    lemma_command_actions(b.take(e));
                }
            }
        },
    }
}

/// Every action the parser produces while reading is well formed (see
/// `action_ok`), and every command it produces holds a single line.
pub proof fn law_read_actions_well_formed(m: ParserModel)
    ensures
        all_ok(run(m).1),
        single_line_commands(run(m).1),
    decreases measure(m),
{
    let s = step(m);
    lemma_step_actions(m);
    if s.0 && 0 <= measure(s.1) < measure(m) {
        law_read_actions_well_formed(s.1);
        lemma_concat(s.2, run(s.1).1);
    }
}

/// Every action the parser produces at the end of the stream is well formed.
pub proof fn law_flush_actions_well_formed(m: ParserModel)
    ensures
        all_ok(spec_flush(m).1),
{
    let b = m.buffer;
    match m.state {
        StateModel::InCommand => {
            lemma_trim_by_props(b, ws());
            lemma_command_actions(trim(b));
        },
        StateModel::InExecuteBlock { fence_len } => {
            let code_end = match crate::markdown::spec_closing_fence_range(
                b,
                '`',
                fence_len,
                None,
                true,
            ) {
                Some((closing_start, _)) => if closing_start >= 1 && b[closing_start - 1] == '\n' {
                    closing_start - 1
                } else {
                    closing_start
                },
                None => b.len() as int,
            };
            lemma_trim_by_idempotent(b.take(code_end), ws());
        },
        _ => {},
    }
}

pub open spec fn plain(m: ParserModel) -> bool {
    !m.code_mode_enabled && (m.state is Normal || m.state is InCommand)
}

pub(crate) proof fn lemma_plain_step(m: ParserModel)
    requires
        plain(m),
    ensures
        plain(step(m).1),
        no_execute(step(m).2),
{
    reveal(step);
    let b = m.buffer;
    match m.state {
        StateModel::InCommand => {
            if let Some(i) = first_index(b, '\n') {
                lemma_command_actions(b.take(i));
            }
        },
        _ => {
            if m.at_line_start {
                if let Some(e) = first_index(b, '\n') {
                    lemma_command_actions(b.take(e));
                }
            }
        },
    }
}

/// Without code mode nothing is ever executed: reading and flushing yield
/// text and shell commands only, and the parser stays out of fences.
pub proof fn law_plain_mode_never_executes(m: ParserModel)
    requires
        plain(m),
    ensures
        no_execute(run(m).1),
        plain(run(m).0),
        no_execute(spec_flush(m).1),
    decreases measure(m),
{
    let s = step(m);
    lemma_plain_step(m);
    if s.0 && 0 <= measure(s.1) < measure(m) {
        law_plain_mode_never_executes(s.1);
        lemma_concat(s.2, run(s.1).1);
    }
    if m.state is InCommand {
        lemma_command_actions(trim(m.buffer));
    }
}

/// Inside a Markdown fence, each step yields text only: a nested execute
/// fence is shown, never executed.
pub proof fn law_fence_content_is_text(m: ParserModel)
    requires
        m.state is InMarkdownFence,
    ensures
        only_text(step(m).2),
{
    reveal(step);
}

/// Execution starts only at a complete line, read in code mode at the start
/// of a line, that opens a top-level backtick fence (not one inside a list
/// item) whose info string is exactly `execute_typescript`.
pub proof fn law_execution_needs_top_level_tag(m: ParserModel)
    requires
        !(m.state is InExecuteBlock),
        step(m).1.state is InExecuteBlock,
    ensures
        m.state is Normal,
        m.code_mode_enabled,
        m.at_line_start,
        first_index(m.buffer, '\n') is Some,
        ({
            let line = m.buffer.take(first_index(m.buffer, '\n')->0);
            let lists = spec_update_list_container(
                m.list_container_indent,
                m.empty_list_item_indent,
                line,
                true,
            );
            &&& spec_parse_fence_in_container(line, lists.0) is Some
            &&& spec_parse_fence_in_container(line, lists.0)->0.container_indent is None
            &&& spec_parse_fence_in_container(line, lists.0)->0.marker == '`'
            &&& spec_parse_fence_in_container(line, lists.0)->0.info == execute_tag()
        }),
{
    reveal(step);
}

/// Each step that goes on consumes text or moves to a construct of lower
/// rank, so reading always stops.
pub proof fn law_step_progress(m: ParserModel)
    ensures
        step(m).0 ==> 0 <= measure(step(m).1) < measure(m),
{
    reveal(step);
    lemma_first_index(m.buffer, '\n');
    match m.state {
        StateModel::InExecuteBlock { fence_len } => {
            crate::markdown::lemma_closing_fence_range_bounds(
                m.buffer,
                '`',
                fence_len,
                None,
                false,
                0,
            );
        },
        StateModel::Normal => {
            if m.at_line_start && first_index(m.buffer, '\n') is Some {
                crate::tool_emulation::lemma_normal_line_progress(m, first_index(m.buffer, '\n')->0);
            }
        },
        _ => {},
    }
}

/// Outside an execute block, the parser never holds back a complete line:
/// once it stops for more input, what it keeps has no newline.
pub proof fn law_no_complete_line_held(m: ParserModel)
    ensures
        !(run(m).0.state is InExecuteBlock) ==> !run(m).0.buffer.contains('\n'),
    decreases measure(m),
{
    let s = step(m);
    law_step_progress(m);
    if s.0 {
        law_no_complete_line_held(s.1);
    } else {
        lemma_stop_holds_no_line(m);
    }
}

proof fn lemma_stop_holds_no_line(m: ParserModel)
    requires
        !step(m).0,
    ensures
        !(step(m).1.state is InExecuteBlock) ==> !step(m).1.buffer.contains('\n'),
{
    reveal(step);
    lemma_first_index(m.buffer, '\n');
    let s = step(m);
    if !(s.1.state is InExecuteBlock) && s.1.buffer.contains('\n') {
        let k = choose|k: int| 0 <= k < s.1.buffer.len() && s.1.buffer[k] == '\n';
        assert(m.buffer[k] == '\n');
    }
}

/// Flushing settles everything: nothing stays held back, the parser is back
/// at the start of a line in its normal state, and a second flush yields
/// nothing.
pub proof fn law_flush_settles(m: ParserModel)
    ensures
        spec_flush(m).0.buffer.len() == 0,
        m.buffer.len() > 0 ==> spec_flush(m).0.state is Normal && spec_flush(m).0.at_line_start,
        spec_flush(spec_flush(m).0).1.len() == 0,
        spec_flush(m).0.code_mode_enabled == m.code_mode_enabled,
{
}

/// A fresh parser has nothing to say until it is fed.
pub proof fn law_fresh_parser_is_silent(code_mode_enabled: bool)
    ensures
        run(initial(code_mode_enabled)).1.len() == 0,
        spec_flush(initial(code_mode_enabled)).1.len() == 0,
{
    reveal(step);
    let m = initial(code_mode_enabled);
    crate::text::lemma_span(m.buffer, crate::text::ne('\n'), 0);
    assert(crate::markdown::spec_could_be_control_line(m.buffer, None, None)) by {
        reveal(crate::markdown::spec_could_be_control_line);
        crate::text::lemma_span(m.buffer, crate::text::sp_tab(), 0);
    }
}

/// Some action is a shell command.
pub open spec fn has_command(acts: Seq<ActionModel>) -> bool {
    exists|i: int| 0 <= i < acts.len() && #[trigger] acts[i] is ShellCommand
}

/// While it reads a command or an execute block, the parser is at the
/// start of a line.
pub open spec fn line_start_inv(m: ParserModel) -> bool {
    (m.state is InCommand || m.state is InExecuteBlock) ==> m.at_line_start
}

/// A fresh parser is at a line start; reading, new input and flushing keep
/// `line_start_inv`.
pub proof fn law_line_start_invariant(m: ParserModel, chunk: Seq<char>, code_mode_enabled: bool)
    ensures
        line_start_inv(initial(code_mode_enabled)),
        line_start_inv(m) ==> line_start_inv(with_input(m, chunk)),
        line_start_inv(m) ==> line_start_inv(run(m).0),
        line_start_inv(m) ==> line_start_inv(spec_flush(m).0),
{
    if line_start_inv(m) {
        lemma_run_keeps_line_start_inv(m);
    }
}

proof fn lemma_run_keeps_line_start_inv(m: ParserModel)
    requires
        line_start_inv(m),
    ensures
        line_start_inv(run(m).0),
    decreases measure(m),
{
    let s = step(m);
    law_commands_start_lines(m);
    if s.0 && 0 <= measure(s.1) < measure(m) {
        lemma_run_keeps_line_start_inv(s.1);
    }
}

/// A command starts only at the start of a line: the parser begins reading
/// a command, or emits one, only at a line start and from held text that
/// begins with `$`; and after the start of the stream it comes to a line
/// start only by consuming a newline. A `$` in the middle of a line is
/// text.
pub proof fn law_commands_start_lines(m: ParserModel)
    requires
        line_start_inv(m),
    ensures
        step(m).1.state is InCommand && !(m.state is InCommand) ==> m.at_line_start
            && m.buffer.len() > 0 && m.buffer[0] == '$',
        has_command(step(m).2) ==> m.at_line_start && m.buffer.len() > 0 && m.buffer[0] == '$',
        step(m).1.at_line_start && !m.at_line_start ==> exists|k: int|
            0 <= k < m.buffer.len() && m.buffer[k] == '\n' && step(m).1.buffer == m.buffer.skip(
                k + 1,
            ),
        line_start_inv(step(m).1),
{
    reveal(step);
    let b = m.buffer;
    lemma_first_index(b, '\n');
    let s = step(m);
    if !m.at_line_start && s.1.at_line_start {
        let e = first_index(b, '\n')->0;
        assert(b[e] == '\n' && s.1.buffer == b.skip(e + 1));
    }
    if has_command(s.2) {
        if m.state is InExecuteBlock {
            reveal(crate::tool_emulation::code_actions);
        }
        let i = choose|i: int| 0 <= i < s.2.len() && #[trigger] s.2[i] is ShellCommand;
        assert(s.2[i] is ShellCommand);
    }
}


/// In code mode, the prompt section written for this parser names the
/// fence the parser executes: it shows ```` ```execute_typescript ````,
/// whatever the tools.
pub proof fn law_description_names_execute_fence(tools: Seq<ToolModel>)
    ensures
        contains_seq(
            spec_tool_description(tools, true, EXECUTE_TYPESCRIPT_GUIDE@),
            "```"@ + execute_tag(),
        ),
{
    reveal(execute_tag);
    reveal_strlit("```");
    reveal_strlit("\n\n# Running Code\n\nYou can call tools by writing code in a ```execute_typescript block. The code runs immediately \u{2014} do not explain it, just run it.\n\nExample \u{2014} counting files in /tmp:\n\n```execute_typescript\nasync function run() {\n  const result = await Developer.shell({ command: \"ls -1 /tmp | wc -l\" });\n  return result;\n}\n```\n\nRules:\n- Code MUST define async function run() and return a result\n- All function calls are async \u{2014} use await\n- Use ```execute_typescript for tool calls, $ for simple shell one-liners\n\nAvailable functions:\n\n");
    let d = spec_tool_description(tools, true, EXECUTE_TYPESCRIPT_GUIDE@);
    let fence = "```"@ + execute_tag();
    assert(d.subrange(58, 58 + fence.len() as int) =~= fence);
}


/// The text of the text actions, in order (commands and code add nothing).
pub open spec fn texts(acts: Seq<ActionModel>) -> Seq<char>
    decreases acts.len(),
{
    if acts.len() == 0 {
        Seq::empty()
    } else {
        texts(acts.drop_last()) + match acts.last() {
            ActionModel::Text(t) => t,
            _ => Seq::empty(),
        }
    }
}

pub(crate) proof fn lemma_texts_concat(a: Seq<ActionModel>, b: Seq<ActionModel>)
    ensures
        texts(a + b) == texts(a) + texts(b),
    decreases b.len(),
{
    if b.len() == 0 {
        assert(a + b =~= a);
        assert(texts(b) =~= Seq::<char>::empty());
        assert(texts(a) + texts(b) =~= texts(a));
    } else {
        lemma_texts_concat(a, b.drop_last());
        assert((a + b).drop_last() =~= a + b.drop_last());
        assert((a + b).last() == b.last());
        assert(texts(a) + texts(b) =~= texts(a) + texts(b.drop_last()) + match b.last() {
            ActionModel::Text(t) => t,
            _ => Seq::empty(),
        });
    }
}

pub(crate) proof fn lemma_texts_one(a: ActionModel)
    ensures
        texts(seq![a]) == match a {
            ActionModel::Text(t) => t,
            _ => Seq::empty(),
        },
{
    assert(seq![a].drop_last() =~= Seq::<ActionModel>::empty());
    assert(texts(Seq::<ActionModel>::empty()) =~= Seq::<char>::empty());
    assert(Seq::<char>::empty() + match a {
        ActionModel::Text(t) => t,
        _ => Seq::empty(),
    } =~= match a {
        ActionModel::Text(t) => t,
        _ => Seq::empty(),
    });
}

/// No `$` right after a newline in `s`.
pub open spec fn no_dollar_after_newline(s: Seq<char>) -> bool {
    forall|i: int| 1 <= i < s.len() && s[i - 1] == '\n' ==> #[trigger] s[i] != '$'
}

/// Reading ordinary text without code mode: no line of what is held
/// starts with `$` (a `$` elsewhere in a line is fine).
pub open spec fn plain_text_reading(m: ParserModel) -> bool {
    &&& !m.code_mode_enabled
    &&& m.state is Normal
    &&& (m.at_line_start && m.buffer.len() > 0 ==> m.buffer[0] != '$')
    &&& no_dollar_after_newline(m.buffer)
}

proof fn lemma_no_dollar_suffix(b: Seq<char>, k: int)
    requires
        no_dollar_after_newline(b),
        0 <= k <= b.len(),
    ensures
        no_dollar_after_newline(b.skip(k)),
        k >= 1 && k < b.len() && b[k - 1] == '\n' ==> b.skip(k)[0] != '$',
{
    assert forall|i: int| 1 <= i < b.skip(k).len() && b.skip(k)[i - 1] == '\n' implies #[trigger] b.skip(
        k,
    )[i] != '$' by {
        assert(b.skip(k)[i - 1] == b[k + i - 1]);
        assert(b.skip(k)[i] == b[k + i]);
    }
    if k >= 1 && k < b.len() && b[k - 1] == '\n' {
        assert(b.skip(k)[0] == b[k]);
    }
}

#[verifier::spinoff_prover]
proof fn lemma_plain_text_step(m: ParserModel)
    requires
        plain_text_reading(m),
    ensures
        plain_text_reading(step(m).1),
        only_text(step(m).2),
        texts(step(m).2) + step(m).1.buffer == m.buffer,
{
    reveal(step);
    let b = m.buffer;
    lemma_first_index(b, '\n');
    let s = step(m);
    assert(texts(Seq::<ActionModel>::empty()) =~= Seq::<char>::empty());
    if s.2.len() == 1 {
        lemma_texts_one(s.2[0]);
        assert(s.2 =~= seq![s.2[0]]);
    }
    assert(texts(s.2) + s.1.buffer =~= b) by {
        if s.2.len() == 1 {
            assert(s.2 =~= seq![s.2[0]]);
        }
    }
    if first_index(b, '\n') is Some {
        let e = first_index(b, '\n')->0;
        lemma_no_dollar_suffix(b, e + 1);
    }
    lemma_no_dollar_suffix(b, 0);
    lemma_no_dollar_suffix(b, b.len() as int);
    assert(b.skip(0) =~= b);
    assert(b.skip(b.len() as int) =~= Seq::<char>::empty());
}

/// Without code mode, text in which no line starts with `$` passes through
/// unchanged: the text the parser produces, followed by what it holds
/// back, is exactly what it was given, and flushing hands out the rest.
pub proof fn law_plain_text_passes_through(m: ParserModel)
    requires
        plain_text_reading(m),
    ensures
        only_text(run(m).1),
        plain_text_reading(run(m).0),
        texts(run(m).1) + run(m).0.buffer == m.buffer,
        texts(spec_flush(m).1) == m.buffer,
    decreases measure(m),
{
    let s = step(m);
    lemma_plain_text_step(m);
    if s.0 && 0 <= measure(s.1) < measure(m) {
        law_plain_text_passes_through(s.1);
        lemma_concat(s.2, run(s.1).1);
        lemma_texts_concat(s.2, run(s.1).1);
        assert(texts(run(m).1) + run(m).0.buffer =~= texts(s.2) + (texts(run(s.1).1)
            + run(s.1).0.buffer));
    }
    if m.buffer.len() > 0 {
        lemma_texts_one(ActionModel::Text(m.buffer));
    } else {
        assert(texts(Seq::<ActionModel>::empty()) =~= Seq::<char>::empty());
    }
}


/// The first newline of a `$` line followed by more text ends that line.
proof fn lemma_dollar_line_end(b: Seq<char>, command: Seq<char>, rest: Seq<char>)
    requires
        b == seq!['$'] + command + seq!['\n'] + rest,
        !command.contains('\n'),
    ensures
        first_index(b, '\n') == Some(command.len() as int + 1),
        b.take(command.len() as int + 1)[0] == '$',
        b.take(command.len() as int + 1).skip(1) == command,
        b.skip(command.len() as int + 2) == rest,
{
    let e = command.len() as int + 1;
    assert(b[e] == '\n');
    assert forall|j: int| 0 <= j < e implies #[trigger] b[j] != '\n' by {
        if j > 0 {
            assert(b[j] == command[j - 1]);
            if command[j - 1] == '\n' {
                assert(command.contains('\n'));
            }
        }
    }
    lemma_first_index(b, '\n');
    assert(b.take(e).skip(1) =~= command);
    assert(b.skip(e + 1) =~= rest);
}

/// A line that starts with `$`, read at the start of a line, runs its
/// command: the rest of the line, trimmed, when that is not empty. This
/// holds in either mode and whatever the list context.
pub proof fn law_dollar_line_runs_command(m: ParserModel, command: Seq<char>, rest: Seq<char>)
    requires
        m.state is Normal,
        m.at_line_start,
        m.buffer == seq!['$'] + command + seq!['\n'] + rest,
        !command.contains('\n'),
        trim(command).len() > 0,
    ensures
        step(m).0,
        step(m).2 == seq![ActionModel::ShellCommand(trim(command))],
        step(m).1.buffer == rest,
        step(m).1.state is Normal,
        step(m).1.at_line_start,
{
    let b = m.buffer;
    let e = command.len() as int + 1;
    lemma_dollar_line_end(b, command, rest);
    let line = b.take(e);
    assert(step(m) == step_normal_line(m, e)) by {
        reveal(step);
    }
    lemma_dollar_line_is_no_fence(
        line,
        spec_update_list_container(m.list_container_indent, m.empty_list_item_indent, line, true).0,
    );
}


/// A `$` read at the start of a line in the normal state: a command.
pub open spec fn reads_dollar_line(m: ParserModel) -> bool {
    m.state is Normal && m.at_line_start && m.buffer.len() > 0 && m.buffer[0] == '$'
}

/// Only commands and execute blocks take text out of the stream: inside a
/// Markdown fence, and in the normal state unless a `$` line is read or an
/// execute block opens, a step hands on as text exactly what it consumes.
pub proof fn law_text_passes_through(m: ParserModel)
    requires
        m.state is InMarkdownFence || (m.state is Normal && !reads_dollar_line(m) && !(step(
            m,
        ).1.state is InExecuteBlock)),
    ensures
        only_text(step(m).2),
        texts(step(m).2) + step(m).1.buffer == m.buffer,
{
    reveal(step);
    let b = m.buffer;
    lemma_first_index(b, '\n');
    let s = step(m);
    assert(texts(Seq::<ActionModel>::empty()) =~= Seq::<char>::empty());
    if s.2.len() == 1 {
        lemma_texts_one(s.2[0]);
        assert(s.2 =~= seq![s.2[0]]);
    }
    assert(texts(s.2) + s.1.buffer =~= b);
}


pub(crate) proof fn lemma_execute_tag_is_plain()
    ensures
        plain_info(execute_tag()),
        !execute_tag().contains('\n'),
        execute_tag().len() == 18,
{
    reveal(execute_tag);
    let t = execute_tag();
    assert(!t.contains('`')) by {
        if t.contains('`') {
            let i = choose|i: int| 0 <= i < t.len() && t[i] == '`';
            assert(t[i] != '`');
        }
    }
    assert(!t.contains('\n')) by {
        if t.contains('\n') {
            let i = choose|i: int| 0 <= i < t.len() && t[i] == '\n';
            assert(t[i] != '\n');
        }
    }
}

/// The first line of a buffer that starts with an execute fence line.
proof fn lemma_execute_fence_line_end(b: Seq<char>, rest: Seq<char>)
    requires
        b == "```"@ + execute_tag() + seq!['\n'] + rest,
    ensures
        first_index(b, '\n') == Some(21int),
        backtick_fence_line(b.take(21), execute_tag()),
        b.skip(22) == rest,
{
    reveal_strlit("```");
    lemma_execute_tag_is_plain();
    let t = execute_tag();
    assert(b[21] == '\n');
    assert forall|j: int| 0 <= j < 21 implies #[trigger] b[j] != '\n' by {
        if j >= 3 {
            assert(b[j] == t[j - 3]);
            if t[j - 3] == '\n' {
                assert(t.contains('\n'));
            }
        }
    }
    lemma_first_index(b, '\n');
    assert(b.take(21).skip(3) =~= t);
    assert(b.skip(22) =~= rest);
}

/// In code mode, a complete line ```` ```execute_typescript ````, read at the
/// start of a line, opens an execute block and shows nothing of itself;
/// being unindented, it also ends any list it follows.
pub proof fn law_execute_fence_opens_block(m: ParserModel, rest: Seq<char>)
    requires
        m.code_mode_enabled,
        m.state is Normal,
        m.at_line_start,
        match m.list_container_indent {
            Some(c) => c > 0,
            None => true,
        },
        m.buffer == "```"@ + execute_tag() + seq!['\n'] + rest,
    ensures
        step(m).0,
        step(m).2 == Seq::<ActionModel>::empty(),
        step(m).1.state == (StateModel::InExecuteBlock { fence_len: 3 }),
        step(m).1.buffer == rest,
{
    let b = m.buffer;
    lemma_execute_fence_line_end(b, rest);
    let line = b.take(21);
    lemma_execute_tag_is_plain();
    lemma_backtick_fence_line(line, execute_tag());
    assert(step(m) == step_normal_line(m, 21)) by {
        reveal(step);
    }
    assert(spec_update_list_container(
        m.list_container_indent,
        m.empty_list_item_indent,
        line,
        true,
    ).0 is None) by {
        reveal(spec_update_list_container);
        crate::markdown::lemma_backtick_start(line);
    }
}


/// While it reads a command, the text the parser holds starts with the `$`
/// that began it.
pub open spec fn command_inv(m: ParserModel) -> bool {
    m.state is InCommand ==> m.buffer.len() > 0 && m.buffer[0] == '$'
}

#[verifier::spinoff_prover]
proof fn lemma_step_keeps_command_inv(m: ParserModel)
    requires
        command_inv(m),
    ensures
        command_inv(step(m).1),
{
    reveal(step);
    lemma_first_index(m.buffer, '\n');
}

proof fn lemma_run_keeps_command_inv(m: ParserModel)
    requires
        command_inv(m),
    ensures
        command_inv(run(m).0),
    decreases measure(m),
{
    let s = step(m);
    lemma_step_keeps_command_inv(m);
    if s.0 && 0 <= measure(s.1) < measure(m) {
        lemma_run_keeps_command_inv(s.1);
    }
}

/// A fresh parser keeps `command_inv`, and so do new input, reading and
/// flushing.
pub proof fn law_command_invariant(m: ParserModel, chunk: Seq<char>, code_mode_enabled: bool)
    ensures
        command_inv(initial(code_mode_enabled)),
        command_inv(m) ==> command_inv(with_input(m, chunk)),
        command_inv(m) ==> command_inv(run(m).0),
        command_inv(m) ==> command_inv(spec_flush(m).0),
{
    if command_inv(m) {
        lemma_run_keeps_command_inv(m);
        if m.state is InCommand {
            assert((m.buffer + chunk)[0] == m.buffer[0]);
        }
    }
}

/// At the end of the stream, an unfinished command is run: its text after
/// the `$`, trimmed, when that is not empty.
pub proof fn law_flush_runs_unfinished_command(m: ParserModel)
    requires
        command_inv(m),
        m.state is InCommand,
    ensures
        spec_flush(m).1 == command_actions(trim(m.buffer)),
        trim(m.buffer).len() > 0 && trim(m.buffer)[0] == '$',
{
    let b = m.buffer;
    crate::text::lemma_span(b, ws(), 0);
    lemma_trim_by_props(b, ws());
    assert(trim(b).len() > 0) by {
        if trim(b).len() == 0 {
            crate::text::lemma_span_props(b, ws());
            crate::text::lemma_rspan_props(b, ws());
            assert(ws()(b[0]));
        }
    }
    assert(trim(b)[0] == b[0]);
}


/// Holding back unfinished lines is sound outside fences: a line the
/// parser releases as text (see `spec_could_be_control_line`) stays
/// releasable however it continues, so no continuation turns it into a
/// command, a fence, an empty list item, a thematic break or a list item
/// opening a fence.
pub proof fn law_released_line_stays_released(b: Seq<char>, t: Seq<char>)
    requires
        !crate::markdown::spec_could_be_control_line(b, None, None),
    ensures
        !crate::markdown::spec_could_be_control_line(b + t, None, None),
{
    if crate::markdown::spec_could_be_control_line(b + t, None, None) {
        crate::markdown::lemma_control_line_take(b + t, b.len() as int);
        assert((b + t).take(b.len() as int) =~= b);
    }
}

/// Holding back unfinished lines is sound inside fences: a line released
/// as text can never, however it continues, become the line that closes
/// the fence.
pub proof fn law_released_line_never_closes(
    b: Seq<char>,
    t: Seq<char>,
    marker: char,
    minimum_len: int,
    container_indent: Option<int>,
)
    requires
        !crate::markdown::spec_could_be_control_line(b, Some(marker), container_indent),
    ensures
        !crate::markdown::spec_is_closing_fence(b + t, marker, minimum_len, container_indent),
{
    if crate::markdown::spec_is_closing_fence(b + t, marker, minimum_len, container_indent) {
        crate::markdown::lemma_closing_fence_is_candidate(
            b + t,
            marker,
            minimum_len,
            container_indent,
        );
        crate::markdown::lemma_closing_candidate_take(b + t, marker, container_indent, b.len() as int);
        assert((b + t).take(b.len() as int) =~= b);
    }
}


/// Outside lists, a line the parser releases as text can never, however it
/// continues, become a line that opens a fence (directly or right after a
/// list marker). Inside a list whose content starts more than three
/// columns in, a fence line can start with text that is released.
pub proof fn law_released_line_never_opens_fence(b: Seq<char>, t: Seq<char>)
    requires
        !crate::markdown::spec_could_be_control_line(b, None, None),
    ensures
        crate::markdown::spec_parse_fence(b + t) is None,
{
    if crate::markdown::spec_parse_fence(b + t) is Some {
        crate::markdown::lemma_fence_line_is_candidate(b + t);
        law_released_line_stays_released(b, t);
    }
}


/// The actions for text made of complete lines, read one line at a time
/// in plain mode: a command for each `$` line (when not blank), the line
/// itself as text otherwise.
pub open spec fn lines_actions(s: Seq<char>) -> Seq<ActionModel>
    decreases s.len(),
{
    match first_index(s, '\n') {
        Some(e) => if 0 <= e < s.len() {
            line_actions(s.take(e), s.take(e + 1)) + lines_actions(s.skip(e + 1))
        } else {
            Seq::empty()
        },
        None => Seq::empty(),
    }
}

#[verifier::spinoff_prover]
proof fn lemma_plain_empty_waits(m: ParserModel)
    requires
        !m.code_mode_enabled,
        m.state is Normal,
        m.at_line_start,
        m.buffer.len() == 0,
    ensures
        step(m) == (false, m, Seq::<ActionModel>::empty()),
{
    reveal(step);
    lemma_first_index(m.buffer, '\n');
    crate::text::lemma_span(m.buffer, crate::text::sp_tab(), 0);
    assert(crate::markdown::spec_could_be_control_line(m.buffer, None, None)) by {
        reveal(crate::markdown::spec_could_be_control_line);
    }
}

/// Without code mode, text made of complete lines, fed at the start of a
/// line, gives one text per ordinary line and one trimmed command per `$`
/// line (none for a blank command), in order; nothing is held back, and
/// flushing then gives nothing.
pub proof fn law_plain_lines(m: ParserModel)
    requires
        !m.code_mode_enabled,
        m.state is Normal,
        m.at_line_start,
        m.buffer.len() == 0 || m.buffer.last() == '\n',
    ensures
        run(m).1 == lines_actions(m.buffer),
        run(m).0 == (ParserModel { buffer: Seq::empty(), ..m }),
        spec_flush(run(m).0).1.len() == 0,
    decreases m.buffer.len(),
{
    let b = m.buffer;
    if b.len() == 0 {
        lemma_plain_empty_waits(m);
        lemma_first_index(b, '\n');
        assert(ParserModel { buffer: Seq::empty(), ..m } == m) by {
            assert(b =~= Seq::<char>::empty());
        }
    } else {
        assert(b[b.len() - 1] == '\n');
        lemma_first_index(b, '\n');
        let e = first_index(b, '\n')->0;
        assert(step(m) == step_normal_line(m, e)) by {
            reveal(step);
        }
        let m2 = ParserModel { buffer: b.skip(e + 1), ..m };
        assert(step(m).1 == m2);
        law_step_progress(m);
        if m2.buffer.len() > 0 {
            assert(m2.buffer.last() == b.last());
        }
        law_plain_lines(m2);
        assert(ParserModel { buffer: Seq::empty(), ..m2 } == ParserModel { buffer: Seq::empty(), ..m });
    }
}


/// A line the parser releases as text can never, however it continues,
/// become an empty list item or a line that could be a thematic break.
pub proof fn law_released_line_never_becomes_list_marker(b: Seq<char>, t: Seq<char>)
    requires
        !crate::markdown::spec_could_be_control_line(b, None, None),
    ensures
        crate::markdown::spec_empty_list_item_indents(b + t) is None,
        !crate::markdown::spec_is_list_thematic_break_candidate(b + t),
{
    law_released_line_stays_released(b, t);
    if crate::markdown::spec_empty_list_item_indents(b + t) is Some {
        crate::markdown::lemma_empty_item_is_candidate(b + t);
    }
    if crate::markdown::spec_is_list_thematic_break_candidate(b + t) {
        crate::markdown::lemma_thematic_is_candidate(b + t);
    }
}


/// `spec_could_be_fence_prefix` is exact: text that starts a line's
/// content could still become a fence opening (some continuation on the
/// same line makes it one) if and only if the test holds. The witness is
/// `fence_completion`, which holds no newline.
pub proof fn law_fence_prefix_exact(rest: Seq<char>, t: Seq<char>)
    requires
        rest.len() > 0,
    ensures
        crate::markdown::spec_could_be_fence_prefix(rest) ==> crate::markdown::spec_parse_fence_marker(
            rest + crate::markdown::fence_completion(rest),
            None,
        ) is Some && !crate::markdown::fence_completion(rest).contains('\n'),
        crate::markdown::spec_parse_fence_marker(rest + t, None) is Some
            ==> crate::markdown::spec_could_be_fence_prefix(rest),
{
    if crate::markdown::spec_could_be_fence_prefix(rest) {
        crate::markdown::lemma_fence_completion(rest);
    }
    let x = rest + t;
    if crate::markdown::spec_parse_fence_marker(x, None) is Some {
        crate::markdown::lemma_fence_marker_is_prefix(x, x, None);
        crate::markdown::lemma_fence_prefix_take(x, rest.len() as int);
        assert(x.take(rest.len() as int) =~= rest);
    }
}


/// `spec_could_be_list_fence` is exact: text that starts a line's content
/// could still become a list item that opens a fence (some continuation on
/// the same line makes it one) if and only if the test holds. The witness
/// is `list_fence_completion`, which holds no newline.
pub proof fn law_list_fence_prefix_exact(line: Seq<char>, t: Seq<char>)
    requires
        line.len() > 0,
    ensures
        crate::markdown::spec_could_be_list_fence(line) ==> crate::markdown::opens_list_fence(
            line + crate::markdown::list_fence_completion(line),
        ) && !crate::markdown::list_fence_completion(line).contains('\n'),
        crate::markdown::opens_list_fence(line + t) ==> crate::markdown::spec_could_be_list_fence(
            line,
        ),
{
    if crate::markdown::spec_could_be_list_fence(line) {
        crate::markdown::lemma_list_fence_completion(line);
    }
    if crate::markdown::opens_list_fence(line + t) {
        crate::markdown::lemma_list_fence_prefix(line, t);
    }
}

} // verus!
