//! The streaming parser that turns model output into text, shell commands
//! and code to execute.
//!
//! Output arrives in arbitrary chunks. A line that starts with `$` becomes a
//! shell command; in code mode, a top-level ```` ```execute_typescript ````
//! fence becomes code to execute. Other fences (and fences opened inside
//! list items) are passed through as text, together with everything inside
//! them. The parser holds back an unfinished line only while more text could
//! still turn it into one of these constructs.

use vstd::prelude::*;
use vstd::slice::slice_subrange;
use crate::text::{
    chars_of, copy_range, find_char, first_index, fits, has_non_ws, string_of, strip_cr,
    strip_cr_len, trim, trim_range,
};
use crate::tool_description::{ToolInfo, spec_tool_description, tool_description, tools_view};
use crate::markdown::{
    closing_fence_range, could_be_control_line, empty_list_item_indents, leading_indent,
    list_item_indents, oi, is_closing_fence, parse_fence_in_container, spec_closing_fence_range,
    spec_could_be_control_line, spec_empty_list_item_indents, spec_is_closing_fence,
    spec_leading_indent, spec_list_item_indents, spec_parse_fence_in_container, Fence,
    FenceModel,
};

verus! {

// ---------------------------------------------------------------------------
// Actions
// ---------------------------------------------------------------------------

/// What the parser asks its caller to do with a piece of model output.
pub enum EmulatorAction {
    /// Show this text.
    Text(String),
    /// Run this shell command.
    ShellCommand(String),
    /// Execute this code.
    ExecuteCode(String),
}

pub enum ActionModel {
    Text(Seq<char>),
    ShellCommand(Seq<char>),
    ExecuteCode(Seq<char>),
}

impl View for EmulatorAction {
    type V = ActionModel;

    open spec fn view(&self) -> ActionModel {
        match self {
            EmulatorAction::Text(t) => ActionModel::Text(t@),
            EmulatorAction::ShellCommand(c) => ActionModel::ShellCommand(c@),
            EmulatorAction::ExecuteCode(c) => ActionModel::ExecuteCode(c@),
        }
    }
}

pub open spec fn actions_view(v: Seq<EmulatorAction>) -> Seq<ActionModel> {
    v.map_values(|a: EmulatorAction| a@)
}

// ---------------------------------------------------------------------------
// Parser state and its model
// ---------------------------------------------------------------------------

#[derive(Clone, Copy)]
pub enum ParserState {
    Normal,
    InCommand,
    InExecuteBlock { fence_len: usize },
    InMarkdownFence { marker: char, fence_len: usize, container_indent: Option<usize> },
}

pub enum StateModel {
    Normal,
    InCommand,
    InExecuteBlock { fence_len: int },
    InMarkdownFence { marker: char, fence_len: int, container_indent: Option<int> },
}

impl View for ParserState {
    type V = StateModel;

    open spec fn view(&self) -> StateModel {
        match *self {
            ParserState::Normal => StateModel::Normal,
            ParserState::InCommand => StateModel::InCommand,
            ParserState::InExecuteBlock { fence_len } => StateModel::InExecuteBlock {
                fence_len: fence_len as int,
            },
            ParserState::InMarkdownFence { marker, fence_len, container_indent } =>
                StateModel::InMarkdownFence {
                marker,
                fence_len: fence_len as int,
                container_indent: oi(container_indent),
            },
        }
    }
}

/// The parser as a mathematical value: the text held back, the construct
/// being read, whether code mode is on, whether the held-back text starts a
/// line, and the list context (content column of the enclosing list item,
/// and of the empty list item just seen).
pub struct ParserModel {
    pub buffer: Seq<char>,
    pub state: StateModel,
    pub code_mode_enabled: bool,
    pub at_line_start: bool,
    pub list_container_indent: Option<int>,
    pub empty_list_item_indent: Option<int>,
}

pub struct StreamingEmulatorParser {
    buffer: Vec<char>,
    state: ParserState,
    code_mode_enabled: bool,
    at_line_start: bool,
    list_container_indent: Option<usize>,
    empty_list_item_indent: Option<usize>,
}

impl View for StreamingEmulatorParser {
    type V = ParserModel;

    closed spec fn view(&self) -> ParserModel {
        ParserModel {
            buffer: self.buffer@,
            state: self.state@,
            code_mode_enabled: self.code_mode_enabled,
            at_line_start: self.at_line_start,
            list_container_indent: oi(self.list_container_indent),
            empty_list_item_indent: oi(self.empty_list_item_indent),
        }
    }
}

pub open spec fn small(o: Option<int>) -> bool {
    match o {
        Some(x) => 0 <= x <= 20,
        None => true,
    }
}

/// The invariant every parser value keeps: the buffer fits in memory, the
/// list columns it tracks are small, and without code mode it never enters
/// a fence.
pub open spec fn model_wf(m: ParserModel) -> bool {
    &&& fits(m.buffer.len() as int)
    &&& small(m.list_container_indent)
    &&& small(m.empty_list_item_indent)
    &&& match m.state {
        StateModel::InMarkdownFence { container_indent, .. } => small(container_indent),
        _ => true,
    }
    &&& !m.code_mode_enabled ==> (m.state is Normal || m.state is InCommand)
}

pub open spec fn rank(s: StateModel) -> int {
    match s {
        StateModel::InMarkdownFence { .. } => 2,
        StateModel::Normal => 1,
        _ => 0,
    }
}

/// Decreases with every step the parser takes without stopping.
pub open spec fn measure(m: ParserModel) -> int {
    3 * m.buffer.len() + rank(m.state)
}

// ---------------------------------------------------------------------------
// Specification of one parsing step
// ---------------------------------------------------------------------------

/// The info string that marks a fence as code to execute.
#[verifier::opaque]
pub open spec fn execute_tag() -> Seq<char> {
    seq!['e', 'x', 'e', 'c', 'u', 't', 'e', '_', 't', 'y', 'p', 'e', 's', 'c', 'r', 'i', 'p', 't']
}

/// The action for a `$` line: its trimmed command, when not empty.
pub open spec fn command_actions(line: Seq<char>) -> Seq<ActionModel> {
    if line.len() > 0 && line[0] == '$' && trim(line.skip(1)).len() > 0 {
        seq![ActionModel::ShellCommand(trim(line.skip(1)))]
    } else {
        seq![]
    }
}

/// The actions for a complete ordinary line: a command for a `$` line,
/// otherwise the line itself (with its newline) as text.
pub open spec fn line_actions(line: Seq<char>, line_with_newline: Seq<char>) -> Seq<ActionModel> {
    if line.len() > 0 && line[0] == '$' {
        command_actions(line)
    } else {
        seq![ActionModel::Text(line_with_newline)]
    }
}

/// The content column `container` that a list item with marker column
/// `marker_indent` and content column `content_indent` leaves: an item
/// nested inside the current container keeps the container.
pub open spec fn nest_container(container: Option<int>, marker_indent: int, content_indent: int) -> Option<int> {
    match container {
        Some(outer) => if marker_indent >= outer {
            Some(outer)
        } else {
            Some(content_indent)
        },
        None => Some(content_indent),
    }
}

/// The list context after reading `line` (`complete_line` when it ended
/// with a newline): `(list container column, empty list item column)`.
#[verifier::opaque]
pub open spec fn spec_update_list_container(
    container: Option<int>,
    empty_item: Option<int>,
    line: Seq<char>,
    complete_line: bool,
) -> (Option<int>, Option<int>) {
    let item = spec_list_item_indents(line);
    let item_cols = match item {
        Some(p) => p,
        None => (0, 0),
    };
    let columns = spec_leading_indent(line).1;
    if trim(line).len() == 0 {
        if complete_line {
            (
                if empty_item == container {
                    None
                } else {
                    container
                },
                None,
            )
        } else {
            (container, empty_item)
        }
    } else if complete_line && spec_empty_list_item_indents(line) is Some {
        let empty = spec_empty_list_item_indents(line)->0;
        (nest_container(container, empty.0, empty.1), Some(empty.1))
    } else if item is Some && (complete_line || line.len() > spec_leading_indent(line).0 + (
    item_cols.1 - item_cols.0)) {
        (nest_container(container, item_cols.0, item_cols.1), None)
    } else {
        let after_empty = match empty_item {
            Some(e) => if columns < e && container == Some(e) {
                None
            } else {
                container
            },
            None => container,
        };
        (
            match after_empty {
                Some(c) => if columns < c {
                    None
                } else {
                    after_empty
                },
                None => None,
            },
            None,
        )
    }
}

/// Outcome of one step: whether to go on, the parser afterwards, and the
/// actions produced.
pub type Step = (bool, ParserModel, Seq<ActionModel>);

/// Mid-line: pass text through up to and including the next newline.
pub open spec fn step_mid_line(m: ParserModel) -> Step {
    match first_index(m.buffer, '\n') {
        Some(e) => (
            true,
            ParserModel { buffer: m.buffer.skip(e + 1), at_line_start: true, ..m },
            seq![ActionModel::Text(m.buffer.take(e + 1))],
        ),
        None => (
            false,
            ParserModel { buffer: Seq::empty(), ..m },
            if m.buffer.len() > 0 {
                seq![ActionModel::Text(m.buffer)]
            } else {
                seq![]
            },
        ),
    }
}

/// Reading a `$` line: once it is complete, run its command.
pub open spec fn step_command(m: ParserModel) -> Step {
    match first_index(m.buffer, '\n') {
        Some(i) => (
            true,
            ParserModel { buffer: m.buffer.skip(i + 1), state: StateModel::Normal, ..m },
            command_actions(m.buffer.take(i)),
        ),
        None => (false, m, seq![]),
    }
}

/// The code of an execute block that ends at the line starting at
/// `closing_start`: everything before it, without the newline (and carriage
/// return) that ends the last code line.
pub open spec fn code_before(buffer: Seq<char>, closing_start: int) -> Seq<char> {
    let code_end = if closing_start >= 1 && buffer[closing_start - 1] == '\n' {
        closing_start - 1
    } else {
        closing_start
    };
    strip_cr(buffer.take(code_end))
}

/// Inside an execute block: once its closing fence line is complete, emit
/// the code (unless blank).
pub open spec fn step_execute(m: ParserModel, fence_len: int) -> Step {
    match spec_closing_fence_range(m.buffer, '`', fence_len, None, false) {
        Some((closing_start, consumed)) => {
            let code = code_before(m.buffer, closing_start);
            (
                true,
                ParserModel {
                    buffer: m.buffer.skip(consumed),
                    state: StateModel::Normal,
                    at_line_start: true,
                    ..m
                },
                code_actions(code),
            )
        },
        None => (false, m, seq![]),
    }
}

/// The action for the code of a finished execute block: run it, unless it
/// is blank.
#[verifier::opaque]
pub open spec fn code_actions(code: Seq<char>) -> Seq<ActionModel> {
    if trim(code).len() > 0 {
        seq![ActionModel::ExecuteCode(code)]
    } else {
        seq![]
    }
}

/// Inside a Markdown fence: pass lines through as text until the closing
/// fence, or until a line leaves the list item the fence was opened in.
pub open spec fn step_fence(
    m: ParserModel,
    marker: char,
    fence_len: int,
    container_indent: Option<int>,
) -> Step {
    let b = m.buffer;
    if !m.at_line_start {
        step_mid_line(m)
    } else {
        match first_index(b, '\n') {
            Some(e) => {
                let line = b.take(e);
                if container_indent is Some && trim(line).len() > 0 && spec_leading_indent(line).1
                    < container_indent->0 {
                    (true, ParserModel { state: StateModel::Normal, ..m }, seq![])
                } else {
                    let closes = spec_is_closing_fence(line, marker, fence_len, container_indent);
                    (
                        true,
                        ParserModel {
                            buffer: b.skip(e + 1),
                            state: if closes {
                                StateModel::Normal
                            } else {
                                m.state
                            },
                            at_line_start: true,
                            ..m
                        },
                        seq![ActionModel::Text(b.take(e + 1))],
                    )
                }
            },
            None => {
                if container_indent is Some && spec_leading_indent(b).1 < container_indent->0
                    && spec_leading_indent(b).0 < b.len() {
                    (true, ParserModel { state: StateModel::Normal, ..m }, seq![])
                } else if spec_could_be_control_line(b, Some(marker), container_indent) {
                    (false, m, seq![])
                } else if b.len() > 0 {
                    (
                        false,
                        ParserModel { buffer: Seq::empty(), at_line_start: false, ..m },
                        seq![ActionModel::Text(b)],
                    )
                } else {
                    (false, m, seq![])
                }
            },
        }
    }
}

/// A complete line read in code mode, once the list context is updated
/// (`m` already holds it): a fence line opens an execute block (a
/// top-level backtick fence tagged `execute_typescript`) or a Markdown
/// fence; any other line is read as in plain mode.
pub open spec fn step_code_line(
    m: ParserModel,
    line: Seq<char>,
    line_with_newline: Seq<char>,
) -> Step {
    match spec_parse_fence_in_container(line, m.list_container_indent) {
        Some(f) => step_open_fence(m, f, line_with_newline),
        None => (true, m, line_actions(line, line_with_newline)),
    }
}

/// A fence line opens an execute block when it is a top-level backtick
/// fence tagged `execute_typescript`; any other fence opens a Markdown fence
/// and its line is shown.
pub open spec fn step_open_fence(m: ParserModel, f: FenceModel, line_with_newline: Seq<char>) -> Step {
    if f.container_indent is None && f.marker == '`' && f.info == execute_tag() {
        (true, ParserModel { state: StateModel::InExecuteBlock { fence_len: f.len }, ..m }, seq![])
    } else {
        (
            true,
            ParserModel {
                state: StateModel::InMarkdownFence {
                    marker: f.marker,
                    fence_len: f.len,
                    container_indent: f.container_indent,
                },
                ..m
            },
            seq![ActionModel::Text(line_with_newline)],
        )
    }
}

/// A complete line read in the normal state: in code mode, track the list
/// context and open fences; otherwise run a `$` command or pass the line on.
pub open spec fn step_normal_line(m: ParserModel, e: int) -> Step {
    let b = m.buffer;
    let line = b.take(e);
    let line_with_newline = b.take(e + 1);
    let rest = b.skip(e + 1);
    if m.code_mode_enabled {
        let lists = spec_update_list_container(
            m.list_container_indent,
            m.empty_list_item_indent,
            line,
            true,
        );
        step_code_line(
            ParserModel {
                buffer: rest,
                at_line_start: true,
                list_container_indent: lists.0,
                empty_list_item_indent: lists.1,
                ..m
            },
            line,
            line_with_newline,
        )
    } else {
        (
            true,
            ParserModel { buffer: rest, at_line_start: true, ..m },
            line_actions(line, line_with_newline),
        )
    }
}

/// The code of an execute block whose closing fence line starts at
/// `closing_start` (see `code_before`).
fn block_code(buffer: &[char], closing_start: usize) -> (code: Vec<char>)
    requires
        closing_start <= buffer@.len(),
    ensures
        code@ == code_before(buffer@, closing_start as int),
{
    let code_end = if closing_start >= 1 && buffer[closing_start - 1] == '\n' {
        closing_start - 1
    } else {
        closing_start
    };
    let n = strip_cr_len(slice_subrange(buffer, 0, code_end));
    let code = copy_range(buffer, 0, n);
    assert(code@ =~= code_before(buffer@, closing_start as int));
    code
}

/// A complete line in the normal state is consumed, whatever it opens.
pub(crate) proof fn lemma_normal_line_progress(m: ParserModel, e: int)
    requires
        0 <= e < m.buffer.len(),
    ensures
        0 <= measure(step_normal_line(m, e).1) < measure(m),
{
}

/// An unfinished line in the normal state: a `$` starts a command; text
/// that could still become a command, fence or list item is held back;
/// anything else is passed on.
pub open spec fn step_normal_partial(m: ParserModel) -> Step {
    let b = m.buffer;
    let lists = if m.code_mode_enabled {
        spec_update_list_container(m.list_container_indent, m.empty_list_item_indent, b, false)
    } else {
        (m.list_container_indent, m.empty_list_item_indent)
    };
    let m1 = ParserModel {
        list_container_indent: lists.0,
        empty_list_item_indent: lists.1,
        ..m
    };
    if b.len() > 0 && b[0] == '$' {
        (true, ParserModel { state: StateModel::InCommand, ..m1 }, seq![])
    } else if spec_could_be_control_line(b, None, None) {
        (false, m1, seq![])
    } else if b.len() > 0 {
        (false, ParserModel { buffer: Seq::empty(), at_line_start: false, ..m1 }, seq![ActionModel::Text(b)])
    } else {
        (false, m1, seq![])
    }
}

pub open spec fn step_normal(m: ParserModel) -> Step {
    if !m.at_line_start {
        step_mid_line(m)
    } else {
        match first_index(m.buffer, '\n') {
            Some(e) => step_normal_line(m, e),
            None => step_normal_partial(m),
        }
    }
}

/// One step of the parser.
#[verifier::opaque]
pub open spec fn step(m: ParserModel) -> Step {
    match m.state {
        StateModel::Normal => step_normal(m),
        StateModel::InCommand => step_command(m),
        StateModel::InExecuteBlock { fence_len } => step_execute(m, fence_len),
        StateModel::InMarkdownFence { marker, fence_len, container_indent } => step_fence(
            m,
            marker,
            fence_len,
            container_indent,
        ),
    }
}

/// Steps until the parser stops for more input: the parser afterwards and
/// every action produced, in order. (A step that goes on always lowers
/// `measure`, as `law_step_progress` shows, so the guard never stops a run
/// early.)
pub open spec fn run(m: ParserModel) -> (ParserModel, Seq<ActionModel>)
    decreases measure(m),
{
    let s = step(m);
    if s.0 && 0 <= measure(s.1) < measure(m) {
        let r = run(s.1);
        (r.0, s.2 + r.1)
    } else {
        (s.1, s.2)
    }
}

/// The parser with `chunk` appended to what it holds back.
pub open spec fn with_input(m: ParserModel, chunk: Seq<char>) -> ParserModel {
    ParserModel { buffer: m.buffer + chunk, ..m }
}

/// End of stream: whatever is held back, as the construct being read
/// makes of it; the parser returns to its initial reading state.
pub open spec fn spec_flush(m: ParserModel) -> (ParserModel, Seq<ActionModel>) {
    let b = m.buffer;
    if b.len() == 0 {
        (m, seq![])
    } else {
        let actions = match m.state {
            StateModel::InCommand => {
                let command_line = trim(b);
                if command_line.len() > 0 && command_line[0] == '$' {
                    command_actions(command_line)
                } else if command_line.len() > 0 {
                    seq![ActionModel::Text(b)]
                } else {
                    seq![]
                }
            },
            StateModel::InExecuteBlock { fence_len } => {
                let code_end = match spec_closing_fence_range(b, '`', fence_len, None, true) {
                    Some((closing_start, _)) => if closing_start >= 1 && b[closing_start - 1]
                        == '\n' {
                        closing_start - 1
                    } else {
                        closing_start
                    },
                    None => b.len() as int,
                };
                let code = trim(b.take(code_end));
                if code.len() > 0 {
                    seq![ActionModel::ExecuteCode(code)]
                } else {
                    seq![]
                }
            },
            _ => seq![ActionModel::Text(b)],
        };
        (
            ParserModel {
                buffer: Seq::empty(),
                state: StateModel::Normal,
                at_line_start: true,
                ..m
            },
            actions,
        )
    }
}

pub open spec fn initial(code_mode_enabled: bool) -> ParserModel {
    ParserModel {
        buffer: Seq::empty(),
        state: StateModel::Normal,
        code_mode_enabled,
        at_line_start: true,
        list_container_indent: None,
        empty_list_item_indent: None,
    }
}

// ---------------------------------------------------------------------------
// Executable parser
// ---------------------------------------------------------------------------

fn emit(results: &mut Vec<EmulatorAction>, action: EmulatorAction)
    ensures
        actions_view(final(results)@) == actions_view(old(results)@).push(action@),
{
    let ghost before = results@;
    results.push(action);
    assert(actions_view(results@) =~= actions_view(before).push(action@));
}

fn is_execute_tag(info: &[char]) -> (r: bool)
    ensures
        r == (info@ == execute_tag()),
{
    reveal(execute_tag);
    let tag: [char; 18] = [
        'e', 'x', 'e', 'c', 'u', 't', 'e', '_', 't', 'y', 'p', 'e', 's', 'c', 'r', 'i', 'p', 't',
    ];
    assert(tag@ =~= execute_tag());
    if info.len() != 18 {
        return false;
    }
    let mut i: usize = 0;
    while i < 18
        invariant
            i <= 18,
            info@.len() == 18,
            tag@ == execute_tag(),
            forall|j: int| 0 <= j < i ==> info@[j] == #[trigger] tag@[j],
        decreases 18 - i,
    {
        if info[i] != tag[i] {
            return false;
        }
        i = i + 1;
    }
    assert(info@ =~= execute_tag());
    true
}

/// The list context after reading `line`, as `spec_update_list_container`
/// describes it.
fn updated_list_container(
    container: Option<usize>,
    empty_item: Option<usize>,
    line: &[char],
    complete_line: bool,
) -> (r: (Option<usize>, Option<usize>))
    requires
        fits(line@.len() as int),
        small(oi(container)),
        small(oi(empty_item)),
    ensures
        (oi(r.0), oi(r.1)) == spec_update_list_container(
            oi(container),
            oi(empty_item),
            line@,
            complete_line,
        ),
        small(oi(r.0)),
        small(oi(r.1)),
{
    reveal(spec_update_list_container);
    if !has_non_ws(line) {
        if complete_line {
            let same = match (empty_item, container) {
                (Some(a), Some(b)) => a == b,
                (None, None) => true,
                _ => false,
            };
            return (if same { None } else { container }, None);
        }
        return (container, empty_item);
    }
    if complete_line {
        match empty_list_item_indents(line) {
            Some((marker_indent, content_indent)) => {
                let nested = match container {
                    Some(outer) => if marker_indent >= outer {
                        Some(outer)
                    } else {
                        Some(content_indent)
                    },
                    None => Some(content_indent),
                };
                return (nested, Some(content_indent));
            },
            None => {},
        }
    }
    let (indent_bytes, columns) = leading_indent(line);
    match list_item_indents(line) {
        Some((marker_indent, content_indent)) => {
            if complete_line || line.len() > indent_bytes + (content_indent - marker_indent) {
                let nested = match container {
                    Some(outer) => if marker_indent >= outer {
                        Some(outer)
                    } else {
                        Some(content_indent)
                    },
                    None => Some(content_indent),
                };
                return (nested, None);
            }
        },
        None => {},
    }
    let after_empty = match empty_item {
        Some(e) => {
            let is_e = match container {
                Some(c) => c == e,
                None => false,
            };
            if columns < e && is_e {
                None
            } else {
                container
            }
        },
        None => container,
    };
    let result = match after_empty {
        Some(c) => if columns < c {
            None
        } else {
            after_empty
        },
        None => None,
    };
    (result, None)
}

impl StreamingEmulatorParser {
    pub closed spec fn wf(&self) -> bool {
        model_wf(self@)
    }

    pub fn new(code_mode_enabled: bool) -> (r: Self)
        ensures
            r.wf(),
            r@ == initial(code_mode_enabled),
    {
        let r = StreamingEmulatorParser {
            buffer: Vec::new(),
            state: ParserState::Normal,
            code_mode_enabled,
            at_line_start: true,
            list_container_indent: None,
            empty_list_item_indent: None,
        };
        assert(r@ =~= initial(code_mode_enabled));
        r
    }

    /// Whether `chunk` can be appended to what the parser holds back (the
    /// bound is the address space: it always holds in practice).
    pub fn can_accept(&self, chunk: &str) -> (r: bool)
        ensures
            r == fits((self@.buffer.len() + chunk@.len()) as int),
    {
        let c = chars_of(chunk);
        c.len() <= usize::MAX / 8 && self.buffer.len() <= usize::MAX / 8 - c.len()
    }

    /// Removes and returns the first `at` held-back characters.
    fn split_front(&mut self, at: usize) -> (head: Vec<char>)
        requires
            at <= old(self)@.buffer.len(),
        ensures
            head@ == old(self)@.buffer.take(at as int),
            final(self)@ == (ParserModel { buffer: old(self)@.buffer.skip(at as int), ..old(self)@ }),
    {
        let mut rest = self.buffer.split_off(at);
        std::mem::swap(&mut self.buffer, &mut rest);
        assert(rest@ =~= old(self)@.buffer.take(at as int));
        assert(self@.buffer =~= old(self)@.buffer.skip(at as int));
        rest
    }

    /// Tracks the list context after reading `line` (`complete_line` when
    /// it ended with a newline), as `spec_update_list_container` describes.
    pub fn update_list_container(&mut self, line: &str, complete_line: bool)
        requires
            old(self).wf(),
            fits(line@.len() as int),
        ensures
            final(self).wf(),
            final(self)@ == (ParserModel {
                list_container_indent: spec_update_list_container(
                    old(self)@.list_container_indent,
                    old(self)@.empty_list_item_indent,
                    line@,
                    complete_line,
                ).0,
                empty_list_item_indent: spec_update_list_container(
                    old(self)@.list_container_indent,
                    old(self)@.empty_list_item_indent,
                    line@,
                    complete_line,
                ).1,
                ..old(self)@
            }),
    {
        let chars = chars_of(line);
        self.update_list_context(chars.as_slice(), complete_line);
    }

    fn update_list_context(&mut self, line: &[char], complete_line: bool)
        requires
            fits(line@.len() as int),
            model_wf(old(self)@),
        ensures
            model_wf(final(self)@),
            final(self)@ == (ParserModel {
                list_container_indent: spec_update_list_container(
                    old(self)@.list_container_indent,
                    old(self)@.empty_list_item_indent,
                    line@,
                    complete_line,
                ).0,
                empty_list_item_indent: spec_update_list_container(
                    old(self)@.list_container_indent,
                    old(self)@.empty_list_item_indent,
                    line@,
                    complete_line,
                ).1,
                ..old(self)@
            }),
    {
        let r = updated_list_container(
            self.list_container_indent,
            self.empty_list_item_indent,
            line,
            complete_line,
        );
        self.list_container_indent = r.0;
        self.empty_list_item_indent = r.1;
    }

    #[verifier::spinoff_prover]
    fn step_mid_line(&mut self, results: &mut Vec<EmulatorAction>) -> (cont: bool)
        requires
            model_wf(old(self)@),
        ensures
            model_wf(final(self)@),
            cont == step_mid_line(old(self)@).0,
            final(self)@ == step_mid_line(old(self)@).1,
            actions_view(final(results)@) == actions_view(old(results)@) + step_mid_line(
                old(self)@,
            ).2,
            cont ==> 0 <= measure(final(self)@) < measure(old(self)@),
    {
        let ghost m = self@;
        let ghost acts = actions_view(results@);
        match find_char(self.buffer.as_slice(), '\n') {
            Some(e) => {
                let head = self.split_front(e + 1);
                emit(results, EmulatorAction::Text(string_of(head.as_slice())));
                self.at_line_start = true;
                assert(actions_view(results@) =~= acts + step_mid_line(m).2);
                true
            },
            None => {
                let n = self.buffer.len();
                if n > 0 {
                    let all = self.split_front(n);
                    assert(all@ =~= m.buffer);
                    emit(results, EmulatorAction::Text(string_of(all.as_slice())));
                    assert(actions_view(results@) =~= acts + step_mid_line(m).2);
                } else {
                    assert(actions_view(results@) =~= acts + step_mid_line(m).2);
                }
                assert(self@.buffer =~= Seq::<char>::empty());
                false
            },
        }
    }

    #[verifier::spinoff_prover]
    fn step_command(&mut self, results: &mut Vec<EmulatorAction>) -> (cont: bool)
        requires
            model_wf(old(self)@),
        ensures
            model_wf(final(self)@),
            cont == step_command(old(self)@).0,
            final(self)@ == step_command(old(self)@).1,
            actions_view(final(results)@) == actions_view(old(results)@) + step_command(
                old(self)@,
            ).2,
            cont ==> 0 <= measure(final(self)@) < measure(old(self)@),
    {
        let ghost m = self@;
        let ghost acts = actions_view(results@);
        match find_char(self.buffer.as_slice(), '\n') {
            Some(i) => {
                let head = self.split_front(i + 1);
                let line = slice_subrange(head.as_slice(), 0, i);
                assert(line@ =~= m.buffer.take(i as int));
                self.emit_command(line, results);
                self.state = ParserState::Normal;
                true
            },
            None => {
                assert(actions_view(results@) =~= acts + seq![]);
                false
            },
        }
    }

    /// Emits the command of a `$` line, as `command_actions` describes it.
    fn emit_command(&self, line: &[char], results: &mut Vec<EmulatorAction>)
        ensures
            actions_view(final(results)@) == actions_view(old(results)@) + command_actions(
                line@,
            ),
    {
        let ghost acts = actions_view(results@);
        if line.len() > 0 && line[0] == '$' {
            let rest = slice_subrange(line, 1, line.len());
            assert(rest@ =~= line@.skip(1));
            let (a, b) = trim_range(rest);
            if a < b {
                let command = slice_subrange(rest, a, b);
                emit(results, EmulatorAction::ShellCommand(string_of(command)));
                assert(actions_view(results@) =~= acts + command_actions(line@));
                return;
            }
        }
        assert(actions_view(results@) =~= acts + command_actions(line@));
    }

    #[verifier::spinoff_prover]
    fn step_execute(&mut self, results: &mut Vec<EmulatorAction>, fence_len: usize) -> (cont:
        bool)
        requires
            model_wf(old(self)@),
            old(self)@.state == (StateModel::InExecuteBlock { fence_len: fence_len as int }),
        ensures
            model_wf(final(self)@),
            cont == step_execute(old(self)@, fence_len as int).0,
            final(self)@ == step_execute(old(self)@, fence_len as int).1,
            actions_view(final(results)@) == actions_view(old(results)@) + step_execute(
                old(self)@,
                fence_len as int,
            ).2,
            cont ==> 0 <= measure(final(self)@) < measure(old(self)@),
    {
        let ghost m = self@;
        let ghost acts = actions_view(results@);
        match closing_fence_range(self.buffer.as_slice(), '`', fence_len, None, false) {
            Some((closing_start, consumed)) => {
                let code = block_code(self.buffer.as_slice(), closing_start);
                let ghost s = step_execute(m, fence_len as int);
                proof {
                    reveal(code_actions);
                }
                let _closing = self.split_front(consumed);
                self.state = ParserState::Normal;
                self.at_line_start = true;
                assert(self@ == s.1);
                if has_non_ws(code.as_slice()) {
                    emit(results, EmulatorAction::ExecuteCode(string_of(code.as_slice())));
                }
                assert(actions_view(results@) =~= acts + s.2);
                true
            },
            None => {
                assert(actions_view(results@) =~= acts + seq![]);
                false
            },
        }
    }

    #[verifier::spinoff_prover]
    fn step_fence(
        &mut self,
        results: &mut Vec<EmulatorAction>,
        marker: char,
        fence_len: usize,
        container_indent: Option<usize>,
    ) -> (cont: bool)
        requires
            model_wf(old(self)@),
            old(self)@.state == (StateModel::InMarkdownFence {
                marker,
                fence_len: fence_len as int,
                container_indent: oi(container_indent),
            }),
        ensures
            model_wf(final(self)@),
            cont == step_fence(old(self)@, marker, fence_len as int, oi(container_indent)).0,
            final(self)@ == step_fence(old(self)@, marker, fence_len as int, oi(container_indent)).1,
            actions_view(final(results)@) == actions_view(old(results)@) + step_fence(
                old(self)@,
                marker,
                fence_len as int,
                oi(container_indent),
            ).2,
            cont ==> 0 <= measure(final(self)@) < measure(old(self)@),
    {
        if !self.at_line_start {
            return self.step_mid_line(results);
        }
        let ghost m = self@;
        let ghost acts = actions_view(results@);
        match find_char(self.buffer.as_slice(), '\n') {
            Some(e) => {
                let line = slice_subrange(self.buffer.as_slice(), 0, e);
                assert(line@ =~= m.buffer.take(e as int));
                match container_indent {
                    Some(minimum_indent) => {
                        let (_, indent_columns) = leading_indent(line);
                        if has_non_ws(line) && indent_columns < minimum_indent {
                            self.state = ParserState::Normal;
                            assert(actions_view(results@) =~= acts + seq![]);
                            return true;
                        }
                    },
                    None => {},
                }
                let closes = is_closing_fence(line, marker, fence_len, container_indent);
                let head = self.split_front(e + 1);
                emit(results, EmulatorAction::Text(string_of(head.as_slice())));
                if closes {
                    self.state = ParserState::Normal;
                }
                self.at_line_start = true;
                assert(actions_view(results@) =~= acts + step_fence(
                    m,
                    marker,
                    fence_len as int,
                    oi(container_indent),
                ).2);
                true
            },
            None => {
                match container_indent {
                    Some(minimum_indent) => {
                        let (indent_bytes, indent_columns) = leading_indent(
                            self.buffer.as_slice(),
                        );
                        if indent_columns < minimum_indent && indent_bytes < self.buffer.len() {
                            self.state = ParserState::Normal;
                            assert(actions_view(results@) =~= acts + seq![]);
                            return true;
                        }
                    },
                    None => {},
                }
                if could_be_control_line(self.buffer.as_slice(), Some(marker), container_indent) {
                    assert(actions_view(results@) =~= acts + seq![]);
                    return false;
                }
                let n = self.buffer.len();
                if n > 0 {
                    let all = self.split_front(n);
                    assert(all@ =~= m.buffer);
                    emit(results, EmulatorAction::Text(string_of(all.as_slice())));
                    self.at_line_start = false;
                    assert(self@.buffer =~= Seq::<char>::empty());
                }
                assert(actions_view(results@) =~= acts + step_fence(
                    m,
                    marker,
                    fence_len as int,
                    oi(container_indent),
                ).2);
                false
            },
        }
    }

    fn step_normal(&mut self, results: &mut Vec<EmulatorAction>) -> (cont: bool)
        requires
            model_wf(old(self)@),
            old(self)@.state == StateModel::Normal,
        ensures
            model_wf(final(self)@),
            cont == step_normal(old(self)@).0,
            final(self)@ == step_normal(old(self)@).1,
            actions_view(final(results)@) == actions_view(old(results)@) + step_normal(
                old(self)@,
            ).2,
            cont ==> 0 <= measure(final(self)@) < measure(old(self)@),
    {
        if !self.at_line_start {
            return self.step_mid_line(results);
        }
        match find_char(self.buffer.as_slice(), '\n') {
            Some(e) => self.step_normal_line(results, e),
            None => self.step_normal_partial(results),
        }
    }

    #[verifier::spinoff_prover]
    fn step_normal_line(&mut self, results: &mut Vec<EmulatorAction>, e: usize) -> (cont: bool)
        requires
            model_wf(old(self)@),
            old(self)@.state == StateModel::Normal,
            e < old(self)@.buffer.len(),
            old(self)@.buffer[e as int] == '\n',
        ensures
            model_wf(final(self)@),
            cont == step_normal_line(old(self)@, e as int).0,
            final(self)@ == step_normal_line(old(self)@, e as int).1,
            actions_view(final(results)@) == actions_view(old(results)@) + step_normal_line(
                old(self)@,
                e as int,
            ).2,
            cont ==> 0 <= measure(final(self)@) < measure(old(self)@),
    {
        let ghost m = self@;
        proof {
            lemma_normal_line_progress(m, e as int);
        }
        let line_with_newline = self.split_front(e + 1);
        let line = slice_subrange(line_with_newline.as_slice(), 0, e);
        assert(line@ =~= m.buffer.take(e as int));
        self.at_line_start = true;
        if self.code_mode_enabled {
            self.update_list_context(line, true);
            return self.step_code_line(results, line, &line_with_newline);
        }
        self.emit_line(results, line, &line_with_newline);
        true
    }

    /// Emits the actions of a complete ordinary line (see `line_actions`).
    fn emit_line(
        &self,
        results: &mut Vec<EmulatorAction>,
        line: &[char],
        line_with_newline: &Vec<char>,
    )
        ensures
            actions_view(final(results)@) == actions_view(old(results)@) + line_actions(
                line@,
                line_with_newline@,
            ),
    {
        let ghost acts = actions_view(results@);
        if line.len() > 0 && line[0] == '$' {
            self.emit_command(line, results);
        } else {
            emit(results, EmulatorAction::Text(string_of(line_with_newline.as_slice())));
            assert(actions_view(results@) =~= acts + line_actions(line@, line_with_newline@));
        }
    }

    fn step_code_line(
        &mut self,
        results: &mut Vec<EmulatorAction>,
        line: &[char],
        line_with_newline: &Vec<char>,
    ) -> (cont: bool)
        requires
            model_wf(old(self)@),
            old(self)@.code_mode_enabled,
            fits(line@.len() as int),
        ensures
            model_wf(final(self)@),
            cont == step_code_line(old(self)@, line@, line_with_newline@).0,
            final(self)@ == step_code_line(old(self)@, line@, line_with_newline@).1,
            actions_view(final(results)@) == actions_view(old(results)@) + step_code_line(
                old(self)@,
                line@,
                line_with_newline@,
            ).2,
    {
        match parse_fence_in_container(line, self.list_container_indent) {
            Some(fence) => self.open_fence(results, fence, line_with_newline),
            None => {
                self.emit_line(results, line, line_with_newline);
                true
            },
        }
    }

    fn open_fence(
        &mut self,
        results: &mut Vec<EmulatorAction>,
        fence: Fence,
        line_with_newline: &Vec<char>,
    ) -> (cont: bool)
        requires
            model_wf(old(self)@),
            old(self)@.code_mode_enabled,
            match fence.container_indent {
                Some(c) => c <= 20,
                None => true,
            },
        ensures
            model_wf(final(self)@),
            cont == step_open_fence(old(self)@, fence@, line_with_newline@).0,
            final(self)@ == step_open_fence(old(self)@, fence@, line_with_newline@).1,
            actions_view(final(results)@) == actions_view(old(results)@) + step_open_fence(
                old(self)@,
                fence@,
                line_with_newline@,
            ).2,
    {
        let ghost acts = actions_view(results@);
        if fence.container_indent.is_none() && fence.marker == '`' && is_execute_tag(
            fence.info.as_slice(),
        ) {
            self.state = ParserState::InExecuteBlock { fence_len: fence.len };
            assert(actions_view(results@) =~= acts + seq![]);
            return true;
        }
        emit(results, EmulatorAction::Text(string_of(line_with_newline.as_slice())));
        self.state = ParserState::InMarkdownFence {
            marker: fence.marker,
            fence_len: fence.len,
            container_indent: fence.container_indent,
        };
        assert(actions_view(results@) =~= acts + seq![
            ActionModel::Text(line_with_newline@),
        ]);
        true
    }


    #[verifier::spinoff_prover]
    fn step_normal_partial(&mut self, results: &mut Vec<EmulatorAction>) -> (cont: bool)
        requires
            model_wf(old(self)@),
            old(self)@.state == StateModel::Normal,
        ensures
            model_wf(final(self)@),
            cont == step_normal_partial(old(self)@).0,
            final(self)@ == step_normal_partial(old(self)@).1,
            actions_view(final(results)@) == actions_view(old(results)@) + step_normal_partial(
                old(self)@,
            ).2,
            cont ==> 0 <= measure(final(self)@) < measure(old(self)@),
    {
        let ghost m = self@;
        let ghost acts = actions_view(results@);
        if self.code_mode_enabled {
            let line = copy_range(self.buffer.as_slice(), 0, self.buffer.len());
            assert(line@ =~= m.buffer);
            self.update_list_context(line.as_slice(), false);
        }
        if self.buffer.len() > 0 && self.buffer[0] == '$' {
            self.state = ParserState::InCommand;
            assert(actions_view(results@) =~= acts + seq![]);
            return true;
        }
        if could_be_control_line(self.buffer.as_slice(), None, None) {
            assert(actions_view(results@) =~= acts + seq![]);
            return false;
        }
        let n = self.buffer.len();
        if n > 0 {
            let all = self.split_front(n);
            assert(all@ =~= m.buffer);
            emit(results, EmulatorAction::Text(string_of(all.as_slice())));
            self.at_line_start = false;
            assert(self@.buffer =~= Seq::<char>::empty());
        }
        assert(actions_view(results@) =~= acts + step_normal_partial(m).2);
        false
    }

    fn step(&mut self, results: &mut Vec<EmulatorAction>) -> (cont: bool)
        requires
            model_wf(old(self)@),
        ensures
            model_wf(final(self)@),
            cont == step(old(self)@).0,
            final(self)@ == step(old(self)@).1,
            actions_view(final(results)@) == actions_view(old(results)@) + step(old(self)@).2,
            cont ==> 0 <= measure(final(self)@) < measure(old(self)@),
    {
        reveal(step);
        match self.state {
            ParserState::InCommand => self.step_command(results),
            ParserState::InExecuteBlock { fence_len } => self.step_execute(results, fence_len),
            ParserState::InMarkdownFence { marker, fence_len, container_indent } => self.step_fence(
                results,
                marker,
                fence_len,
                container_indent,
            ),
            ParserState::Normal => self.step_normal(results),
        }
    }

    /// Feeds the next chunk of model output; returns the actions that the
    /// text seen so far settles.
    #[verifier::spinoff_prover]
    pub fn process_chunk(&mut self, chunk: &str) -> (results: Vec<EmulatorAction>)
        requires
            old(self).wf(),
            fits((old(self)@.buffer.len() + chunk@.len()) as int),
        ensures
            final(self).wf(),
            (final(self)@, actions_view(results@)) == run(with_input(old(self)@, chunk@)),
    {
        let mut incoming = chars_of(chunk);
        self.buffer.append(&mut incoming);
        let ghost start = self@;
        assert(start == with_input(old(self)@, chunk@));
        let mut results: Vec<EmulatorAction> = Vec::new();
        assert(actions_view(results@) =~= Seq::<ActionModel>::empty());
        loop
            invariant_except_break
                run(self@).0 == run(start).0,
                actions_view(results@) + run(self@).1 == run(start).1,
            invariant
                model_wf(self@),
            ensures
                model_wf(self@),
                (self@, actions_view(results@)) == run(start),
            decreases measure(self@),
        {
            let ghost before = self@;
            let ghost acts = actions_view(results@);
            let cont = self.step(&mut results);
            if !cont {
                assert(run(before) == (step(before).1, step(before).2));
                assert(acts + step(before).2 == run(start).1);
                break;
            }
            assert(run(before).1 == step(before).2 + run(self@).1);
            assert(acts + run(before).1 =~= actions_view(results@) + run(self@).1);
        }
        results
    }

    /// End of stream: settles whatever is held back.
    pub fn flush(&mut self) -> (results: Vec<EmulatorAction>)
        requires
            old(self).wf(),
        ensures
            final(self).wf(),
            (final(self)@, actions_view(results@)) == spec_flush(old(self)@),
    {
        let ghost m = self@;
        let mut results: Vec<EmulatorAction> = Vec::new();
        assert(actions_view(results@) =~= Seq::<ActionModel>::empty());
        let n = self.buffer.len();
        if n == 0 {
            return results;
        }
        match self.state {
            ParserState::InCommand => {
                let (a, b) = trim_range(self.buffer.as_slice());
                let command_line = slice_subrange(self.buffer.as_slice(), a, b);
                if command_line.len() > 0 && command_line[0] == '$' {
                    self.emit_command(command_line, &mut results);
                } else if command_line.len() > 0 {
                    emit(&mut results, EmulatorAction::Text(string_of(self.buffer.as_slice())));
                }
            },
            ParserState::InExecuteBlock { fence_len } => {
                let code_end = match closing_fence_range(
                    self.buffer.as_slice(),
                    '`',
                    fence_len,
                    None,
                    true,
                ) {
                    Some((closing_start, _)) => if closing_start >= 1 && self.buffer[closing_start
                        - 1] == '\n' {
                        closing_start - 1
                    } else {
                        closing_start
                    },
                    None => n,
                };
                let code_region = slice_subrange(self.buffer.as_slice(), 0, code_end);
                let (a, b) = trim_range(code_region);
                if a < b {
                    let code = slice_subrange(code_region, a, b);
                    emit(&mut results, EmulatorAction::ExecuteCode(string_of(code)));
                }
            },
            _ => {
                emit(&mut results, EmulatorAction::Text(string_of(self.buffer.as_slice())));
            },
        }
        let _held = self.split_front(n);
        self.state = ParserState::Normal;
        self.at_line_start = true;
        assert(self@.buffer =~= Seq::<char>::empty());
        assert(actions_view(results@) =~= spec_flush(m).1);
        results
    }
}

// ---------------------------------------------------------------------------
// Prompt section and tool requests
// ---------------------------------------------------------------------------

/// The tool that runs a shell command.
pub const SHELL_TOOL: &'static str = "developer__shell";

/// The tool that executes TypeScript code.
pub const CODE_EXECUTION_TOOL: &'static str = "code_execution__execute_typescript";

/// How code mode is explained to the model; it names the same fence info
/// string that the parser executes.
pub const EXECUTE_TYPESCRIPT_GUIDE: &'static str = "\n\n# Running Code\n\nYou can call tools by writing code in a ```execute_typescript block. The code runs immediately \u{2014} do not explain it, just run it.\n\nExample \u{2014} counting files in /tmp:\n\n```execute_typescript\nasync function run() {\n  const result = await Developer.shell({ command: \"ls -1 /tmp | wc -l\" });\n  return result;\n}\n```\n\nRules:\n- Code MUST define async function run() and return a result\n- All function calls are async \u{2014} use await\n- Use ```execute_typescript for tool calls, $ for simple shell one-liners\n\nAvailable functions:\n\n";

/// The tool section of the prompt for emulated tool calling.
pub fn build_emulator_tool_description(tools: &[ToolInfo], code_mode_enabled: bool) -> (r: String)
    ensures
        r@ == spec_tool_description(
            tools_view(tools@),
            code_mode_enabled,
            EXECUTE_TYPESCRIPT_GUIDE@,
        ),
{
    tool_description(tools, code_mode_enabled, EXECUTE_TYPESCRIPT_GUIDE)
}

/// A tool call with one string argument.
pub struct ToolCall {
    pub tool_name: String,
    pub argument_name: String,
    pub argument_value: String,
}

/// What an assistant message holds: text, or a tool request.
pub enum MessageBody {
    Text(String),
    ToolRequest(ToolCall),
}

/// The assistant message an action turns into, under the id of the message
/// being streamed.
pub struct EmulatorMessage {
    pub id: String,
    pub body: MessageBody,
}

pub enum BodyModel {
    Text(Seq<char>),
    ToolRequest { tool_name: Seq<char>, argument_name: Seq<char>, argument_value: Seq<char> },
}

pub struct MessageModel {
    pub id: Seq<char>,
    pub body: BodyModel,
}

impl View for MessageBody {
    type V = BodyModel;

    open spec fn view(&self) -> BodyModel {
        match self {
            MessageBody::Text(t) => BodyModel::Text(t@),
            MessageBody::ToolRequest(c) => BodyModel::ToolRequest {
                tool_name: c.tool_name@,
                argument_name: c.argument_name@,
                argument_value: c.argument_value@,
            },
        }
    }
}

impl View for EmulatorMessage {
    type V = MessageModel;

    open spec fn view(&self) -> MessageModel {
        MessageModel { id: self.id@, body: self.body@ }
    }
}

/// Whether `pattern` occurs in `s`.
pub open spec fn contains_seq(s: Seq<char>, pattern: Seq<char>) -> bool {
    exists|i: int|
        0 <= i && i + pattern.len() <= s.len() && #[trigger] s.subrange(i, i + pattern.len())
            == pattern
}

/// Code as the code-execution tool runs it: code that defines
/// `async function run()` as it is, anything else as the body of one.
pub open spec fn wrapped_code(code: Seq<char>) -> Seq<char> {
    if contains_seq(code, "async function run()"@) {
        code
    } else {
        "async function run() {\n"@ + code + "\n}"@
    }
}

/// What the message for `action` holds, and whether it is a tool request.
pub open spec fn spec_body_for_action(action: ActionModel) -> (BodyModel, bool) {
    match action {
        ActionModel::Text(t) => (BodyModel::Text(t), false),
        ActionModel::ShellCommand(c) => (
            BodyModel::ToolRequest {
                tool_name: SHELL_TOOL@,
                argument_name: "command"@,
                argument_value: c,
            },
            true,
        ),
        ActionModel::ExecuteCode(c) => (
            BodyModel::ToolRequest {
                tool_name: CODE_EXECUTION_TOOL@,
                argument_name: "code"@,
                argument_value: wrapped_code(c),
            },
            true,
        ),
    }
}

/// The message for `action` under `message_id`, and whether it is a tool
/// request.
pub open spec fn spec_message_for_action(action: ActionModel, message_id: Seq<char>) -> (
    MessageModel,
    bool,
) {
    (
        MessageModel { id: message_id, body: spec_body_for_action(action).0 },
        spec_body_for_action(action).1,
    )
}

fn contains_pattern(s: &[char], pattern: &[char]) -> (r: bool)
    ensures
        r == contains_seq(s@, pattern@),
{
    if pattern.len() > s.len() {
        assert(!contains_seq(s@, pattern@));
        return false;
    }
    let last = s.len() - pattern.len();
    let mut i: usize = 0;
    loop
        invariant
            last + pattern@.len() == s@.len(),
            s@.len() <= usize::MAX,
            i <= last,
            forall|k: int|
                0 <= k < i ==> #[trigger] s@.subrange(k, k + pattern@.len()) != pattern@,
        ensures
            forall|k: int|
                0 <= k <= last ==> #[trigger] s@.subrange(k, k + pattern@.len()) != pattern@,
        decreases last - i,
    {
        let mut j: usize = 0;
        let mut matched = true;
        while j < pattern.len()
            invariant
                i <= last,
                last + pattern@.len() == s@.len(),
                s@.len() <= usize::MAX,
                j <= pattern@.len(),
                matched ==> forall|t: int| 0 <= t < j ==> s@[i + t] == pattern@[t],
                !matched ==> s@.subrange(i as int, i + pattern@.len()) != pattern@,
            decreases pattern@.len() - j,
        {
            if matched && s[i + j] != pattern[j] {
                assert(s@.subrange(i as int, i + pattern@.len())[j as int] != pattern@[j as int]);
                matched = false;
            }
            j = j + 1;
        }
        if matched {
            assert(s@.subrange(i as int, i + pattern@.len()) =~= pattern@);
            return true;
        }
        if i == last {
            break;
        }
        i = i + 1;
    }
    assert(!contains_seq(s@, pattern@)) by {
        if contains_seq(s@, pattern@) {
            let k = choose|k: int|
                0 <= k && k + pattern@.len() <= s@.len() && #[trigger] s@.subrange(
                    k,
                    k + pattern@.len(),
                ) == pattern@;
            assert(s@.subrange(k, k + pattern@.len()) != pattern@);
        }
    }
    false
}

/// The code as the code-execution tool runs it (see `wrapped_code`).
pub fn wrap_code(code: &String) -> (r: String)
    ensures
        r@ == wrapped_code(code@),
{
    let chars = chars_of(code.as_str());
    let pattern = chars_of("async function run()");
    if contains_pattern(chars.as_slice(), pattern.as_slice()) {
        return string_of(chars.as_slice());
    }
    let mut out = chars_of("async function run() {\n");
    let mut body = chars_of(code.as_str());
    let mut close = chars_of("\n}");
    let ghost opening = out@;
    out.append(&mut body);
    out.append(&mut close);
    assert(out@ =~= opening + code@ + "\n}"@);
    string_of(out.as_slice())
}

/// The message for an action, under `message_id`, and whether it is a tool
/// request: text stays text; a command becomes a shell tool request with a
/// `command` argument; code becomes a code-execution tool request with a
/// `code` argument.
pub fn message_for_emulator_action(action: &EmulatorAction, message_id: &str) -> (r: (
    EmulatorMessage,
    bool,
))
    ensures
        (r.0@, r.1) == spec_message_for_action(action@, message_id@),
{
    let id = string_of(chars_of(message_id).as_slice());
    match action {
        EmulatorAction::Text(text) => (
            EmulatorMessage { id, body: MessageBody::Text(string_of(chars_of(text.as_str()).as_slice())) },
            false,
        ),
        EmulatorAction::ShellCommand(command) => (
            EmulatorMessage {
                id,
                body: MessageBody::ToolRequest(
                    ToolCall {
                        tool_name: string_of(chars_of(SHELL_TOOL).as_slice()),
                        argument_name: string_of(chars_of("command").as_slice()),
                        argument_value: string_of(chars_of(command.as_str()).as_slice()),
                    },
                ),
            },
            true,
        ),
        EmulatorAction::ExecuteCode(code) => (
            EmulatorMessage {
                id,
                body: MessageBody::ToolRequest(
                    ToolCall {
                        tool_name: string_of(chars_of(CODE_EXECUTION_TOOL).as_slice()),
                        argument_name: string_of(chars_of("code").as_slice()),
                        argument_value: wrap_code(code),
                    },
                ),
            },
            true,
        ),
    }
}

} // verus!
