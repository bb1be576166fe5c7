//! Tool call emulation for models without native tool-calling support: the
//! prompt section, and the decisions a generation turn takes as pieces of
//! text are generated, actions are sent and generation ends.
//!
//! Detection is text based, so a line that starts with `$` in explanatory
//! text is taken as a command, and an execute fence quoted in prose is
//! executed; a `$` in the middle of a line never is.

use vstd::prelude::*;
use crate::text::{chars_of, string_of};
use crate::tool_description::{ToolInfo, spec_tool_description, tool_description, tools_view};
use crate::text::fits;
use crate::tool_emulation::{
    EmulatorAction, EmulatorMessage, ParserModel, StreamingEmulatorParser, actions_view, initial,
    message_for_emulator_action, run, spec_flush, spec_message_for_action, with_input,
};

verus! {

/// How code mode is explained to the model by this backend.
pub const EXECUTE_BLOCK_GUIDE: &'static str = "\n\n# Running Code\n\nYou can call tools by writing code in a ```execute block. The code runs immediately \u{2014} do not explain it, just run it.\n\nExample \u{2014} counting files in /tmp:\n\n```execute_typescript\nasync function run() {\n  const result = await Developer.shell({ command: \"ls -1 /tmp | wc -l\" });\n  return result;\n}\n```\n\nRules:\n- Code MUST define async function run() and return a result\n- All function calls are async \u{2014} use await\n- Use ```execute for tool calls, $ for simple shell one-liners\n\nAvailable functions:\n\n";

/// The tool section of the prompt for emulated tool calling.
pub fn build_emulator_tool_description(tools: &[ToolInfo], code_mode_enabled: bool) -> (r: String)
    ensures
        r@ == spec_tool_description(tools_view(tools@), code_mode_enabled, EXECUTE_BLOCK_GUIDE@),
{
    tool_description(tools, code_mode_enabled, EXECUTE_BLOCK_GUIDE)
}

/// Whether the generation loop goes on after a piece.
pub enum TokenAction {
    Continue,
    Stop,
}

pub open spec fn ends_with(s: Seq<char>, suffix: Seq<char>) -> bool {
    suffix.len() <= s.len() && s.skip(s.len() - suffix.len()) == suffix
}

pub open spec fn ends_with_some(s: Seq<char>, stops: Seq<String>) -> bool {
    exists|k: int| 0 <= k < stops.len() && ends_with(s, #[trigger] stops[k]@)
}

fn ends_with_chars(s: &[char], suffix: &[char]) -> (r: bool)
    ensures
        r == ends_with(s@, suffix@),
{
    if suffix.len() > s.len() {
        return false;
    }
    let offset = s.len() - suffix.len();
    let mut i: usize = 0;
    while i < suffix.len()
        invariant
            offset + suffix@.len() == s@.len(),
            s@.len() <= usize::MAX,
            i <= suffix@.len(),
            forall|j: int| 0 <= j < i ==> s@[offset + j] == suffix@[j],
        decreases suffix@.len() - i,
    {
        if s[offset + i] != suffix[i] {
            assert(s@.skip(offset as int)[i as int] != suffix@[i as int]);
            return false;
        }
        i = i + 1;
    }
    assert(s@.skip(offset as int) =~= suffix@);
    true
}

/// Whether `text` ends with one of the stop strings.
fn ends_with_any_stop(text: &[char], stops: &[String]) -> (r: bool)
    ensures
        r == ends_with_some(text@, stops@),
{
    let mut k: usize = 0;
    while k < stops.len()
        invariant
            k <= stops@.len(),
            forall|j: int| 0 <= j < k ==> !ends_with(text@, #[trigger] stops@[j]@),
        decreases stops@.len() - k,
    {
        let stop = chars_of(stops[k].as_str());
        if ends_with_chars(text, stop.as_slice()) {
            assert(ends_with(text@, stops@[k as int]@));
            return true;
        }
        k = k + 1;
    }
    false
}

/// The text still to parse once generation ends: nothing when a stop
/// string ended the turn; otherwise what the stop-suffix trimmer released
/// from the last filtered content, followed, unless that held a stop
/// string, by what the trimmer still held back.
pub open spec fn tail_text(
    stop_string_emitted: bool,
    released: Seq<char>,
    stop_seen: bool,
    held: Seq<char>,
) -> Seq<char> {
    if stop_string_emitted {
        Seq::empty()
    } else if stop_seen {
        released
    } else {
        released + held
    }
}

fn final_content(stop_string_emitted: bool, released: &str, stop_seen: bool, held: &str) -> (r:
    String)
    ensures
        r@ == tail_text(stop_string_emitted, released@, stop_seen, held@),
{
    if stop_string_emitted {
        return String::new();
    }
    let mut out = chars_of(released);
    if !stop_seen {
        let mut rest = chars_of(held);
        out.append(&mut rest);
    }
    string_of(out.as_slice())
}

/// One generation turn with emulated tool calling: the parser, the text
/// generated so far, and what has happened to the actions sent.
pub struct EmulatedTurn {
    message_id: String,
    parser: StreamingEmulatorParser,
    generated_text: Vec<char>,
    tool_call_emitted: bool,
    send_failed: bool,
    stop_string_emitted: bool,
}

pub struct TurnModel {
    pub message_id: Seq<char>,
    pub parser: ParserModel,
    pub generated: Seq<char>,
    pub tool_call_emitted: bool,
    pub send_failed: bool,
    pub stop_string_emitted: bool,
}

impl View for EmulatedTurn {
    type V = TurnModel;

    closed spec fn view(&self) -> TurnModel {
        TurnModel {
            message_id: self.message_id@,
            parser: self.parser@,
            generated: self.generated_text@,
            tool_call_emitted: self.tool_call_emitted,
            send_failed: self.send_failed,
            stop_string_emitted: self.stop_string_emitted,
        }
    }
}

/// Whether generation stops after a piece: once an action could not be
/// sent, once a tool call went out, or once a stop string was seen (by the
/// stop-suffix trimmer, or at the end of the generated text).
pub open spec fn stops_after_piece(t: TurnModel, stop_seen: bool, stops: Seq<String>) -> bool {
    t.send_failed || t.tool_call_emitted || stop_seen || ends_with_some(t.generated, stops)
}

/// Whether a stop string, rather than a failure or a tool call, ends the
/// turn after a piece.
pub open spec fn stop_string_ends(t: TurnModel, stop_seen: bool, stops: Seq<String>) -> bool {
    !t.send_failed && !t.tool_call_emitted && (stop_seen || ends_with_some(t.generated, stops))
}

impl EmulatedTurn {
    pub closed spec fn wf(&self) -> bool {
        self.parser.wf()
    }

    /// A turn that streams the message `message_id`.
    pub fn new(code_mode_enabled: bool, message_id: &str) -> (r: Self)
        ensures
            r.wf(),
            r@ == (TurnModel {
                message_id: message_id@,
                parser: initial(code_mode_enabled),
                generated: Seq::empty(),
                tool_call_emitted: false,
                send_failed: false,
                stop_string_emitted: false,
            }),
    {
        EmulatedTurn {
            message_id: string_of(chars_of(message_id).as_slice()),
            parser: StreamingEmulatorParser::new(code_mode_enabled),
            generated_text: Vec::new(),
            tool_call_emitted: false,
            send_failed: false,
            stop_string_emitted: false,
        }
    }

    /// Whether `content` can be handed to the parser (see
    /// `StreamingEmulatorParser::can_accept`).
    pub fn can_accept(&self, content: &str) -> (r: bool)
        ensures
            r == fits((self@.parser.buffer.len() + content@.len()) as int),
    {
        self.parser.can_accept(content)
    }

    pub fn tool_call_emitted(&self) -> (r: bool)
        ensures
            r == self@.tool_call_emitted,
    {
        self.tool_call_emitted
    }

    pub fn send_failed(&self) -> (r: bool)
        ensures
            r == self@.send_failed,
    {
        self.send_failed
    }

    pub fn stop_string_emitted(&self) -> (r: bool)
        ensures
            r == self@.stop_string_emitted,
    {
        self.stop_string_emitted
    }

    /// A generated piece: it is added to the generated text, and the
    /// content the output filters released for it is parsed; the actions
    /// found are returned, to be sent in order.
    pub fn read_piece(&mut self, piece: &str, content: &str) -> (actions: Vec<EmulatorAction>)
        requires
            old(self).wf(),
            fits((old(self)@.parser.buffer.len() + content@.len()) as int),
        ensures
            final(self).wf(),
            final(self)@.generated == old(self)@.generated + piece@,
            (final(self)@.parser, actions_view(actions@)) == run(
                with_input(old(self)@.parser, content@),
            ),
            final(self)@.tool_call_emitted == old(self)@.tool_call_emitted,
            final(self)@.send_failed == old(self)@.send_failed,
            final(self)@.stop_string_emitted == old(self)@.stop_string_emitted,
    {
        let mut piece_chars = chars_of(piece);
        self.generated_text.append(&mut piece_chars);
        self.parser.process_chunk(content)
    }

    /// The message to send for `action`, under the id of the streamed
    /// message, and whether it is a tool request.
    pub fn message(&self, action: &EmulatorAction) -> (r: (EmulatorMessage, bool))
        ensures
            (r.0@, r.1) == spec_message_for_action(action@, self@.message_id),
    {
        message_for_emulator_action(action, self.message_id.as_str())
    }

    /// The outcome of sending a message (`is_tool` when it was a tool
    /// request): a tool call that went out ends the turn, and a failed send
    /// stops all sending. Returns whether to go on sending the remaining
    /// actions.
    pub fn record_send(&mut self, is_tool: bool, sent: bool) -> (go_on: bool)
        ensures
            final(self).wf() == old(self).wf(),
            go_on == sent,
            final(self)@ == (if sent {
                TurnModel { tool_call_emitted: old(self)@.tool_call_emitted || is_tool, ..old(self)@ }
            } else {
                TurnModel { send_failed: true, ..old(self)@ }
            }),
    {
        if !sent {
            self.send_failed = true;
            return false;
        }
        if is_tool {
            self.tool_call_emitted = true;
        }
        true
    }

    /// Whether the thinking collected once generation has ended is sent:
    /// only when it is not empty and no send has failed.
    pub fn sends_thinking(&self, thinking: &str) -> (r: bool)
        ensures
            r == (!self@.send_failed && thinking@.len() > 0),
    {
        !self.send_failed && chars_of(thinking).len() > 0
    }

    /// Once the actions of a piece were sent: whether generation goes on,
    /// given whether the stop-suffix trimmer saw a stop string in the piece
    /// and the stop strings of the chat template.
    pub fn after_piece(&mut self, stop_seen: bool, stops: &[String]) -> (r: TokenAction)
        ensures
            final(self).wf() == old(self).wf(),
            r is Stop <==> stops_after_piece(old(self)@, stop_seen, stops@),
            final(self)@ == (TurnModel {
                stop_string_emitted: old(self)@.stop_string_emitted || stop_string_ends(
                    old(self)@,
                    stop_seen,
                    stops@,
                ),
                ..old(self)@
            }),
    {
        if self.send_failed || self.tool_call_emitted {
            return TokenAction::Stop;
        }
        if stop_seen || ends_with_any_stop(self.generated_text.as_slice(), stops) {
            self.stop_string_emitted = true;
            return TokenAction::Stop;
        }
        TokenAction::Continue
    }

    /// Once generation has ended: the actions in the text that is still to
    /// be parsed (see `final_content`: what the stop-suffix trimmer released
    /// from the last filtered content, and what it still held back).
    /// Nothing is parsed after a failed send.
    pub fn tail_actions(&mut self, released: &str, stop_seen: bool, held: &str) -> (actions: Vec<
        EmulatorAction,
    >)
        requires
            old(self).wf(),
            fits((old(self)@.parser.buffer.len() + released@.len() + held@.len()) as int),
        ensures
            final(self).wf(),
            old(self)@.send_failed ==> final(self)@ == old(self)@ && actions@.len() == 0,
            !old(self)@.send_failed ==> (final(self)@.parser, actions_view(actions@)) == run(
                with_input(
                    old(self)@.parser,
                    tail_text(old(self)@.stop_string_emitted, released@, stop_seen, held@),
                ),
            ) && final(self)@ == (TurnModel { parser: final(self)@.parser, ..old(self)@ }),
    {
        if self.send_failed {
            return Vec::new();
        }
        let content = final_content(self.stop_string_emitted, released, stop_seen, held);
        self.parser.process_chunk(content.as_str())
    }

    /// The end of the stream: whatever the parser still holds back, unless
    /// a send failed.
    pub fn flush_actions(&mut self) -> (actions: Vec<EmulatorAction>)
        requires
            old(self).wf(),
        ensures
            final(self).wf(),
            old(self)@.send_failed ==> final(self)@ == old(self)@ && actions@.len() == 0,
            !old(self)@.send_failed ==> (final(self)@.parser, actions_view(actions@)) == spec_flush(
                old(self)@.parser,
            ) && final(self)@ == (TurnModel { parser: final(self)@.parser, ..old(self)@ }),
    {
        if self.send_failed {
            return Vec::new();
        }
        self.parser.flush()
    }
}

} // verus!
