//! Reading a whole stream of model output, chunk by chunk, from a fresh
//! parser: where the code it executes comes from, and what passes through
//! untouched however the output is cut.

use vstd::prelude::*;
use crate::text::{first_index, strip_cr, trim_by, pad, span, eq, sp_tab};
use crate::markdown::{
    lemma_first_index, spec_parse_direct_fence, spec_parse_fence_in_container,
    spec_parse_fence_marker,
};
use crate::tool_emulation::{
    ActionModel, ParserModel, StateModel, contains_seq, execute_tag, initial, measure, run,
    spec_flush, spec_update_list_container, step, step_normal_line, with_input,
};
use crate::laws::{
    all_ok, law_commands_start_lines, law_execution_needs_top_level_tag,
    law_step_progress, law_text_passes_through, lemma_command_actions, lemma_concat,
    lemma_execute_tag_is_plain, lemma_step_actions, lemma_texts_concat, lemma_texts_one,
    line_start_inv, no_dollar_after_newline, no_execute, only_text, reads_dollar_line, texts,
};

verus! {

/// All the chunks of a stream, one after the other.
pub open spec fn concat_chunks(chunks: Seq<Seq<char>>) -> Seq<char>
    decreases chunks.len(),
{
    if chunks.len() == 0 {
        Seq::empty()
    } else {
        concat_chunks(chunks.drop_last()) + chunks.last()
    }
}

/// Feeding `chunks` to the parser one after the other, as `process_chunk`
/// does: the parser afterwards and every action produced, in order.
pub open spec fn read_chunks(m: ParserModel, chunks: Seq<Seq<char>>) -> (ParserModel, Seq<ActionModel>)
    decreases chunks.len(),
{
    if chunks.len() == 0 {
        (m, Seq::empty())
    } else {
        let before = read_chunks(m, chunks.drop_last());
        let r = run(with_input(before.0, chunks.last()));
        (r.0, before.1 + r.1)
    }
}

/// Position `p` of `s` starts a line.
pub open spec fn at_line_boundary(s: Seq<char>, p: int) -> bool {
    p == 0 || (0 < p <= s.len() && s[p - 1] == '\n')
}

/// A line that opens an execute block: a backtick fence indented at most
/// three columns from the start of the line (not after a list marker),
/// whose info string is exactly `execute_typescript`.
pub open spec fn execute_fence_line(line: Seq<char>) -> bool {
    match spec_parse_direct_fence(strip_cr(line), 0, 3, None) {
        Some(f) => f.marker == '`' && f.info == execute_tag(),
        None => false,
    }
}

/// The line of `s` from `i` up to the newline at `j` opens an execute block.
pub open spec fn opens_execute_block(s: Seq<char>, i: int, j: int) -> bool {
    &&& 0 <= i <= j < s.len()
    &&& s[j] == '\n'
    &&& at_line_boundary(s, i)
    &&& execute_fence_line(s.subrange(i, j))
}

/// The parser after reading `s` up to `p`: it holds the rest of `s`, knows
/// it is at a line start only at one, and is inside an execute block only
/// in code mode, after a line before `p` that opens one.
pub open spec fn reading_stream(m: ParserModel, s: Seq<char>, p: int) -> bool {
    &&& 0 <= p <= s.len()
    &&& m.buffer == s.skip(p)
    &&& m.at_line_start ==> at_line_boundary(s, p)
    &&& m.state is InExecuteBlock ==> m.code_mode_enabled && exists|i: int, j: int|
        j < p && #[trigger] opens_execute_block(s, i, j)
}

/// Output with no tool syntax: no line starts with `$`, and in code mode
/// `execute_typescript` occurs nowhere.
pub open spec fn no_tool_syntax(s: Seq<char>, code_mode_enabled: bool) -> bool {
    &&& (s.len() > 0 ==> s[0] != '$')
    &&& no_dollar_after_newline(s)
    &&& (code_mode_enabled ==> !contains_seq(s, execute_tag()))
}

/// A step consumes a prefix of what the parser holds, keeps the mode, and
/// is at a line start afterwards only at a line start or after a newline.
#[verifier::spinoff_prover]
proof fn lemma_step_consumes(m: ParserModel)
    ensures
        ({
            let st = step(m);
            let k = m.buffer.len() - st.1.buffer.len();
            &&& 0 <= k <= m.buffer.len()
            &&& st.1.buffer == m.buffer.skip(k)
            &&& st.1.code_mode_enabled == m.code_mode_enabled
            &&& st.1.at_line_start ==> (k == 0 && m.at_line_start) || (k > 0 && m.buffer[k - 1]
                == '\n')
        }),
{
    reveal(step);
    let b = m.buffer;
    lemma_first_index(b, '\n');
    assert(b.skip(0) =~= b);
    assert(b.skip(b.len() as int) =~= Seq::<char>::empty());
    if let StateModel::InExecuteBlock { fence_len } = m.state {
        crate::markdown::lemma_closing_fence_range_bounds(b, '`', fence_len, None, false, 0);
    }
}

/// Outside an execute block, a step executes nothing.
#[verifier::spinoff_prover]
proof fn lemma_no_execute_outside_block(m: ParserModel)
    requires
        !(m.state is InExecuteBlock),
    ensures
        no_execute(step(m).2),
{
    reveal(step);
    let b = m.buffer;
    lemma_first_index(b, '\n');
    if let Some(i) = first_index(b, '\n') {
        lemma_command_actions(b.take(i));
    }
}

/// A top-level fence found while tracking the list context is found at the
/// start of the line.
pub(crate) proof fn lemma_top_level_fence(line: Seq<char>, container: Option<int>)
    requires
        spec_parse_fence_in_container(line, container) is Some,
        spec_parse_fence_in_container(line, container)->0.container_indent is None,
    ensures
        spec_parse_direct_fence(strip_cr(line), 0, 3, None) == spec_parse_fence_in_container(
            line,
            container,
        ),
{
    reveal(spec_parse_fence_in_container);
}

/// The step that enters an execute block consumes one complete line, read
/// in code mode at a line start, that opens one.
#[verifier::spinoff_prover]
proof fn lemma_opening_line(m: ParserModel)
    requires
        !(m.state is InExecuteBlock),
        step(m).1.state is InExecuteBlock,
    ensures
        m.code_mode_enabled,
        m.at_line_start,
        first_index(m.buffer, '\n') is Some,
        0 <= first_index(m.buffer, '\n')->0 < m.buffer.len(),
        m.buffer[first_index(m.buffer, '\n')->0] == '\n',
        execute_fence_line(m.buffer.take(first_index(m.buffer, '\n')->0)),
        step(m).1.buffer == m.buffer.skip(first_index(m.buffer, '\n')->0 + 1),
{
    law_execution_needs_top_level_tag(m);
    let b = m.buffer;
    lemma_first_index(b, '\n');
    let e = first_index(b, '\n')->0;
    let line = b.take(e);
    let lists = spec_update_list_container(
        m.list_container_indent,
        m.empty_list_item_indent,
        line,
        true,
    );
    lemma_top_level_fence(line, lists.0);
    assert(step(m) == step_normal_line(m, e)) by {
        reveal(step);
    }
}

/// Trimmed text, when not empty, is a part of what was trimmed.
proof fn lemma_trim_within(x: Seq<char>, p: spec_fn(char) -> bool)
    requires
        trim_by(x, p).len() > 0,
    ensures
        0 <= span(x, p),
        span(x, p) + trim_by(x, p).len() <= x.len(),
        x.subrange(span(x, p), span(x, p) + trim_by(x, p).len()) == trim_by(x, p),
{
    crate::text::lemma_trim_by_props(x, p);
}

/// A fence's info string, when not empty, is a part of its line.
#[verifier::spinoff_prover]
proof fn lemma_info_within(rest: Seq<char>, container_indent: Option<int>) -> (off: int)
    requires
        spec_parse_fence_marker(rest, container_indent) is Some,
        spec_parse_fence_marker(rest, container_indent)->0.info.len() > 0,
    ensures
        0 <= off,
        off + spec_parse_fence_marker(rest, container_indent)->0.info.len() <= rest.len(),
        rest.subrange(off, off + spec_parse_fence_marker(rest, container_indent)->0.info.len())
            == spec_parse_fence_marker(rest, container_indent)->0.info,
{
    let marker = rest[0];
    let len = span(rest, eq(marker));
    let x = rest.skip(len);
    let info = spec_parse_fence_marker(rest, container_indent)->0.info;
    assert(info == trim_by(x, pad()));
    crate::text::lemma_span_props(rest, eq(marker));
    lemma_trim_within(x, pad());
    let a = span(x, pad());
    assert(rest.subrange(len + a, len + a + info.len()) =~= x.subrange(a, a + info.len()));
    len + a
}

/// An execute fence line holds the tag `execute_typescript`.
#[verifier::spinoff_prover]
proof fn lemma_execute_fence_line_holds_tag(line: Seq<char>)
    requires
        execute_fence_line(line),
    ensures
        contains_seq(line, execute_tag()),
{
    lemma_execute_tag_is_plain();
    let t = execute_tag();
    let l = strip_cr(line);
    let ib = crate::markdown::spec_leading_indent(l).0;
    crate::text::lemma_span_props(l, sp_tab());
    let rest = l.skip(ib);
    assert(spec_parse_fence_marker(rest, None)->0.info == t);
    let off = lemma_info_within(rest, None);
    assert(line.subrange(ib + off, ib + off + t.len()) =~= rest.subrange(off, off + t.len()));
}

/// What occurs in part of `s` occurs in `s`.
proof fn lemma_contains_in_part(s: Seq<char>, a: int, b: int, pattern: Seq<char>)
    requires
        0 <= a <= b <= s.len(),
        contains_seq(s.subrange(a, b), pattern),
    ensures
        contains_seq(s, pattern),
{
    let x = s.subrange(a, b);
    let i = choose|i: int|
        0 <= i && i + pattern.len() <= x.len() && #[trigger] x.subrange(i, i + pattern.len())
            == pattern;
    assert(s.subrange(a + i, a + i + pattern.len()) =~= x.subrange(i, i + pattern.len()));
}

/// What occurs in `s` occurs in `s` followed by more.
proof fn lemma_contains_in_longer(s: Seq<char>, c: Seq<char>, pattern: Seq<char>)
    requires
        contains_seq(s, pattern),
    ensures
        contains_seq(s + c, pattern),
{
    let i = choose|i: int|
        0 <= i && i + pattern.len() <= s.len() && #[trigger] s.subrange(i, i + pattern.len())
            == pattern;
    assert((s + c).subrange(i, i + pattern.len()) =~= s.subrange(i, i + pattern.len()));
}

/// An execute fence line of `s` is one of `s` followed by more.
proof fn lemma_opening_in_longer(s: Seq<char>, c: Seq<char>, i: int, j: int)
    requires
        opens_execute_block(s, i, j),
    ensures
        opens_execute_block(s + c, i, j),
{
    assert((s + c).subrange(i, j) =~= s.subrange(i, j));
}

/// New input leaves what was read as it was.
proof fn lemma_reading_extend(m: ParserModel, s: Seq<char>, p: int, c: Seq<char>)
    requires
        reading_stream(m, s, p),
    ensures
        reading_stream(with_input(m, c), s + c, p),
{
    assert(s.skip(p) + c =~= (s + c).skip(p));
    if m.state is InExecuteBlock {
        let (i, j) = choose|i: int, j: int| j < p && #[trigger] opens_execute_block(s, i, j);
        lemma_opening_in_longer(s, c, i, j);
    }
}

/// One step keeps `reading_stream`, and executes only after an execute
/// fence line of the stream, in code mode.
#[verifier::spinoff_prover]
proof fn lemma_step_stream(m: ParserModel, s: Seq<char>, p: int)
    requires
        reading_stream(m, s, p),
    ensures
        reading_stream(step(m).1, s, s.len() - step(m).1.buffer.len()),
        step(m).1.code_mode_enabled == m.code_mode_enabled,
        !no_execute(step(m).2) ==> m.code_mode_enabled && exists|i: int, j: int|
            #[trigger] opens_execute_block(s, i, j),
{
    let st = step(m);
    let b = m.buffer;
    lemma_step_consumes(m);
    let k = b.len() - st.1.buffer.len();
    let q = p + k;
    assert(b.skip(k) =~= s.skip(q));
    if st.1.at_line_start && k > 0 {
        assert(s[q - 1] == b[k - 1]);
    }
    if !(m.state is InExecuteBlock) {
        lemma_no_execute_outside_block(m);
        if st.1.state is InExecuteBlock {
            lemma_opening_line(m);
            let e = first_index(b, '\n')->0;
            assert(s.subrange(p, p + e) =~= b.take(e));
            assert(s[p + e] == b[e]);
            assert(opens_execute_block(s, p, p + e));
        }
    } else if st.1.state is InExecuteBlock {
        let (i, j) = choose|i: int, j: int| j < p && #[trigger] opens_execute_block(s, i, j);
        assert(j < q && opens_execute_block(s, i, j));
    }
}

/// Reading until more input is needed keeps `reading_stream`, and executes
/// only after an execute fence line of the stream, in code mode.
proof fn lemma_run_stream(m: ParserModel, s: Seq<char>, p: int)
    requires
        reading_stream(m, s, p),
    ensures
        reading_stream(run(m).0, s, s.len() - run(m).0.buffer.len()),
        run(m).0.code_mode_enabled == m.code_mode_enabled,
        !no_execute(run(m).1) ==> m.code_mode_enabled && exists|i: int, j: int|
            #[trigger] opens_execute_block(s, i, j),
    decreases measure(m),
{
    let st = step(m);
    lemma_step_stream(m, s, p);
    law_step_progress(m);
    if st.0 {
        lemma_run_stream(st.1, s, s.len() - st.1.buffer.len());
        lemma_concat(st.2, run(st.1).1);
    }
}

/// A fresh parser fed `chunks` keeps `reading_stream` over their
/// concatenation, and executes only after one of its execute fence lines,
/// in code mode.
proof fn lemma_read_chunks_stream(chunks: Seq<Seq<char>>, code_mode_enabled: bool)
    ensures
        ({
            let r = read_chunks(initial(code_mode_enabled), chunks);
            let s = concat_chunks(chunks);
            &&& reading_stream(r.0, s, s.len() - r.0.buffer.len())
            &&& r.0.code_mode_enabled == code_mode_enabled
            &&& !no_execute(r.1) ==> code_mode_enabled && exists|i: int, j: int|
                #[trigger] opens_execute_block(s, i, j)
        }),
    decreases chunks.len(),
{
    let s = concat_chunks(chunks);
    if chunks.len() == 0 {
        assert(s.skip(0) =~= Seq::<char>::empty());
    } else {
        let prev = chunks.drop_last();
        let c = chunks.last();
        lemma_read_chunks_stream(prev, code_mode_enabled);
        let before = read_chunks(initial(code_mode_enabled), prev);
        let sp = concat_chunks(prev);
        let p = sp.len() - before.0.buffer.len();
        lemma_reading_extend(before.0, sp, p, c);
        lemma_run_stream(with_input(before.0, c), s, p);
        let r = run(with_input(before.0, c));
        lemma_concat(before.1, r.1);
        if !no_execute(before.1) {
            let (i, j) = choose|i: int, j: int| #[trigger] opens_execute_block(sp, i, j);
            lemma_opening_in_longer(sp, c, i, j);
        }
    }
}

/// At the end of the stream, code is executed only from an execute block.
proof fn lemma_flush_executes_only_blocks(m: ParserModel)
    requires
        !(m.state is InExecuteBlock),
    ensures
        no_execute(spec_flush(m).1),
{
    if m.state is InCommand {
        lemma_command_actions(crate::text::trim(m.buffer));
    }
}

/// Over a whole stream, code is executed only in code mode and only after
/// the stream holds a complete line that opens a top-level backtick fence
/// tagged exactly `execute_typescript` (indented at most three columns,
/// not after a list marker), however the stream is cut into chunks and
/// including what flushing settles.
pub proof fn law_code_comes_from_execute_fence(chunks: Seq<Seq<char>>, code_mode_enabled: bool)
    ensures
        ({
            let r = read_chunks(initial(code_mode_enabled), chunks);
            let s = concat_chunks(chunks);
            !no_execute(r.1 + spec_flush(r.0).1) ==> code_mode_enabled && exists|i: int, j: int|
                #[trigger] opens_execute_block(s, i, j)
        }),
{
    lemma_read_chunks_stream(chunks, code_mode_enabled);
    let r = read_chunks(initial(code_mode_enabled), chunks);
    lemma_concat(r.1, spec_flush(r.0).1);
    if r.0.state is InExecuteBlock {
        let s = concat_chunks(chunks);
        let (i, j) = choose|i: int, j: int|
            j < s.len() - r.0.buffer.len() && #[trigger] opens_execute_block(s, i, j);
        assert(opens_execute_block(s, i, j));
    } else {
        lemma_flush_executes_only_blocks(r.0);
    }
}


/// A stream without tool syntax begins with a stream without it.
proof fn lemma_no_tool_syntax_prefix(s: Seq<char>, c: Seq<char>, code_mode_enabled: bool)
    requires
        no_tool_syntax(s + c, code_mode_enabled),
    ensures
        no_tool_syntax(s, code_mode_enabled),
{
    if s.len() > 0 {
        assert((s + c)[0] == s[0]);
    }
    assert forall|i: int| 1 <= i < s.len() && s[i - 1] == '\n' implies #[trigger] s[i] != '$' by {
        assert((s + c)[i - 1] == s[i - 1]);
        assert((s + c)[i] == s[i]);
    }
    if code_mode_enabled && contains_seq(s, execute_tag()) {
        lemma_contains_in_longer(s, c, execute_tag());
    }
}

/// What a step hands on followed by what it keeps is what it had: what it
/// hands on is the part of the stream it consumed.
proof fn lemma_handed_on(x: Seq<char>, b: Seq<char>, k: int, s: Seq<char>, p: int)
    requires
        0 <= k <= b.len(),
        x + b.skip(k) == b,
        0 <= p <= s.len(),
        b == s.skip(p),
    ensures
        x == s.subrange(p, p + k),
{
    assert(x.len() == k);
    assert forall|i: int| 0 <= i < k implies #[trigger] x[i] == s.subrange(p, p + k)[i] by {
        assert((x + b.skip(k))[i] == x[i]);
        assert(b[i] == s[p + i]);
    }
    assert(x =~= s.subrange(p, p + k));
}

/// On a stream without tool syntax, a step in the normal state or in a
/// Markdown fence stays in one of them and hands on as text exactly the
/// part of the stream it consumes.
#[verifier::spinoff_prover]
proof fn lemma_step_text(m: ParserModel, s: Seq<char>, p: int)
    requires
        reading_stream(m, s, p),
        m.state is Normal || m.state is InMarkdownFence,
        no_tool_syntax(s, m.code_mode_enabled),
    ensures
        ({
            let st = step(m);
            let q = s.len() - st.1.buffer.len();
            &&& reading_stream(st.1, s, q)
            &&& p <= q
            &&& st.1.state is Normal || st.1.state is InMarkdownFence
            &&& st.1.code_mode_enabled == m.code_mode_enabled
            &&& only_text(st.2)
            &&& all_ok(st.2)
            &&& texts(st.2) == s.subrange(p, q)
        }),
{
    let st = step(m);
    let b = m.buffer;
    lemma_step_stream(m, s, p);
    lemma_step_consumes(m);
    lemma_step_actions(m);
    let k = b.len() - st.1.buffer.len();
    if m.at_line_start && b.len() > 0 && b[0] == '$' {
        assert(b[0] == s[p]);
        if p > 0 {
            assert(s[p - 1] == '\n');
        }
        assert(false);
    }
    assert(!reads_dollar_line(m));
    if st.1.state is InExecuteBlock {
        lemma_opening_line(m);
        let e = first_index(b, '\n')->0;
        lemma_execute_fence_line_holds_tag(b.take(e));
        assert(s.subrange(p, p + e) =~= b.take(e));
        lemma_contains_in_part(s, p, p + e, execute_tag());
        assert(false);
    }
    assert(line_start_inv(m));
    law_commands_start_lines(m);
    law_text_passes_through(m);
    lemma_handed_on(texts(st.2), b, k, s, p);
}

/// On a stream without tool syntax, reading until more input is needed
/// stays in the normal state or a Markdown fence and hands on as text
/// exactly the part of the stream it consumes.
proof fn lemma_run_text(m: ParserModel, s: Seq<char>, p: int)
    requires
        reading_stream(m, s, p),
        m.state is Normal || m.state is InMarkdownFence,
        no_tool_syntax(s, m.code_mode_enabled),
    ensures
        ({
            let r = run(m);
            let q = s.len() - r.0.buffer.len();
            &&& reading_stream(r.0, s, q)
            &&& p <= q
            &&& r.0.state is Normal || r.0.state is InMarkdownFence
            &&& r.0.code_mode_enabled == m.code_mode_enabled
            &&& only_text(r.1)
            &&& all_ok(r.1)
            &&& texts(r.1) == s.subrange(p, q)
        }),
    decreases measure(m),
{
    let st = step(m);
    lemma_step_text(m, s, p);
    law_step_progress(m);
    if st.0 {
        let q1 = s.len() - st.1.buffer.len();
        lemma_run_text(st.1, s, q1);
        let r = run(st.1);
        let q2 = s.len() - r.0.buffer.len();
        lemma_concat(st.2, r.1);
        lemma_texts_concat(st.2, r.1);
        assert(s.subrange(p, q1) + s.subrange(q1, q2) =~= s.subrange(p, q2));
    }
}

/// A fresh parser fed a stream without tool syntax hands on as text
/// exactly the part of the stream it has consumed.
proof fn lemma_read_chunks_text(chunks: Seq<Seq<char>>, code_mode_enabled: bool)
    requires
        no_tool_syntax(concat_chunks(chunks), code_mode_enabled),
    ensures
        ({
            let r = read_chunks(initial(code_mode_enabled), chunks);
            let s = concat_chunks(chunks);
            let q = s.len() - r.0.buffer.len();
            &&& reading_stream(r.0, s, q)
            &&& r.0.state is Normal || r.0.state is InMarkdownFence
            &&& r.0.code_mode_enabled == code_mode_enabled
            &&& only_text(r.1)
            &&& all_ok(r.1)
            &&& texts(r.1) == s.take(q)
        }),
    decreases chunks.len(),
{
    let s = concat_chunks(chunks);
    if chunks.len() == 0 {
        assert(s.skip(0) =~= Seq::<char>::empty());
        assert(texts(Seq::<ActionModel>::empty()) =~= Seq::<char>::empty());
        assert(s.take(0) =~= Seq::<char>::empty());
    } else {
        let prev = chunks.drop_last();
        let c = chunks.last();
        let sp = concat_chunks(prev);
        lemma_no_tool_syntax_prefix(sp, c, code_mode_enabled);
        lemma_read_chunks_text(prev, code_mode_enabled);
        let before = read_chunks(initial(code_mode_enabled), prev);
        let p = sp.len() - before.0.buffer.len();
        lemma_reading_extend(before.0, sp, p, c);
        lemma_run_text(with_input(before.0, c), s, p);
        let r = run(with_input(before.0, c));
        let q = s.len() - r.0.buffer.len();
        lemma_concat(before.1, r.1);
        lemma_texts_concat(before.1, r.1);
        assert(sp.take(p) + s.subrange(p, q) =~= s.take(q));
    }
}

/// Output with no tool syntax (no line starting with `$`, and in code mode
/// no `execute_typescript` anywhere) passes through untouched however it
/// is cut into chunks: reading it and flushing yields only texts, none
/// empty, that together are exactly the output. Markdown fences and list
/// items make no difference.
pub proof fn law_text_passes_through_any_chunking(chunks: Seq<Seq<char>>, code_mode_enabled: bool)
    requires
        no_tool_syntax(concat_chunks(chunks), code_mode_enabled),
    ensures
        ({
            let r = read_chunks(initial(code_mode_enabled), chunks);
            let all = r.1 + spec_flush(r.0).1;
            &&& only_text(all)
            &&& all_ok(all)
            &&& texts(all) == concat_chunks(chunks)
        }),
{
    lemma_read_chunks_text(chunks, code_mode_enabled);
    let r = read_chunks(initial(code_mode_enabled), chunks);
    let s = concat_chunks(chunks);
    let q = s.len() - r.0.buffer.len();
    let f = spec_flush(r.0).1;
    if r.0.buffer.len() == 0 {
        assert(f =~= Seq::<ActionModel>::empty());
        assert(texts(f) =~= Seq::<char>::empty());
    } else {
        assert(f == seq![ActionModel::Text(r.0.buffer)]);
        lemma_texts_one(ActionModel::Text(r.0.buffer));
    }
    lemma_concat(r.1, f);
    lemma_texts_concat(r.1, f);
    assert(s.take(q) + s.skip(q) =~= s);
}

} // verus!
