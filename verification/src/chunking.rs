//! How reading depends on the way model output is cut into chunks: an
//! empty chunk does nothing, chunks that end at line ends are read as the
//! whole text, and without code mode any cut only splits a text in two.

use vstd::prelude::*;
use crate::text::{first_index, trim, ws};
use crate::markdown::{lemma_closing_fence_from_extend, lemma_first_index, lemma_first_index_extend};
use crate::tool_emulation::{
    ActionModel, ParserModel, StateModel, code_before, measure, run, spec_update_list_container,
    step, step_code_line, step_command, step_execute, step_fence, step_mid_line, step_normal_line,
    with_input,
};
use crate::laws::{law_step_progress, lemma_plain_step, plain};

verus! {

/// Updating the list context twice with the same unfinished line changes
/// nothing the second time.
proof fn lemma_partial_list_update_idempotent(
    container: Option<int>,
    empty_item: Option<int>,
    line: Seq<char>,
)
    ensures
        ({
            let once = spec_update_list_container(container, empty_item, line, false);
            spec_update_list_container(once.0, once.1, line, false) == once
        }),
{
    reveal(spec_update_list_container);
    crate::markdown::lemma_list_item_columns(line);
}

/// Once a step stops for more input, stepping again without new input
/// stops at once, with nothing to say and nothing changed.
proof fn lemma_stop_is_idle(m: ParserModel)
    requires
        !step(m).0,
    ensures
        step(step(m).1) == (false, step(m).1, Seq::<ActionModel>::empty()),
{
    reveal(step);
    let b = m.buffer;
    lemma_first_index(b, '\n');
    let s = step(m);
    lemma_first_index(s.1.buffer, '\n');
    if m.state is Normal && m.at_line_start && m.code_mode_enabled {
        lemma_partial_list_update_idempotent(
            m.list_container_indent,
            m.empty_list_item_indent,
            b,
        );
    }
    if m.state is Normal && m.at_line_start && b.len() == 0 {
        assert(trim(b) =~= Seq::<char>::empty()) by {
            crate::text::lemma_trim_by_props(b, ws());
        }
        assert(spec_update_list_container(
            m.list_container_indent,
            m.empty_list_item_indent,
            b,
            false,
        ) == (m.list_container_indent, m.empty_list_item_indent)) by {
            reveal(spec_update_list_container);
        }
    }
}

/// Reading nothing does nothing: once the parser has stopped for more
/// input, reading an empty chunk yields no action and leaves it as it was.
pub proof fn law_empty_chunk_is_idle(m: ParserModel)
    ensures
        run(with_input(run(m).0, Seq::empty())) == (run(m).0, Seq::<ActionModel>::empty()),
    decreases measure(m),
{
    let s = step(m);
    law_step_progress(m);
    if s.0 {
        law_empty_chunk_is_idle(s.1);
    } else {
        lemma_stop_is_idle(m);
        assert(with_input(s.1, Seq::empty()) =~= s.1);
    }
}


/// Empty, or ending with a newline: text made of complete lines.
pub open spec fn whole_lines(s: Seq<char>) -> bool {
    s.len() == 0 || s.last() == '\n'
}

#[verifier::spinoff_prover]
proof fn lemma_mid_line_extends(m: ParserModel, c: Seq<char>)
    requires
        m.buffer.contains('\n'),
    ensures
        step_mid_line(with_input(m, c)) == (
            step_mid_line(m).0,
            with_input(step_mid_line(m).1, c),
            step_mid_line(m).2,
        ),
{
    let b = m.buffer;
    lemma_first_index(b, '\n');
    lemma_first_index_extend(b, c);
    let e = first_index(b, '\n')->0;
    let mc = with_input(m, c);
    assert(mc.buffer == b + c);
    assert(first_index(mc.buffer, '\n') == Some(e));
    assert(mc.buffer.take(e + 1) =~= b.take(e + 1));
    assert(mc.buffer.skip(e + 1) =~= b.skip(e + 1) + c);
    assert(step_mid_line(mc).1 == with_input(step_mid_line(m).1, c));
    assert(step_mid_line(mc).2 =~= step_mid_line(m).2);
}

#[verifier::spinoff_prover]
proof fn lemma_code_line_extends(
    m: ParserModel,
    c: Seq<char>,
    line: Seq<char>,
    line_with_newline: Seq<char>,
)
    ensures
        step_code_line(with_input(m, c), line, line_with_newline) == (
            step_code_line(m, line, line_with_newline).0,
            with_input(step_code_line(m, line, line_with_newline).1, c),
            step_code_line(m, line, line_with_newline).2,
        ),
{
}

#[verifier::spinoff_prover]
proof fn lemma_normal_line_extends(m: ParserModel, c: Seq<char>)
    requires
        m.buffer.contains('\n'),
    ensures
        ({
            let e = first_index(m.buffer, '\n')->0;
            step_normal_line(with_input(m, c), e) == (
                step_normal_line(m, e).0,
                with_input(step_normal_line(m, e).1, c),
                step_normal_line(m, e).2,
            )
        }),
{
    let b = m.buffer;
    lemma_first_index(b, '\n');
    let e = first_index(b, '\n')->0;
    assert((b + c).take(e) =~= b.take(e));
    assert((b + c).take(e + 1) =~= b.take(e + 1));
    assert((b + c).skip(e + 1) =~= b.skip(e + 1) + c);
    let line = b.take(e);
    let lists = spec_update_list_container(
        m.list_container_indent,
        m.empty_list_item_indent,
        line,
        true,
    );
    lemma_code_line_extends(
        ParserModel {
            buffer: b.skip(e + 1),
            at_line_start: true,
            list_container_indent: lists.0,
            empty_list_item_indent: lists.1,
            ..m
        },
        c,
        line,
        b.take(e + 1),
    );
}

#[verifier::spinoff_prover]
proof fn lemma_command_extends(m: ParserModel, c: Seq<char>)
    requires
        m.buffer.contains('\n'),
    ensures
        step_command(with_input(m, c)) == (
            step_command(m).0,
            with_input(step_command(m).1, c),
            step_command(m).2,
        ),
{
    let b = m.buffer;
    lemma_first_index(b, '\n');
    lemma_first_index_extend(b, c);
    let e = first_index(b, '\n')->0;
    assert((b + c).take(e) =~= b.take(e));
    assert((b + c).skip(e + 1) =~= b.skip(e + 1) + c);
}

#[verifier::spinoff_prover]
proof fn lemma_execute_extends(m: ParserModel, c: Seq<char>, fence_len: int)
    requires
        step_execute(m, fence_len).0,
    ensures
        step_execute(with_input(m, c), fence_len) == (
            step_execute(m, fence_len).0,
            with_input(step_execute(m, fence_len).1, c),
            step_execute(m, fence_len).2,
        ),
{
    let b = m.buffer;
    lemma_closing_fence_from_extend(b, c, '`', fence_len, None, 0);
    crate::markdown::lemma_closing_fence_range_bounds(b, '`', fence_len, None, false, 0);
    let r = crate::markdown::spec_closing_fence_range(b, '`', fence_len, None, false)->0;
    assert((b + c).take(r.0) =~= b.take(r.0));
    assert((b + c).skip(r.1) =~= b.skip(r.1) + c);
    if r.0 >= 1 {
        assert((b + c)[r.0 - 1] == b[r.0 - 1]);
        assert((b + c).take(r.0 - 1) =~= b.take(r.0 - 1));
    }
    assert(code_before(b + c, r.0) == code_before(b, r.0));
    let mc = with_input(m, c);
    assert(mc.buffer == b + c);
    assert(crate::markdown::spec_closing_fence_range(mc.buffer, '`', fence_len, None, false) == Some(r));
    assert(step_execute(mc, fence_len).1 == with_input(step_execute(m, fence_len).1, c));
}


#[verifier::spinoff_prover]
proof fn lemma_fence_extends(
    m: ParserModel,
    c: Seq<char>,
    marker: char,
    fence_len: int,
    container_indent: Option<int>,
)
    requires
        m.buffer.contains('\n'),
    ensures
        step_fence(with_input(m, c), marker, fence_len, container_indent) == (
            step_fence(m, marker, fence_len, container_indent).0,
            with_input(step_fence(m, marker, fence_len, container_indent).1, c),
            step_fence(m, marker, fence_len, container_indent).2,
        ),
{
    if !m.at_line_start {
        lemma_mid_line_extends(m, c);
    } else {
        let b = m.buffer;
        lemma_first_index(b, '\n');
        lemma_first_index_extend(b, c);
        let e = first_index(b, '\n')->0;
        assert((b + c).take(e) =~= b.take(e));
        assert((b + c).take(e + 1) =~= b.take(e + 1));
        assert((b + c).skip(e + 1) =~= b.skip(e + 1) + c);
    }
}

/// A step taken on text that holds a newline goes the same way, whatever
/// text follows.
proof fn lemma_step_extends(m: ParserModel, c: Seq<char>)
    requires
        m.buffer.contains('\n'),
        step(m).0,
    ensures
        step(with_input(m, c)) == (true, with_input(step(m).1, c), step(m).2),
{
    let mc = with_input(m, c);
    lemma_first_index(m.buffer, '\n');
    match m.state {
        StateModel::Normal => {
            if m.at_line_start {
                let e = first_index(m.buffer, '\n')->0;
                lemma_first_index_extend(m.buffer, c);
                assert(step(m) == step_normal_line(m, e)) by {
                    reveal(step);
                }
                assert(step(mc) == step_normal_line(mc, e)) by {
                    reveal(step);
                }
                lemma_normal_line_extends(m, c);
            } else {
                assert(step(m) == step_mid_line(m)) by {
                    reveal(step);
                }
                assert(step(mc) == step_mid_line(mc)) by {
                    reveal(step);
                }
                lemma_mid_line_extends(m, c);
            }
        },
        StateModel::InCommand => {
            assert(step(m) == step_command(m)) by {
                reveal(step);
            }
            assert(step(mc) == step_command(mc)) by {
                reveal(step);
            }
            lemma_command_extends(m, c);
        },
        StateModel::InExecuteBlock { fence_len } => {
            assert(step(m) == step_execute(m, fence_len)) by {
                reveal(step);
            }
            assert(step(mc) == step_execute(mc, fence_len)) by {
                reveal(step);
            }
            lemma_execute_extends(m, c, fence_len);
        },
        StateModel::InMarkdownFence { marker, fence_len, container_indent } => {
            assert(step(m) == step_fence(m, marker, fence_len, container_indent)) by {
                reveal(step);
            }
            assert(step(mc) == step_fence(mc, marker, fence_len, container_indent)) by {
                reveal(step);
            }
            lemma_fence_extends(m, c, marker, fence_len, container_indent);
        },
    }
}

/// A step keeps a suffix of the text it was given.
proof fn lemma_step_keeps_suffix(m: ParserModel)
    ensures
        exists|k: int| 0 <= k <= m.buffer.len() && step(m).1.buffer == m.buffer.skip(k),
{
    reveal(step);
    let b = m.buffer;
    lemma_first_index(b, '\n');
    assert(b.skip(0) =~= b);
    assert(b.skip(b.len() as int) =~= Seq::<char>::empty());
    if let StateModel::InExecuteBlock { fence_len } = m.state {
        crate::markdown::lemma_closing_fence_range_bounds(b, '`', fence_len, None, false, 0);
    }
    let s = step(m);
    if s.1.buffer == b {
        assert(s.1.buffer == b.skip(0));
    } else if s.1.buffer.len() == 0 {
        assert(s.1.buffer == b.skip(b.len() as int));
    }
}

/// On complete lines, a step that stops is one that waits: it changes
/// nothing and says nothing.
proof fn lemma_stop_on_whole_lines(m: ParserModel)
    requires
        whole_lines(m.buffer),
        !step(m).0,
    ensures
        step(m) == (false, m, Seq::<ActionModel>::empty()),
{
    reveal(step);
    let b = m.buffer;
    lemma_first_index(b, '\n');
    if b.len() > 0 {
        assert(b[b.len() - 1] == '\n');
    } else {
        assert(trim(b) =~= Seq::<char>::empty()) by {
            crate::text::lemma_trim_by_props(b, ws());
        }
        assert(spec_update_list_container(
            m.list_container_indent,
            m.empty_list_item_indent,
            b,
            false,
        ) == (m.list_container_indent, m.empty_list_item_indent)) by {
            reveal(spec_update_list_container);
        }
        assert(m.buffer =~= Seq::<char>::empty());
        assert(ParserModel { buffer: Seq::empty(), ..m } == m);
    }
}

proof fn lemma_line_chunks(s: ParserModel, c: Seq<char>)
    requires
        whole_lines(s.buffer),
    ensures
        run(with_input(run(s).0, c)).0 == run(with_input(s, c)).0,
        run(s).1 + run(with_input(run(s).0, c)).1 == run(with_input(s, c)).1,
    decreases measure(s),
{
    let st = step(s);
    law_step_progress(s);
    if st.0 {
        assert(s.buffer.contains('\n')) by {
            if s.buffer.len() == 0 {
                assert(!st.0) by {
                    lemma_stop_on_whole_lines_empty(s);
                }
            }
            assert(s.buffer[s.buffer.len() - 1] == '\n');
        }
        lemma_step_extends(s, c);
        lemma_step_keeps_suffix(s);
        let k = choose|k: int| 0 <= k <= s.buffer.len() && st.1.buffer == s.buffer.skip(k);
        if st.1.buffer.len() > 0 {
            assert(st.1.buffer.last() == s.buffer.last());
        }
        lemma_line_chunks(st.1, c);
        assert(0 <= measure(with_input(st.1, c)) < measure(with_input(s, c)));
        assert(run(s).1 + run(with_input(run(s).0, c)).1 =~= st.2 + (run(st.1).1 + run(
            with_input(run(st.1).0, c),
        ).1));
    } else {
        lemma_stop_on_whole_lines(s);
    }
}

/// On an empty buffer every step waits.
proof fn lemma_stop_on_whole_lines_empty(m: ParserModel)
    requires
        m.buffer.len() == 0,
    ensures
        !step(m).0,
{
    reveal(step);
    reveal(crate::markdown::spec_closing_fence_from);
    lemma_first_index(m.buffer, '\n');
    crate::text::lemma_span(m.buffer, crate::text::sp_tab(), 0);
    assert(crate::markdown::spec_could_be_control_line(m.buffer, None, None)) by {
        reveal(crate::markdown::spec_could_be_control_line);
    }
}

/// Text that arrives in chunks ending at line ends is read exactly as if
/// it had come at once: reading `a` and then `b` yields the same actions,
/// and leaves the parser in the same state, as reading `a` followed by `b`.
pub proof fn law_line_chunks_read_as_whole(m: ParserModel, a: Seq<char>, b: Seq<char>)
    requires
        whole_lines(m.buffer + a),
    ensures
        run(with_input(run(with_input(m, a)).0, b)).0 == run(with_input(m, a + b)).0,
        run(with_input(m, a)).1 + run(with_input(run(with_input(m, a)).0, b)).1 == run(
            with_input(m, a + b),
        ).1,
{
    lemma_line_chunks(with_input(m, a), b);
    assert(with_input(with_input(m, a), b) == with_input(m, a + b)) by {
        assert(m.buffer + a + b =~= m.buffer + (a + b));
    }
}


/// `z` is `x` followed by `y`, except that the last action of `x` and the
/// first of `y`, both text, may come as one text in `z`.
pub open spec fn joined(x: Seq<ActionModel>, y: Seq<ActionModel>, z: Seq<ActionModel>) -> bool {
    ||| x + y == z
    ||| {
        &&& x.len() > 0
        &&& y.len() > 0
        &&& x.last() is Text
        &&& y[0] is Text
        &&& z == x.drop_last().push(ActionModel::Text(x.last()->Text_0 + y[0]->Text_0)) + y.skip(1)
    }
}

proof fn lemma_joined_prefix(a: Seq<ActionModel>, x: Seq<ActionModel>, y: Seq<ActionModel>, z: Seq<ActionModel>)
    requires
        joined(x, y, z),
    ensures
        joined(a + x, y, a + z),
{
    if x + y == z {
        assert((a + x) + y =~= a + z);
    } else {
        assert((a + x).drop_last() =~= a + x.drop_last());
        assert((a + x).last() == x.last());
        assert((a + x).drop_last().push(ActionModel::Text(x.last()->Text_0 + y[0]->Text_0)) + y.skip(
            1,
        ) =~= a + (x.drop_last().push(ActionModel::Text(x.last()->Text_0 + y[0]->Text_0))
            + y.skip(1)));
    }
}

/// Without code mode a step stops in one of two ways: it waits, changing
/// nothing, or it passes on the unfinished text of a line that cannot
/// become a command.
proof fn lemma_plain_stop(m: ParserModel)
    requires
        plain(m),
        !step(m).0,
    ensures
        step(m) == (false, m, Seq::<ActionModel>::empty()) || ({
            &&& m.state is Normal
            &&& m.buffer.len() > 0
            &&& !m.buffer.contains('\n')
            &&& step(m).1 == (ParserModel { buffer: Seq::empty(), at_line_start: false, ..m })
            &&& step(m).2 == seq![ActionModel::Text(m.buffer)]
            &&& m.at_line_start ==> m.buffer[0] != '$' && !crate::markdown::spec_could_be_control_line(
                m.buffer,
                None,
                None,
            )
        }),
{
    reveal(step);
    let b = m.buffer;
    lemma_first_index(b, '\n');
    if m.state is Normal && !m.at_line_start && b.len() == 0 {
        assert(ParserModel { buffer: Seq::empty(), ..m } =~= m) by {
            assert(b =~= Seq::<char>::empty());
        }
    }
}


/// Without code mode, a `$` at the start of an unfinished line starts a
/// command; reading more text then goes as if the command had been read
/// with it.
#[verifier::spinoff_prover]
proof fn lemma_plain_dollar_partial(m: ParserModel, c: Seq<char>)
    requires
        plain(m),
        step(m).0,
        !m.buffer.contains('\n'),
    ensures
        step(m).2 == Seq::<ActionModel>::empty(),
        run(with_input(m, c)) == run(with_input(step(m).1, c)),
        0 <= measure(with_input(step(m).1, c)) < measure(with_input(m, c)),
{
    let b = m.buffer;
    let mc = with_input(m, c);
    lemma_first_index(b, '\n');
    assert(m.state is Normal && m.at_line_start && b.len() > 0 && b[0] == '$' && step(m) == (
        true,
        ParserModel { state: StateModel::InCommand, ..m },
        Seq::<ActionModel>::empty(),
    )) by {
        reveal(step);
    }
    let s1 = step(m).1;
    let sc = with_input(s1, c);
    assert(mc.buffer[0] == '$');
    lemma_first_index(b + c, '\n');
    if (b + c).contains('\n') {
        let e = first_index(b + c, '\n')->0;
        let line = (b + c).take(e);
        assert(line[0] == '$');
        assert(step(mc) == step_normal_line(mc, e)) by {
            reveal(step);
        }
        assert(step(sc) == step_command(sc)) by {
            reveal(step);
        }
        assert(step(mc) == step(sc));
        law_step_progress(mc);
        law_step_progress(sc);
        assert(run(mc) == run(sc));
    } else {
        assert(step(mc) == (true, sc, Seq::<ActionModel>::empty())) by {
            reveal(step);
        }
        law_step_progress(mc);
        assert(run(mc) == (run(sc).0, Seq::<ActionModel>::empty() + run(sc).1));
        assert(Seq::<ActionModel>::empty() + run(sc).1 =~= run(sc).1);
    }
}


/// Without code mode, once the unfinished text of a line has been passed
/// on, reading more text yields what reading it all at once would, with
/// that text split in two.
#[verifier::spinoff_prover]
proof fn lemma_plain_emitted(m: ParserModel, c: Seq<char>)
    requires
        plain(m),
        m.state is Normal,
        m.buffer.len() > 0,
        !m.buffer.contains('\n'),
        m.at_line_start ==> m.buffer[0] != '$' && !crate::markdown::spec_could_be_control_line(
            m.buffer,
            None,
            None,
        ),
    ensures
        ({
            let e0 = ParserModel { buffer: Seq::empty(), at_line_start: false, ..m };
            &&& run(with_input(e0, c)).0 == run(with_input(m, c)).0
            &&& joined(
                seq![ActionModel::Text(m.buffer)],
                run(with_input(e0, c)).1,
                run(with_input(m, c)).1,
            )
        }),
{
    let b = m.buffer;
    let e0 = ParserModel { buffer: Seq::empty(), at_line_start: false, ..m };
    let e0c = with_input(e0, c);
    let mc = with_input(m, c);
    assert(e0c.buffer =~= c);
    lemma_first_index(b, '\n');
    lemma_first_index(c, '\n');
    lemma_first_index(b + c, '\n');
    if c.contains('\n') {
        let k = first_index(c, '\n')->0;
        let e = b.len() + k;
        assert((b + c)[e] == '\n');
        assert(forall|t: int| 0 <= t < e ==> #[trigger] (b + c)[t] != '\n') by {
            assert forall|t: int| 0 <= t < e implies #[trigger] (b + c)[t] != '\n' by {
                if t < b.len() {
                    assert((b + c)[t] == b[t]);
                    if b[t] == '\n' {
                        assert(b.contains('\n'));
                    }
                } else {
                    assert((b + c)[t] == c[t - b.len()]);
                }
            }
        }

        assert(first_index(b + c, '\n') == Some(e));
        let v = c.take(k + 1);
        let e1 = ParserModel { buffer: c.skip(k + 1), at_line_start: true, ..m };
        assert(step(e0c) == step_mid_line(e0c)) by {
            reveal(step);
        }
        assert(step(e0c) == (true, e1, seq![ActionModel::Text(v)]));
        assert((b + c).skip(e + 1) =~= c.skip(k + 1));
        assert((b + c).take(e + 1) =~= b + v);
        if m.at_line_start {
            assert(step(mc) == step_normal_line(mc, e)) by {
                reveal(step);
            }
            assert((b + c).take(e)[0] == b[0]);
        } else {
            assert(step(mc) == step_mid_line(mc)) by {
                reveal(step);
            }
        }
        assert(step(mc) == (true, e1, seq![ActionModel::Text(b + v)]));
        law_step_progress(e0c);
        law_step_progress(mc);
        let r = run(e1);
        assert(run(e0c) == (r.0, seq![ActionModel::Text(v)] + r.1));
        assert(run(mc) == (r.0, seq![ActionModel::Text(b + v)] + r.1));
        let x = seq![ActionModel::Text(b)];
        let y = seq![ActionModel::Text(v)] + r.1;
        assert(x.drop_last().push(ActionModel::Text(x.last()->Text_0 + y[0]->Text_0)) + y.skip(1)
            =~= seq![ActionModel::Text(b + v)] + r.1);
    } else if c.len() == 0 {
        assert(e0c == e0);
        assert(mc.buffer =~= b);
        assert(mc == m);
        assert(step(e0) == (false, e0, Seq::<ActionModel>::empty())) by {
            reveal(step);
            lemma_first_index(e0.buffer, '\n');
            assert(ParserModel { buffer: Seq::empty(), ..e0 } == e0);
        }
        lemma_plain_stop_emits(m);
        assert(seq![ActionModel::Text(b)] + Seq::<ActionModel>::empty() =~= seq![
            ActionModel::Text(b),
        ]);
    } else {
        assert(!(b + c).contains('\n')) by {
            if (b + c).contains('\n') {
                let t = choose|t: int| 0 <= t < (b + c).len() && (b + c)[t] == '\n';
                if t < b.len() {
                    assert(b[t] == '\n');
                } else {
                    assert(c[t - b.len()] == '\n');
                }
            }
        }
        assert(step(e0c) == (false, e0, seq![ActionModel::Text(c)])) by {
            reveal(step);
            assert(ParserModel { buffer: Seq::empty(), ..e0c } == e0);
        }
        if m.at_line_start {
            assert(!crate::markdown::spec_could_be_control_line(b + c, None, None)) by {
                if crate::markdown::spec_could_be_control_line(b + c, None, None) {
                    crate::markdown::lemma_control_line_take(b + c, b.len() as int);
                    assert((b + c).take(b.len() as int) =~= b);
                }
            }
            assert((b + c)[0] == b[0]);
        }
        assert(step(mc) == (false, e0, seq![ActionModel::Text(b + c)])) by {
            reveal(step);
            assert(ParserModel { buffer: Seq::empty(), at_line_start: false, ..mc } == e0);
        }
        let x = seq![ActionModel::Text(b)];
        let y = seq![ActionModel::Text(c)];
        assert(x.drop_last().push(ActionModel::Text(x.last()->Text_0 + y[0]->Text_0)) + y.skip(1)
            =~= seq![ActionModel::Text(b + c)]);
    }
}

/// The text a plain step passes on when it stops without waiting.
proof fn lemma_plain_stop_emits(m: ParserModel)
    requires
        plain(m),
        m.state is Normal,
        m.buffer.len() > 0,
        !m.buffer.contains('\n'),
        m.at_line_start ==> m.buffer[0] != '$' && !crate::markdown::spec_could_be_control_line(
            m.buffer,
            None,
            None,
        ),
    ensures
        step(m) == (
            false,
            ParserModel { buffer: Seq::empty(), at_line_start: false, ..m },
            seq![ActionModel::Text(m.buffer)],
        ),
{
    reveal(step);
    lemma_first_index(m.buffer, '\n');
}


proof fn lemma_plain_chunks(s: ParserModel, c: Seq<char>)
    requires
        plain(s),
    ensures
        run(with_input(run(s).0, c)).0 == run(with_input(s, c)).0,
        joined(run(s).1, run(with_input(run(s).0, c)).1, run(with_input(s, c)).1),
    decreases measure(s),
{
    let st = step(s);
    law_step_progress(s);
    lemma_plain_step(s);
    if st.0 {
        if s.buffer.contains('\n') {
            lemma_step_extends(s, c);
            lemma_plain_chunks(st.1, c);
            assert(0 <= measure(with_input(st.1, c)) < measure(with_input(s, c)));
            lemma_joined_prefix(
                st.2,
                run(st.1).1,
                run(with_input(run(st.1).0, c)).1,
                run(with_input(st.1, c)).1,
            );
        } else {
            lemma_plain_dollar_partial(s, c);
            lemma_plain_chunks(st.1, c);
            assert(run(s).1 =~= run(st.1).1);
        }
    } else {
        lemma_plain_stop(s);
        if st == (false, s, Seq::<ActionModel>::empty()) {
            assert(Seq::<ActionModel>::empty() + run(with_input(s, c)).1 =~= run(
                with_input(s, c),
            ).1);
        } else {
            lemma_plain_emitted(s, c);
        }
    }
}

/// Without code mode, how the output is cut into chunks does not matter:
/// reading `a` and then `b` leaves the parser as reading them together
/// does, with the same actions, except that a text cut by the boundary
/// comes in two pieces.
pub proof fn law_plain_chunks_read_as_whole(m: ParserModel, a: Seq<char>, b: Seq<char>)
    requires
        plain(m),
    ensures
        run(with_input(run(with_input(m, a)).0, b)).0 == run(with_input(m, a + b)).0,
        joined(
            run(with_input(m, a)).1,
            run(with_input(run(with_input(m, a)).0, b)).1,
            run(with_input(m, a + b)).1,
        ),
{
    lemma_plain_chunks(with_input(m, a), b);
    assert(with_input(with_input(m, a), b) == with_input(m, a + b)) by {
        assert(m.buffer + a + b =~= m.buffer + (a + b));
    }
}

} // verus!
