//! Line classifiers for the Markdown constructs the streaming parser must
//! respect: indentation, code fences (plain or opened inside a list item),
//! list items, thematic breaks, closing fences, and the test whether an
//! unfinished line could still turn into one of them.

use vstd::prelude::*;
use vstd::slice::slice_subrange;
use crate::text::{
    all_in, all_pad, all_sp_tab, chars_of, contains_char, copy_range, count_rule_chars, count_where,
    digit, eq, find_char, first_index, fits, is_ascii_digit, is_digit, lemma_span, lemma_span_props, ne, pad,
    rule_char, sp_tab, span, span_digits, span_eq, strip_cr, strip_cr_len, trim_by, trim_pad_range,
    lemma_rspan, rspan, trim, ws, lemma_span_take, lemma_trim_by_empty,
    lemma_rspan_props,
};

verus! {

// ---------------------------------------------------------------------------
// Models
// ---------------------------------------------------------------------------

/// A code fence line: its marker (`` ` `` or `~`), how many markers open it,
/// its info string, and the content column of the list item it opened in.
pub struct FenceModel {
    pub marker: char,
    pub len: int,
    pub info: Seq<char>,
    pub container_indent: Option<int>,
}

pub struct Fence {
    pub marker: char,
    pub len: usize,
    pub info: Vec<char>,
    pub container_indent: Option<usize>,
}

impl View for Fence {
    type V = FenceModel;

    open spec fn view(&self) -> FenceModel {
        FenceModel {
            marker: self.marker,
            len: self.len as int,
            info: self.info@,
            container_indent: oi(self.container_indent),
        }
    }
}

pub open spec fn oi(o: Option<usize>) -> Option<int> {
    match o {
        Some(x) => Some(x as int),
        None => None,
    }
}

pub open spec fn oi2(o: Option<(usize, usize)>) -> Option<(int, int)> {
    match o {
        Some(x) => Some((x.0 as int, x.1 as int)),
        None => None,
    }
}

pub open spec fn fence_view(o: Option<Fence>) -> Option<FenceModel> {
    match o {
        Some(f) => Some(f@),
        None => None,
    }
}

// ---------------------------------------------------------------------------
// Specifications
// ---------------------------------------------------------------------------

/// Display columns taken by the first `n` characters of `s`, which are spaces
/// and tabs; a tab advances to the next multiple of four.
pub open spec fn indent_columns(s: Seq<char>, n: nat) -> int
    decreases n,
{
    if n == 0 {
        0
    } else {
        let c = indent_columns(s, (n - 1) as nat);
        if s[n - 1] == ' ' {
            c + 1
        } else {
            c + 4 - c % 4
        }
    }
}

/// `(characters, columns)` of the indentation that starts `s`.
pub open spec fn spec_leading_indent(s: Seq<char>) -> (int, int) {
    (span(s, sp_tab()), indent_columns(s, span(s, sp_tab()) as nat))
}

/// A run of at least three `` ` `` or `~` starting `rest`, followed by an
/// info string (trimmed of spaces, tabs and carriage returns) that, for a
/// backtick fence, holds no backtick.
pub open spec fn spec_parse_fence_marker(rest: Seq<char>, container_indent: Option<int>) -> Option<
    FenceModel,
> {
    if rest.len() == 0 || (rest[0] != '`' && rest[0] != '~') {
        None
    } else {
        let marker = rest[0];
        let len = span(rest, eq(marker));
        let info = trim_by(rest.skip(len), pad());
        if len < 3 || (marker == '`' && info.contains('`')) {
            None
        } else {
            Some(FenceModel { marker, len, info, container_indent })
        }
    }
}

/// A fence whose indentation lies between `minimum_indent` and
/// `maximum_indent` columns.
pub open spec fn spec_parse_direct_fence(
    line: Seq<char>,
    minimum_indent: int,
    maximum_indent: int,
    container_indent: Option<int>,
) -> Option<FenceModel> {
    let (indent_bytes, indent_columns) = spec_leading_indent(line);
    if indent_columns < minimum_indent || indent_columns > maximum_indent {
        None
    } else {
        spec_parse_fence_marker(line.skip(indent_bytes), container_indent)
    }
}

/// Where the list marker that starts `s` ends: one bullet (`-`, `+`, `*`),
/// or one to nine digits followed by `.` or `)`.
pub open spec fn spec_list_marker_end(s: Seq<char>) -> Option<int> {
    if s.len() == 0 {
        None
    } else if s[0] == '-' || s[0] == '+' || s[0] == '*' {
        Some(1)
    } else if is_digit(s[0]) {
        let digits = span(s, digit());
        if digits > 9 || digits >= s.len() || !(s[digits] == '.' || s[digits] == ')') {
            None
        } else {
            Some(digits + 1)
        }
    } else {
        None
    }
}

/// Width of a list marker and the one to four spaces after it.
pub open spec fn spec_list_marker_width(line: Seq<char>) -> Option<int> {
    match spec_list_marker_end(line) {
        None => None,
        Some(marker_end) => {
            let whitespace = span(line.skip(marker_end), eq(' '));
            if 1 <= whitespace <= 4 {
                Some(marker_end + whitespace)
            } else {
                None
            }
        },
    }
}

/// A list marker, indented at most three columns, with nothing but spaces
/// and tabs after it: `(marker column, content column)`.
#[verifier::opaque]
pub open spec fn spec_empty_list_item_indents(line: Seq<char>) -> Option<(int, int)> {
    let l = strip_cr(line);
    let (indent_bytes, marker_indent) = spec_leading_indent(l);
    let rest = l.skip(indent_bytes);
    if marker_indent > 3 {
        None
    } else {
        match spec_list_marker_end(rest) {
            None => None,
            Some(marker_end) => if all_in(rest.skip(marker_end), sp_tab()) {
                Some((marker_indent, marker_indent + marker_end + 1))
            } else {
                None
            },
        }
    }
}

pub open spec fn rule_pad(m: char) -> spec_fn(char) -> bool {
    |c: char| c == m || c == ' ' || c == '\t' || c == '\r'
}

/// A line that reads as a `*` or `-` bullet but holds nothing else than
/// that character and padding.
pub open spec fn spec_is_list_thematic_break_candidate(line: Seq<char>) -> bool {
    let l = strip_cr(line);
    let (indent_bytes, marker_indent) = spec_leading_indent(l);
    let rest = l.skip(indent_bytes);
    &&& marker_indent <= 3
    &&& rest.len() > 0
    &&& (rest[0] == '*' || rest[0] == '-')
    &&& spec_list_marker_width(rest) is Some
    &&& all_in(rest, rule_pad(rest[0]))
}

/// A thematic break (`* * *`, `- - -`) that could be mistaken for a list item.
pub open spec fn spec_is_list_thematic_break(line: Seq<char>) -> bool {
    spec_is_list_thematic_break_candidate(line) && count_where(line, rule_char()) >= 3
}

/// A list item line, not a thematic break: `(marker column, content column)`.
#[verifier::opaque]
pub open spec fn spec_list_item_indents(line: Seq<char>) -> Option<(int, int)> {
    let l = strip_cr(line);
    let (indent_bytes, marker_indent) = spec_leading_indent(l);
    if spec_is_list_thematic_break(l) || marker_indent > 3 {
        None
    } else {
        match spec_list_marker_width(l.skip(indent_bytes)) {
            None => None,
            Some(width) => Some((marker_indent, marker_indent + width)),
        }
    }
}

/// A fence at top level (indented at most three columns) or directly after
/// a list marker; the latter records the list item's content column.
pub open spec fn spec_parse_fence(line: Seq<char>) -> Option<FenceModel> {
    let l = strip_cr(line);
    match spec_parse_direct_fence(l, 0, 3, None) {
        Some(f) => Some(f),
        None => {
            let (indent_bytes, indent_columns) = spec_leading_indent(l);
            let rest = l.skip(indent_bytes);
            if indent_columns > 3 {
                None
            } else {
                match spec_list_marker_width(rest) {
                    None => None,
                    Some(width) => spec_parse_fence_marker(
                        rest.skip(width),
                        Some(indent_columns + width),
                    ),
                }
            }
        },
    }
}

/// A fence inside the list item whose content starts at `container_indent`,
/// else a fence as `spec_parse_fence` finds it.
#[verifier::opaque]
pub open spec fn spec_parse_fence_in_container(
    line: Seq<char>,
    container_indent: Option<int>,
) -> Option<FenceModel> {
    match container_indent {
        Some(c) => match spec_parse_direct_fence(line, c, c + 3, Some(c)) {
            Some(f) => Some(f),
            None => spec_parse_fence(line),
        },
        None => spec_parse_fence(line),
    }
}

/// A line that closes a fence of `marker` opened with `minimum_len`
/// markers: at least as many markers, no info string, indented within the
/// fence's container.
#[verifier::opaque]
pub open spec fn spec_is_closing_fence(
    line: Seq<char>,
    marker: char,
    minimum_len: int,
    container_indent: Option<int>,
) -> bool {
    let l = strip_cr(line);
    let minimum_indent = match container_indent {
        Some(c) => c,
        None => 0,
    };
    match spec_parse_direct_fence(l, minimum_indent, minimum_indent + 3, container_indent) {
        Some(f) => f.marker == marker && f.len >= minimum_len && f.info.len() == 0,
        None => false,
    }
}

/// Whether more text could still turn `rest` into a fence line.
pub open spec fn spec_could_be_fence_prefix(rest: Seq<char>) -> bool {
    if rest.len() == 0 || (rest[0] != '`' && rest[0] != '~') {
        false
    } else {
        let marker = rest[0];
        let marker_len = span(rest, eq(marker));
        if marker_len < 3 {
            marker_len == rest.len()
        } else {
            marker != '`' || !rest.skip(marker_len).contains('`')
        }
    }
}

/// Whether more text could still turn `line` into a list item that opens a
/// fence.
pub open spec fn spec_could_be_list_fence(line: Seq<char>) -> bool {
    if line.len() == 0 {
        false
    } else if is_digit(line[0]) && span(line, digit()) == line.len() {
        line.len() <= 9
    } else {
        match spec_list_marker_end(line) {
            None => false,
            Some(marker_end) => if marker_end == line.len() {
                true
            } else {
                let whitespace = span(line.skip(marker_end), eq(' '));
                let rest = line.skip(marker_end + whitespace);
                1 <= whitespace <= 4 && (rest.len() == 0 || spec_could_be_fence_prefix(rest))
            },
        }
    }
}

/// Whether the unfinished `line` could still become a line that changes how
/// the stream is read: a closing fence of `marker`, or (with no marker) a
/// command, a fence, a list item or a thematic break.
#[verifier::opaque]
pub open spec fn spec_could_be_control_line(
    line: Seq<char>,
    marker: Option<char>,
    container_indent: Option<int>,
) -> bool {
    let (indent_bytes, indent_columns) = spec_leading_indent(line);
    let minimum_indent = match container_indent {
        Some(c) => c,
        None => 0,
    };
    let rest = line.skip(indent_bytes);
    if indent_columns > minimum_indent + 3 {
        false
    } else if indent_columns < minimum_indent {
        indent_bytes == line.len()
    } else {
        match marker {
            Some(m) => {
                let marker_len = span(rest, eq(m));
                marker_len == rest.len() || (marker_len >= 3 && all_in(
                    rest.skip(marker_len),
                    pad(),
                ))
            },
            None => {
                ||| rest.len() == 0
                ||| (rest.len() == 1 && rest[0] == '$')
                ||| spec_could_be_fence_prefix(rest)
                ||| spec_empty_list_item_indents(line) is Some
                ||| spec_is_list_thematic_break_candidate(line)
                ||| spec_could_be_list_fence(rest)
            },
        }
    }
}

/// The first closing fence line of `input` at or after `start`:
/// `(line start, end of what it consumes)`. Without `allow_end_of_stream`
/// only newline-terminated lines count.
#[verifier::opaque]
pub open spec fn spec_closing_fence_from(
    input: Seq<char>,
    marker: char,
    minimum_len: int,
    container_indent: Option<int>,
    allow_end_of_stream: bool,
    start: int,
) -> Option<(int, int)>
    decreases input.len() - start,
{
    if start < 0 || start > input.len() {
        None
    } else {
        let newline = first_index(input.skip(start), '\n');
        if newline is None && !allow_end_of_stream {
            None
        } else {
            let line_end = match newline {
                Some(o) => start + o,
                None => input.len() as int,
            };
            if spec_is_closing_fence(
                input.subrange(start, line_end),
                marker,
                minimum_len,
                container_indent,
            ) {
                Some(
                    (
                        start,
                        if line_end < input.len() {
                            line_end + 1
                        } else {
                            line_end
                        },
                    ),
                )
            } else if line_end >= input.len() {
                None
            } else {
                proof {
                    lemma_span_props(input.skip(start), ne('\n'));
                }
                spec_closing_fence_from(
                    input,
                    marker,
                    minimum_len,
                    container_indent,
                    allow_end_of_stream,
                    line_end + 1,
                )
            }
        }
    }
}

pub open spec fn spec_closing_fence_range(
    input: Seq<char>,
    marker: char,
    minimum_len: int,
    container_indent: Option<int>,
    allow_end_of_stream: bool,
) -> Option<(int, int)> {
    spec_closing_fence_from(input, marker, minimum_len, container_indent, allow_end_of_stream, 0)
}

// ---------------------------------------------------------------------------
// Lemmas
// ---------------------------------------------------------------------------

pub proof fn lemma_first_index(s: Seq<char>, c: char)
    ensures
        match first_index(s, c) {
            Some(i) => 0 <= i < s.len() && s[i] == c && forall|j: int|
                0 <= j < i ==> #[trigger] s[j] != c,
            None => forall|j: int| 0 <= j < s.len() ==> #[trigger] s[j] != c,
        },
{
    lemma_span_props(s, ne(c));
    if first_index(s, c) is Some {
        let i = span(s, ne(c));
        if i == s.len() {
            let k = choose|k: int| 0 <= k < s.len() && s[k] == c;
            assert(ne(c)(s[k]));
        }
        assert forall|j: int| 0 <= j < i implies #[trigger] s[j] != c by {
            assert(ne(c)(s[j]));
        }
    } else {
        assert forall|j: int| 0 <= j < s.len() implies #[trigger] s[j] != c by {
            if s[j] == c {
                assert(s.contains(c));
            }
        }
    }
}

/// A line that starts with `$` has no indentation and opens no fence.
#[verifier::spinoff_prover]
proof fn lemma_dollar_start(x: Seq<char>, container_indent: Option<int>)
    requires
        x.len() > 0,
        x[0] == '$',
    ensures
        spec_leading_indent(x) == (0int, 0int),
        spec_parse_fence_marker(x.skip(0), container_indent) is None,
        spec_list_marker_width(x.skip(0)) is None,
{
    assert(!sp_tab()(x[0]));
    lemma_span(x, sp_tab(), 0);
    assert(indent_columns(x, 0) == 0);
    assert(x.skip(0) =~= x);
    assert(!is_digit(x[0]));
    assert(spec_list_marker_end(x) is None);
}

/// A line that starts with `$` opens no fence, wherever the list context.
#[verifier::spinoff_prover]
pub proof fn lemma_dollar_line_is_no_fence(line: Seq<char>, container_indent: Option<int>)
    requires
        line.len() > 0,
        line[0] == '$',
    ensures
        spec_parse_fence_in_container(line, container_indent) is None,
{
    reveal(spec_parse_fence_in_container);
    let l = strip_cr(line);
    assert(l.len() > 0 && l[0] == '$');
    lemma_dollar_start(l, None);
    assert(spec_parse_direct_fence(l, 0, 3, None) is None);
    assert(spec_parse_fence(line) is None);
    match container_indent {
        Some(c) => {
            lemma_dollar_start(line, Some(c));
            assert(spec_parse_direct_fence(line, c, c + 3, Some(c)) is None);
        },
        None => {},
    }
}

/// What a top-level backtick fence line needs of its info string: no
/// backtick, and no padding at either end.
pub open spec fn plain_info(info: Seq<char>) -> bool {
    &&& info.len() > 0
    &&& !pad()(info[0])
    &&& !pad()(info.last())
    &&& !info.contains('`')
}

/// `line` is three backticks followed directly by `info`.
pub open spec fn backtick_fence_line(line: Seq<char>, info: Seq<char>) -> bool {
    &&& line.len() == info.len() + 3
    &&& line[0] == '`' && line[1] == '`' && line[2] == '`'
    &&& line.skip(3) == info
}

proof fn lemma_backtick_marker(rest: Seq<char>, info: Seq<char>)
    requires
        rest.len() > 0,
        rest[0] == '`',
        span(rest, eq('`')) == 3,
        trim_by(rest.skip(3), pad()) == info,
        !info.contains('`'),
    ensures
        spec_parse_fence_marker(rest, None) == Some(
            FenceModel { marker: '`', len: 3, info, container_indent: None },
        ),
{
}

#[verifier::spinoff_prover]
proof fn lemma_backtick_fence_marker(line: Seq<char>, info: Seq<char>)
    requires
        info.len() > 0,
        !pad()(info[0]),
        !pad()(info.last()),
        !info.contains('`'),
        line.len() == info.len() + 3,
        line[0] == '`' && line[1] == '`' && line[2] == '`',
        line.skip(3) == info,
    ensures
        spec_parse_fence_marker(line, None) == Some(
            FenceModel { marker: '`', len: 3, info, container_indent: None },
        ),
{
    assert(line[3] == info[0]);
    if info[0] == '`' {
        assert(info.contains('`'));
    }
    lemma_span(line, eq('`'), 3);
    lemma_span(info, pad(), 0);
    lemma_rspan(info, pad(), 0);
    assert(trim_by(info, pad()) =~= info);
    lemma_backtick_marker(line, info);
}

#[verifier::spinoff_prover]
proof fn lemma_backtick_fence_parse(line: Seq<char>, info: Seq<char>)
    requires
        backtick_fence_line(line, info),
        plain_info(info),
    ensures
        spec_parse_fence_in_container(line, None) == Some(
            FenceModel { marker: '`', len: 3, info, container_indent: None },
        ),
{
    reveal(spec_parse_fence_in_container);
    assert(line.last() == info.last());
    assert(strip_cr(line) == line);
    lemma_backtick_start(line);
    assert(line.skip(0) =~= line);
    lemma_backtick_fence_marker(line, info);
}

#[verifier::spinoff_prover]
proof fn lemma_backtick_line_is_no_list_item(line: Seq<char>)
    requires
        line.len() > 0,
        line[0] == '`',
    ensures
        spec_list_item_indents(line) is None,
        spec_empty_list_item_indents(line) is None,
        trim(line).len() > 0,
{
    reveal(spec_list_item_indents);
    reveal(spec_empty_list_item_indents);
    let l = strip_cr(line);
    assert(l.len() > 0 && l[0] == '`');
    lemma_backtick_start(l);
    assert(l.skip(0) =~= l);
    assert(spec_list_marker_end(l) is None);
    assert(!ws()(line[0]));
    lemma_span(line, ws(), 0);
    crate::text::lemma_rspan_props(line, ws());
    if rspan(line, ws()) == line.len() {
        assert(ws()(line[0]));
    }
}

/// Three backticks followed directly by a plain info string: outside a
/// list this line opens a top-level backtick fence with that info string,
/// and it is no list item.
pub proof fn lemma_backtick_fence_line(line: Seq<char>, info: Seq<char>)
    requires
        backtick_fence_line(line, info),
        plain_info(info),
    ensures
        spec_parse_fence_in_container(line, None) == Some(
            FenceModel { marker: '`', len: 3, info, container_indent: None },
        ),
        spec_list_item_indents(line) is None,
        spec_empty_list_item_indents(line) is None,
        trim(line).len() > 0,
{
    lemma_backtick_fence_parse(line, info);
    lemma_backtick_line_is_no_list_item(line);
}

/// A line that starts with a backtick has no indentation.
pub proof fn lemma_backtick_start(x: Seq<char>)
    requires
        x.len() > 0,
        x[0] == '`',
    ensures
        spec_leading_indent(x) == (0int, 0int),
{
    assert(!sp_tab()(x[0]));
    lemma_span(x, sp_tab(), 0);
    assert(indent_columns(x, 0) == 0);
}

/// A list item's content starts to the right of its marker.
#[verifier::spinoff_prover]
pub proof fn lemma_list_item_columns(line: Seq<char>)
    ensures
        match spec_list_item_indents(line) {
            Some((marker_indent, content_indent)) => marker_indent < content_indent,
            None => true,
        },
{
    reveal(spec_list_item_indents);
    let l = strip_cr(line);
    let rest = l.skip(span(l, sp_tab()));
    if spec_list_marker_end(rest) is Some && rest.len() > 0 && is_digit(rest[0]) {
        lemma_span_props(rest, digit());
    }
}

/// Text appended after a newline does not move the first newline.
#[verifier::spinoff_prover]
pub proof fn lemma_first_index_extend(x: Seq<char>, c: Seq<char>)
    requires
        x.contains('\n'),
    ensures
        first_index(x + c, '\n') == first_index(x, '\n'),
{
    lemma_first_index(x, '\n');
    let e = first_index(x, '\n')->0;
    let y = x + c;
    assert(y.contains('\n')) by {
        assert(y[e] == '\n');
    }
    lemma_span(y, ne('\n'), e);
}

/// A closing fence line found among complete lines is still the first one
/// found once more text follows.
#[verifier::spinoff_prover]
pub proof fn lemma_closing_fence_from_extend(
    input: Seq<char>,
    c: Seq<char>,
    marker: char,
    minimum_len: int,
    container_indent: Option<int>,
    start: int,
)
    requires
        spec_closing_fence_from(input, marker, minimum_len, container_indent, false, start) is Some,
    ensures
        spec_closing_fence_from(input + c, marker, minimum_len, container_indent, false, start)
            == spec_closing_fence_from(input, marker, minimum_len, container_indent, false, start),
    decreases input.len() - start,
{
    reveal(spec_closing_fence_from);
    let y = input + c;
    let newline = first_index(input.skip(start), '\n');
    assert(newline is Some);
    assert(y.skip(start) =~= input.skip(start) + c);
    lemma_first_index(input.skip(start), '\n');
    let o = newline->0;
    assert(input.skip(start).contains('\n')) by {
        assert(input.skip(start)[o] == '\n');
    }
    lemma_first_index_extend(input.skip(start), c);
    let line_end = start + o;
    assert(y.subrange(start, line_end) =~= input.subrange(start, line_end));
    if !spec_is_closing_fence(input.subrange(start, line_end), marker, minimum_len, container_indent) {
        lemma_span_props(input.skip(start), ne('\n'));
        lemma_closing_fence_from_extend(input, c, marker, minimum_len, container_indent, line_end + 1);
    }
}

/// The columns of an indentation depend only on its characters.
#[verifier::spinoff_prover]
proof fn lemma_indent_columns_prefix(s: Seq<char>, t: Seq<char>, n: nat)
    requires
        n <= s.len(),
        n <= t.len(),
        forall|j: int| 0 <= j < n ==> s[j] == t[j],
    ensures
        indent_columns(s, n) == indent_columns(t, n),
    decreases n,
{
    if n > 0 {
        lemma_indent_columns_prefix(s, t, (n - 1) as nat);
    }
}

/// A longer indentation takes at least as many columns.
#[verifier::spinoff_prover]
proof fn lemma_indent_columns_monotone(s: Seq<char>, n1: nat, n2: nat)
    requires
        n1 <= n2,
    ensures
        indent_columns(s, n1) <= indent_columns(s, n2),
    decreases n2,
{
    if n1 < n2 {
        lemma_indent_columns_monotone(s, n1, (n2 - 1) as nat);
        let c = indent_columns(s, (n2 - 1) as nat);
        assert(c % 4 < 4);
    }
}

/// Whether more text could still make a fence line: a prefix of a
/// possible fence line is one too.
#[verifier::spinoff_prover]
pub(crate) proof fn lemma_fence_prefix_take(r: Seq<char>, j: int)
    requires
        spec_could_be_fence_prefix(r),
        1 <= j <= r.len(),
    ensures
        spec_could_be_fence_prefix(r.take(j)),
{
    let q = r.take(j);
    let m = r[0];
    assert(q[0] == m);
    lemma_span_props(r, eq(m));
    lemma_span_take(r, eq(m), j);
    let ml = span(r, eq(m));
    if ml < 3 {
        assert(ml == r.len());
    } else if j <= ml {
        assert(q.skip(j) =~= Seq::<char>::empty());
    } else {
        assert(q.skip(ml) =~= r.skip(ml).take(j - ml));
        if m == '`' && q.skip(ml).contains('`') {
            let i = choose|i: int| 0 <= i < q.skip(ml).len() && q.skip(ml)[i] == '`';
            assert(r.skip(ml)[i] == '`');
        }
    }
}

/// A prefix of a list marker's line keeps the marker once it reaches the
/// marker's end, and is a run of at most nine digits before that.
#[verifier::spinoff_prover]
proof fn lemma_marker_end_take(r: Seq<char>, j: int)
    requires
        spec_list_marker_end(r) is Some,
        1 <= j <= r.len(),
    ensures
        j >= spec_list_marker_end(r)->0 ==> spec_list_marker_end(r.take(j)) == spec_list_marker_end(
            r,
        ),
        j < spec_list_marker_end(r)->0 ==> is_digit(r[0]) && span(r.take(j), digit()) == j && j
            <= 9,
{
    let q = r.take(j);
    assert(q[0] == r[0]);
    if is_digit(r[0]) {
        lemma_span_props(r, digit());
        lemma_span_take(r, digit(), j);
        let d = span(r, digit());
        if j > d {
            assert(q[d] == r[d]);
        }
    }
}

/// Whether more text could still make a list item that opens a fence: a
/// prefix of such a line is one too.
#[verifier::spinoff_prover]
pub(crate) proof fn lemma_list_fence_take(r: Seq<char>, j: int)
    requires
        spec_could_be_list_fence(r),
        1 <= j <= r.len(),
    ensures
        spec_could_be_list_fence(r.take(j)),
{
    let q = r.take(j);
    assert(q[0] == r[0]);
    if is_digit(r[0]) {
        lemma_span_props(r, digit());
        lemma_span_take(r, digit(), j);
    }
    if !(is_digit(r[0]) && span(r, digit()) == r.len()) {
        let me = spec_list_marker_end(r)->0;
        lemma_marker_end_take(r, j);
        if j > me {
            let ws = span(r.skip(me), eq(' '));
            lemma_span_props(r.skip(me), eq(' '));
            assert(q.skip(me) =~= r.skip(me).take(j - me));
            lemma_span_take(r.skip(me), eq(' '), j - me);
            if j - me > ws {
                assert(q.skip(me + ws) =~= r.skip(me + ws).take(j - me - ws));
                lemma_fence_prefix_take(r.skip(me + ws), j - me - ws);
            } else {
                assert(q.skip(me + (j - me)) =~= Seq::<char>::empty());
            }
        }
    }
}

/// `strip_cr(line)` is a prefix of `line` that keeps all but a final
/// carriage return.
#[verifier::spinoff_prover]
proof fn lemma_strip_cr_take(line: Seq<char>)
    ensures
        forall|t: int| 0 <= t < strip_cr(line).len() ==> #[trigger] strip_cr(line)[t] == line[t],
        strip_cr(line).len() == line.len() || (strip_cr(line).len() == line.len() - 1
            && line.last() == '\r'),
{
}

/// The parts of an empty list item's line: its indentation, and a marker
/// followed by nothing but spaces and tabs.
#[verifier::spinoff_prover]
proof fn lemma_empty_item_parts(line: Seq<char>)
    requires
        spec_empty_list_item_indents(line) is Some,
    ensures
        ({
            let l = strip_cr(line);
            let i = span(line, sp_tab());
            &&& (forall|t: int| 0 <= t < l.len() ==> #[trigger] l[t] == line[t])
            &&& l.len() <= line.len() <= l.len() + 1
            &&& i < l.len()
            &&& span(l, sp_tab()) == i
            &&& indent_columns(l, i as nat) <= 3
            &&& spec_list_marker_end(l.skip(i)) is Some
            &&& all_in(l.skip(i).skip(spec_list_marker_end(l.skip(i))->0), sp_tab())
        }),
{
    reveal(spec_empty_list_item_indents);
    let l = strip_cr(line);
    lemma_strip_cr_take(line);
    let i = span(line, sp_tab());
    lemma_span_props(line, sp_tab());
    lemma_span_take(line, sp_tab(), l.len() as int);
    let il = span(l, sp_tab());
    assert(il == i) by {
        if il != i {
            assert(i == line.len() - 1 && l.len() == i);
            assert(l.skip(il).len() == 0);
        }
    }
    if i >= l.len() {
        assert(l.skip(il).len() == 0);
    }
}

/// A prefix of an empty list item's line that reaches past its marker is
/// an empty list item.
#[verifier::spinoff_prover]
proof fn lemma_empty_item_prefix(l: Seq<char>, i: int, k: int)
    requires
        i == span(l, sp_tab()),
        indent_columns(l, i as nat) <= 3,
        spec_list_marker_end(l.skip(i)) is Some,
        all_in(l.skip(i).skip(spec_list_marker_end(l.skip(i))->0), sp_tab()),
        i + spec_list_marker_end(l.skip(i))->0 <= k <= l.len(),
    ensures
        spec_empty_list_item_indents(l.take(k)) is Some,
{
    reveal(spec_empty_list_item_indents);
    let rest = l.skip(i);
    let me = spec_list_marker_end(rest)->0;
    let p = l.take(k);
    let j = k - i;
    lemma_span_props(l, sp_tab());
    lemma_span_props(rest, digit());
    assert(me >= 1);
    lemma_span_take(l, sp_tab(), k);
    lemma_indent_columns_prefix(p, l, i as nat);
    lemma_marker_end_take(rest, j);
    assert(p.skip(i) =~= rest.take(j));
    assert(p.last() == rest[j - 1]);
    if j - 1 >= me {
        assert(sp_tab()(rest.skip(me)[j - 1 - me]));
    }
    assert(strip_cr(p) == p);
    assert forall|t: int| 0 <= t < rest.take(j).skip(me).len() implies #[trigger] sp_tab()(
        rest.take(j).skip(me)[t],
    ) by {
        assert(rest.take(j).skip(me)[t] == rest.skip(me)[t]);
    }
}

/// A prefix of an empty list item's line, past its indentation, is still
/// an empty list item, or the digits of its marker.
#[verifier::spinoff_prover]
proof fn lemma_empty_item_take(line: Seq<char>, k: int)
    requires
        spec_empty_list_item_indents(line) is Some,
        span(line, sp_tab()) < k < line.len(),
    ensures
        spec_empty_list_item_indents(line.take(k)) is Some || spec_could_be_list_fence(
            line.take(k).skip(span(line, sp_tab())),
        ),
{
    lemma_empty_item_parts(line);
    lemma_span_props(line, sp_tab());
    let l = strip_cr(line);
    let i = span(line, sp_tab());
    let rest = l.skip(i);
    let p = line.take(k);
    assert(k <= l.len());
    assert(p =~= l.take(k));
    let j = k - i;
    assert(1 <= j <= rest.len());
    let me = spec_list_marker_end(rest)->0;
    lemma_marker_end_take(rest, j);
    if j >= me {
        lemma_empty_item_prefix(l, i, k);
    } else {
        let q = p.skip(i);
        assert(q =~= rest.take(j));
        assert(q[0] == rest[0]);
    }
}

/// A prefix of a line that could be a thematic break, past its
/// indentation, could still be one, or an empty list item, or a marker.
#[verifier::spinoff_prover]
proof fn lemma_thematic_take(line: Seq<char>, k: int)
    requires
        spec_is_list_thematic_break_candidate(line),
        span(line, sp_tab()) < k < line.len(),
    ensures
        spec_is_list_thematic_break_candidate(line.take(k)) || spec_could_be_list_fence(
            line.take(k).skip(span(line, sp_tab())),
        ),
{
    let l = strip_cr(line);
    lemma_strip_cr_take(line);
    let i = span(line, sp_tab());
    lemma_span_props(line, sp_tab());
    lemma_span_take(line, sp_tab(), l.len() as int);
    let il = span(l, sp_tab());
    let rest = l.skip(il);
    assert(il == i) by {
        if il != i {
            assert(i == line.len() - 1 && l.len() == i);
            assert(rest.len() == 0);
        }
    }
    let p = line.take(k);
    assert(p =~= l.take(k));
    let j = k - i;
    let b = rest[0];
    lemma_span_props(rest.skip(1), eq(' '));
    assert(spec_list_marker_end(rest) == Some(1int));
    assert(rest.len() >= 2 && rest[1] == ' ') by {
        assert(span(rest.skip(1), eq(' ')) >= 1);
        assert(eq(' ')(rest.skip(1)[0]));
    }
    assert(p.skip(i) =~= rest.take(j));
    if j >= 2 {
        let pl = strip_cr(p);
        lemma_strip_cr_take(p);
        let k2 = pl.len() as int;
        assert(k2 >= i + 2) by {
            if k2 < k {
                assert(p.last() == '\r');
                assert(p[k - 1] == rest[j - 1]);
                if j == 2 {
                    assert(rest[1] == ' ');
                }
            }
        }
        assert(pl =~= l.take(k2));
        lemma_span_take(l, sp_tab(), k2);
        lemma_indent_columns_prefix(pl, l, i as nat);
        let rp = pl.skip(i);
        assert(rp =~= rest.take(k2 - i));
        lemma_marker_end_take(rest, k2 - i);
        assert(rp.skip(1) =~= rest.skip(1).take(k2 - i - 1));
        lemma_span_take(rest.skip(1), eq(' '), k2 - i - 1);
        assert forall|t: int| 0 <= t < rp.len() implies #[trigger] rule_pad(rp[0])(rp[t]) by {
            assert(rp[t] == rest[t]);
            assert(rule_pad(b)(rest[t]));
        }
    } else {
        assert(rest.take(j) =~= seq![b]);
    }
}

/// Whether an unfinished line could still change how the stream is read
/// (outside any fence): if it could, so could each of its prefixes.
#[verifier::spinoff_prover]
pub proof fn lemma_control_line_take(line: Seq<char>, k: int)
    requires
        spec_could_be_control_line(line, None, None),
        0 <= k <= line.len(),
    ensures
        spec_could_be_control_line(line.take(k), None, None),
{
    reveal(spec_could_be_control_line);
    if k < line.len() {
        let p = line.take(k);
        lemma_span_props(line, sp_tab());
        lemma_span_take(line, sp_tab(), k);
        let i = span(line, sp_tab());
        if i >= k {
            lemma_indent_columns_prefix(p, line, k as nat);
            lemma_indent_columns_monotone(line, k as nat, i as nat);
            assert(p.skip(k) =~= Seq::<char>::empty());
        } else {
            lemma_indent_columns_prefix(p, line, i as nat);
            let rest = line.skip(i);
            let j = k - i;
            assert(p.skip(i) =~= rest.take(j));
            if rest.len() == 1 && rest[0] == '$' {
                assert(false);
            } else if spec_could_be_fence_prefix(rest) {
                lemma_fence_prefix_take(rest, j);
            } else if spec_empty_list_item_indents(line) is Some {
                lemma_empty_item_take(line, k);
            } else if spec_is_list_thematic_break_candidate(line) {
                lemma_thematic_take(line, k);
            } else {
                lemma_list_fence_take(rest, j);
            }
        }
    } else {
        assert(line.take(k) =~= line);
    }
}

/// Whether an unfinished line inside a fence could still close it: if it
/// could, so could each of its prefixes.
#[verifier::spinoff_prover]
pub proof fn lemma_closing_candidate_take(
    line: Seq<char>,
    marker: char,
    container_indent: Option<int>,
    k: int,
)
    requires
        spec_could_be_control_line(line, Some(marker), container_indent),
        0 <= k <= line.len(),
    ensures
        spec_could_be_control_line(line.take(k), Some(marker), container_indent),
{
    reveal(spec_could_be_control_line);
    if k < line.len() {
        let p = line.take(k);
        lemma_span_props(line, sp_tab());
        lemma_span_take(line, sp_tab(), k);
        let i = span(line, sp_tab());
        if i >= k {
            lemma_indent_columns_prefix(p, line, k as nat);
            lemma_indent_columns_monotone(line, k as nat, i as nat);
            assert(p.skip(k) =~= Seq::<char>::empty());
            lemma_span(p.skip(k), eq(marker), 0);
        } else {
            lemma_indent_columns_prefix(p, line, i as nat);
            let rest = line.skip(i);
            let j = k - i;
            assert(p.skip(i) =~= rest.take(j));
            lemma_span_props(rest, eq(marker));
            lemma_span_take(rest, eq(marker), j);
            let ml = span(rest, eq(marker));
            if j > ml {
                assert(rest.take(j).skip(ml) =~= rest.skip(ml).take(j - ml));
                assert forall|t: int| 0 <= t < rest.take(j).skip(ml).len() implies #[trigger] pad()(
                    rest.take(j).skip(ml)[t],
                ) by {
                    assert(rest.take(j).skip(ml)[t] == rest.skip(ml)[t]);
                }
            }
        }
    } else {
        assert(line.take(k) =~= line);
    }
}

/// A line that closes a fence is one that, unfinished, could still close
/// it.
#[verifier::spinoff_prover]
pub proof fn lemma_closing_fence_is_candidate(
    line: Seq<char>,
    marker: char,
    minimum_len: int,
    container_indent: Option<int>,
)
    requires
        spec_is_closing_fence(line, marker, minimum_len, container_indent),
    ensures
        spec_could_be_control_line(line, Some(marker), container_indent),
{
    reveal(spec_is_closing_fence);
    reveal(spec_could_be_control_line);
    let l = strip_cr(line);
    lemma_strip_cr_take(line);
    let mi = match container_indent {
        Some(c) => c,
        None => 0,
    };
    let il = span(l, sp_tab());
    lemma_span_props(l, sp_tab());
    let restl = l.skip(il);
    let len = span(restl, eq(marker));
    lemma_span_props(restl, eq(marker));
    assert(restl.len() > 0 && restl[0] == marker);
    lemma_trim_by_empty(restl.skip(len), pad());
    lemma_span_take(line, sp_tab(), l.len() as int);
    assert(l =~= line.take(l.len() as int));
    let i = span(line, sp_tab());
    assert(i == il);
    lemma_indent_columns_prefix(l, line, i as nat);
    let rest = line.skip(i);
    assert(forall|t: int| 0 <= t < restl.len() ==> #[trigger] rest[t] == restl[t]);
    assert(marker == '`' || marker == '~');
    if len < rest.len() {
        assert(!eq(marker)(rest[len])) by {
            if len < restl.len() {
                assert(rest[len] == restl[len]);
            } else {
                assert(rest[len] == '\r');
            }
        }
    }
    assert forall|t: int| 0 <= t < len implies #[trigger] eq(marker)(rest[t]) by {
        assert(eq(marker)(restl[t]));
    }
    lemma_span(rest, eq(marker), len);
    assert forall|t: int| 0 <= t < rest.skip(len).len() implies #[trigger] pad()(
        rest.skip(len)[t],
    ) by {
        if len + t < restl.len() {
            assert(rest.skip(len)[t] == restl.skip(len)[t]);
        } else {
            assert(rest.skip(len)[t] == '\r');
        }
    }
}

/// Trimming keeps every character that is not trimmed.
#[verifier::spinoff_prover]
proof fn lemma_trim_by_keeps(s: Seq<char>, p: spec_fn(char) -> bool, t: int)
    requires
        0 <= t < s.len(),
        !p(s[t]),
    ensures
        trim_by(s, p).contains(s[t]),
{
    lemma_span_props(s, p);
    lemma_rspan_props(s, p);
    let a = span(s, p);
    let r = rspan(s, p);
    if t < a {
        assert(p(s[t]));
    }
    if t >= s.len() - r {
        assert(p(s[t]));
    }
    assert(a < s.len());
    let m = trim_by(s, p);
    assert(m == s.subrange(a, s.len() - r));
    assert(m[t - a] == s[t]);
}

/// The text of a fence opening, with or without a carriage return after
/// it, is one that more text could still make a fence line.
#[verifier::spinoff_prover]
pub(crate) proof fn lemma_fence_marker_is_prefix(rest: Seq<char>, x: Seq<char>, container_indent: Option<int>)
    requires
        spec_parse_fence_marker(rest, container_indent) is Some,
        x.len() == rest.len() || (x.len() == rest.len() + 1 && x.last() == '\r'),
        forall|t: int| 0 <= t < rest.len() ==> #[trigger] x[t] == rest[t],
    ensures
        spec_could_be_fence_prefix(x),
{
    let m = rest[0];
    let len = span(rest, eq(m));
    lemma_span_props(rest, eq(m));
    assert(x[0] == m);
    assert forall|t: int| 0 <= t < len implies #[trigger] eq(m)(x[t]) by {
        assert(eq(m)(rest[t]));
    }
    if len < x.len() {
        if len < rest.len() {
            assert(x[len] == rest[len]);
        } else {
            assert(x[len] == '\r');
        }
    }
    lemma_span(x, eq(m), len);
    if m == '`' && x.skip(len).contains('`') {
        let t = choose|t: int| 0 <= t < x.skip(len).len() && x.skip(len)[t] == '`';
        if len + t < rest.len() {
            assert(rest.skip(len)[t] == '`');
            lemma_trim_by_keeps(rest.skip(len), pad(), t);
        } else {
            assert(x[len + t] == '\r');
        }
    }
}

/// A list marker read on a longer line is the same marker.
#[verifier::spinoff_prover]
proof fn lemma_marker_end_extend(r: Seq<char>, x: Seq<char>)
    requires
        spec_list_marker_end(r) is Some,
        spec_list_marker_end(r)->0 <= r.len(),
        r.len() <= x.len(),
        forall|t: int| 0 <= t < r.len() ==> #[trigger] x[t] == r[t],
    ensures
        spec_list_marker_end(x) == spec_list_marker_end(r),
        !(is_digit(x[0]) && span(x, digit()) == x.len()),
{
    assert(x[0] == r[0]);
    if is_digit(r[0]) {
        lemma_span_props(r, digit());
        let d = span(r, digit());
        assert(x[d] == r[d]);
        assert forall|t: int| 0 <= t < d implies #[trigger] digit()(x[t]) by {
            assert(digit()(r[t]));
        }
        lemma_span(x, digit(), d);
    }
}

/// A list marker followed by a fence opening, with or without a carriage
/// return after it, is one that more text could still make such a line.
#[verifier::spinoff_prover]
pub(crate) proof fn lemma_list_fence_opening(restl: Seq<char>, rest: Seq<char>, container: int)
    requires
        spec_list_marker_width(restl) is Some,
        spec_parse_fence_marker(
            restl.skip(spec_list_marker_width(restl)->0),
            Some(container),
        ) is Some,
        rest.len() == restl.len() || (rest.len() == restl.len() + 1 && rest.last() == '\r'),
        forall|t: int| 0 <= t < restl.len() ==> #[trigger] rest[t] == restl[t],
    ensures
        spec_could_be_list_fence(rest),
{
    let w = spec_list_marker_width(restl)->0;
    let me = spec_list_marker_end(restl)->0;
    let ws = span(restl.skip(me), eq(' '));
    lemma_span_props(restl, digit());
    assert(1 <= me <= restl.len());
    lemma_span_props(restl.skip(me), eq(' '));
    assert(w == me + ws && w <= restl.len());
    assert(restl.skip(w).len() > 0);
    lemma_marker_end_extend(restl, rest);
    assert(rest.skip(me)[ws] == restl.skip(me)[ws]);
    assert forall|t: int| 0 <= t < ws implies #[trigger] eq(' ')(rest.skip(me)[t]) by {
        assert(eq(' ')(restl.skip(me)[t]));
        assert(rest.skip(me)[t] == restl.skip(me)[t]);
    }
    lemma_span(rest.skip(me), eq(' '), ws);
    assert(forall|t: int|
        0 <= t < restl.skip(w).len() ==> #[trigger] rest.skip(w)[t] == restl.skip(w)[t]);
    lemma_fence_marker_is_prefix(restl.skip(w), rest.skip(w), Some(container));
}

/// A line that opens a top-level fence (directly, or right after a list
/// marker) is one that, unfinished, the parser holds back.
#[verifier::spinoff_prover]
pub proof fn lemma_fence_line_is_candidate(line: Seq<char>)
    requires
        spec_parse_fence(line) is Some,
    ensures
        spec_could_be_control_line(line, None, None),
{
    let l = strip_cr(line);
    lemma_strip_cr_take(line);
    lemma_span_props(l, sp_tab());
    let il = span(l, sp_tab());
    let restl = l.skip(il);
    assert(il < l.len()) by {
        if il >= l.len() {
            assert(restl.len() == 0);
            assert(spec_list_marker_end(restl) is None);
        }
    }
    lemma_span_take(line, sp_tab(), l.len() as int);
    assert(l =~= line.take(l.len() as int));
    lemma_indent_columns_prefix(l, line, il as nat);
    let rest = line.skip(il);
    assert(forall|t: int| 0 <= t < restl.len() ==> #[trigger] rest[t] == restl[t]);
    assert(rest.len() == restl.len() || (rest.len() == restl.len() + 1 && rest.last() == '\r'));
    let cols = indent_columns(l, il as nat);
    assert(spec_leading_indent(l) == (il, cols));
    assert(cols <= 3);
    if spec_parse_direct_fence(l, 0, 3, None) is Some {
        lemma_fence_marker_is_prefix(restl, rest, None);
    } else {
        lemma_list_fence_opening(restl, rest, cols + spec_list_marker_width(restl)->0);
    }
    assert(spec_leading_indent(line) == (il, cols));
    assert(spec_could_be_fence_prefix(rest) || spec_could_be_list_fence(rest));
    assert(spec_leading_indent(line).0 == il && spec_leading_indent(line).1 == cols);
    lemma_indent_columns_monotone(line, 0, il as nat);
    assert(spec_could_be_control_line(line, None, None)) by {
        reveal(spec_could_be_control_line);
    }
}

/// A line with more than indentation before its end (a final carriage
/// return aside) has the indentation of its stripped form.
#[verifier::spinoff_prover]
proof fn lemma_indent_of_stripped(line: Seq<char>)
    requires
        span(strip_cr(line), sp_tab()) < strip_cr(line).len(),
    ensures
        spec_leading_indent(line) == spec_leading_indent(strip_cr(line)),
        spec_leading_indent(line).1 >= 0,
{
    let l = strip_cr(line);
    lemma_strip_cr_take(line);
    lemma_span_props(l, sp_tab());
    let il = span(l, sp_tab());
    lemma_span_take(line, sp_tab(), l.len() as int);
    assert(l =~= line.take(l.len() as int));
    lemma_indent_columns_prefix(l, line, il as nat);
    lemma_indent_columns_monotone(line, 0, il as nat);
}

/// An empty list item's line is one the parser holds back.
#[verifier::spinoff_prover]
pub proof fn lemma_empty_item_is_candidate(line: Seq<char>)
    requires
        spec_empty_list_item_indents(line) is Some,
    ensures
        spec_could_be_control_line(line, None, None),
{
    lemma_empty_item_parts(line);
    lemma_indent_of_stripped(line);
    assert(spec_could_be_control_line(line, None, None)) by {
        reveal(spec_could_be_control_line);
    }
}

/// A line that could be a thematic break is one the parser holds back.
#[verifier::spinoff_prover]
pub proof fn lemma_thematic_is_candidate(line: Seq<char>)
    requires
        spec_is_list_thematic_break_candidate(line),
    ensures
        spec_could_be_control_line(line, None, None),
{
    let l = strip_cr(line);
    lemma_span_props(l, sp_tab());
    let il = span(l, sp_tab());
    assert(il < l.len()) by {
        if il >= l.len() {
            assert(l.skip(il).len() == 0);
        }
    }
    lemma_indent_of_stripped(line);
    assert(spec_could_be_control_line(line, None, None)) by {
        reveal(spec_could_be_control_line);
    }
}

/// What completes a possible fence opening into one: the markers still
/// missing to make three, or nothing.
pub open spec fn fence_completion(rest: Seq<char>) -> Seq<char> {
    if span(rest, eq(rest[0])) < 3 {
        Seq::new((3 - span(rest, eq(rest[0]))) as nat, |i: int| rest[0])
    } else {
        Seq::empty()
    }
}

/// A possible fence opening, completed by `fence_completion`, opens a
/// fence.
#[verifier::spinoff_prover]
pub proof fn lemma_fence_completion(rest: Seq<char>)
    requires
        spec_could_be_fence_prefix(rest),
    ensures
        spec_parse_fence_marker(rest + fence_completion(rest), None) is Some,
        !fence_completion(rest).contains('\n'),
        fence_completion(rest).len() <= 3,
{
    let m = rest[0];
    lemma_span_props(rest, eq(m));
    let ml = span(rest, eq(m));
    let c = fence_completion(rest);
    let x = rest + c;
    if ml < 3 {
        assert(ml == rest.len());
        assert(x.len() == 3);
        assert forall|t: int| 0 <= t < 3 implies #[trigger] eq(m)(x[t]) by {
            if t < rest.len() {
                assert(eq(m)(rest[t]));
            }
        }
        lemma_span(x, eq(m), 3);
        assert(x.skip(3) =~= Seq::<char>::empty());
        lemma_span(x.skip(3), pad(), 0);
        assert(trim_by(x.skip(3), pad()) =~= Seq::<char>::empty());
        if c.contains('\n') {
            let k = choose|k: int| 0 <= k < c.len() && c[k] == '\n';
            assert(c[k] == m);
        }
    } else {
        assert(x =~= rest);
        if m == '`' {
            crate::text::lemma_trim_by_subset(rest.skip(ml), pad(), '`');
        }
        assert(c.len() == 0);
    }
}

/// A list marker, the spaces after it, and a fence opening: a list item
/// that opens a fence.
pub open spec fn opens_list_fence(line: Seq<char>) -> bool {
    &&& spec_list_marker_width(line) is Some
    &&& spec_parse_fence_marker(line.skip(spec_list_marker_width(line)->0), None) is Some
}

/// What completes a possible list item opening a fence into one: `. ```` `
/// after digits, ` ```` ` after a marker, ```` ``` ```` after the spaces that
/// follow it, or what completes the fence opening begun after them.
pub open spec fn list_fence_completion(line: Seq<char>) -> Seq<char> {
    if is_digit(line[0]) && span(line, digit()) == line.len() {
        seq!['.', ' ', '`', '`', '`']
    } else {
        let marker_end = spec_list_marker_end(line)->0;
        if marker_end == line.len() {
            seq![' ', '`', '`', '`']
        } else {
            let rest = line.skip(marker_end + span(line.skip(marker_end), eq(' ')));
            if rest.len() == 0 {
                seq!['`', '`', '`']
            } else {
                fence_completion(rest)
            }
        }
    }
}

/// Three backticks open a fence.
proof fn lemma_three_backticks(r: Seq<char>)
    requires
        r == seq!['`', '`', '`'],
    ensures
        spec_parse_fence_marker(r, None) is Some,
{
    lemma_span(r, eq('`'), 3);
    assert(r.skip(3) =~= Seq::<char>::empty());
    lemma_span(r.skip(3), pad(), 0);
    assert(trim_by(r.skip(3), pad()) =~= Seq::<char>::empty());
}

/// A line whose marker ends at `marker_end`, followed by `spaces` spaces
/// and then `tail`, which opens a fence, is a list item opening a fence.
#[verifier::spinoff_prover]
proof fn lemma_opens_list_fence_parts(x: Seq<char>, marker_end: int, spaces: int)
    requires
        spec_list_marker_end(x) == Some(marker_end),
        1 <= marker_end,
        1 <= spaces <= 4,
        marker_end + spaces < x.len(),
        forall|t: int| marker_end <= t < marker_end + spaces ==> #[trigger] x[t] == ' ',
        x[marker_end + spaces] != ' ',
        spec_parse_fence_marker(x.skip(marker_end + spaces), None) is Some,
    ensures
        opens_list_fence(x),
        spec_list_marker_width(x) == Some(marker_end + spaces),
{
    let r = x.skip(marker_end);
    assert forall|t: int| 0 <= t < spaces implies #[trigger] eq(' ')(r[t]) by {
        assert(r[t] == x[marker_end + t]);
    }
    assert(r[spaces] == x[marker_end + spaces]);
    lemma_span(r, eq(' '), spaces);
}

/// A run of at most nine digits, completed by `. ```` `, is a list item
/// opening a fence.
#[verifier::spinoff_prover]
proof fn lemma_digits_completion(line: Seq<char>)
    requires
        1 <= line.len() <= 9,
        is_digit(line[0]),
        span(line, digit()) == line.len(),
    ensures
        opens_list_fence(line + seq!['.', ' ', '`', '`', '`']),
{
    let c = seq!['.', ' ', '`', '`', '`'];
    let x = line + c;
    let d = line.len() as int;
    lemma_span_props(line, digit());
    assert forall|j: int| 0 <= j < d implies #[trigger] digit()(x[j]) by {
        assert(x[j] == line[j]);
        assert(digit()(line[j]));
    }
    assert(x[d] == '.');
    lemma_span(x, digit(), d);
    assert(x[0] == line[0]);
    assert(spec_list_marker_end(x) == Some(d + 1));
    assert(x[d + 1] == ' ');
    assert(x[d + 2] == '`');
    assert(x.skip(d + 2) =~= seq!['`', '`', '`']);
    lemma_three_backticks(x.skip(d + 2));
    lemma_opens_list_fence_parts(x, d + 1, 1);
}

/// A complete list marker, completed by ` ```` `, is a list item opening a
/// fence.
#[verifier::spinoff_prover]
proof fn lemma_marker_completion(line: Seq<char>)
    requires
        spec_list_marker_end(line) == Some(line.len() as int),
    ensures
        opens_list_fence(line + seq![' ', '`', '`', '`']),
{
    let c = seq![' ', '`', '`', '`'];
    let x = line + c;
    let n = line.len() as int;
    lemma_marker_end_extend(line, x);
    assert(x[n] == ' ');
    assert(x[n + 1] == '`');
    assert(x.skip(n + 1) =~= seq!['`', '`', '`']);
    lemma_three_backticks(x.skip(n + 1));
    lemma_opens_list_fence_parts(x, n, 1);
}

/// A list marker and its spaces, completed by what opens a fence after
/// them, are a list item opening a fence.
#[verifier::spinoff_prover]
proof fn lemma_after_spaces_completion(line: Seq<char>)
    requires
        spec_list_marker_end(line) is Some,
        spec_list_marker_end(line)->0 < line.len(),
        ({
            let me = spec_list_marker_end(line)->0;
            let ws = span(line.skip(me), eq(' '));
            let rest = line.skip(me + ws);
            1 <= ws <= 4 && (rest.len() == 0 || spec_could_be_fence_prefix(rest))
        }),
    ensures
        opens_list_fence(line + list_fence_completion(line)),
        !list_fence_completion(line).contains('\n'),
{
    let me = spec_list_marker_end(line)->0;
    let ws = span(line.skip(me), eq(' '));
    let rest = line.skip(me + ws);
    let c = list_fence_completion(line);
    let x = line + c;
    lemma_span_props(line, digit());
    assert(!(is_digit(line[0]) && span(line, digit()) == line.len()));
    lemma_span_props(line.skip(me), eq(' '));
    lemma_marker_end_extend(line, x);
    assert forall|t: int| me <= t < me + ws implies #[trigger] x[t] == ' ' by {
        assert(x[t] == line.skip(me)[t - me]);
        assert(eq(' ')(line.skip(me)[t - me]));
    }
    if rest.len() == 0 {
        assert(c == seq!['`', '`', '`']);
        assert(me + ws == line.len());
        assert(x[me + ws] == '`');
        assert(x.skip(me + ws) =~= seq!['`', '`', '`']);
        lemma_three_backticks(x.skip(me + ws));
        if c.contains('\n') {
            let k = choose|k: int| 0 <= k < c.len() && c[k] == '\n';
            assert(c[k] == '`');
        }
    } else {
        assert(c == fence_completion(rest));
        lemma_fence_completion(rest);
        assert(x[me + ws] == rest[0]);
        assert(x.skip(me + ws) =~= rest + c);
    }
    lemma_opens_list_fence_parts(x, me, ws);
}

/// A possible list item opening a fence, completed by
/// `list_fence_completion`, is one; the completion holds no newline.
pub proof fn lemma_list_fence_completion(line: Seq<char>)
    requires
        spec_could_be_list_fence(line),
    ensures
        opens_list_fence(line + list_fence_completion(line)),
        !list_fence_completion(line).contains('\n'),
{
    let c = list_fence_completion(line);
    if is_digit(line[0]) && span(line, digit()) == line.len() {
        lemma_digits_completion(line);
        assert(c == seq!['.', ' ', '`', '`', '`']);
    } else if spec_list_marker_end(line)->0 == line.len() {
        lemma_marker_completion(line);
        assert(c == seq![' ', '`', '`', '`']);
    } else {
        lemma_after_spaces_completion(line);
    }
    if c.contains('\n') {
        let k = choose|k: int| 0 <= k < c.len() && c[k] == '\n';
        assert(c[k] != '\n');
    }
}

/// A line that some continuation makes a list item opening a fence is a
/// possible one.
pub proof fn lemma_list_fence_prefix(line: Seq<char>, t: Seq<char>)
    requires
        line.len() > 0,
        opens_list_fence(line + t),
    ensures
        spec_could_be_list_fence(line),
{
    let x = line + t;
    let w = spec_list_marker_width(x)->0;
    assert(spec_parse_fence_marker(x.skip(w), Some(0)) is Some);
    lemma_list_fence_opening(x, x, 0);
    lemma_list_fence_take(x, line.len() as int);
    assert(x.take(line.len() as int) =~= line);
}

/// The range a closing fence search reports lies within `input`, starts a
/// line, and (when only newline-terminated lines count) is not empty.
pub proof fn lemma_closing_fence_range_bounds(
    input: Seq<char>,
    marker: char,
    minimum_len: int,
    container_indent: Option<int>,
    allow_end_of_stream: bool,
    start: int,
)
    requires
        0 <= start <= input.len(),
        start == 0 || input[start - 1] == '\n',
    ensures
        match spec_closing_fence_from(
            input,
            marker,
            minimum_len,
            container_indent,
            allow_end_of_stream,
            start,
        ) {
            Some((a, b)) => start <= a <= b <= input.len() && (a == 0 || input[a - 1] == '\n') && (
            !allow_end_of_stream ==> a < b && input[b - 1] == '\n'),
            None => true,
        },
    decreases input.len() - start,
{
    reveal(spec_closing_fence_from);
    lemma_first_index(input.skip(start), '\n');
    let newline = first_index(input.skip(start), '\n');
    if newline is None && !allow_end_of_stream {
    } else {
        let line_end = match newline {
            Some(o) => start + o,
            None => input.len() as int,
        };
        if line_end < input.len() {
            assert(input[line_end] == input.skip(start)[line_end - start]);
        }
        if !spec_is_closing_fence(
            input.subrange(start, line_end),
            marker,
            minimum_len,
            container_indent,
        ) && line_end < input.len() {
            assert(input[line_end] == '\n');
            lemma_closing_fence_range_bounds(
                input,
                marker,
                minimum_len,
                container_indent,
                allow_end_of_stream,
                line_end + 1,
            );
        }
    }
}

// ---------------------------------------------------------------------------
// Executable classifiers
// ---------------------------------------------------------------------------

/// `(characters, columns)` of the indentation that starts `line`.
pub fn leading_indent(line: &[char]) -> (r: (usize, usize))
    requires
        fits(line@.len() as int),
    ensures
        r.0 as int == spec_leading_indent(line@).0,
        r.1 as int == spec_leading_indent(line@).1,
        r.0 <= line@.len(),
        r.1 <= 4 * r.0,
{
    let mut bytes: usize = 0;
    let mut columns: usize = 0;
    while bytes < line.len() && (line[bytes] == ' ' || line[bytes] == '\t')
        invariant
            bytes <= line@.len(),
            fits(line@.len() as int),
            forall|j: int| 0 <= j < bytes ==> #[trigger] sp_tab()(line@[j]),
            columns as int == indent_columns(line@, bytes as nat),
            columns <= 4 * bytes,
        decreases line@.len() - bytes,
    {
        if line[bytes] == ' ' {
            columns = columns + 1;
        } else {
            columns = columns + (4 - columns % 4);
        }
        bytes = bytes + 1;
    }
    proof {
        lemma_span(line@, sp_tab(), bytes as int);
    }
    (bytes, columns)
}

pub fn parse_fence_marker(rest: &[char], container_indent: Option<usize>) -> (r: Option<Fence>)
    ensures
        fence_view(r) == spec_parse_fence_marker(rest@, oi(container_indent)),
{
    if rest.len() == 0 || (rest[0] != '`' && rest[0] != '~') {
        return None;
    }
    let marker = rest[0];
    let len = span_eq(rest, marker);
    if len < 3 {
        return None;
    }
    proof {
        lemma_span_props(rest@, eq(marker));
    }
    let after = slice_subrange(rest, len, rest.len());
    assert(after@ =~= rest@.skip(len as int));
    let (a, b) = trim_pad_range(after);
    let info = copy_range(after, a, b);
    if marker == '`' && contains_char(info.as_slice(), '`') {
        return None;
    }
    Some(Fence { marker, len, info, container_indent })
}

pub fn parse_direct_fence(
    line: &[char],
    minimum_indent: usize,
    maximum_indent: usize,
    container_indent: Option<usize>,
) -> (r: Option<Fence>)
    requires
        fits(line@.len() as int),
    ensures
        fence_view(r) == spec_parse_direct_fence(
            line@,
            minimum_indent as int,
            maximum_indent as int,
            oi(container_indent),
        ),
{
    let (indent_bytes, indent_columns) = leading_indent(line);
    if indent_columns < minimum_indent || indent_columns > maximum_indent {
        return None;
    }
    let rest = slice_subrange(line, indent_bytes, line.len());
    assert(rest@ =~= line@.skip(indent_bytes as int));
    parse_fence_marker(rest, container_indent)
}

fn list_marker_end(s: &[char]) -> (r: Option<usize>)
    ensures
        oi(r) == spec_list_marker_end(s@),
        match r {
            Some(e) => 1 <= e <= 10 && e <= s@.len(),
            None => true,
        },
{
    if s.len() == 0 {
        return None;
    }
    if s[0] == '-' || s[0] == '+' || s[0] == '*' {
        return Some(1);
    }
    if is_ascii_digit(s[0]) {
        let digits = span_digits(s);
        if digits > 9 || digits >= s.len() || !(s[digits] == '.' || s[digits] == ')') {
            return None;
        }
        return Some(digits + 1);
    }
    None
}

pub fn list_marker_width(line: &[char]) -> (r: Option<usize>)
    ensures
        oi(r) == spec_list_marker_width(line@),
        match r {
            Some(w) => w <= 14 && w <= line@.len(),
            None => true,
        },
{
    let marker_end = match list_marker_end(line) {
        Some(e) => e,
        None => return None,
    };
    let after = slice_subrange(line, marker_end, line.len());
    assert(after@ =~= line@.skip(marker_end as int));
    let whitespace = span_eq(after, ' ');
    proof {
        lemma_span_props(after@, eq(' '));
    }
    if 1 <= whitespace && whitespace <= 4 {
        Some(marker_end + whitespace)
    } else {
        None
    }
}

pub fn empty_list_item_indents(line: &[char]) -> (r: Option<(usize, usize)>)
    requires
        fits(line@.len() as int),
    ensures
        oi2(r) == spec_empty_list_item_indents(line@),
        match r {
            Some(p) => p.0 <= 3 && p.1 <= 14,
            None => true,
        },
{
    reveal(spec_empty_list_item_indents);
    let n = strip_cr_len(line);
    let l = slice_subrange(line, 0, n);
    let (indent_bytes, marker_indent) = leading_indent(l);
    if marker_indent > 3 {
        return None;
    }
    let rest = slice_subrange(l, indent_bytes, l.len());
    assert(rest@ =~= l@.skip(indent_bytes as int));
    let marker_end = match list_marker_end(rest) {
        Some(e) => e,
        None => return None,
    };
    let after = slice_subrange(rest, marker_end, rest.len());
    assert(after@ =~= rest@.skip(marker_end as int));
    if all_sp_tab(after) {
        Some((marker_indent, marker_indent + marker_end + 1))
    } else {
        None
    }
}

pub fn is_list_thematic_break_candidate(line: &[char]) -> (r: bool)
    requires
        fits(line@.len() as int),
    ensures
        r == spec_is_list_thematic_break_candidate(line@),
{
    let n = strip_cr_len(line);
    let l = slice_subrange(line, 0, n);
    let (indent_bytes, marker_indent) = leading_indent(l);
    if marker_indent > 3 {
        return false;
    }
    let rest = slice_subrange(l, indent_bytes, l.len());
    assert(rest@ =~= l@.skip(indent_bytes as int));
    if rest.len() == 0 || !(rest[0] == '*' || rest[0] == '-') {
        return false;
    }
    let marker = rest[0];
    if list_marker_width(rest).is_none() {
        return false;
    }
    all_rule_pad(rest, marker)
}

/// Whether every character of `s` is `marker`, a space, a tab or a carriage
/// return.
fn all_rule_pad(s: &[char], marker: char) -> (r: bool)
    ensures
        r == all_in(s@, rule_pad(marker)),
{
    let mut i: usize = 0;
    while i < s.len()
        invariant
            i <= s@.len(),
            forall|j: int| 0 <= j < i ==> #[trigger] rule_pad(marker)(s@[j]),
        decreases s@.len() - i,
    {
        let ch = s[i];
        if !(ch == marker || ch == ' ' || ch == '\t' || ch == '\r') {
            assert(!rule_pad(marker)(s@[i as int]));
            return false;
        }
        i = i + 1;
    }
    true
}

pub fn is_list_thematic_break(line: &[char]) -> (r: bool)
    requires
        fits(line@.len() as int),
    ensures
        r == spec_is_list_thematic_break(line@),
{
    is_list_thematic_break_candidate(line) && count_rule_chars(line) >= 3
}

pub fn list_item_indents(line: &[char]) -> (r: Option<(usize, usize)>)
    requires
        fits(line@.len() as int),
    ensures
        oi2(r) == spec_list_item_indents(line@),
        match r {
            Some(p) => p.0 <= 3 && p.1 <= 17 && p.0 <= p.1,
            None => true,
        },
{
    reveal(spec_list_item_indents);
    let n = strip_cr_len(line);
    let l = slice_subrange(line, 0, n);
    if is_list_thematic_break(l) {
        return None;
    }
    let (indent_bytes, marker_indent) = leading_indent(l);
    if marker_indent > 3 {
        return None;
    }
    let rest = slice_subrange(l, indent_bytes, l.len());
    assert(rest@ =~= l@.skip(indent_bytes as int));
    match list_marker_width(rest) {
        Some(width) => Some((marker_indent, marker_indent + width)),
        None => None,
    }
}

fn parse_fence_chars(line: &[char]) -> (r: Option<Fence>)
    requires
        fits(line@.len() as int),
    ensures
        fence_view(r) == spec_parse_fence(line@),
        match r {
            Some(f) => match f.container_indent {
                Some(c) => c <= 17,
                None => true,
            },
            None => true,
        },
{
    let n = strip_cr_len(line);
    let l = slice_subrange(line, 0, n);
    match parse_direct_fence(l, 0, 3, None) {
        Some(f) => return Some(f),
        None => {},
    }
    let (indent_bytes, indent_columns) = leading_indent(l);
    if indent_columns > 3 {
        return None;
    }
    let rest = slice_subrange(l, indent_bytes, l.len());
    assert(rest@ =~= l@.skip(indent_bytes as int));
    let width = match list_marker_width(rest) {
        Some(w) => w,
        None => return None,
    };
    let after = slice_subrange(rest, width, rest.len());
    assert(after@ =~= rest@.skip(width as int));
    parse_fence_marker(after, Some(indent_columns + width))
}

/// A fence at top level or directly after a list marker.
pub fn parse_fence(line: &str) -> (r: Option<Fence>)
    requires
        fits(line@.len() as int),
    ensures
        fence_view(r) == spec_parse_fence(line@),
{
    let chars = chars_of(line);
    parse_fence_chars(chars.as_slice())
}

pub fn parse_fence_in_container(line: &[char], container_indent: Option<usize>) -> (r: Option<
    Fence,
>)
    requires
        fits(line@.len() as int),
        match container_indent {
            Some(c) => c <= usize::MAX - 3,
            None => true,
        },
    ensures
        fence_view(r) == spec_parse_fence_in_container(line@, oi(container_indent)),
        match r {
            Some(f) => match f.container_indent {
                Some(fc) => fc <= 17 || container_indent == Some(fc),
                None => true,
            },
            None => true,
        },
{
    reveal(spec_parse_fence_in_container);
    match container_indent {
        Some(c) => {
            match parse_direct_fence(line, c, c + 3, Some(c)) {
                Some(f) => return Some(f),
                None => {},
            }
        },
        None => {},
    }
    parse_fence_chars(line)
}

pub fn is_closing_fence(
    line: &[char],
    marker: char,
    minimum_len: usize,
    container_indent: Option<usize>,
) -> (r: bool)
    requires
        fits(line@.len() as int),
        match container_indent {
            Some(c) => c <= usize::MAX - 3,
            None => true,
        },
    ensures
        r == spec_is_closing_fence(line@, marker, minimum_len as int, oi(container_indent)),
{
    reveal(spec_is_closing_fence);
    let n = strip_cr_len(line);
    let l = slice_subrange(line, 0, n);
    let minimum_indent = match container_indent {
        Some(c) => c,
        None => 0,
    };
    match parse_direct_fence(l, minimum_indent, minimum_indent + 3, container_indent) {
        Some(f) => f.marker == marker && f.len >= minimum_len && f.info.len() == 0,
        None => false,
    }
}

pub fn could_be_fence_prefix(rest: &[char]) -> (r: bool)
    ensures
        r == spec_could_be_fence_prefix(rest@),
{
    if rest.len() == 0 || (rest[0] != '`' && rest[0] != '~') {
        return false;
    }
    let marker = rest[0];
    let marker_len = span_eq(rest, marker);
    proof {
        lemma_span_props(rest@, eq(marker));
    }
    if marker_len < 3 {
        return marker_len == rest.len();
    }
    let after = slice_subrange(rest, marker_len, rest.len());
    assert(after@ =~= rest@.skip(marker_len as int));
    marker != '`' || !contains_char(after, '`')
}

pub fn could_be_list_fence(line: &[char]) -> (r: bool)
    ensures
        r == spec_could_be_list_fence(line@),
{
    if line.len() == 0 {
        return false;
    }
    if is_ascii_digit(line[0]) {
        let digits = span_digits(line);
        if digits == line.len() {
            return digits <= 9;
        }
    }
    let marker_end = match list_marker_end(line) {
        Some(e) => e,
        None => return false,
    };
    if marker_end == line.len() {
        return true;
    }
    let after = slice_subrange(line, marker_end, line.len());
    assert(after@ =~= line@.skip(marker_end as int));
    let whitespace = span_eq(after, ' ');
    proof {
        lemma_span_props(after@, eq(' '));
    }
    if !(1 <= whitespace && whitespace <= 4) {
        return false;
    }
    let rest = slice_subrange(line, marker_end + whitespace, line.len());
    assert(rest@ =~= line@.skip(marker_end + whitespace));
    rest.len() == 0 || could_be_fence_prefix(rest)
}

pub fn could_be_control_line(
    line: &[char],
    marker: Option<char>,
    container_indent: Option<usize>,
) -> (r: bool)
    requires
        fits(line@.len() as int),
        match container_indent {
            Some(c) => c <= usize::MAX - 3,
            None => true,
        },
    ensures
        r == spec_could_be_control_line(line@, marker, oi(container_indent)),
{
    reveal(spec_could_be_control_line);
    let (indent_bytes, indent_columns) = leading_indent(line);
    let minimum_indent = match container_indent {
        Some(c) => c,
        None => 0,
    };
    if indent_columns > minimum_indent + 3 {
        return false;
    }
    if indent_columns < minimum_indent {
        return indent_bytes == line.len();
    }
    let rest = slice_subrange(line, indent_bytes, line.len());
    assert(rest@ =~= line@.skip(indent_bytes as int));
    match marker {
        Some(m) => {
            let marker_len = span_eq(rest, m);
            proof {
                lemma_span_props(rest@, eq(m));
            }
            if marker_len == rest.len() {
                return true;
            }
            let after = slice_subrange(rest, marker_len, rest.len());
            assert(after@ =~= rest@.skip(marker_len as int));
            marker_len >= 3 && all_pad(after)
        },
        None => {
            rest.len() == 0 || (rest.len() == 1 && rest[0] == '$') || could_be_fence_prefix(rest)
                || empty_list_item_indents(line).is_some() || is_list_thematic_break_candidate(
                line,
            ) || could_be_list_fence(rest)
        },
    }
}

/// The first closing fence line of `input`: `(line start, end of what it
/// consumes)`.
#[verifier::rlimit(60)]
pub fn closing_fence_range(
    input: &[char],
    marker: char,
    minimum_len: usize,
    container_indent: Option<usize>,
    allow_end_of_stream: bool,
) -> (r: Option<(usize, usize)>)
    requires
        fits(input@.len() as int),
        match container_indent {
            Some(c) => c <= usize::MAX - 3,
            None => true,
        },
    ensures
        oi2(r) == spec_closing_fence_range(
            input@,
            marker,
            minimum_len as int,
            oi(container_indent),
            allow_end_of_stream,
        ),
        match r {
            Some((a, b)) => a <= b <= input@.len() && (a == 0 || input@[a - 1] == '\n') && (
            !allow_end_of_stream ==> a < b),
            None => true,
        },
{
    reveal(spec_closing_fence_from);
    let mut line_start: usize = 0;
    loop
        invariant
            line_start <= input@.len(),
            line_start == 0 || input@[line_start - 1] == '\n',
            fits(input@.len() as int),
            match container_indent {
                Some(c) => c <= usize::MAX - 3,
                None => true,
            },
            spec_closing_fence_from(
                input@,
                marker,
                minimum_len as int,
                oi(container_indent),
                allow_end_of_stream,
                line_start as int,
            ) == spec_closing_fence_range(
                input@,
                marker,
                minimum_len as int,
                oi(container_indent),
                allow_end_of_stream,
            ),
        decreases input@.len() - line_start,
    {
        reveal(spec_closing_fence_from);
        let remaining = slice_subrange(input, line_start, input.len());
        assert(remaining@ =~= input@.skip(line_start as int));
        let newline_offset = find_char(remaining, '\n');
        proof {
            lemma_first_index(remaining@, '\n');
        }
        if newline_offset.is_none() && !allow_end_of_stream {
            return None;
        }
        let line_end = match newline_offset {
            Some(offset) => line_start + offset,
            None => input.len(),
        };
        let line = slice_subrange(input, line_start, line_end);
        if is_closing_fence(line, marker, minimum_len, container_indent) {
            let consumed = if line_end < input.len() {
                line_end + 1
            } else {
                line_end
            };
            return Some((line_start, consumed));
        }
        if line_end == input.len() {
            return None;
        }
        line_start = line_end + 1;
    }
}

} // verus!
