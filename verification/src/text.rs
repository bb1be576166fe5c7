//! Character-sequence vocabulary shared by the line classifiers and the
//! streaming parser: character classes, prefix/suffix runs, trimming and
//! searching, each with an executable counterpart over `&[char]`.

use vstd::prelude::*;
use vstd::std_specs::iter::IteratorSpec;

verus! {

// ---------------------------------------------------------------------------
// Character classes
// ---------------------------------------------------------------------------

/// Unicode `White_Space`, the set that `char::is_whitespace` (and therefore
/// `str::trim`) recognises.
pub open spec fn is_ws(c: char) -> bool {
    c == '\t' || c == '\n' || c == '\u{0B}' || c == '\u{0C}' || c == '\r' || c == ' '
        || c == '\u{85}' || c == '\u{A0}' || c == '\u{1680}' || c == '\u{2000}'
        || c == '\u{2001}' || c == '\u{2002}' || c == '\u{2003}' || c == '\u{2004}'
        || c == '\u{2005}' || c == '\u{2006}' || c == '\u{2007}' || c == '\u{2008}'
        || c == '\u{2009}' || c == '\u{200A}' || c == '\u{2028}' || c == '\u{2029}'
        || c == '\u{202F}' || c == '\u{205F}' || c == '\u{3000}'
}

pub open spec fn is_digit(c: char) -> bool {
    c == '0' || c == '1' || c == '2' || c == '3' || c == '4' || c == '5' || c == '6'
        || c == '7' || c == '8' || c == '9'
}

pub open spec fn ws() -> spec_fn(char) -> bool {
    |c: char| is_ws(c)
}

/// Spaces and tabs: what counts as indentation.
pub open spec fn sp_tab() -> spec_fn(char) -> bool {
    |c: char| c == ' ' || c == '\t'
}

/// Spaces, tabs and carriage returns: the padding allowed around a fence's
/// info string.
pub open spec fn pad() -> spec_fn(char) -> bool {
    |c: char| c == ' ' || c == '\t' || c == '\r'
}

pub open spec fn digit() -> spec_fn(char) -> bool {
    |c: char| is_digit(c)
}

pub open spec fn eq(m: char) -> spec_fn(char) -> bool {
    |c: char| c == m
}

pub open spec fn ne(m: char) -> spec_fn(char) -> bool {
    |c: char| c != m
}

/// `*` or `-`: the characters a thematic break is drawn with.
pub open spec fn rule_char() -> spec_fn(char) -> bool {
    |c: char| c == '*' || c == '-'
}

// ---------------------------------------------------------------------------
// Runs, searches, counts, trimming
// ---------------------------------------------------------------------------

pub open spec fn all_in(s: Seq<char>, p: spec_fn(char) -> bool) -> bool {
    forall|i: int| 0 <= i < s.len() ==> #[trigger] p(s[i])
}

/// Length of the longest prefix of `s` whose characters all satisfy `p`.
pub closed spec fn span(s: Seq<char>, p: spec_fn(char) -> bool) -> int {
    if exists|i: int| 0 <= i < s.len() && !p(s[i]) {
        choose|i: int|
            0 <= i < s.len() && !p(s[i]) && forall|j: int| 0 <= j < i ==> #[trigger] p(s[j])
    } else {
        s.len() as int
    }
}

/// Length of the longest suffix of `s` whose characters all satisfy `p`.
pub open spec fn rspan(s: Seq<char>, p: spec_fn(char) -> bool) -> int {
    if exists|i: int| 0 <= i < s.len() && !p(s[i]) {
        s.len() - 1 - choose|i: int|
            0 <= i < s.len() && !p(s[i]) && forall|j: int|
                i < j < s.len() ==> #[trigger] p(s[j])
    } else {
        s.len() as int
    }
}

/// `s` without the leading and trailing characters that satisfy `p`.
pub open spec fn trim_by(s: Seq<char>, p: spec_fn(char) -> bool) -> Seq<char> {
    if span(s, p) == s.len() {
        Seq::empty()
    } else {
        s.subrange(span(s, p), s.len() - rspan(s, p))
    }
}

/// What `str::trim` leaves of `s`.
pub open spec fn trim(s: Seq<char>) -> Seq<char> {
    trim_by(s, ws())
}

/// Index of the first `c` in `s`, as `str::find` reports it (in characters).
pub open spec fn first_index(s: Seq<char>, c: char) -> Option<int> {
    if s.contains(c) {
        Some(span(s, ne(c)))
    } else {
        None
    }
}

/// `s` without one trailing carriage return.
pub open spec fn strip_cr(s: Seq<char>) -> Seq<char> {
    if s.len() > 0 && s.last() == '\r' {
        s.drop_last()
    } else {
        s
    }
}

pub open spec fn count_where(s: Seq<char>, p: spec_fn(char) -> bool) -> nat
    decreases s.len(),
{
    if s.len() == 0 {
        0
    } else {
        count_where(s.drop_last(), p) + if p(s.last()) {
            1nat
        } else {
            0nat
        }
    }
}

/// No sequence handled here can be longer than this: a `Vec<char>` of more
/// characters would not fit in the address space.
pub open spec fn fits(n: int) -> bool {
    n <= usize::MAX / 8
}

// ---------------------------------------------------------------------------
// Lemmas
// ---------------------------------------------------------------------------

pub proof fn lemma_span(s: Seq<char>, p: spec_fn(char) -> bool, k: int)
    requires
        0 <= k <= s.len(),
        forall|j: int| 0 <= j < k ==> #[trigger] p(s[j]),
        k == s.len() || !p(s[k]),
    ensures
        span(s, p) == k,
{
    if k < s.len() {
        assert(0 <= k < s.len() && !p(s[k]));
        let i = choose|i: int|
            0 <= i < s.len() && !p(s[i]) && forall|j: int| 0 <= j < i ==> #[trigger] p(s[j]);
        if i < k {
            assert(p(s[i]));
        } else if i > k {
            assert(p(s[k]));
        }
    } else {
        assert(!exists|i: int| 0 <= i < s.len() && !p(s[i]));
    }
}

pub proof fn lemma_span_props(s: Seq<char>, p: spec_fn(char) -> bool)
    ensures
        0 <= span(s, p) <= s.len(),
        forall|j: int| 0 <= j < span(s, p) ==> #[trigger] p(s[j]),
        span(s, p) < s.len() ==> !p(s[span(s, p)]),
{
    if exists|i: int| 0 <= i < s.len() && !p(s[i]) {
        let w = choose|i: int| 0 <= i < s.len() && !p(s[i]);
        lemma_first_failing(s, p, w);
    }
}

/// The run of `p` that starts a prefix of `s` is the run that starts `s`,
/// cut at the prefix's end.
pub proof fn lemma_span_take(s: Seq<char>, p: spec_fn(char) -> bool, k: int)
    requires
        0 <= k <= s.len(),
    ensures
        span(s.take(k), p) == if span(s, p) < k {
            span(s, p)
        } else {
            k
        },
{
    lemma_span_props(s, p);
    let m = if span(s, p) < k {
        span(s, p)
    } else {
        k
    };
    let t = s.take(k);
    assert forall|j: int| 0 <= j < m implies #[trigger] p(t[j]) by {
        assert(t[j] == s[j]);
        assert(p(s[j]));
    }
    if m < k {
        assert(t[m] == s[m]);
    }
    lemma_span(t, p, m);
}

/// Among the characters failing `p`, one comes first.
proof fn lemma_first_failing(s: Seq<char>, p: spec_fn(char) -> bool, w: int)
    requires
        0 <= w < s.len(),
        !p(s[w]),
    ensures
        exists|i: int|
            0 <= i < s.len() && !p(s[i]) && forall|j: int| 0 <= j < i ==> #[trigger] p(s[j]),
    decreases w,
{
    if forall|j: int| 0 <= j < w ==> #[trigger] p(s[j]) {
        assert(0 <= w < s.len() && !p(s[w]) && forall|j: int| 0 <= j < w ==> #[trigger] p(s[j]));
    } else {
        let v = choose|j: int| 0 <= j < w && !p(s[j]);
        lemma_first_failing(s, p, v);
    }
}

pub proof fn lemma_rspan(s: Seq<char>, p: spec_fn(char) -> bool, k: int)
    requires
        0 <= k <= s.len(),
        forall|j: int| s.len() - k <= j < s.len() ==> #[trigger] p(s[j]),
        k == s.len() || !p(s[s.len() - 1 - k]),
    ensures
        rspan(s, p) == k,
{
    if k < s.len() {
        let w = s.len() - 1 - k;
        assert(0 <= w < s.len() && !p(s[w]) && forall|j: int| w < j < s.len() ==> #[trigger] p(s[j]));
        let i = choose|i: int|
            0 <= i < s.len() && !p(s[i]) && forall|j: int| i < j < s.len() ==> #[trigger] p(s[j]);
        if i < w {
            assert(p(s[w]));
        } else if i > w {
            assert(p(s[i]));
        }
    } else {
        assert(!exists|i: int| 0 <= i < s.len() && !p(s[i]));
    }
}

pub proof fn lemma_rspan_props(s: Seq<char>, p: spec_fn(char) -> bool)
    ensures
        0 <= rspan(s, p) <= s.len(),
        forall|j: int| s.len() - rspan(s, p) <= j < s.len() ==> #[trigger] p(s[j]),
        rspan(s, p) < s.len() ==> !p(s[s.len() - 1 - rspan(s, p)]),
{
    if exists|i: int| 0 <= i < s.len() && !p(s[i]) {
        let w = choose|i: int| 0 <= i < s.len() && !p(s[i]);
        lemma_last_failing(s, p, w);
    }
}

/// Among the characters failing `p`, one comes last.
proof fn lemma_last_failing(s: Seq<char>, p: spec_fn(char) -> bool, w: int)
    requires
        0 <= w < s.len(),
        !p(s[w]),
    ensures
        exists|i: int|
            0 <= i < s.len() && !p(s[i]) && forall|j: int| i < j < s.len() ==> #[trigger] p(s[j]),
    decreases s.len() - w,
{
    if forall|j: int| w < j < s.len() ==> #[trigger] p(s[j]) {
        assert(0 <= w < s.len() && !p(s[w]) && forall|j: int|
            w < j < s.len() ==> #[trigger] p(s[j]));
    } else {
        let v = choose|j: int| w < j < s.len() && !p(s[j]);
        lemma_last_failing(s, p, v);
    }
}

/// Trimming keeps a contiguous part of `s` that, unless empty, starts and
/// ends with characters outside `p`.
pub proof fn lemma_trim_by_props(s: Seq<char>, p: spec_fn(char) -> bool)
    ensures
        trim_by(s, p).len() > 0 ==> {
            &&& 0 <= span(s, p) < s.len() - rspan(s, p) <= s.len()
            &&& trim_by(s, p) == s.subrange(span(s, p), s.len() - rspan(s, p))
            &&& !p(trim_by(s, p)[0])
            &&& !p(trim_by(s, p).last())
        },
        trim_by(s, p).len() <= s.len(),
{
    lemma_span_props(s, p);
    lemma_rspan_props(s, p);
    let a = span(s, p);
    let r = rspan(s, p);
    if a < s.len() {
        if r >= s.len() - a {
            assert(p(s[a]));
        }
    }
}

/// Trimming leaves nothing only of text made entirely of trimmed
/// characters.
pub proof fn lemma_trim_by_empty(s: Seq<char>, p: spec_fn(char) -> bool)
    requires
        trim_by(s, p).len() == 0,
    ensures
        all_in(s, p),
{
    lemma_span_props(s, p);
    lemma_rspan_props(s, p);
    let a = span(s, p);
    if a < s.len() {
        let r = rspan(s, p);
        if r >= s.len() - a {
            assert(p(s[a]));
        }
        assert(s.subrange(a, s.len() - r).len() > 0);
    }
}

/// Trimming twice changes nothing.
pub proof fn lemma_trim_by_idempotent(s: Seq<char>, p: spec_fn(char) -> bool)
    ensures
        trim_by(trim_by(s, p), p) == trim_by(s, p),
{
    let t = trim_by(s, p);
    lemma_trim_by_props(s, p);
    if t.len() == 0 {
        lemma_span(t, p, 0);
        assert(trim_by(t, p) =~= t);
    } else {
        lemma_span(t, p, 0);
        lemma_rspan(t, p, 0);
        assert(trim_by(t, p) =~= t);
    }
}

/// Trimming never adds a character that `s` does not hold.
pub proof fn lemma_trim_by_subset(s: Seq<char>, p: spec_fn(char) -> bool, c: char)
    requires
        !s.contains(c),
    ensures
        !trim_by(s, p).contains(c),
{
    lemma_trim_by_props(s, p);
    let t = trim_by(s, p);
    if t.len() > 0 {
        let a = span(s, p);
        let b = s.len() - rspan(s, p);
        assert forall|k: int| 0 <= k < t.len() implies t[k] != c by {
            assert(t[k] == s[a + k]);
            if s[a + k] == c {
                assert(s.contains(c));
            }
        }
    }
}

// ---------------------------------------------------------------------------
// Executable counterparts
// ---------------------------------------------------------------------------

pub fn is_whitespace(c: char) -> (r: bool)
    ensures
        r == is_ws(c),
{
    c == '\t' || c == '\n' || c == '\u{0B}' || c == '\u{0C}' || c == '\r' || c == ' '
        || c == '\u{85}' || c == '\u{A0}' || c == '\u{1680}' || c == '\u{2000}'
        || c == '\u{2001}' || c == '\u{2002}' || c == '\u{2003}' || c == '\u{2004}'
        || c == '\u{2005}' || c == '\u{2006}' || c == '\u{2007}' || c == '\u{2008}'
        || c == '\u{2009}' || c == '\u{200A}' || c == '\u{2028}' || c == '\u{2029}'
        || c == '\u{202F}' || c == '\u{205F}' || c == '\u{3000}'
}

pub fn is_ascii_digit(c: char) -> (r: bool)
    ensures
        r == is_digit(c),
{
    c == '0' || c == '1' || c == '2' || c == '3' || c == '4' || c == '5' || c == '6' || c == '7'
        || c == '8' || c == '9'
}

/// Number of leading characters of `s` equal to `m`.
pub fn span_eq(s: &[char], m: char) -> (n: usize)
    ensures
        n == span(s@, eq(m)),
{
    let mut i: usize = 0;
    while i < s.len() && s[i] == m
        invariant
            i <= s@.len(),
            forall|j: int| 0 <= j < i ==> #[trigger] eq(m)(s@[j]),
        decreases s@.len() - i,
    {
        i = i + 1;
    }
    proof {
        lemma_span(s@, eq(m), i as int);
    }
    i
}

/// Number of leading ASCII digits of `s`.
pub fn span_digits(s: &[char]) -> (n: usize)
    ensures
        n == span(s@, digit()),
{
    let mut i: usize = 0;
    while i < s.len() && is_ascii_digit(s[i])
        invariant
            i <= s@.len(),
            forall|j: int| 0 <= j < i ==> #[trigger] digit()(s@[j]),
        decreases s@.len() - i,
    {
        i = i + 1;
    }
    proof {
        lemma_span(s@, digit(), i as int);
    }
    i
}

/// Index of the first `c` in `s`.
pub fn find_char(s: &[char], c: char) -> (r: Option<usize>)
    ensures
        match r {
            Some(i) => first_index(s@, c) == Some(i as int) && i < s@.len() && s@[i as int] == c,
            None => first_index(s@, c) is None,
        },
{
    let mut i: usize = 0;
    while i < s.len() && s[i] != c
        invariant
            i <= s@.len(),
            forall|j: int| 0 <= j < i ==> #[trigger] ne(c)(s@[j]),
        decreases s@.len() - i,
    {
        i = i + 1;
    }
    proof {
        lemma_span(s@, ne(c), i as int);
    }
    if i < s.len() {
        assert(s@.contains(c)) by {
            assert(s@[i as int] == c);
        }
        Some(i)
    } else {
        assert(!s@.contains(c)) by {
            if s@.contains(c) {
                let k = choose|k: int| 0 <= k < s@.len() && s@[k] == c;
                assert(ne(c)(s@[k]));
            }
        }
        None
    }
}

/// Whether every character of `s` is a space or a tab.
pub fn all_sp_tab(s: &[char]) -> (r: bool)
    ensures
        r == all_in(s@, sp_tab()),
{
    let mut i: usize = 0;
    while i < s.len()
        invariant
            i <= s@.len(),
            forall|j: int| 0 <= j < i ==> #[trigger] sp_tab()(s@[j]),
        decreases s@.len() - i,
    {
        if !(s[i] == ' ' || s[i] == '\t') {
            assert(!sp_tab()(s@[i as int]));
            return false;
        }
        i = i + 1;
    }
    true
}

/// Whether every character of `s` is a space, a tab or a carriage return.
pub fn all_pad(s: &[char]) -> (r: bool)
    ensures
        r == all_in(s@, pad()),
{
    let mut i: usize = 0;
    while i < s.len()
        invariant
            i <= s@.len(),
            forall|j: int| 0 <= j < i ==> #[trigger] pad()(s@[j]),
        decreases s@.len() - i,
    {
        if !(s[i] == ' ' || s[i] == '\t' || s[i] == '\r') {
            assert(!pad()(s@[i as int]));
            return false;
        }
        i = i + 1;
    }
    true
}

/// Whether `s` holds the character `c`.
pub fn contains_char(s: &[char], c: char) -> (r: bool)
    ensures
        r == s@.contains(c),
{
    match find_char(s, c) {
        Some(i) => true,
        None => {
            assert(!s@.contains(c));
            false
        },
    }
}

/// Number of `*` and `-` characters in `s`.
pub fn count_rule_chars(s: &[char]) -> (n: usize)
    ensures
        n == count_where(s@, rule_char()),
{
    let mut i: usize = 0;
    let mut n: usize = 0;
    while i < s.len()
        invariant
            i <= s@.len(),
            n <= i,
            n == count_where(s@.take(i as int), rule_char()),
        decreases s@.len() - i,
    {
        assert(s@.take(i + 1).drop_last() =~= s@.take(i as int));
        if s[i] == '*' || s[i] == '-' {
            n = n + 1;
        }
        i = i + 1;
    }
    assert(s@.take(i as int) =~= s@);
    n
}

/// Length of `s` once one trailing carriage return is dropped.
pub fn strip_cr_len(s: &[char]) -> (n: usize)
    ensures
        n <= s@.len(),
        s@.subrange(0, n as int) == strip_cr(s@),
{
    if s.len() > 0 && s[s.len() - 1] == '\r' {
        assert(s@.subrange(0, s@.len() - 1) =~= s@.drop_last());
        s.len() - 1
    } else {
        assert(s@.subrange(0, s@.len() as int) =~= s@);
        s.len()
    }
}

/// Bounds `(start, end)` of what remains of `s` once leading and trailing
/// Unicode whitespace is removed.
pub fn trim_range(s: &[char]) -> (r: (usize, usize))
    ensures
        r.0 <= r.1 <= s@.len(),
        s@.subrange(r.0 as int, r.1 as int) == trim(s@),
{
    let mut a: usize = 0;
    while a < s.len() && is_whitespace(s[a])
        invariant
            a <= s@.len(),
            forall|j: int| 0 <= j < a ==> #[trigger] ws()(s@[j]),
        decreases s@.len() - a,
    {
        a = a + 1;
    }
    proof {
        lemma_span(s@, ws(), a as int);
    }
    if a == s.len() {
        assert(s@.subrange(a as int, a as int) =~= Seq::<char>::empty());
        return (a, a);
    }
    let mut b: usize = s.len();
    while b > a && is_whitespace(s[b - 1])
        invariant
            a < s@.len(),
            !ws()(s@[a as int]),
            a <= b <= s@.len(),
            forall|j: int| b <= j < s@.len() ==> #[trigger] ws()(s@[j]),
        decreases b,
    {
        b = b - 1;
    }
    proof {
        if b == a {
            assert(ws()(s@[a as int]));
        }
        lemma_rspan(s@, ws(), s@.len() - b);
    }
    (a, b)
}

/// Bounds `(start, end)` of what remains of `s` once leading and trailing
/// spaces, tabs and carriage returns are removed.
pub fn trim_pad_range(s: &[char]) -> (r: (usize, usize))
    ensures
        r.0 <= r.1 <= s@.len(),
        s@.subrange(r.0 as int, r.1 as int) == trim_by(s@, pad()),
{
    let mut a: usize = 0;
    while a < s.len() && (s[a] == ' ' || s[a] == '\t' || s[a] == '\r')
        invariant
            a <= s@.len(),
            forall|j: int| 0 <= j < a ==> #[trigger] pad()(s@[j]),
        decreases s@.len() - a,
    {
        a = a + 1;
    }
    proof {
        lemma_span(s@, pad(), a as int);
    }
    if a == s.len() {
        assert(s@.subrange(a as int, a as int) =~= Seq::<char>::empty());
        return (a, a);
    }
    let mut b: usize = s.len();
    while b > a && (s[b - 1] == ' ' || s[b - 1] == '\t' || s[b - 1] == '\r')
        invariant
            a < s@.len(),
            !pad()(s@[a as int]),
            a <= b <= s@.len(),
            forall|j: int| b <= j < s@.len() ==> #[trigger] pad()(s@[j]),
        decreases b,
    {
        b = b - 1;
    }
    proof {
        if b == a {
            assert(pad()(s@[a as int]));
        }
        lemma_rspan(s@, pad(), s@.len() - b);
    }
    (a, b)
}

/// Whether `s` holds a character that is not Unicode whitespace.
pub fn has_non_ws(s: &[char]) -> (r: bool)
    ensures
        r == (trim(s@).len() > 0),
{
    let (a, b) = trim_range(s);
    a < b
}

/// A copy of `s[from..to]`.
pub fn copy_range(s: &[char], from: usize, to: usize) -> (v: Vec<char>)
    requires
        from <= to <= s@.len(),
    ensures
        v@ == s@.subrange(from as int, to as int),
{
    let mut v: Vec<char> = Vec::new();
    let mut i = from;
    while i < to
        invariant
            from <= i <= to <= s@.len(),
            v@ == s@.subrange(from as int, i as int),
        decreases to - i,
    {
        v.push(s[i]);
        assert(v@ =~= s@.subrange(from as int, i + 1));
        i = i + 1;
    }
    v
}

/// The characters of `s`.
pub fn chars_of(s: &str) -> (v: Vec<char>)
    ensures
        v@ == s@,
{
    let mut v: Vec<char> = Vec::new();
    let mut chars = s.chars();
    loop
        invariant
            v@ + chars.remaining() == s@,
            chars.decrease() is Some,
        ensures
            v@ == s@,
        decreases chars.decrease()->0,
    {
        match chars.next() {
            Some(c) => {
                v.push(c);
            },
            None => {
                assert(v@ =~= s@);
                break;
            },
        }
    }
    v
}

/// A `String` holding exactly the characters of `s`.
pub fn string_of(s: &[char]) -> (r: String)
    ensures
        r@ == s@,
{
    let mut r = String::new();
    let mut i: usize = 0;
    while i < s.len()
        invariant
            i <= s@.len(),
            r@ == s@.take(i as int),
        decreases s@.len() - i,
    {
        r.push(s[i]);
        assert(r@ =~= s@.take(i + 1));
        i = i + 1;
    }
    assert(s@.take(i as int) =~= s@);
    r
}

/// `String::push` appends one character to the string's contents.
pub assume_specification[ String::push ](string: &mut String, ch: char)
    ensures
        final(string)@ == old(string)@.push(ch),
;

} // verus!
