//! Signex schematic-text markup.
//!
//!   `**bold**`, `*italic*`, `~~strike~~`, `^superscript^`, `~subscript~`,
//!   `_~overbar~_`, `[label](url)` and `\X` (a literal sigil `X`).
//!
//! The parser is single pass and flat: spans do not nest. Its behaviour is
//! specified character by character in `markup_from`; the executable parser
//! is proved to compute exactly that.

use vstd::prelude::*;

use crate::text::{
    find_char, append_chars, chars_eq, chars_lt, lemma_seq_lt_irrefl, lemma_seq_lt_total, lemma_seq_lt_trans, seq_lt, chars_ci_eq, chars_of, ci_eq, slice_chars, starts_ci_at, starts_with_ascii_ci,
    string_from_chars, trim_chars, trim_spec,
};
use crate::varmap::VarMap;

verus! {

// ---------------------------------------------------------------------------
// Rich text segments
// ---------------------------------------------------------------------------

#[derive(Debug, Clone, PartialEq, Eq)]
pub enum RichSegment {
    Normal(String),
    Bold(String),
    Italic(String),
    Strike(String),
    Superscript(String),
    Subscript(String),
    Overbar(String),
    Link { label: String, url: String },
}

/// The mathematical value of a segment: its kind and its characters.
pub enum Seg {
    Normal(Seq<char>),
    Bold(Seq<char>),
    Italic(Seq<char>),
    Strike(Seq<char>),
    Superscript(Seq<char>),
    Subscript(Seq<char>),
    Overbar(Seq<char>),
    Link(Seq<char>, Seq<char>),
}

impl View for RichSegment {
    type V = Seg;

    open spec fn view(&self) -> Seg {
        match self {
            RichSegment::Normal(t) => Seg::Normal(t@),
            RichSegment::Bold(t) => Seg::Bold(t@),
            RichSegment::Italic(t) => Seg::Italic(t@),
            RichSegment::Strike(t) => Seg::Strike(t@),
            RichSegment::Superscript(t) => Seg::Superscript(t@),
            RichSegment::Subscript(t) => Seg::Subscript(t@),
            RichSegment::Overbar(t) => Seg::Overbar(t@),
            RichSegment::Link { label, url } => Seg::Link(label@, url@),
        }
    }
}

pub open spec fn segs_view(v: Seq<RichSegment>) -> Seq<Seg> {
    v.map_values(|r: RichSegment| r@)
}

// ---------------------------------------------------------------------------
// Specification
// ---------------------------------------------------------------------------

/// Outcome of looking for a closing sigil.
pub enum Scan {
    Found(int),
    Missing,
}

/// Scan from `j` for a single closing `sigil`, stepping over `\X` escapes.
pub open spec fn scan_single(s: Seq<char>, j: int, sigil: char) -> Scan
    decreases s.len() - j,
{
    if j < 0 || j >= s.len() {
        Scan::Missing
    } else if s[j] == '\\' && j + 1 < s.len() {
        scan_single(s, j + 2, sigil)
    } else if s[j] == sigil {
        Scan::Found(j)
    } else if s[j] == '\0' {
        Scan::Missing
    } else {
        scan_single(s, j + 1, sigil)
    }
}

/// Scan from `j` for the two-character closer `a b`, stepping over escapes.
pub open spec fn scan_pair(s: Seq<char>, j: int, a: char, b: char) -> Scan
    decreases s.len() - j,
{
    if j < 0 || j + 1 >= s.len() {
        Scan::Missing
    } else if s[j] == '\\' {
        scan_pair(s, j + 2, a, b)
    } else if s[j] == a && s[j + 1] == b {
        Scan::Found(j)
    } else if s[j] == '\0' {
        Scan::Missing
    } else {
        scan_pair(s, j + 1, a, b)
    }
}

/// `r` with every `\X` escape replaced by `X`; reading stops at a NUL.
pub open spec fn unescape_from(r: Seq<char>, i: int, acc: Seq<char>) -> Seq<char>
    decreases r.len() - i,
{
    if i < 0 || i >= r.len() {
        acc
    } else if r[i] == '\\' && i + 1 < r.len() {
        unescape_from(r, i + 2, acc.push(r[i + 1]))
    } else if r[i] == '\0' {
        acc
    } else {
        unescape_from(r, i + 1, acc.push(r[i]))
    }
}

pub open spec fn unescape_spec(r: Seq<char>) -> Seq<char> {
    unescape_from(r, 0, Seq::empty())
}

/// Characters that a backslash turns into literal text.
pub open spec fn is_markup_sigil(c: char) -> bool {
    c == '*' || c == '~' || c == '^' || c == '_' || c == '\\' || c == '[' || c == ']' || c == '('
        || c == ')'
}

/// What the parser does at one position.
pub enum Step {
    /// Append a literal character to the pending plain text, continue at `next`.
    Lit(char, int),
    /// Emit a span (after the pending plain text), continue at `next`.
    Span(Seg, int),
    /// A NUL character: parsing ends here.
    Stop,
}

pub open spec fn span_after(found: Scan, seg_start: int, s: Seq<char>, closer: int, make: spec_fn(Seq<char>) -> Seg) -> Option<Step> {
    match found {
        Scan::Found(j) => Some(Step::Span(make(unescape_spec(s.subrange(seg_start, j))), j + closer)),
        Scan::Missing => None,
    }
}

pub open spec fn try_overbar(s: Seq<char>, i: int) -> Option<Step> {
    if s[i] == '_' && i + 1 < s.len() && s[i + 1] == '~' {
        span_after(scan_pair(s, i + 2, '~', '_'), i + 2, s, 2, |t: Seq<char>| Seg::Overbar(t))
    } else {
        None
    }
}

pub open spec fn try_bold(s: Seq<char>, i: int) -> Option<Step> {
    if s[i] == '*' && i + 1 < s.len() && s[i + 1] == '*' {
        span_after(scan_pair(s, i + 2, '*', '*'), i + 2, s, 2, |t: Seq<char>| Seg::Bold(t))
    } else {
        None
    }
}

pub open spec fn try_italic(s: Seq<char>, i: int) -> Option<Step> {
    if s[i] == '*' {
        span_after(scan_single(s, i + 1, '*'), i + 1, s, 1, |t: Seq<char>| Seg::Italic(t))
    } else {
        None
    }
}

pub open spec fn try_strike(s: Seq<char>, i: int) -> Option<Step> {
    if s[i] == '~' && i + 1 < s.len() && s[i + 1] == '~' {
        span_after(scan_pair(s, i + 2, '~', '~'), i + 2, s, 2, |t: Seq<char>| Seg::Strike(t))
    } else {
        None
    }
}

pub open spec fn try_subscript(s: Seq<char>, i: int) -> Option<Step> {
    if s[i] == '~' {
        span_after(scan_single(s, i + 1, '~'), i + 1, s, 1, |t: Seq<char>| Seg::Subscript(t))
    } else {
        None
    }
}

pub open spec fn try_superscript(s: Seq<char>, i: int) -> Option<Step> {
    if s[i] == '^' {
        span_after(scan_single(s, i + 1, '^'), i + 1, s, 1, |t: Seq<char>| Seg::Superscript(t))
    } else {
        None
    }
}

pub open spec fn try_link(s: Seq<char>, i: int) -> Option<Step> {
    if s[i] == '[' {
        match scan_single(s, i + 1, ']') {
            Scan::Missing => None,
            Scan::Found(j) => {
                let after = j + 1;
                if after < s.len() && s[after] == '(' {
                    match scan_single(s, after + 1, ')') {
                        Scan::Missing => None,
                        Scan::Found(k) => Some(
                            Step::Span(
                                Seg::Link(
                                    unescape_spec(s.subrange(i + 1, j)),
                                    unescape_spec(s.subrange(after + 1, k)),
                                ),
                                k + 1,
                            ),
                        ),
                    }
                } else {
                    None
                }
            },
        }
    } else {
        None
    }
}

/// The parser's action at position `i` (for `0 <= i < s.len()`).
pub open spec fn markup_step(s: Seq<char>, i: int) -> Step {
    if s[i] == '\\' && i + 1 < s.len() {
        if is_markup_sigil(s[i + 1]) {
            Step::Lit(s[i + 1], i + 2)
        } else {
            Step::Lit('\\', i + 1)
        }
    } else if let Some(st) = try_overbar(s, i) {
        st
    } else if let Some(st) = try_bold(s, i) {
        st
    } else if let Some(st) = try_italic(s, i) {
        st
    } else if let Some(st) = try_strike(s, i) {
        st
    } else if let Some(st) = try_subscript(s, i) {
        st
    } else if let Some(st) = try_superscript(s, i) {
        st
    } else if let Some(st) = try_link(s, i) {
        st
    } else if s[i] == '\0' {
        Step::Stop
    } else {
        Step::Lit(s[i], i + 1)
    }
}

/// Pending plain text becomes a `Normal` segment when it is non-empty.
pub open spec fn flush_spec(segs: Seq<Seg>, buf: Seq<char>) -> Seq<Seg> {
    if buf.len() == 0 {
        segs
    } else {
        segs.push(Seg::Normal(buf))
    }
}

/// The segments produced from position `i` on, given the segments `segs`
/// emitted so far and the pending plain text `buf` (`Some` for every
/// input; see `lemma_markup_total`).
pub open spec fn markup_from(s: Seq<char>, i: int, segs: Seq<Seg>, buf: Seq<char>) -> Option<
    Seq<Seg>,
>
    decreases s.len() - i,
{
    if i < 0 || i >= s.len() {
        Some(flush_spec(segs, buf))
    } else {
        match markup_step(s, i) {
            Step::Lit(c, next) => if i < next <= s.len() {
                markup_from(s, next, segs, buf.push(c))
            } else {
                None
            },
            Step::Span(seg, next) => if i < next <= s.len() {
                markup_from(s, next, flush_spec(segs, buf).push(seg), Seq::empty())
            } else {
                None
            },
            Step::Stop => Some(flush_spec(segs, buf)),
        }
    }
}

/// The segments of markup text `s`.
pub open spec fn markup_spec(s: Seq<char>) -> Option<Seq<Seg>> {
    markup_from(s, 0, Seq::empty(), Seq::empty())
}



// ---------------------------------------------------------------------------
// Facts about the specification
// ---------------------------------------------------------------------------

proof fn lemma_scan_single_bounds(s: Seq<char>, j: int, sigil: char)
    requires
        0 <= j,
    ensures
        scan_single(s, j, sigil) matches Scan::Found(k) ==> j <= k < s.len() && s[k] == sigil,
    decreases s.len() - j,
{
    if j < s.len() {
        if s[j] == '\\' && j + 1 < s.len() {
            lemma_scan_single_bounds(s, j + 2, sigil);
        } else if s[j] != sigil && s[j] != '\0' {
            lemma_scan_single_bounds(s, j + 1, sigil);
        }
    }
}

proof fn lemma_scan_pair_bounds(s: Seq<char>, j: int, a: char, b: char)
    requires
        0 <= j,
    ensures
        scan_pair(s, j, a, b) matches Scan::Found(k) ==> j <= k && k + 1 < s.len() && s[k] == a
            && s[k + 1] == b,
    decreases s.len() - j,
{
    if j + 1 < s.len() {
        if s[j] == '\\' {
            lemma_scan_pair_bounds(s, j + 2, a, b);
        } else if !(s[j] == a && s[j + 1] == b) && s[j] != '\0' {
            lemma_scan_pair_bounds(s, j + 1, a, b);
        }
    }
}

/// Every step that continues moves strictly forward and stays in the text.
pub proof fn lemma_step_advances(s: Seq<char>, i: int)
    requires
        0 <= i < s.len(),
    ensures
        markup_step(s, i) matches Step::Lit(_, next) ==> i < next <= s.len(),
        markup_step(s, i) matches Step::Span(_, next) ==> i < next <= s.len(),
{
    lemma_scan_pair_bounds(s, i + 2, '~', '_');
    lemma_scan_pair_bounds(s, i + 2, '*', '*');
    lemma_scan_pair_bounds(s, i + 2, '~', '~');
    lemma_scan_single_bounds(s, i + 1, '*');
    lemma_scan_single_bounds(s, i + 1, '~');
    lemma_scan_single_bounds(s, i + 1, '^');
    lemma_scan_single_bounds(s, i + 1, ']');
    if let Scan::Found(j) = scan_single(s, i + 1, ']') {
        lemma_scan_single_bounds(s, j + 2, ')');
    }
}

/// A span is never plain text.
proof fn lemma_span_not_normal(s: Seq<char>, i: int)
    requires
        0 <= i < s.len(),
    ensures
        markup_step(s, i) matches Step::Span(seg, _) ==> !(seg is Normal),
{
}

/// No empty plain segment, and no two plain segments side by side.
pub open spec fn flowed(v: Seq<Seg>) -> bool {
    &&& forall|k: int| 0 <= k < v.len() ==> !(#[trigger] v[k] matches Seg::Normal(t) && t.len() == 0)
    &&& forall|k: int| 0 <= k < v.len() - 1 ==> !((#[trigger] v[k] is Normal) && v[k + 1] is Normal)
}

proof fn lemma_flush_flowed(segs: Seq<Seg>, buf: Seq<char>)
    requires
        flowed(segs),
        segs.len() == 0 || !(segs.last() is Normal),
    ensures
        flowed(flush_spec(segs, buf)),
{
    if buf.len() > 0 {
        let v = segs.push(Seg::Normal(buf));
        assert forall|k: int| 0 <= k < v.len() - 1 implies !((#[trigger] v[k] is Normal) && v[k + 1] is Normal) by {
            if k == segs.len() - 1 {
                assert(v[k] == segs.last());
            } else {
                assert(v[k] == segs[k] && v[k + 1] == segs[k + 1]);
            }
        }
        assert forall|k: int| 0 <= k < v.len() implies !(#[trigger] v[k] matches Seg::Normal(t) && t.len() == 0) by {
            if k < segs.len() {
                assert(v[k] == segs[k]);
            }
        }
    }
}

proof fn lemma_markup_from_flowed(s: Seq<char>, i: int, segs: Seq<Seg>, buf: Seq<char>)
    requires
        0 <= i,
        flowed(segs),
        segs.len() == 0 || !(segs.last() is Normal),
    ensures
        markup_from(s, i, segs, buf) matches Some(v) ==> flowed(v),
    decreases s.len() - i,
{
    if i >= s.len() {
        lemma_flush_flowed(segs, buf);
    } else {
        lemma_step_advances(s, i);
        lemma_span_not_normal(s, i);
        match markup_step(s, i) {
            Step::Lit(c, next) => {
                if i < next <= s.len() {
                    lemma_markup_from_flowed(s, next, segs, buf.push(c));
                }
            },
            Step::Span(seg, next) => {
                if i < next <= s.len() {
                    let f = flush_spec(segs, buf);
                    lemma_flush_flowed(segs, buf);
                    let v = f.push(seg);
                    assert forall|k: int| 0 <= k < v.len() - 1 implies !((#[trigger] v[k] is Normal) && v[k + 1]
                        is Normal) by {
                        if k < f.len() - 1 {
                            assert(v[k] == f[k] && v[k + 1] == f[k + 1]);
                        } else {
                            assert(v[k + 1] == seg);
                        }
                    }
                    assert forall|k: int| 0 <= k < v.len() implies !(#[trigger] v[k] matches Seg::Normal(t) && t.len()
                        == 0) by {
                        if k < f.len() {
                            assert(v[k] == f[k]);
                        }
                    }
                    lemma_markup_from_flowed(s, next, v, Seq::empty());
                }
            },
            Step::Stop => {
                lemma_flush_flowed(segs, buf);
            },
        }
    }
}

/// Parsed markup never holds an empty plain segment, nor two plain
/// segments side by side: literal runs are merged into one.
pub proof fn lemma_markup_flowed(s: Seq<char>)
    ensures
        markup_spec(s) matches Some(v) ==> flowed(v),
{
    lemma_markup_from_flowed(s, 0, Seq::empty(), Seq::empty());
}

proof fn lemma_markup_from_some(s: Seq<char>, i: int, segs: Seq<Seg>, buf: Seq<char>)
    requires
        0 <= i,
    ensures
        markup_from(s, i, segs, buf) is Some,
    decreases s.len() - i,
{
    if i < s.len() {
        lemma_step_advances(s, i);
        match markup_step(s, i) {
            Step::Lit(c, next) => {
                lemma_markup_from_some(s, next, segs, buf.push(c));
            },
            Step::Span(seg, next) => {
                lemma_markup_from_some(s, next, flush_spec(segs, buf).push(seg), Seq::empty());
            },
            _ => {},
        }
    }
}

/// Every text is markup the parser reads: an escape takes the whole
/// character after the backslash, multi-byte ones included.
pub proof fn lemma_markup_total(s: Seq<char>)
    ensures
        markup_spec(s) is Some,
{
    lemma_markup_from_some(s, 0, Seq::empty(), Seq::empty());
}

/// A character with no meaning to the markup.
pub open spec fn is_plain_char(c: char) -> bool {
    c != '\\' && c != '*' && c != '~' && c != '^' && c != '_' && c != '[' && c != '\0'
}

proof fn lemma_plain_from(s: Seq<char>, i: int)
    requires
        0 <= i <= s.len(),
        forall|j: int| 0 <= j < s.len() ==> is_plain_char(#[trigger] s[j]),
    ensures
        markup_from(s, i, Seq::empty(), s.take(i)) == Some(flush_spec(Seq::empty(), s)),
    decreases s.len() - i,
{
    if i < s.len() {
        assert(is_plain_char(s[i]));
        assert(markup_step(s, i) == Step::Lit(s[i], i + 1));
        assert(s.take(i).push(s[i]) =~= s.take(i + 1));
        lemma_plain_from(s, i + 1);
    } else {
        assert(s.take(i) =~= s);
    }
}

/// Text without markup characters is one plain segment (none when empty).
pub proof fn lemma_plain_text_is_one_segment(s: Seq<char>)
    requires
        forall|j: int| 0 <= j < s.len() ==> is_plain_char(#[trigger] s[j]),
    ensures
        markup_spec(s) == Some(if s.len() == 0 {
            Seq::<Seg>::empty()
        } else {
            seq![Seg::Normal(s)]
        }),
{
    assert(s.take(0) =~= Seq::<char>::empty());
    lemma_plain_from(s, 0);
    assert(Seq::<Seg>::empty().push(Seg::Normal(s)) =~= seq![Seg::Normal(s)]);
}

// ---------------------------------------------------------------------------
// Scanners
// ---------------------------------------------------------------------------

pub open spec fn scan_result(sc: Scan, r: Option<usize>) -> bool {
    match sc {
        Scan::Found(k) => r == Some(k as usize),
        _ => r is None,
    }
}

/// Position of the next single closing `sigil` at or after `start`.
fn find_single(s: &Vec<char>, start: usize, sigil: char) -> (r: Option<usize>)
    requires
        start <= s.len(),
    ensures
        scan_result(scan_single(s@, start as int, sigil), r),
{
    let mut j = start;
    while j < s.len()
        invariant
            start <= j <= s.len(),
            scan_single(s@, j as int, sigil) == scan_single(s@, start as int, sigil),
        decreases s.len() - j,
    {
        if s[j] == '\\' && j + 1 < s.len() {
            j = j + 2;
        } else if s[j] == sigil {
            return Some(j);
        } else if s[j] == '\0' {
            return None;
        } else {
            j = j + 1;
        }
    }
    None
}

/// Position of the next two-character closer `a b` at or after `start`.
fn find_pair(s: &Vec<char>, start: usize, a: char, b: char) -> (r: Option<usize>)
    requires
        start <= s.len(),
    ensures
        scan_result(scan_pair(s@, start as int, a, b), r),
{
    let mut j = start;
    while j < s.len() && j + 1 < s.len()
        invariant
            start <= j <= s.len(),
            scan_pair(s@, j as int, a, b) == scan_pair(s@, start as int, a, b),
        decreases s.len() - j,
    {
        if s[j] == '\\' {
            j = j + 2;
        } else if s[j] == a && s[j + 1] == b {
            return Some(j);
        } else if s[j] == '\0' {
            return None;
        } else {
            j = j + 1;
        }
    }
    None
}

/// The characters of `s[start..end]` with escapes resolved.
fn unescape(s: &Vec<char>, start: usize, end: usize) -> (r: String)
    requires
        start <= end <= s.len(),
    ensures
        r@ == unescape_spec(s@.subrange(start as int, end as int)),
{
    let ghost raw = s@.subrange(start as int, end as int);
    let mut out: Vec<char> = Vec::new();
    let mut i = start;
    while i < end
        invariant
            start <= i <= end,
            end <= s.len(),
            raw == s@.subrange(start as int, end as int),
            unescape_from(raw, i - start, out@) == unescape_from(raw, 0, Seq::empty()),
        ensures
            out@ == unescape_from(raw, 0, Seq::empty()),
        decreases end - i,
    {
        if s[i] == '\\' && i + 1 < end {
            out.push(s[i + 1]);
            i = i + 2;
        } else if s[i] == '\0' {
            break;
        } else {
            out.push(s[i]);
            i = i + 1;
        }
    }
    string_from_chars(out.as_slice())
}

fn read_paired_single(s: &Vec<char>, start: usize, sigil: char) -> (r: Option<(String, usize)>)
    requires
        start <= s.len(),
    ensures
        match scan_single(s@, start as int, sigil) {
            Scan::Found(k) => r matches Some((t, next)) && t@ == unescape_spec(
                s@.subrange(start as int, k),
            ) && next == k + 1,
            _ => r is None,
        },
{
    proof {
        lemma_scan_single_bounds(s@, start as int, sigil);
    }
    match find_single(s, start, sigil) {
        Some(k) => Some((unescape(s, start, k), k + 1)),
        None => None,
    }
}

fn read_paired_double(s: &Vec<char>, start: usize, sigil: char) -> (r: Option<(String, usize)>)
    requires
        start <= s.len(),
    ensures
        match scan_pair(s@, start as int, sigil, sigil) {
            Scan::Found(k) => r matches Some((t, next)) && t@ == unescape_spec(
                s@.subrange(start as int, k),
            ) && next == k + 2,
            _ => r is None,
        },
{
    proof {
        lemma_scan_pair_bounds(s@, start as int, sigil, sigil);
    }
    match find_pair(s, start, sigil, sigil) {
        Some(k) => Some((unescape(s, start, k), k + 2)),
        None => None,
    }
}

fn read_overbar(s: &Vec<char>, start: usize) -> (r: Option<(String, usize)>)
    requires
        start <= s.len(),
    ensures
        match scan_pair(s@, start as int, '~', '_') {
            Scan::Found(k) => r matches Some((t, next)) && t@ == unescape_spec(
                s@.subrange(start as int, k),
            ) && next == k + 2,
            _ => r is None,
        },
{
    proof {
        lemma_scan_pair_bounds(s@, start as int, '~', '_');
    }
    match find_pair(s, start, '~', '_') {
        Some(k) => Some((unescape(s, start, k), k + 2)),
        None => None,
    }
}

fn read_paired_bracket(s: &Vec<char>, start: usize) -> (r: Option<(String, usize)>)
    requires
        start <= s.len(),
    ensures
        match scan_single(s@, start as int, ']') {
            Scan::Found(k) => r matches Some((t, next)) && t@ == unescape_spec(
                s@.subrange(start as int, k),
            ) && next == k + 1,
            _ => r is None,
        },
{
    read_paired_single(s, start, ']')
}

fn read_paired_paren(s: &Vec<char>, start: usize) -> (r: Option<(String, usize)>)
    requires
        start <= s.len(),
    ensures
        match scan_single(s@, start as int, ')') {
            Scan::Found(k) => r matches Some((t, next)) && t@ == unescape_spec(
                s@.subrange(start as int, k),
            ) && next == k + 1,
            _ => r is None,
        },
{
    read_paired_single(s, start, ')')
}


// ---------------------------------------------------------------------------
// Markup parser
// ---------------------------------------------------------------------------

enum ExecStep {
    Lit(char, usize),
    Span(RichSegment, usize),
    Stop,
}

spec fn step_matches(r: ExecStep, st: Step) -> bool {
    match (r, st) {
        (ExecStep::Lit(c, n), Step::Lit(c2, n2)) => c == c2 && n == n2,
        (ExecStep::Span(seg, n), Step::Span(seg2, n2)) => seg@ == seg2 && n == n2,
        (ExecStep::Stop, Step::Stop) => true,
        _ => false,
    }
}

fn is_sigil_char(c: char) -> (r: bool)
    ensures
        r == is_markup_sigil(c),
{
    c == '*' || c == '~' || c == '^' || c == '_' || c == '\\' || c == '[' || c == ']' || c == '('
        || c == ')'
}

/// The parser's action at position `i`.
fn step_at(s: &Vec<char>, i: usize) -> (r: ExecStep)
    requires
        i < s.len(),
    ensures
        step_matches(r, markup_step(s@, i as int)),
{
    let n = s.len();
    if s[i] == '\\' && i + 1 < n {
        if is_sigil_char(s[i + 1]) {
            return ExecStep::Lit(s[i + 1], i + 2);
        } else {
            return ExecStep::Lit('\\', i + 1);
        }
    }
    if s[i] == '_' && i + 1 < n && s[i + 1] == '~' {
        if let Some((content, next)) = read_overbar(s, i + 2) {
            return ExecStep::Span(RichSegment::Overbar(content), next);
        }
    }
    if s[i] == '*' && i + 1 < n && s[i + 1] == '*' {
        if let Some((content, next)) = read_paired_double(s, i + 2, '*') {
            return ExecStep::Span(RichSegment::Bold(content), next);
        }
    }
    if s[i] == '*' {
        if let Some((content, next)) = read_paired_single(s, i + 1, '*') {
            return ExecStep::Span(RichSegment::Italic(content), next);
        }
    }
    if s[i] == '~' && i + 1 < n && s[i + 1] == '~' {
        if let Some((content, next)) = read_paired_double(s, i + 2, '~') {
            return ExecStep::Span(RichSegment::Strike(content), next);
        }
    }
    if s[i] == '~' {
        if let Some((content, next)) = read_paired_single(s, i + 1, '~') {
            return ExecStep::Span(RichSegment::Subscript(content), next);
        }
    }
    if s[i] == '^' {
        if let Some((content, next)) = read_paired_single(s, i + 1, '^') {
            return ExecStep::Span(RichSegment::Superscript(content), next);
        }
    }
    if s[i] == '[' {
        if let Some((label, after_label)) = read_paired_bracket(s, i + 1) {
            if after_label < n && s[after_label] == '(' {
                if let Some((url, next)) = read_paired_paren(s, after_label + 1) {
                    return ExecStep::Span(RichSegment::Link { label, url }, next);
                }
            }
        }
    }
    if s[i] == '\0' {
        ExecStep::Stop
    } else {
        ExecStep::Lit(s[i], i + 1)
    }
}

/// Emit the pending plain text as a `Normal` segment, if there is any.
fn flush_normal(segments: &mut Vec<RichSegment>, buf: &mut Vec<char>)
    ensures
        segs_view(final(segments)@) == flush_spec(segs_view(old(segments)@), old(buf)@),
        final(buf)@ == Seq::<char>::empty(),
{
    if buf.len() > 0 {
        let text = string_from_chars(buf.as_slice());
        segments.push(RichSegment::Normal(text));
        assert(segs_view(segments@) =~= segs_view(old(segments)@).push(Seg::Normal(old(buf)@)));
    }
    *buf = Vec::new();
}

/// Parse Signex markup into a flat list of rich segments.
///
/// Sigils are consumed in order; spans do not nest (`**_~OE~_**` is a Bold
/// segment holding the literal text `_~OE~_`). A sigil without its closer is
/// literal text.
pub fn parse_signex_markup(input: &str) -> (r: Vec<RichSegment>)
    ensures
        markup_spec(input@) == Some(segs_view(r@)),
{
    if input.is_empty() {
        let r: Vec<RichSegment> = Vec::new();
        assert(segs_view(r@) =~= Seq::<Seg>::empty());
        return r;
    }
    proof {
        lemma_markup_total(input@);
    }
    let s = chars_of(input);
    let mut segments: Vec<RichSegment> = Vec::new();
    let mut buf: Vec<char> = Vec::new();
    let mut i: usize = 0;
    assert(segs_view(segments@) =~= Seq::<Seg>::empty());
    loop
        invariant_except_break
            i <= s.len(),
            s@ == input@,
            markup_from(s@, i as int, segs_view(segments@), buf@) == markup_spec(input@),
            markup_spec(input@) is Some,
        ensures
            markup_spec(input@) == Some(flush_spec(segs_view(segments@), buf@)),
        decreases s.len() - i,
    {
        if i >= s.len() {
            break;
        }
        match step_at(&s, i) {
            ExecStep::Lit(c, next) => {
                buf.push(c);
                i = next;
            },
            ExecStep::Span(seg, next) => {
                let ghost seg_view = seg@;
                flush_normal(&mut segments, &mut buf);
                let ghost before = segments@;
                segments.push(seg);
                assert(segs_view(segments@) =~= segs_view(before).push(seg_view));
                i = next;
            },
            ExecStep::Stop => {
                break;
            },
        }
    }
    flush_normal(&mut segments, &mut buf);
    segments
}


// ---------------------------------------------------------------------------
// Expression substitution
// ---------------------------------------------------------------------------

/// Where expression variables are looked up.
#[derive(Debug, Clone, Default)]
pub struct ExpressionEvalContext<'a> {
    pub current_refdes: Option<&'a str>,
    pub current_value: Option<&'a str>,
    pub current_pin: Option<&'a str>,
    pub cell: Option<&'a str>,
    pub at_variables: Option<&'a VarMap>,
    pub refdes_variables: Option<&'a VarMap>,
    pub net_name_by_pin: Option<&'a VarMap>,
}

pub open spec fn opt_chars(o: Option<&str>) -> Option<Seq<char>> {
    match o {
        Some(t) => Some(t@),
        None => None,
    }
}

/// A variable by exact name, else by name up to ASCII case.
pub open spec fn lookup_spec(m: Option<&VarMap>, key: Seq<char>) -> Option<Seq<char>> {
    match m {
        None => None,
        Some(m) => if m@.dom().contains(key) {
            Some(m@[key])
        } else {
            m.ci_lookup(key)
        },
    }
}

/// `expr` has the shape `<head>:<tail>` with `head` (trimmed) equal to
/// `refdes` up to case; splitting happens at the first colon.
pub open spec fn has_refdes_head(expr: Seq<char>) -> bool {
    match find_char(expr, 0, ':') {
        Some(c) => ci_eq(trim_spec(expr.subrange(0, c)), "refdes"@),
        None => false,
    }
}

/// The value of `${expr}` (with `expr` already trimmed).
pub open spec fn dollar_spec(expr: Seq<char>, ctx: ExpressionEvalContext) -> Option<Seq<char>> {
    if expr.len() == 0 {
        None
    } else if has_refdes_head(expr) {
        let c = find_char(expr, 0, ':').unwrap();
        let key = trim_spec(expr.subrange(c + 1, expr.len() as int));
        if key.len() == 0 || ci_eq(key, "self"@) || ci_eq(key, "current"@) {
            opt_chars(ctx.current_refdes)
        } else {
            lookup_spec(ctx.refdes_variables, key)
        }
    } else if ci_eq(expr, "refdes"@) || ci_eq(expr, "reference"@) {
        opt_chars(ctx.current_refdes)
    } else if ci_eq(expr, "value"@) {
        opt_chars(ctx.current_value)
    } else {
        lookup_spec(ctx.at_variables, expr)
    }
}

/// The value of `@{expr}` (with `expr` already trimmed).
pub open spec fn at_spec(expr: Seq<char>, ctx: ExpressionEvalContext) -> Option<Seq<char>> {
    if expr.len() == 0 {
        None
    } else if ci_eq(expr, "refdes"@) || ci_eq(expr, "reference"@) {
        opt_chars(ctx.current_refdes)
    } else if ci_eq(expr, "value"@) {
        opt_chars(ctx.current_value)
    } else {
        lookup_spec(ctx.at_variables, expr)
    }
}

/// The value of `NET_NAME(expr)`; an empty argument or `pin` means the
/// current pin.
pub open spec fn net_name_spec(expr: Seq<char>, ctx: ExpressionEvalContext) -> Option<Seq<char>> {
    let key = trim_spec(expr);
    if key.len() == 0 || ci_eq(key, "pin"@) {
        match ctx.current_pin {
            None => None,
            Some(p) => lookup_spec(ctx.net_name_by_pin, p@),
        }
    } else {
        lookup_spec(ctx.net_name_by_pin, key)
    }
}

/// Position of the bracket that closes a group opened before `i`, where
/// `depth` groups are open; `open`/`close` nest.
pub open spec fn closing_at(s: Seq<char>, i: int, depth: int, open: char, close: char) -> Option<
    int,
>
    decreases s.len() - i,
{
    if i < 0 || i >= s.len() {
        None
    } else if s[i] == open {
        closing_at(s, i + 1, depth + 1, open, close)
    } else if s[i] == close {
        if depth == 1 {
            Some(i)
        } else {
            closing_at(s, i + 1, depth - 1, open, close)
        }
    } else {
        closing_at(s, i + 1, depth, open, close)
    }
}

proof fn lemma_closing_bounds(s: Seq<char>, i: int, depth: int, open: char, close: char)
    requires
        0 <= i,
    ensures
        closing_at(s, i, depth, open, close) matches Some(j) ==> i <= j < s.len(),
    decreases s.len() - i,
{
    if i < s.len() {
        if s[i] == open {
            lemma_closing_bounds(s, i + 1, depth + 1, open, close);
        } else if s[i] == close {
            if depth != 1 {
                lemma_closing_bounds(s, i + 1, depth - 1, open, close);
            }
        } else {
            lemma_closing_bounds(s, i + 1, depth, open, close);
        }
    }
}

/// The text produced from position `i` on, after `out` has been produced.
pub open spec fn eval_from(s: Seq<char>, i: int, out: Seq<char>, ctx: ExpressionEvalContext) -> Seq<
    char,
>
    decreases s.len() - i,
{
    let n = s.len();
    if i < 0 || i >= n {
        out
    } else if s[i] == '\\' && i + 1 < n {
        if s[i + 1] == '$' || s[i + 1] == '@' {
            eval_from(s, i + 2, out.push(s[i + 1]), ctx)
        } else {
            eval_from(s, i + 1, out.push('\\'), ctx)
        }
    } else if s[i] == '$' && i + 1 < n && s[i + 1] == '{' && closing_at(s, i + 2, 1, '{', '}') is Some {
        let j = closing_at(s, i + 2, 1, '{', '}').unwrap();
        let expr = s.subrange(i + 2, j);
        let piece = match dollar_spec(trim_spec(expr), ctx) {
            Some(v) => v,
            None => "${"@ + expr + "}"@,
        };
        if i < j + 1 <= n {
            eval_from(s, j + 1, out + piece, ctx)
        } else {
            out
        }
    } else if s[i] == '@' && i + 1 < n && s[i + 1] == '{' && closing_at(s, i + 2, 1, '{', '}') is Some {
        let j = closing_at(s, i + 2, 1, '{', '}').unwrap();
        let expr = s.subrange(i + 2, j);
        let piece = match at_spec(trim_spec(expr), ctx) {
            Some(v) => v,
            None => "@{"@ + expr + "}"@,
        };
        if i < j + 1 <= n {
            eval_from(s, j + 1, out + piece, ctx)
        } else {
            out
        }
    } else if starts_ci_at(s, i, "CELL()"@) {
        let piece = match ctx.cell {
            Some(c) => c@,
            None => s.subrange(i, i + "CELL()"@.len()),
        };
        if 0 < "CELL()"@.len() {
            eval_from(s, i + "CELL()"@.len(), out + piece, ctx)
        } else {
            out
        }
    } else if starts_ci_at(s, i, "NET_NAME("@) && closing_at(s, i + "NET_NAME("@.len(), 1, '(', ')') is Some {
        let a = i + "NET_NAME("@.len();
        let j = closing_at(s, a, 1, '(', ')').unwrap();
        let arg = s.subrange(a, j);
        let piece = match net_name_spec(trim_spec(arg), ctx) {
            Some(v) => v,
            None => s.subrange(i, j + 1),
        };
        if i < j + 1 <= n {
            eval_from(s, j + 1, out + piece, ctx)
        } else {
            out
        }
    } else {
        eval_from(s, i + 1, out.push(s[i]), ctx)
    }
}

/// The result of expression substitution on `s`.
pub open spec fn evaluate_spec(s: Seq<char>, ctx: ExpressionEvalContext) -> Seq<char> {
    eval_from(s, 0, Seq::empty(), ctx)
}

proof fn lemma_closing_char(s: Seq<char>, i: int, depth: int, open: char, close: char)
    requires
        0 <= i,
    ensures
        closing_at(s, i, depth, open, close) matches Some(j) ==> i <= j < s.len() && s[j] == close,
    decreases s.len() - i,
{
    if i < s.len() {
        if s[i] == open {
            lemma_closing_char(s, i + 1, depth + 1, open, close);
        } else if s[i] == close {
            if depth != 1 {
                lemma_closing_char(s, i + 1, depth - 1, open, close);
            }
        } else {
            lemma_closing_char(s, i + 1, depth, open, close);
        }
    }
}

/// A context in which no expression resolves.
pub open spec fn resolves_nothing(ctx: ExpressionEvalContext) -> bool {
    &&& ctx.current_refdes is None
    &&& ctx.current_value is None
    &&& ctx.current_pin is None
    &&& ctx.cell is None
    &&& ctx.at_variables is None
    &&& ctx.refdes_variables is None
    &&& ctx.net_name_by_pin is None
}

/// No backslash escapes a `$` or an `@`.
pub open spec fn no_sigil_escape(s: Seq<char>) -> bool {
    forall|k: int| 0 <= k < s.len() - 1 && #[trigger] s[k] == '\\' ==> s[k + 1] != '$' && s[k + 1] != '@'
}

proof fn lemma_eval_keeps(s: Seq<char>, i: int, ctx: ExpressionEvalContext)
    requires
        0 <= i <= s.len(),
        resolves_nothing(ctx),
        no_sigil_escape(s),
    ensures
        eval_from(s, i, s.take(i), ctx) == s,
    decreases s.len() - i,
{
    reveal_strlit("${");
    reveal_strlit("@{");
    reveal_strlit("}");
    reveal_strlit("CELL()");
    reveal_strlit("NET_NAME(");
    let n = s.len() as int;
    if i >= n {
        assert(s.take(i) =~= s);
    } else if s[i] == '\\' && i + 1 < n {
        assert(s.take(i).push('\\') =~= s.take(i + 1));
        lemma_eval_keeps(s, i + 1, ctx);
    } else if s[i] == '$' && i + 1 < n && s[i + 1] == '{' && closing_at(s, i + 2, 1, '{', '}') is Some {
        let j = closing_at(s, i + 2, 1, '{', '}').unwrap();
        lemma_closing_char(s, i + 2, 1, '{', '}');
        assert(s.take(i) + ("${"@ + s.subrange(i + 2, j) + "}"@) =~= s.take(j + 1));
        lemma_eval_keeps(s, j + 1, ctx);
    } else if s[i] == '@' && i + 1 < n && s[i + 1] == '{' && closing_at(s, i + 2, 1, '{', '}') is Some {
        let j = closing_at(s, i + 2, 1, '{', '}').unwrap();
        lemma_closing_char(s, i + 2, 1, '{', '}');
        assert(s.take(i) + ("@{"@ + s.subrange(i + 2, j) + "}"@) =~= s.take(j + 1));
        lemma_eval_keeps(s, j + 1, ctx);
    } else if starts_ci_at(s, i, "CELL()"@) {
        assert(s.take(i) + s.subrange(i, i + 6) =~= s.take(i + 6));
        lemma_eval_keeps(s, i + 6, ctx);
    } else if starts_ci_at(s, i, "NET_NAME("@) && closing_at(s, i + 9, 1, '(', ')') is Some {
        let j = closing_at(s, i + 9, 1, '(', ')').unwrap();
        lemma_closing_char(s, i + 9, 1, '(', ')');
        assert(s.take(i) + s.subrange(i, j + 1) =~= s.take(j + 1));
        lemma_eval_keeps(s, j + 1, ctx);
    } else {
        assert(s.take(i).push(s[i]) =~= s.take(i + 1));
        lemma_eval_keeps(s, i + 1, ctx);
    }
}

/// Where nothing resolves, text comes back exactly as written, unresolved
/// expressions included (unless a backslash escapes a `$` or `@`, which
/// drops the backslash).
pub proof fn lemma_unresolved_text_kept(s: Seq<char>, ctx: ExpressionEvalContext)
    requires
        resolves_nothing(ctx),
        no_sigil_escape(s),
    ensures
        evaluate_spec(s, ctx) == s,
{
    assert(s.take(0) =~= Seq::<char>::empty());
    lemma_eval_keeps(s, 0, ctx);
}

spec fn ascii_letter(c: char) -> bool {
    let u = c as u32;
    (65 <= u && u <= 90) || (97 <= u && u <= 122)
}

spec fn lowercase_word(w: Seq<char>) -> bool {
    forall|k: int| 0 <= k < w.len() ==> 97 <= #[trigger] w[k] as u32 <= 122
}

/// Text equal up to case to a lowercase word is made of ASCII letters.
proof fn lemma_ci_word_letters(e: Seq<char>, w: Seq<char>)
    requires
        ci_eq(e, w),
        lowercase_word(w),
    ensures
        forall|k: int| 0 <= k < e.len() ==> ascii_letter(#[trigger] e[k]),
{
    assert forall|k: int| 0 <= k < e.len() implies ascii_letter(#[trigger] e[k]) by {
        assert(97 <= w[k] as u32 <= 122);
        assert(crate::text::fold_code(e[k]) == crate::text::fold_code(w[k]));
    }
}

proof fn lemma_variable_words()
    ensures
        lowercase_word("value"@),
        lowercase_word("refdes"@),
        lowercase_word("reference"@),
        "value"@.len() == 5,
        "refdes"@.len() == 6,
        "reference"@.len() == 9,
{
    reveal_strlit("value");
    reveal_strlit("refdes");
    reveal_strlit("reference");
    let v = "value"@;
    assert forall|k: int| 0 <= k < v.len() implies 97 <= #[trigger] v[k] as u32 <= 122 by {
        assert(k == 0 || k == 1 || k == 2 || k == 3 || k == 4);
    }
    let r = "refdes"@;
    assert forall|k: int| 0 <= k < r.len() implies 97 <= #[trigger] r[k] as u32 <= 122 by {
        assert(k == 0 || k == 1 || k == 2 || k == 3 || k == 4 || k == 5);
    }
    let f = "reference"@;
    assert forall|k: int| 0 <= k < f.len() implies 97 <= #[trigger] f[k] as u32 <= 122 by {
        assert(k == 0 || k == 1 || k == 2 || k == 3 || k == 4 || k == 5 || k == 6 || k == 7 || k == 8);
    }
}

/// A run of letters up to a `}` is closed by that `}`.
proof fn lemma_word_closed(s: Seq<char>, i: int, j: int)
    requires
        0 <= i <= j < s.len(),
        s[j] == '}',
        forall|k: int| i <= k < j ==> ascii_letter(#[trigger] s[k]),
    ensures
        closing_at(s, i, 1, '{', '}') == Some(j),
    decreases j - i,
{
    if i < j {
        assert(ascii_letter(s[i]));
        lemma_word_closed(s, i + 1, j);
    }
}

/// A nonempty word of letters has no whitespace to trim.
proof fn lemma_word_trimmed(e: Seq<char>)
    requires
        e.len() > 0,
        forall|k: int| 0 <= k < e.len() ==> ascii_letter(#[trigger] e[k]),
    ensures
        trim_spec(e) == e,
{
    assert(ascii_letter(e[0]));
    assert(ascii_letter(e[e.len() - 1]));
    assert(crate::text::skip_ws(e, 0) == 0);
    assert(crate::text::drop_trailing_ws(e, e.len() as int) == e.len());
    assert(e.subrange(0, e.len() as int) =~= e);
}

/// The whole text `@{e}`, for a nonempty word `e` of letters, becomes what
/// the variable `e` names, or stays as written when it names nothing.
proof fn lemma_at_word(e: Seq<char>, ctx: ExpressionEvalContext)
    requires
        e.len() > 0,
        forall|k: int| 0 <= k < e.len() ==> ascii_letter(#[trigger] e[k]),
    ensures
        evaluate_spec("@{"@ + e + "}"@, ctx) == match at_spec(e, ctx) {
            Some(v) => v,
            None => "@{"@ + e + "}"@,
        },
{
    reveal_strlit("@{");
    reveal_strlit("}");
    let s = "@{"@ + e + "}"@;
    let j: int = e.len() as int + 2;
    assert(s.len() == e.len() + 3);
    assert(s[0] == '@' && s[1] == '{' && s[j] == '}');
    assert forall|k: int| 2 <= k < j implies ascii_letter(#[trigger] s[k]) by {
        assert(s[k] == e[k - 2]);
    }
    lemma_word_closed(s, 2, j);
    assert(s.subrange(2, j) =~= e);
    lemma_word_trimmed(e);
    let piece = match at_spec(e, ctx) {
        Some(v) => v,
        None => "@{"@ + e + "}"@,
    };
    assert(eval_from(s, j + 1, Seq::<char>::empty() + piece, ctx) == Seq::<char>::empty() + piece);
    assert(Seq::<char>::empty() + piece =~= piece);
}

/// `@{value}`, spelled in any case, stands for the current value: it
/// becomes the context's current value, and stays as written when there is
/// none.
pub proof fn lemma_at_value_is_current_value(e: Seq<char>, ctx: ExpressionEvalContext)
    requires
        ci_eq(e, "value"@),
    ensures
        evaluate_spec("@{"@ + e + "}"@, ctx) == match ctx.current_value {
            Some(v) => v@,
            None => "@{"@ + e + "}"@,
        },
{
    lemma_variable_words();
    lemma_ci_word_letters(e, "value"@);
    lemma_at_word(e, ctx);
    assert(!ci_eq(e, "refdes"@) && !ci_eq(e, "reference"@));
}

/// `@{refdes}` and `@{reference}`, spelled in any case, stand for the
/// current reference designator: they become the context's current
/// designator, and stay as written when there is none.
pub proof fn lemma_at_refdes_is_current_refdes(e: Seq<char>, ctx: ExpressionEvalContext)
    requires
        ci_eq(e, "refdes"@) || ci_eq(e, "reference"@),
    ensures
        evaluate_spec("@{"@ + e + "}"@, ctx) == match ctx.current_refdes {
            Some(v) => v@,
            None => "@{"@ + e + "}"@,
        },
{
    lemma_variable_words();
    if ci_eq(e, "refdes"@) {
        lemma_ci_word_letters(e, "refdes"@);
    } else {
        lemma_ci_word_letters(e, "reference"@);
    }
    lemma_at_word(e, ctx);
}

/// The text between `start` and the bracket closing the group opened just
/// before `start`, and the position after that bracket.
fn read_group(s: &Vec<char>, start: usize, open: char, close: char) -> (r: Option<(Vec<char>, usize)>)
    requires
        2 <= start <= s.len(),
    ensures
        match closing_at(s@, start as int, 1, open, close) {
            Some(j) => r matches Some((t, next)) && t@ == s@.subrange(start as int, j) && next == j
                + 1,
            None => r is None,
        },
{
    let mut i = start;
    let mut depth: usize = 1;
    while i < s.len()
        invariant
            2 <= start <= i <= s.len(),
            1 <= depth <= i - start + 1,
            closing_at(s@, i as int, depth as int, open, close) == closing_at(
                s@,
                start as int,
                1,
                open,
                close,
            ),
        decreases s.len() - i,
    {
        if s[i] == open {
            depth += 1;
        } else if s[i] == close {
            if depth == 1 {
                return Some((slice_chars(s, start, i), i + 1));
            }
            depth -= 1;
        }
        i += 1;
    }
    None
}

fn read_braced(s: &Vec<char>, start: usize) -> (r: Option<(Vec<char>, usize)>)
    requires
        2 <= start <= s.len(),
    ensures
        match closing_at(s@, start as int, 1, '{', '}') {
            Some(j) => r matches Some((t, next)) && t@ == s@.subrange(start as int, j) && next == j
                + 1,
            None => r is None,
        },
{
    read_group(s, start, '{', '}')
}

fn read_parenthesized(s: &Vec<char>, start: usize) -> (r: Option<(Vec<char>, usize)>)
    requires
        2 <= start <= s.len(),
    ensures
        match closing_at(s@, start as int, 1, '(', ')') {
            Some(j) => r matches Some((t, next)) && t@ == s@.subrange(start as int, j) && next == j
                + 1,
            None => r is None,
        },
{
    read_group(s, start, '(', ')')
}

fn opt_to_string(o: Option<&str>) -> (r: Option<String>)
    ensures
        match o {
            Some(t) => r matches Some(v) && v@ == t@,
            None => r is None,
        },
{
    match o {
        Some(t) => Some(t.to_owned()),
        None => None,
    }
}

pub open spec fn opt_string_view(o: Option<String>) -> Option<Seq<char>> {
    match o {
        Some(t) => Some(t@),
        None => None,
    }
}

/// A variable by exact name, else the first by name up to ASCII case.
fn lookup_ci(map: Option<&VarMap>, key: &[char]) -> (r: Option<String>)
    ensures
        opt_string_view(r) == lookup_spec(map, key@),
{
    let m = match map {
        Some(m) => m,
        None => {
            return None;
        },
    };
    if let Some(v) = m.get_exact(key) {
        return Some(v.clone());
    }
    match m.get_ignore_case(key) {
        Some(v) => Some(v.clone()),
        None => None,
    }
}

fn ci_literal(text: &[char], literal: &str) -> (r: bool)
    ensures
        r == ci_eq(text@, literal@),
{
    let lit = chars_of(literal);
    chars_ci_eq(text, lit.as_slice())
}

fn eval_dollar_expression(expr: &[char], ctx: &ExpressionEvalContext) -> (r: Option<String>)
    ensures
        opt_string_view(r) == dollar_spec(expr@, *ctx),
{
    if expr.len() == 0 {
        return None;
    }
    let mut colon: usize = 0;
    while colon < expr.len() && expr[colon] != ':'
        invariant
            colon <= expr.len(),
            find_char(expr@, colon as int, ':') == find_char(expr@, 0, ':'),
        decreases expr.len() - colon,
    {
        colon += 1;
    }
    if colon < expr.len() {
        let head_raw = slice_chars(expr, 0, colon);
        let head = trim_chars(&head_raw);
        if ci_literal(head.as_slice(), "refdes") {
            let tail_raw = slice_chars(expr, colon + 1, expr.len());
            let key = trim_chars(&tail_raw);
            if key.len() == 0 || ci_literal(key.as_slice(), "self") || ci_literal(
                key.as_slice(),
                "current",
            ) {
                return opt_to_string(ctx.current_refdes);
            }
            return lookup_ci(ctx.refdes_variables, key.as_slice());
        }
    }
    if ci_literal(expr, "refdes") || ci_literal(expr, "reference") {
        return opt_to_string(ctx.current_refdes);
    }
    if ci_literal(expr, "value") {
        return opt_to_string(ctx.current_value);
    }
    lookup_ci(ctx.at_variables, expr)
}

fn eval_at_expression(expr: &[char], ctx: &ExpressionEvalContext) -> (r: Option<String>)
    ensures
        opt_string_view(r) == at_spec(expr@, *ctx),
{
    if expr.len() == 0 {
        return None;
    }
    if ci_literal(expr, "refdes") || ci_literal(expr, "reference") {
        return opt_to_string(ctx.current_refdes);
    }
    if ci_literal(expr, "value") {
        return opt_to_string(ctx.current_value);
    }
    lookup_ci(ctx.at_variables, expr)
}

fn eval_net_name(expr: &[char], ctx: &ExpressionEvalContext) -> (r: Option<String>)
    ensures
        opt_string_view(r) == net_name_spec(expr@, *ctx),
{
    let key = trim_chars(expr);
    if key.len() == 0 || ci_literal(key.as_slice(), "pin") {
        match ctx.current_pin {
            None => None,
            Some(p) => {
                let pin = chars_of(p);
                lookup_ci(ctx.net_name_by_pin, pin.as_slice())
            },
        }
    } else {
        lookup_ci(ctx.net_name_by_pin, key.as_slice())
    }
}

/// Evaluate Altium-style expression variables: `${refdes:<key>}`,
/// `@{<name>}`, `CELL()` and `NET_NAME(<pin>)`. Expressions that do not
/// resolve are kept verbatim.
pub fn evaluate_expressions(input: &str, ctx: &ExpressionEvalContext) -> (r: String)
    ensures
        r@ == evaluate_spec(input@, *ctx),
{
    let s = chars_of(input);
    let dollar_open = chars_of("${");
    let at_open = chars_of("@{");
    let close_brace = chars_of("}");
    let cell_lit = chars_of("CELL()");
    let net_lit = chars_of("NET_NAME(");
    proof {
        reveal_strlit("CELL()");
        reveal_strlit("NET_NAME(");
    }
    let mut out: Vec<char> = Vec::new();
    let mut i: usize = 0;
    while i < s.len()
        invariant
            i <= s.len(),
            s@ == input@,
            dollar_open@ == "${"@,
            at_open@ == "@{"@,
            close_brace@ == "}"@,
            cell_lit@ == "CELL()"@,
            net_lit@ == "NET_NAME("@,
            "CELL()"@.len() == 6,
            "NET_NAME("@.len() == 9,
            eval_from(s@, i as int, out@, *ctx) == evaluate_spec(input@, *ctx),
        ensures
            out@ == evaluate_spec(input@, *ctx),
        decreases s.len() - i,
    {
        let n = s.len();
        if s[i] == '\\' && i + 1 < n {
            let next = s[i + 1];
            if next == '$' || next == '@' {
                out.push(next);
                i += 2;
                continue;
            }
            out.push('\\');
            i += 1;
            continue;
        }
        if (s[i] == '$' || s[i] == '@') && i + 1 < n && s[i + 1] == '{' {
            if let Some((expr, next_index)) = read_braced(&s, i + 2) {
                proof {
                    lemma_closing_bounds(s@, i + 2, 1, '{', '}');
                }
                let ghost old_out = out@;
                let trimmed = trim_chars(&expr);
                let value = if s[i] == '$' {
                    eval_dollar_expression(trimmed.as_slice(), ctx)
                } else {
                    eval_at_expression(trimmed.as_slice(), ctx)
                };
                match value {
                    Some(v) => {
                        let vc = chars_of(v.as_str());
                        append_chars(&mut out, vc.as_slice());
                    },
                    None => {
                        if s[i] == '$' {
                            append_chars(&mut out, dollar_open.as_slice());
                        } else {
                            append_chars(&mut out, at_open.as_slice());
                        }
                        append_chars(&mut out, expr.as_slice());
                        append_chars(&mut out, close_brace.as_slice());
                        proof {
                            if s[i as int] == '$' {
                                assert(out@ =~= old_out + ("${"@ + expr@ + "}"@));
                            } else {
                                assert(out@ =~= old_out + ("@{"@ + expr@ + "}"@));
                            }
                        }
                    },
                }
                i = next_index;
                continue;
            }
        }
        if starts_with_ascii_ci(s.as_slice(), i, cell_lit.as_slice()) {
            match ctx.cell {
                Some(c) => {
                    let cc = chars_of(c);
                    append_chars(&mut out, cc.as_slice());
                },
                None => {
                    let written = slice_chars(s.as_slice(), i, i + 6);
                    append_chars(&mut out, written.as_slice());
                },
            }
            i += 6;
            continue;
        }
        if starts_with_ascii_ci(s.as_slice(), i, net_lit.as_slice()) {
            if let Some((arg, next_index)) = read_parenthesized(&s, i + 9) {
                proof {
                    lemma_closing_bounds(s@, i + 9, 1, '(', ')');
                }
                let ghost old_out = out@;
                let trimmed = trim_chars(&arg);
                match eval_net_name(trimmed.as_slice(), ctx) {
                    Some(v) => {
                        let vc = chars_of(v.as_str());
                        append_chars(&mut out, vc.as_slice());
                    },
                    None => {
                        let written = slice_chars(s.as_slice(), i, next_index);
                        append_chars(&mut out, written.as_slice());
                    },
                }
                i = next_index;
                continue;
            }
        }
        out.push(s[i]);
        i += 1;
    }
    string_from_chars(out.as_slice())
}


// ---------------------------------------------------------------------------
// Auto net names
// ---------------------------------------------------------------------------

/// `(refdes, pin)` pairs ordered by refdes, then by pin.
pub open spec fn pin_lt(x: (Seq<char>, Seq<char>), y: (Seq<char>, Seq<char>)) -> bool {
    seq_lt(x.0, y.0) || (x.0 == y.0 && seq_lt(x.1, y.1))
}

pub open spec fn pins_view(p: Seq<(String, String)>) -> Seq<(Seq<char>, Seq<char>)> {
    p.map_values(|e: (String, String)| (e.0@, e.1@))
}

/// `k` is the first of the smallest pairs.
pub open spec fn is_first_min(v: Seq<(Seq<char>, Seq<char>)>, k: int) -> bool {
    &&& 0 <= k < v.len()
    &&& forall|j: int| 0 <= j < v.len() ==> !pin_lt(#[trigger] v[j], v[k])
    &&& forall|j: int| 0 <= j < k ==> pin_lt(v[k], #[trigger] v[j])
}

/// `unnamed-<sheet>:<ref>:<pin>`, or `unnamed-<ref>:<pin>` without a sheet.
pub open spec fn auto_net_text(sheet: Seq<char>, r: Seq<char>, p: Seq<char>) -> Seq<char> {
    if sheet.len() == 0 {
        "unnamed-"@ + r + ":"@ + p
    } else {
        "unnamed-"@ + sheet + ":"@ + r + ":"@ + p
    }
}

pub proof fn lemma_pin_lt_trans(a: (Seq<char>, Seq<char>), b: (Seq<char>, Seq<char>), c: (Seq<char>, Seq<char>))
    requires
        pin_lt(a, b),
        pin_lt(b, c),
    ensures
        pin_lt(a, c),
{
    if seq_lt(a.0, b.0) && seq_lt(b.0, c.0) {
        lemma_seq_lt_trans(a.0, b.0, c.0);
    } else if seq_lt(a.1, b.1) && seq_lt(b.1, c.1) && a.0 == b.0 && b.0 == c.0 {
        lemma_seq_lt_trans(a.1, b.1, c.1);
    }
}

pub proof fn lemma_pin_lt_total(a: (Seq<char>, Seq<char>), b: (Seq<char>, Seq<char>))
    ensures
        pin_lt(a, b) || pin_lt(b, a) || a == b,
{
    lemma_seq_lt_total(a.0, b.0);
    lemma_seq_lt_total(a.1, b.1);
}

pub proof fn lemma_pin_lt_irrefl(a: (Seq<char>, Seq<char>))
    ensures
        !pin_lt(a, a),
{
    lemma_seq_lt_irrefl(a.0);
    lemma_seq_lt_irrefl(a.1);
}

/// The pair an unnamed net is named after does not depend on the order in
/// which its pins are listed: two lists holding the same pairs pick the
/// same one.
pub proof fn lemma_auto_net_pin_order_free(
    v: Seq<(Seq<char>, Seq<char>)>,
    w: Seq<(Seq<char>, Seq<char>)>,
    kv: int,
    kw: int,
)
    requires
        is_first_min(v, kv),
        is_first_min(w, kw),
        forall|x: (Seq<char>, Seq<char>)| v.contains(x) <==> w.contains(x),
    ensures
        v[kv] == w[kw],
{
    assert(v.contains(v[kv]));
    assert(w.contains(w[kw]));
    let jw = choose|j: int| 0 <= j < w.len() && w[j] == v[kv];
    let jv = choose|j: int| 0 <= j < v.len() && v[j] == w[kw];
    assert(!pin_lt(w[jw], w[kw]));
    assert(!pin_lt(v[jv], v[kv]));
    lemma_pin_lt_total(v[kv], w[kw]);
}

/// Default name for an unnamed net: `unnamed-<sheet>:<ref>:<pin>` for the
/// smallest `(refdes, pin)` (the first one if several are equal), or
/// `unnamed-<ref>:<pin>` when `sheet` is empty. `None` without pins.
pub fn auto_net_name(sheet: &str, pins: &[(String, String)]) -> (r: Option<String>)
    ensures
        r is None <==> pins@.len() == 0,
        r matches Some(t) ==> exists|k: int|
            is_first_min(pins_view(pins@), k) && t@ == auto_net_text(
                sheet@,
                pins_view(pins@)[k].0,
                pins_view(pins@)[k].1,
            ),
{
    if pins.len() == 0 {
        return None;
    }
    let ghost v = pins_view(pins@);
    let mut best: usize = 0;
    let mut best_ref = chars_of(pins[0].0.as_str());
    let mut best_pin = chars_of(pins[0].1.as_str());
    let mut i: usize = 1;
    proof {
        lemma_pin_lt_irrefl(v[0]);
    }
    while i < pins.len()
        invariant
            v == pins_view(pins@),
            v.len() == pins@.len(),
            1 <= i <= pins@.len(),
            best < i,
            best_ref@ == v[best as int].0,
            best_pin@ == v[best as int].1,
            forall|j: int| 0 <= j < i ==> !pin_lt(#[trigger] v[j], v[best as int]),
            forall|j: int| 0 <= j < best ==> pin_lt(v[best as int], #[trigger] v[j]),
        decreases pins.len() - i,
    {
        let r = chars_of(pins[i].0.as_str());
        let p = chars_of(pins[i].1.as_str());
        let smaller = chars_lt(r.as_slice(), best_ref.as_slice()) || (chars_eq(
            r.as_slice(),
            best_ref.as_slice(),
        ) && chars_lt(p.as_slice(), best_pin.as_slice()));
        assert(smaller == pin_lt(v[i as int], v[best as int]));
        if smaller {
            proof {
                let ob = best as int;
                assert forall|j: int| 0 <= j < i implies !pin_lt(#[trigger] v[j], v[i as int]) by {
                    if pin_lt(v[j], v[i as int]) {
                        lemma_pin_lt_trans(v[j], v[i as int], v[ob]);
                    }
                }
                assert forall|j: int| 0 <= j < i implies pin_lt(v[i as int], #[trigger] v[j]) by {
                    lemma_pin_lt_total(v[j], v[ob]);
                    if pin_lt(v[ob], v[j]) {
                        lemma_pin_lt_trans(v[i as int], v[ob], v[j]);
                    }
                }
                lemma_pin_lt_irrefl(v[i as int]);
            }
            best = i;
            best_ref = r;
            best_pin = p;
        }
        i += 1;
    }
    let mut out = chars_of("unnamed-");
    if !sheet.is_empty() {
        let sc = chars_of(sheet);
        append_chars(&mut out, sc.as_slice());
        append_chars(&mut out, chars_of(":").as_slice());
    }
    append_chars(&mut out, best_ref.as_slice());
    append_chars(&mut out, chars_of(":").as_slice());
    append_chars(&mut out, best_pin.as_slice());
    proof {
        if sheet@.len() == 0 {
            assert(out@ =~= auto_net_text(sheet@, v[best as int].0, v[best as int].1));
        } else {
            assert(out@ =~= auto_net_text(sheet@, v[best as int].0, v[best as int].1));
        }
        assert(is_first_min(v, best as int));
    }
    Some(string_from_chars(out.as_slice()))
}

} // verus!
