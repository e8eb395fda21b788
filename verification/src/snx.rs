//! The Signex native file formats' bulk blocks: whitespace-separated TSV
//! tables whose first row names the columns, plus the enumeration codecs and
//! integer fields their cells carry.

use vstd::prelude::*;

use crate::pcb::{PadShape, PadType, ViaType};
use crate::schematic::{HAlign, LabelType, VAlign};
use crate::text::{
    str_eq, split_on, trim_chars, trim_spec, lemma_find_char_absent, lemma_find_char_bounds, lemma_find_char_first, split_char, find_char, slice_chars, append_chars, chars_eq, chars_of, is_whitespace_char, is_ws, string_from_chars,
};

verus! {

broadcast use vstd::string::group_string_axioms;

/// Current `.snxsch` format version.
pub const SNXSCH_FORMAT_V1: &'static str = "snxsch/1";

/// Current `.snxpcb` format version.
pub const SNXPCB_FORMAT_V1: &'static str = "snxpcb/1";

/// Why a native file could not be read.
#[derive(Debug, Clone, PartialEq, Eq)]
pub enum FormatError {
    UnsupportedVersion { found: String, expected: String },
    TsvCellCountMismatch {
        block: String,
        row: usize,
        got: usize,
        expected: usize,
        columns: Vec<String>,
    },
    TsvHeaderMismatch { block: String, got: Vec<String>, expected: Vec<String> },
    TsvFieldParse { block: String, row: usize, field: String, message: String },
    TsvEmpty { block: String },
}

/// Accepts a native file whose `format` is `expected`; any other version
/// is refused, naming both.
pub fn check_format_version(found: &str, expected: &str) -> (r: Result<(), FormatError>)
    ensures
        found@ == expected@ <==> r is Ok,
        r matches Err(e) ==> (e matches FormatError::UnsupportedVersion { found: f, expected: x } && f@ == found@
            && x@ == expected@),
{
    if str_eq(found, expected) {
        Ok(())
    } else {
        Err(FormatError::UnsupportedVersion { found: found.to_owned(), expected: expected.to_owned() })
    }
}

// ---------------------------------------------------------------------------
// Cells
// ---------------------------------------------------------------------------

pub open spec fn has_ws_or_quote(s: Seq<char>) -> bool {
    exists|i: int| 0 <= i < s.len() && (is_ws(s[i]) || s[i] == '"')
}

/// Every `"` of `s` doubled.
pub open spec fn double_quotes(s: Seq<char>) -> Seq<char>
    decreases s.len(),
{
    if s.len() == 0 {
        s
    } else if s[0] == '"' {
        seq!['"', '"'] + double_quotes(s.drop_first())
    } else {
        seq![s[0]] + double_quotes(s.drop_first())
    }
}

/// Every `""` of `s`, read left to right, collapsed to `"`.
pub open spec fn collapse_quotes(s: Seq<char>) -> Seq<char>
    decreases s.len(),
{
    if s.len() == 0 {
        s
    } else if s.len() >= 2 && s[0] == '"' && s[1] == '"' {
        seq!['"'] + collapse_quotes(s.skip(2))
    } else {
        seq![s[0]] + collapse_quotes(s.drop_first())
    }
}

proof fn lemma_double_quotes_push(s: Seq<char>, c: char)
    ensures
        double_quotes(s.push(c)) == double_quotes(s) + (if c == '"' {
            seq!['"', '"']
        } else {
            seq![c]
        }),
    decreases s.len(),
{
    let tail = if c == '"' {
        seq!['"', '"']
    } else {
        seq![c]
    };
    if s.len() == 0 {
        assert(s.push(c).drop_first() =~= Seq::<char>::empty());
        assert(double_quotes(s.push(c)) =~= tail + double_quotes(Seq::<char>::empty()));
        assert(double_quotes(s.push(c)) =~= double_quotes(s) + tail);
    } else {
        assert(s.push(c).drop_first() =~= s.drop_first().push(c));
        lemma_double_quotes_push(s.drop_first(), c);
        let head = if s[0] == '"' {
            seq!['"', '"']
        } else {
            seq![s[0]]
        };
        assert(double_quotes(s.push(c)) == head + double_quotes(s.drop_first().push(c)));
        assert(double_quotes(s) == head + double_quotes(s.drop_first()));
        assert(double_quotes(s.push(c)) =~= double_quotes(s) + tail);
    }
}

proof fn lemma_collapse_double(s: Seq<char>)
    ensures
        collapse_quotes(double_quotes(s)) == s,
    decreases s.len(),
{
    if s.len() > 0 {
        lemma_collapse_double(s.drop_first());
        let d = double_quotes(s);
        let rest = double_quotes(s.drop_first());
        if s[0] == '"' {
            assert(d.skip(2) =~= rest);
            assert(collapse_quotes(d) == seq!['"'] + collapse_quotes(d.skip(2)));
        } else {
            assert(d.drop_first() =~= rest);
            assert(collapse_quotes(d) == seq![s[0]] + collapse_quotes(d.drop_first()));
        }
        assert(s =~= seq![s[0]] + s.drop_first());
    }
}

proof fn lemma_double_quotes_len(s: Seq<char>)
    ensures
        double_quotes(s).len() >= s.len(),
    decreases s.len(),
{
    if s.len() > 0 {
        lemma_double_quotes_len(s.drop_first());
    }
}

/// A cell reads back as the text it was written from; the one text that
/// does not is a lone `-`, which reads as empty.
pub proof fn lemma_cell_round_trip(s: Seq<char>)
    requires
        s != seq!['-'],
    ensures
        decode_cell_spec(encode_cell_spec(s)) == s,
{
    let e = encode_cell_spec(s);
    if s.len() == 0 {
        assert(e == seq!['"', '"']);
    } else if has_ws_or_quote(s) {
        let d = double_quotes(s);
        lemma_double_quotes_len(s);
        lemma_collapse_double(s);
        assert(e.len() >= 3);
        assert(e.subrange(1, e.len() - 1) =~= d);
    } else {
        assert(e == s);
        if s.len() >= 2 && s[0] == '"' {
            assert(has_ws_or_quote(s));
        }
        if s =~= seq!['"', '"'] {
            assert(has_ws_or_quote(s));
        }
    }
}

/// A TSV cell for `s`: `""` when empty, quoted (inner quotes doubled) when it
/// holds whitespace or a quote, otherwise `s` itself.
pub open spec fn encode_cell_spec(s: Seq<char>) -> Seq<char> {
    if s.len() == 0 {
        seq!['"', '"']
    } else if has_ws_or_quote(s) {
        seq!['"'] + double_quotes(s) + seq!['"']
    } else {
        s
    }
}

/// The value of a TSV cell: `""` and `-` are empty, a quoted cell loses its
/// quotes and has its doubled quotes collapsed, anything else is itself.
pub open spec fn decode_cell_spec(s: Seq<char>) -> Seq<char> {
    if s == seq!['"', '"'] || s == seq!['-'] {
        Seq::empty()
    } else if s.len() >= 2 && s[0] == '"' && s[s.len() - 1] == '"' {
        collapse_quotes(s.subrange(1, s.len() - 1))
    } else {
        s
    }
}

/// Encode a single TSV cell so that column boundaries survive a split on
/// whitespace.
pub fn encode_cell(cell: &str) -> (r: String)
    ensures
        r@ == encode_cell_spec(cell@),
{
    let s = chars_of(cell);
    if s.len() == 0 {
        proof {
            reveal_strlit("\"\"");
        }
        return "\"\"".to_owned();
    }
    let mut needs_quotes = false;
    let mut i: usize = 0;
    while i < s.len()
        invariant
            i <= s.len(),
            needs_quotes == exists|j: int| 0 <= j < i && (is_ws(s@[j]) || s@[j] == '"'),
        decreases s.len() - i,
    {
        if is_whitespace_char(s[i]) || s[i] == '"' {
            needs_quotes = true;
        }
        i += 1;
    }
    if !needs_quotes {
        return cell.to_owned();
    }
    let mut out: Vec<char> = Vec::new();
    out.push('"');
    let mut k: usize = 0;
    while k < s.len()
        invariant
            k <= s.len(),
            out@ == seq!['"'] + double_quotes(s@.subrange(0, k as int)),
        decreases s.len() - k,
    {
        proof {
            lemma_double_quotes_push(s@.subrange(0, k as int), s@[k as int]);
            assert(s@.subrange(0, k + 1) =~= s@.subrange(0, k as int).push(s@[k as int]));
        }
        if s[k] == '"' {
            out.push('"');
            out.push('"');
        } else {
            out.push(s[k]);
        }
        k += 1;
    }
    out.push('"');
    assert(s@.subrange(0, s.len() as int) =~= s@);
    string_from_chars(out.as_slice())
}


proof fn lemma_collapse_step(s: Seq<char>, k: int)
    requires
        0 <= k <= s.len(),
    ensures
        k < s.len() ==> collapse_quotes(s.skip(k)) == if k + 1 < s.len() && s[k] == '"' && s[k + 1]
            == '"' {
            seq!['"'] + collapse_quotes(s.skip(k + 2))
        } else {
            seq![s[k]] + collapse_quotes(s.skip(k + 1))
        },
{
    if k < s.len() {
        let t = s.skip(k);
        assert(t.drop_first() =~= s.skip(k + 1));
        if k + 1 < s.len() {
            assert(t.skip(2) =~= s.skip(k + 2));
        }
    }
}

/// Decode a single TSV cell.
pub fn decode_cell(cell: &str) -> (r: String)
    ensures
        r@ == decode_cell_spec(cell@),
{
    let s = chars_of(cell);
    if (s.len() == 2 && s[0] == '"' && s[1] == '"') || (s.len() == 1 && s[0] == '-') {
        proof {
            if s.len() == 2 {
                assert(s@ =~= seq!['"', '"']);
            } else {
                assert(s@ =~= seq!['-']);
            }
        }
        return String::new();
    }
    assert(s@ != seq!['"', '"'] && s@ != seq!['-']) by {
        if s@ == seq!['"', '"'] {
            assert(s@[0] == '"' && s@[1] == '"');
        }
        if s@ == seq!['-'] {
            assert(s@[0] == '-');
        }
    }
    if s.len() >= 2 && s[0] == '"' && s[s.len() - 1] == '"' {
        let ghost inner = s@.subrange(1, s.len() - 1);
        let end = s.len() - 1;
        let mut out: Vec<char> = Vec::new();
        let mut k: usize = 1;
        assert(inner.skip(0) =~= inner);
        while k < end
            invariant
                1 <= k <= end + 1,
                end == s.len() - 1,
                inner == s@.subrange(1, end as int),
                k <= end ==> out@ + collapse_quotes(inner.skip(k - 1)) == collapse_quotes(inner),
                k == end + 1 ==> out@ == collapse_quotes(inner),
            decreases end + 1 - k,
        {
            proof {
                lemma_collapse_step(inner, k - 1);
            }
            if k + 1 < end && s[k] == '"' && s[k + 1] == '"' {
                out.push('"');
                proof {
                    assert(inner[k - 1] == s@[k as int]);
                    assert(inner[k as int] == s@[k + 1]);
                }
                k += 2;
            } else {
                out.push(s[k]);
                proof {
                    assert(inner[k - 1] == s@[k as int]);
                    if k + 1 < end {
                        assert(inner[k as int] == s@[k + 1]);
                    }
                }
                k += 1;
            }
            proof {
                if k == end {
                    assert(inner.skip(k - 1) =~= Seq::<char>::empty());
                }
            }
        }
        proof {
            if k == end {
                assert(inner.skip(k - 1) =~= Seq::<char>::empty());
            }
        }
        return string_from_chars(out.as_slice());
    }
    cell.to_owned()
}

// ---------------------------------------------------------------------------
// Rows
// ---------------------------------------------------------------------------

/// The cells of a TSV row from position `i` on: whitespace separates
/// cells, `"` opens and closes quoting (a doubled `""` inside quotes stays in
/// the cell); cells keep their quotes for `decode_cell`.
pub open spec fn split_from(
    cs: Seq<char>,
    i: int,
    in_quotes: bool,
    buf: Seq<char>,
    cells: Seq<Seq<char>>,
) -> Seq<Seq<char>>
    decreases cs.len() - i,
{
    if i < 0 || i >= cs.len() {
        if buf.len() > 0 {
            cells.push(buf)
        } else {
            cells
        }
    } else if in_quotes {
        if cs[i] == '"' {
            if i + 1 < cs.len() && cs[i + 1] == '"' {
                split_from(cs, i + 2, true, buf.push('"').push('"'), cells)
            } else {
                split_from(cs, i + 1, false, buf.push('"'), cells)
            }
        } else {
            split_from(cs, i + 1, true, buf.push(cs[i]), cells)
        }
    } else if cs[i] == '"' {
        split_from(cs, i + 1, true, buf.push('"'), cells)
    } else if is_ws(cs[i]) {
        if buf.len() > 0 {
            split_from(cs, i + 1, false, Seq::empty(), cells.push(buf))
        } else {
            split_from(cs, i + 1, false, buf, cells)
        }
    } else {
        split_from(cs, i + 1, false, buf.push(cs[i]), cells)
    }
}

pub open spec fn split_row_spec(line: Seq<char>) -> Seq<Seq<char>> {
    split_from(line, 0, false, Seq::empty(), Seq::empty())
}

pub open spec fn strings_view(v: Seq<String>) -> Seq<Seq<char>> {
    v.map_values(|s: String| s@)
}

proof fn lemma_strings_view_push(v: Seq<String>, x: String)
    ensures
        strings_view(v.push(x)) == strings_view(v).push(x@),
{
    assert(strings_view(v.push(x)) =~= strings_view(v).push(x@));
}

proof fn lemma_lines_view_push(v: Seq<Vec<char>>, x: Vec<char>)
    ensures
        v.push(x).map_values(|l: Vec<char>| l@) == v.map_values(|l: Vec<char>| l@).push(x@),
{
    assert(v.push(x).map_values(|l: Vec<char>| l@) =~= v.map_values(|l: Vec<char>| l@).push(x@));
}

/// Split a TSV row on whitespace, honouring `"` quoting so that cells
/// holding spaces stay whole.
pub fn split_row(line: &str) -> (r: Vec<String>)
    ensures
        strings_view(r@) == split_row_spec(line@),
{
    let chars = chars_of(line);
    split_row_chars(chars.as_slice())
}

fn split_row_chars(chars: &[char]) -> (r: Vec<String>)
    ensures
        strings_view(r@) == split_row_spec(chars@),
{
    let mut cells: Vec<String> = Vec::new();
    let mut buf: Vec<char> = Vec::new();
    let mut in_quotes = false;
    let mut i: usize = 0;
    assert(strings_view(cells@) =~= Seq::<Seq<char>>::empty());
    while i < chars.len()
        invariant
            i <= chars.len(),
            split_from(chars@, i as int, in_quotes, buf@, strings_view(cells@)) == split_row_spec(
                chars@,
            ),
        decreases chars.len() - i,
    {
        let c = chars[i];
        if in_quotes {
            buf.push(c);
            if c == '"' {
                if i + 1 < chars.len() && chars[i + 1] == '"' {
                    buf.push('"');
                    i += 2;
                    continue;
                }
                in_quotes = false;
            }
            i += 1;
        } else if c == '"' {
            buf.push(c);
            in_quotes = true;
            i += 1;
        } else if is_whitespace_char(c) {
            if buf.len() > 0 {
                let ghost before = cells@;
                let ghost b = buf@;
                cells.push(string_from_chars(buf.as_slice()));
                buf = Vec::new();
                assert(strings_view(cells@) =~= strings_view(before).push(b));
            }
            i += 1;
        } else {
            buf.push(c);
            i += 1;
        }
    }
    if buf.len() > 0 {
        let ghost before = cells@;
        let ghost b = buf@;
        cells.push(string_from_chars(buf.as_slice()));
        assert(strings_view(cells@) =~= strings_view(before).push(b));
    }
    cells
}

// ---------------------------------------------------------------------------
// Enumeration cells
// ---------------------------------------------------------------------------

pub open spec fn label_kind_text(t: LabelType) -> Seq<char> {
    match t {
        LabelType::Net => "local"@,
        LabelType::Global => "global"@,
        LabelType::Hierarchical => "hierarchical"@,
        LabelType::Power => "power"@,
    }
}

pub open spec fn halign_text(a: HAlign) -> Seq<char> {
    match a {
        HAlign::Left => "left"@,
        HAlign::Center => "center"@,
        HAlign::Right => "right"@,
    }
}

pub open spec fn valign_text(a: VAlign) -> Seq<char> {
    match a {
        VAlign::Top => "top"@,
        VAlign::Center => "center"@,
        VAlign::Bottom => "bottom"@,
    }
}

pub open spec fn pad_type_text(t: PadType) -> Seq<char> {
    match t {
        PadType::Thru => "thru"@,
        PadType::Smd => "smd"@,
        PadType::Connect => "connect"@,
        PadType::NpThru => "np_thru"@,
    }
}

pub open spec fn pad_shape_text(s: PadShape) -> Seq<char> {
    match s {
        PadShape::Circle => "circle"@,
        PadShape::Rect => "rect"@,
        PadShape::Oval => "oval"@,
        PadShape::Trapezoid => "trapezoid"@,
        PadShape::RoundRect => "roundrect"@,
        PadShape::Custom => "custom"@,
    }
}

pub open spec fn via_type_text(t: ViaType) -> Seq<char> {
    match t {
        ViaType::Through => "through"@,
        ViaType::Blind => "blind"@,
        ViaType::Micro => "micro"@,
    }
}

pub fn label_kind_str(t: LabelType) -> (r: &'static str)
    ensures
        r@ == label_kind_text(t),
{
    match t {
        LabelType::Net => "local",
        LabelType::Global => "global",
        LabelType::Hierarchical => "hierarchical",
        LabelType::Power => "power",
    }
}

/// The label kind a cell names; anything unknown is a local (net) label.
pub fn parse_label_kind(s: &str) -> (r: LabelType)
    ensures
        r == (if s@ == "global"@ {
            LabelType::Global
        } else if s@ == "hierarchical"@ {
            LabelType::Hierarchical
        } else if s@ == "power"@ {
            LabelType::Power
        } else {
            LabelType::Net
        }),
{
    if str_eq(s, "global") {
        LabelType::Global
    } else if str_eq(s, "hierarchical") {
        LabelType::Hierarchical
    } else if str_eq(s, "power") {
        LabelType::Power
    } else {
        LabelType::Net
    }
}

pub fn halign_str(a: HAlign) -> (r: &'static str)
    ensures
        r@ == halign_text(a),
{
    match a {
        HAlign::Left => "left",
        HAlign::Center => "center",
        HAlign::Right => "right",
    }
}

/// The horizontal justification a cell names; anything unknown is centred.
pub fn parse_halign(s: &str) -> (r: HAlign)
    ensures
        r == (if s@ == "left"@ {
            HAlign::Left
        } else if s@ == "right"@ {
            HAlign::Right
        } else {
            HAlign::Center
        }),
{
    if str_eq(s, "left") {
        HAlign::Left
    } else if str_eq(s, "right") {
        HAlign::Right
    } else {
        HAlign::Center
    }
}

pub fn valign_str(a: VAlign) -> (r: &'static str)
    ensures
        r@ == valign_text(a),
{
    match a {
        VAlign::Top => "top",
        VAlign::Center => "center",
        VAlign::Bottom => "bottom",
    }
}

/// The vertical justification a cell names; anything unknown is bottom.
pub fn parse_valign(s: &str) -> (r: VAlign)
    ensures
        r == (if s@ == "top"@ {
            VAlign::Top
        } else if s@ == "center"@ {
            VAlign::Center
        } else {
            VAlign::Bottom
        }),
{
    if str_eq(s, "top") {
        VAlign::Top
    } else if str_eq(s, "center") {
        VAlign::Center
    } else {
        VAlign::Bottom
    }
}

pub fn pad_type_str(t: PadType) -> (r: &'static str)
    ensures
        r@ == pad_type_text(t),
{
    match t {
        PadType::Thru => "thru",
        PadType::Smd => "smd",
        PadType::Connect => "connect",
        PadType::NpThru => "np_thru",
    }
}

/// The pad type a cell names; anything unknown is through-hole.
pub fn parse_pad_type(s: &str) -> (r: PadType)
    ensures
        r == (if s@ == "smd"@ {
            PadType::Smd
        } else if s@ == "connect"@ {
            PadType::Connect
        } else if s@ == "np_thru"@ {
            PadType::NpThru
        } else {
            PadType::Thru
        }),
{
    if str_eq(s, "smd") {
        PadType::Smd
    } else if str_eq(s, "connect") {
        PadType::Connect
    } else if str_eq(s, "np_thru") {
        PadType::NpThru
    } else {
        PadType::Thru
    }
}

pub fn pad_shape_str(s: PadShape) -> (r: &'static str)
    ensures
        r@ == pad_shape_text(s),
{
    match s {
        PadShape::Circle => "circle",
        PadShape::Rect => "rect",
        PadShape::Oval => "oval",
        PadShape::Trapezoid => "trapezoid",
        PadShape::RoundRect => "roundrect",
        PadShape::Custom => "custom",
    }
}

/// The pad shape a cell names; anything unknown is a circle.
pub fn parse_pad_shape(s: &str) -> (r: PadShape)
    ensures
        r == (if s@ == "rect"@ {
            PadShape::Rect
        } else if s@ == "oval"@ {
            PadShape::Oval
        } else if s@ == "trapezoid"@ {
            PadShape::Trapezoid
        } else if s@ == "roundrect"@ {
            PadShape::RoundRect
        } else if s@ == "custom"@ {
            PadShape::Custom
        } else {
            PadShape::Circle
        }),
{
    if str_eq(s, "rect") {
        PadShape::Rect
    } else if str_eq(s, "oval") {
        PadShape::Oval
    } else if str_eq(s, "trapezoid") {
        PadShape::Trapezoid
    } else if str_eq(s, "roundrect") {
        PadShape::RoundRect
    } else if str_eq(s, "custom") {
        PadShape::Custom
    } else {
        PadShape::Circle
    }
}

pub fn via_type_str(t: ViaType) -> (r: &'static str)
    ensures
        r@ == via_type_text(t),
{
    match t {
        ViaType::Through => "through",
        ViaType::Blind => "blind",
        ViaType::Micro => "micro",
    }
}

/// The via type a cell names; anything unknown is a through via.
pub fn parse_via_type(s: &str) -> (r: ViaType)
    ensures
        r == (if s@ == "blind"@ {
            ViaType::Blind
        } else if s@ == "micro"@ {
            ViaType::Micro
        } else {
            ViaType::Through
        }),
{
    if str_eq(s, "blind") {
        ViaType::Blind
    } else if str_eq(s, "micro") {
        ViaType::Micro
    } else {
        ViaType::Through
    }
}

/// Reading back what the enumeration writers wrote gives the same
/// value, for every label kind, justification, pad type, pad shape and via
/// type.
pub proof fn lemma_enum_cells_round_trip(
    t: LabelType,
    h: HAlign,
    v: VAlign,
    p: PadType,
    s: PadShape,
    w: ViaType,
)
    ensures
        parse_label_kind_spec(label_kind_text(t)) == t,
        parse_halign_spec(halign_text(h)) == h,
        parse_valign_spec(valign_text(v)) == v,
        parse_pad_type_spec(pad_type_text(p)) == p,
        parse_pad_shape_spec(pad_shape_text(s)) == s,
        parse_via_type_spec(via_type_text(w)) == w,
{
    lemma_label_kind_round_trip(t);
    lemma_align_round_trip(h, v);
    lemma_pad_round_trip(p, s);
    lemma_via_round_trip(w);
}

proof fn lemma_label_kind_round_trip(t: LabelType)
    ensures
        parse_label_kind_spec(label_kind_text(t)) == t,
{
    reveal_strlit("local");
    reveal_strlit("global");
    reveal_strlit("hierarchical");
    reveal_strlit("power");
    assert("local"@.len() == 5 && "local"@[0] == 'l' && "local"@[1] == 'o');
    assert("global"@.len() == 6 && "global"@[0] == 'g' && "global"@[1] == 'l');
    assert("hierarchical"@.len() == 12 && "hierarchical"@[0] == 'h' && "hierarchical"@[1] == 'i');
    assert("power"@.len() == 5 && "power"@[0] == 'p' && "power"@[1] == 'o');
}

proof fn lemma_align_round_trip(h: HAlign, v: VAlign)
    ensures
        parse_halign_spec(halign_text(h)) == h,
        parse_valign_spec(valign_text(v)) == v,
{
    reveal_strlit("left");
    reveal_strlit("center");
    reveal_strlit("right");
    reveal_strlit("top");
    reveal_strlit("bottom");
    assert("left"@.len() == 4 && "left"@[0] == 'l' && "left"@[1] == 'e');
    assert("center"@.len() == 6 && "center"@[0] == 'c' && "center"@[1] == 'e');
    assert("right"@.len() == 5 && "right"@[0] == 'r' && "right"@[1] == 'i');
    assert("top"@.len() == 3 && "top"@[0] == 't' && "top"@[1] == 'o');
    assert("bottom"@.len() == 6 && "bottom"@[0] == 'b' && "bottom"@[1] == 'o');
}

proof fn lemma_pad_round_trip(p: PadType, s: PadShape)
    ensures
        parse_pad_type_spec(pad_type_text(p)) == p,
        parse_pad_shape_spec(pad_shape_text(s)) == s,
{
    reveal_strlit("thru");
    reveal_strlit("smd");
    reveal_strlit("connect");
    reveal_strlit("np_thru");
    reveal_strlit("circle");
    reveal_strlit("rect");
    reveal_strlit("oval");
    reveal_strlit("trapezoid");
    reveal_strlit("roundrect");
    reveal_strlit("custom");
    assert("thru"@.len() == 4 && "thru"@[0] == 't' && "thru"@[1] == 'h');
    assert("smd"@.len() == 3 && "smd"@[0] == 's' && "smd"@[1] == 'm');
    assert("connect"@.len() == 7 && "connect"@[0] == 'c' && "connect"@[1] == 'o');
    assert("np_thru"@.len() == 7 && "np_thru"@[0] == 'n' && "np_thru"@[1] == 'p');
    assert("circle"@.len() == 6 && "circle"@[0] == 'c' && "circle"@[1] == 'i');
    assert("rect"@.len() == 4 && "rect"@[0] == 'r' && "rect"@[1] == 'e');
    assert("oval"@.len() == 4 && "oval"@[0] == 'o' && "oval"@[1] == 'v');
    assert("trapezoid"@.len() == 9 && "trapezoid"@[0] == 't' && "trapezoid"@[1] == 'r');
    assert("roundrect"@.len() == 9 && "roundrect"@[0] == 'r' && "roundrect"@[1] == 'o');
    assert("custom"@.len() == 6 && "custom"@[0] == 'c' && "custom"@[1] == 'u');
}

proof fn lemma_via_round_trip(w: ViaType)
    ensures
        parse_via_type_spec(via_type_text(w)) == w,
{
    reveal_strlit("through");
    reveal_strlit("blind");
    reveal_strlit("micro");
    assert("through"@.len() == 7 && "through"@[0] == 't' && "through"@[1] == 'h');
    assert("blind"@.len() == 5 && "blind"@[0] == 'b' && "blind"@[1] == 'l');
    assert("micro"@.len() == 5 && "micro"@[0] == 'm' && "micro"@[1] == 'i');
}

pub open spec fn parse_label_kind_spec(s: Seq<char>) -> LabelType {
    if s == "global"@ {
        LabelType::Global
    } else if s == "hierarchical"@ {
        LabelType::Hierarchical
    } else if s == "power"@ {
        LabelType::Power
    } else {
        LabelType::Net
    }
}

pub open spec fn parse_halign_spec(s: Seq<char>) -> HAlign {
    if s == "left"@ {
        HAlign::Left
    } else if s == "right"@ {
        HAlign::Right
    } else {
        HAlign::Center
    }
}

pub open spec fn parse_valign_spec(s: Seq<char>) -> VAlign {
    if s == "top"@ {
        VAlign::Top
    } else if s == "center"@ {
        VAlign::Center
    } else {
        VAlign::Bottom
    }
}

pub open spec fn parse_pad_type_spec(s: Seq<char>) -> PadType {
    if s == "smd"@ {
        PadType::Smd
    } else if s == "connect"@ {
        PadType::Connect
    } else if s == "np_thru"@ {
        PadType::NpThru
    } else {
        PadType::Thru
    }
}

pub open spec fn parse_pad_shape_spec(s: Seq<char>) -> PadShape {
    if s == "rect"@ {
        PadShape::Rect
    } else if s == "oval"@ {
        PadShape::Oval
    } else if s == "trapezoid"@ {
        PadShape::Trapezoid
    } else if s == "roundrect"@ {
        PadShape::RoundRect
    } else if s == "custom"@ {
        PadShape::Custom
    } else {
        PadShape::Circle
    }
}

pub open spec fn parse_via_type_spec(s: Seq<char>) -> ViaType {
    if s == "blind"@ {
        ViaType::Blind
    } else if s == "micro"@ {
        ViaType::Micro
    } else {
        ViaType::Through
    }
}

// ---------------------------------------------------------------------------
// Layer lists
// ---------------------------------------------------------------------------

/// The fields of `s` between commas.
pub open spec fn split_commas(s: Seq<char>) -> Seq<Seq<char>> {
    split_char(s, ',')
}

/// The items of `ls` separated by commas.
pub open spec fn join_commas(ls: Seq<Seq<char>>) -> Seq<char>
    decreases ls.len(),
{
    if ls.len() == 0 {
        Seq::empty()
    } else if ls.len() == 1 {
        ls[0]
    } else {
        ls[0] + seq![','] + join_commas(ls.drop_first())
    }
}

/// `split_layers`: no layers for an empty cell.
pub open spec fn split_layers_spec(s: Seq<char>) -> Seq<Seq<char>> {
    if s.len() == 0 {
        Seq::empty()
    } else {
        split_commas(s)
    }
}

pub open spec fn comma_free(s: Seq<char>) -> bool {
    forall|j: int| 0 <= j < s.len() ==> s[j] != ','
}

proof fn lemma_split_join(ls: Seq<Seq<char>>)
    requires
        ls.len() > 0,
        forall|i: int| 0 <= i < ls.len() ==> comma_free(#[trigger] ls[i]),
    ensures
        split_commas(join_commas(ls)) == ls,
    decreases ls.len(),
{
    if ls.len() == 1 {
        lemma_find_char_absent(ls[0], 0, ',');
        assert(split_commas(ls[0]) == seq![ls[0]]);
        assert(ls =~= seq![ls[0]]);
    } else {
        let rest = ls.drop_first();
        let j = join_commas(ls);
        let a = ls[0];
        assert(j == a + seq![','] + join_commas(rest));
        assert(j[a.len() as int] == ',');
        assert forall|q: int| 0 <= q < a.len() implies j[q] != ',' by {
            assert(j[q] == a[q]);
        }
        lemma_find_char_first(j, 0, ',', a.len() as int);
        assert(j.subrange(0, a.len() as int) =~= a);
        assert(j.skip(a.len() as int + 1) =~= join_commas(rest));
        assert forall|i: int| 0 <= i < rest.len() implies comma_free(#[trigger] rest[i]) by {
            assert(rest[i] == ls[i + 1]);
        }
        lemma_split_join(rest);
        assert(ls =~= seq![a] + rest);
    }
}

proof fn lemma_join_split(s: Seq<char>)
    ensures
        join_commas(split_commas(s)) == s,
        split_commas(s).len() > 0,
    decreases s.len(),
{
    lemma_find_char_bounds(s, 0, ',');
    match find_char(s, 0, ',') {
        None => {},
        Some(k) => {
            let rest = s.skip(k + 1);
            lemma_join_split(rest);
            let parts = split_commas(s);
            assert(parts == seq![s.subrange(0, k)] + split_commas(rest));
            assert(parts.drop_first() =~= split_commas(rest));
            assert(s =~= s.subrange(0, k) + seq![','] + rest);
        },
    }
}

/// Writing a layer list and reading it back gives the list, provided no
/// layer name holds a comma and the list is not a single empty name.
pub proof fn lemma_layers_round_trip(ls: Seq<Seq<char>>)
    requires
        forall|i: int| 0 <= i < ls.len() ==> comma_free(#[trigger] ls[i]),
        ls != seq![Seq::<char>::empty()],
    ensures
        split_layers_spec(join_commas(ls)) == ls,
{
    if ls.len() == 0 {
        assert(split_layers_spec(join_commas(ls)) =~= ls);
    } else {
        lemma_split_join(ls);
        if join_commas(ls).len() == 0 {
            // A single empty name is the only list that joins to nothing.
            assert(ls.len() == 1) by {
                if ls.len() > 1 {
                    assert(join_commas(ls).len() >= 1);
                }
            }
            assert(ls[0] =~= Seq::<char>::empty());
            assert(ls =~= seq![Seq::<char>::empty()]);
        }
    }
}

/// Reading a layer cell and writing the list back gives the cell.
pub proof fn lemma_layers_cell_round_trip(s: Seq<char>)
    ensures
        join_commas(split_layers_spec(s)) == s,
{
    if s.len() == 0 {
        assert(join_commas(Seq::<Seq<char>>::empty()) =~= s);
    } else {
        lemma_join_split(s);
    }
}

/// The layer names of `layers`, comma separated.
pub fn join_layers(layers: &[String]) -> (r: String)
    ensures
        r@ == join_commas(strings_view(layers@)),
{
    if layers.len() == 0 {
        return String::new();
    }
    let ghost v = strings_view(layers@);
    let mut i: usize = layers.len() - 1;
    let mut out = chars_of(layers[i].as_str());
    assert(v.skip(i as int) =~= seq![v[i as int]]);
    while i > 0
        invariant
            0 <= i < layers@.len(),
            v == strings_view(layers@),
            out@ == join_commas(v.skip(i as int)),
        decreases i,
    {
        i -= 1;
        let mut next = chars_of(layers[i].as_str());
        next.push(',');
        append_chars(&mut next, out.as_slice());
        proof {
            let t = v.skip(i as int);
            assert(t.drop_first() =~= v.skip(i + 1));
            assert(t[0] == v[i as int]);
        }
        out = next;
    }
    assert(v.skip(0) =~= v);
    string_from_chars(out.as_slice())
}

/// The layer names in a comma-separated cell; none for an empty cell.
pub fn split_layers(s: &str) -> (r: Vec<String>)
    ensures
        strings_view(r@) == split_layers_spec(s@),
{
    let cs = chars_of(s);
    let mut r: Vec<String> = Vec::new();
    if cs.len() == 0 {
        assert(strings_view(r@) =~= Seq::<Seq<char>>::empty());
        return r;
    }
    let mut start: usize = 0;
    let mut i: usize = 0;
    assert(cs@.skip(0) =~= cs@);
    assert(strings_view(r@) =~= Seq::<Seq<char>>::empty());
    while i < cs.len()
        invariant
            start <= i <= cs.len(),
            strings_view(r@) + split_commas(cs@.skip(start as int)) == split_commas(cs@),
            forall|j: int| start <= j < i ==> cs@[j] != ',',
        decreases cs.len() - i,
    {
        if cs[i] == ',' {
            let ghost rest = cs@.skip(start as int);
            proof {
                lemma_find_char_first(rest, 0, ',', i - start);
                assert(rest.subrange(0, i - start) =~= cs@.subrange(start as int, i as int));
                assert(rest.skip(i - start + 1) =~= cs@.skip(i + 1));
            }
            let field = slice_chars(cs.as_slice(), start, i);
            let ghost before = r@;
            r.push(string_from_chars(field.as_slice()));
            assert(strings_view(r@) =~= strings_view(before).push(field@));
            start = i + 1;
        }
        i += 1;
    }
    let ghost rest = cs@.skip(start as int);
    proof {
        lemma_find_char_absent(rest, 0, ',');
        assert(rest =~= cs@.subrange(start as int, cs.len() as int));
    }
    let field = slice_chars(cs.as_slice(), start, cs.len());
    let ghost before = r@;
    r.push(string_from_chars(field.as_slice()));
    assert(strings_view(r@) =~= strings_view(before).push(field@));
    assert(strings_view(r@) =~= split_commas(cs@));
    r
}


// ---------------------------------------------------------------------------
// Integer cells
// ---------------------------------------------------------------------------

/// Outcome of reading a decimal `i64`, as `str::parse::<i64>` reports it.
pub enum IntParse {
    Value(int),
    Empty,
    InvalidDigit,
    PosOverflow,
    NegOverflow,
}

pub open spec fn is_digit(c: char) -> bool {
    '0' <= c && c <= '9'
}

pub open spec fn digit_value(c: char) -> int {
    (c as u32) - ('0' as u32)
}

/// Digits from `i` on, accumulated onto `acc` (subtracted when negative),
/// left to right; the first bad digit or overflow ends the reading.
pub open spec fn digits_from(s: Seq<char>, i: int, acc: int, neg: bool) -> IntParse
    decreases s.len() - i,
{
    if i < 0 || i >= s.len() {
        IntParse::Value(acc)
    } else if !is_digit(s[i]) {
        IntParse::InvalidDigit
    } else {
        let next = if neg {
            acc * 10 - digit_value(s[i])
        } else {
            acc * 10 + digit_value(s[i])
        };
        if next > i64::MAX {
            IntParse::PosOverflow
        } else if next < i64::MIN {
            IntParse::NegOverflow
        } else {
            digits_from(s, i + 1, next, neg)
        }
    }
}

/// A decimal `i64` with an optional leading `+` or `-`.
pub open spec fn parse_i64_spec(s: Seq<char>) -> IntParse {
    if s.len() == 0 {
        IntParse::Empty
    } else if s.len() == 1 && (s[0] == '+' || s[0] == '-') {
        IntParse::InvalidDigit
    } else if s[0] == '+' {
        digits_from(s, 1, 0, false)
    } else if s[0] == '-' {
        digits_from(s, 1, 0, true)
    } else {
        digits_from(s, 0, 0, false)
    }
}

/// The message `std` gives for each way of failing to read an integer.
pub open spec fn int_error_message(p: IntParse) -> Seq<char> {
    match p {
        IntParse::Empty => "cannot parse integer from empty string"@,
        IntParse::InvalidDigit => "invalid digit found in string"@,
        IntParse::PosOverflow => "number too large to fit in target type"@,
        IntParse::NegOverflow => "number too small to fit in target type"@,
        IntParse::Value(_) => Seq::empty(),
    }
}

fn read_i64(s: &[char]) -> (r: Result<i64, String>)
    ensures
        match parse_i64_spec(s@) {
            IntParse::Value(v) => r == Ok::<i64, String>(v as i64),
            other => r matches Err(m) && m@ == int_error_message(other),
        },
{
    if s.len() == 0 {
        return Err("cannot parse integer from empty string".to_owned());
    }
    if s.len() == 1 && (s[0] == '+' || s[0] == '-') {
        return Err("invalid digit found in string".to_owned());
    }
    let neg = s[0] == '-';
    let mut i: usize = if s[0] == '+' || s[0] == '-' {
        1
    } else {
        0
    };
    let ghost start = i as int;
    let mut acc: i128 = 0;
    while i < s.len()
        invariant
            i <= s.len(),
            i64::MIN <= acc <= i64::MAX,
            neg == (s@[0] == '-'),
            digits_from(s@, i as int, acc as int, neg) == parse_i64_spec(s@),
        decreases s.len() - i,
    {
        let c = s[i];
        if !('0' <= c && c <= '9') {
            return Err("invalid digit found in string".to_owned());
        }
        let d = ((c as u32) - ('0' as u32)) as i128;
        let next = if neg {
            acc * 10 - d
        } else {
            acc * 10 + d
        };
        if next > i64::MAX as i128 {
            return Err("number too large to fit in target type".to_owned());
        }
        if next < i64::MIN as i128 {
            return Err("number too small to fit in target type".to_owned());
        }
        acc = next;
        i += 1;
    }
    Ok(acc as i64)
}

/// Read an integer TSV field; a failure names the block, row and field.
pub fn parse_i64(value: &str, block: &str, row: usize, field: &str) -> (r: Result<i64, FormatError>)
    ensures
        match parse_i64_spec(value@) {
            IntParse::Value(v) => r == Ok::<i64, FormatError>(v as i64),
            other => r matches Err(FormatError::TsvFieldParse { block: b, row: n, field: f, message: m })
                && b@ == block@ && n == row && f@ == field@ && m@ == int_error_message(other),
        },
{
    let cs = chars_of(value);
    match read_i64(cs.as_slice()) {
        Ok(v) => Ok(v),
        Err(message) => Err(
            FormatError::TsvFieldParse {
                block: block.to_owned(),
                row,
                field: field.to_owned(),
                message,
            },
        ),
    }
}


// ---------------------------------------------------------------------------
// Blocks
// ---------------------------------------------------------------------------

pub open spec fn strs_view(v: Seq<&str>) -> Seq<Seq<char>> {
    v.map_values(|s: &str| s@)
}

pub open spec fn rows_view(v: Seq<Vec<String>>) -> Seq<Seq<Seq<char>>> {
    v.map_values(|r: Vec<String>| strings_view(r@))
}

/// The table a block shows: the header, then every row with its cells
/// encoded.
pub open spec fn table_spec(columns: Seq<Seq<char>>, rows: Seq<Seq<Seq<char>>>) -> Seq<Seq<Seq<char>>> {
    seq![columns] + rows.map_values(|r: Seq<Seq<char>>| r.map_values(|c: Seq<char>| encode_cell_spec(c)))
}

/// Width (in characters) of column `idx` over the first `k` rows of `t`.
pub open spec fn width_upto(t: Seq<Seq<Seq<char>>>, idx: int, k: int) -> nat
    decreases k,
{
    if k <= 0 {
        0
    } else {
        let w = width_upto(t, idx, k - 1);
        let c = if 0 <= idx < t[k - 1].len() {
            t[k - 1][idx].len()
        } else {
            0
        };
        if c > w {
            c
        } else {
            w
        }
    }
}

pub open spec fn spaces(n: int) -> Seq<char> {
    Seq::new(if n > 0 {
        n as nat
    } else {
        0
    }, |i: int| ' ')
}

/// Cells `idx..` of `row`: two spaces between cells, each cell but the last
/// padded with spaces to its column's width.
pub open spec fn render_cells(row: Seq<Seq<char>>, t: Seq<Seq<Seq<char>>>, idx: int) -> Seq<char>
    decreases row.len() - idx,
{
    if idx < 0 || idx >= row.len() {
        Seq::empty()
    } else {
        let sep = if idx > 0 {
            seq![' ', ' ']
        } else {
            Seq::empty()
        };
        let pad = if idx + 1 == row.len() {
            Seq::empty()
        } else {
            spaces(width_upto(t, idx, t.len() as int) - row[idx].len())
        };
        sep + row[idx] + pad + render_cells(row, t, idx + 1)
    }
}

/// Rows `k..` of `t`, one line each.
pub open spec fn render_rows(t: Seq<Seq<Seq<char>>>, k: int) -> Seq<char>
    decreases t.len() - k,
{
    if k < 0 || k >= t.len() {
        Seq::empty()
    } else {
        render_cells(t[k], t, 0) + seq!['\n'] + render_rows(t, k + 1)
    }
}

/// The text of a TSV block: nothing without columns, else the header and
/// the encoded rows, columns aligned.
pub open spec fn write_block_spec(columns: Seq<Seq<char>>, rows: Seq<Seq<Seq<char>>>) -> Seq<char> {
    if columns.len() == 0 {
        Seq::empty()
    } else {
        render_rows(table_spec(columns, rows), 0)
    }
}

pub open spec fn table_view(t: Seq<Vec<Vec<char>>>) -> Seq<Seq<Seq<char>>> {
    t.map_values(|r: Vec<Vec<char>>| r@.map_values(|c: Vec<char>| c@))
}

/// Write a TSV block: header row, then one row per item, columns aligned
/// to their widest cell.
pub fn write_tsv_block(columns: &[&str], rows: &[Vec<String>]) -> (r: String)
    requires
        forall|i: int| 0 <= i < rows@.len() ==> (#[trigger] rows@[i])@.len() == columns@.len(),
    ensures
        r@ == write_block_spec(strs_view(columns@), rows_view(rows@)),
{
    if columns.len() == 0 {
        return String::new();
    }
    let ncols = columns.len();
    let ghost spec_t = table_spec(strs_view(columns@), rows_view(rows@));
    // The table: header, then encoded rows.
    let mut t: Vec<Vec<Vec<char>>> = Vec::new();
    let mut header: Vec<Vec<char>> = Vec::new();
    let mut c: usize = 0;
    while c < ncols
        invariant
            c <= ncols == columns@.len(),
            header@.map_values(|x: Vec<char>| x@) == strs_view(columns@).subrange(0, c as int),
        decreases ncols - c,
    {
        let ghost before = header@;
        header.push(chars_of(columns[c]));
        assert(header@.map_values(|x: Vec<char>| x@) =~= before.map_values(|x: Vec<char>| x@).push(
            columns@[c as int]@,
        ));
        assert(strs_view(columns@).subrange(0, c + 1) =~= strs_view(columns@).subrange(0, c as int).push(
            columns@[c as int]@,
        ));
        c += 1;
    }
    assert(strs_view(columns@).subrange(0, ncols as int) =~= strs_view(columns@));
    t.push(header);
    let mut k: usize = 0;
    while k < rows.len()
        invariant
            k <= rows@.len(),
            ncols == columns@.len(),
            forall|i: int| 0 <= i < rows@.len() ==> (#[trigger] rows@[i])@.len() == columns@.len(),
            spec_t == table_spec(strs_view(columns@), rows_view(rows@)),
            t@.len() == k + 1,
            forall|i: int| 0 <= i <= k ==> table_view(t@)[i] == #[trigger] spec_t[i],
        decreases rows.len() - k,
    {
        let mut enc: Vec<Vec<char>> = Vec::new();
        let mut j: usize = 0;
        let ghost row = rows_view(rows@)[k as int];
        assert(row == strings_view(rows@[k as int]@));
        while j < rows[k].len()
            invariant
                k < rows@.len(),
                j <= rows@[k as int]@.len(),
                row == strings_view(rows@[k as int]@),
                enc@.map_values(|x: Vec<char>| x@) == row.map_values(|x: Seq<char>| encode_cell_spec(x)).subrange(
                    0,
                    j as int,
                ),
            decreases rows@[k as int]@.len() - j,
        {
            let e = encode_cell(rows[k][j].as_str());
            let ghost before = enc@;
            assert(row[j as int] == rows@[k as int]@[j as int]@);
            enc.push(chars_of(e.as_str()));
            proof {
                let lhs = enc@.map_values(|x: Vec<char>| x@);
                let full = row.map_values(|x: Seq<char>| encode_cell_spec(x));
                let rhs = full.subrange(0, j + 1);
                let prev = before.map_values(|x: Vec<char>| x@);
                assert(prev == full.subrange(0, j as int));
                assert(prev.len() == j);
                assert(before.len() == j);
                assert(enc@ == before.push(enc@[j as int]));
                assert(lhs.len() == j + 1);
                assert forall|i: int| 0 <= i < j + 1 implies lhs[i] == rhs[i] by {
                    if i < j {
                        assert(enc@[i] == before[i]);
                        assert(lhs[i] == prev[i]);
                    } else {
                        assert(lhs[i] == enc@[j as int]@);
                        assert(full[i] == encode_cell_spec(row[i]));
                    }
                }
                assert(lhs =~= rhs);
            }
            j += 1;
        }
        assert(row.map_values(|x: Seq<char>| encode_cell_spec(x)).subrange(0, row.len() as int)
            =~= row.map_values(|x: Seq<char>| encode_cell_spec(x)));
        let ghost before_t = t@;
        t.push(enc);
        proof {
            assert forall|i: int| 0 <= i <= k + 1 implies table_view(t@)[i] == #[trigger] spec_t[i] by {
                if i <= k {
                    assert(t@[i] == before_t[i]);
                } else {
                    assert(spec_t[i] == rows_view(rows@).map_values(
                        |r: Seq<Seq<char>>| r.map_values(|c: Seq<char>| encode_cell_spec(c)),
                    )[k as int]);
                }
            }
        }
        k += 1;
    }
    assert(table_view(t@) =~= spec_t);
    // Column widths.
    let mut widths: Vec<usize> = Vec::new();
    let mut c2: usize = 0;
    while c2 < ncols
        invariant
            c2 <= ncols,
            widths@.len() == c2,
            forall|i: int| 0 <= i < c2 ==> widths@[i] == 0,
        decreases ncols - c2,
    {
        widths.push(0);
        c2 += 1;
    }
    let mut k2: usize = 0;
    while k2 < t.len()
        invariant
            k2 <= t@.len(),
            widths@.len() == ncols,
            table_view(t@) == spec_t,
            forall|i: int| 0 <= i < ncols ==> widths@[i] == width_upto(spec_t, i, k2 as int),
        decreases t.len() - k2,
    {
        let mut j: usize = 0;
        while j < t[k2].len()
            invariant
                k2 < t@.len(),
                j <= t@[k2 as int]@.len(),
                widths@.len() == ncols,
                table_view(t@) == spec_t,
                forall|i: int| 0 <= i < ncols && j <= i ==> widths@[i] == width_upto(spec_t, i, k2 as int),
                forall|i: int| 0 <= i < ncols && i < j ==> widths@[i] == width_upto(spec_t, i, k2 + 1),
            decreases t@[k2 as int]@.len() - j,
        {
            if j < widths.len() && t[k2][j].len() > widths[j] {
                widths.set(j, t[k2][j].len());
            }
            j += 1;
        }
        proof {
            assert forall|i: int| 0 <= i < ncols implies widths@[i] == width_upto(spec_t, i, k2 + 1) by {
                if i >= t@[k2 as int]@.len() {
                    assert(width_upto(spec_t, i, k2 + 1) == width_upto(spec_t, i, k2 as int));
                }
            }
        }
        k2 += 1;
    }
    // Render.
    proof {
        assert forall|i: int| 0 <= i < t@.len() implies (#[trigger] t@[i])@.len() == ncols by {
            assert(table_view(t@)[i].len() == t@[i]@.len());
            if i > 0 {
                assert(spec_t[i] == rows_view(rows@).map_values(
                    |r: Seq<Seq<char>>| r.map_values(|c: Seq<char>| encode_cell_spec(c)),
                )[i - 1]);
                assert(rows@[i - 1]@.len() == columns@.len());
            }
        }
    }
    let mut out: Vec<char> = Vec::new();
    let mut k3: usize = 0;
    while k3 < t.len()
        invariant
            k3 <= t@.len(),
            widths@.len() == ncols,
            table_view(t@) == spec_t,
            forall|i: int| 0 <= i < ncols ==> widths@[i] == width_upto(spec_t, i, spec_t.len() as int),
            forall|i: int| 0 <= i < t@.len() ==> (#[trigger] t@[i])@.len() == ncols,
            out@ + render_rows(spec_t, k3 as int) == render_rows(spec_t, 0),
        decreases t.len() - k3,
    {
        let ghost row = spec_t[k3 as int];
        let ghost out0 = out@;
        let mut j: usize = 0;
        while j < t[k3].len()
            invariant
                k3 < t@.len(),
                j <= t@[k3 as int]@.len() == ncols,
                widths@.len() == ncols,
                table_view(t@) == spec_t,
                row == spec_t[k3 as int],
                forall|i: int| 0 <= i < ncols ==> widths@[i] == width_upto(spec_t, i, spec_t.len() as int),
                out@ + render_cells(row, spec_t, j as int) == out0 + render_cells(row, spec_t, 0),
            decreases t@[k3 as int]@.len() - j,
        {
            let ghost before = out@;
            if j > 0 {
                out.push(' ');
                out.push(' ');
            }
            append_chars(&mut out, t[k3][j].as_slice());
            if j + 1 != t[k3].len() {
                let cell_len = t[k3][j].len();
                let pad = if widths[j] > cell_len {
                    widths[j] - cell_len
                } else {
                    0
                };
                let mut p: usize = 0;
                let ghost mid = out@;
                while p < pad
                    invariant
                        p <= pad,
                        out@ == mid + spaces(p as int),
                    decreases pad - p,
                {
                    out.push(' ');
                    assert(spaces(p + 1) =~= spaces(p as int).push(' '));
                    p += 1;
                }
            }
            proof {
                let cell = row[j as int];
                assert(cell == t@[k3 as int]@[j as int]@);
                let sep = if j > 0 {
                    seq![' ', ' ']
                } else {
                    Seq::<char>::empty()
                };
                let pad = if j + 1 == row.len() {
                    Seq::<char>::empty()
                } else {
                    spaces(width_upto(spec_t, j as int, spec_t.len() as int) - cell.len())
                };
                assert(out@ =~= before + (sep + cell + pad));
                assert(render_cells(row, spec_t, j as int) == sep + cell + pad + render_cells(
                    row,
                    spec_t,
                    j + 1,
                ));
                assert(out@ + render_cells(row, spec_t, j + 1) =~= before + render_cells(
                    row,
                    spec_t,
                    j as int,
                ));
            }
            j += 1;
        }
        let ghost before_nl = out@;
        out.push('\n');
        proof {
            assert(render_cells(row, spec_t, j as int) =~= Seq::<char>::empty());
            assert(before_nl =~= out0 + render_cells(row, spec_t, 0));
            assert(render_rows(spec_t, k3 as int) == render_cells(row, spec_t, 0) + seq!['\n']
                + render_rows(spec_t, k3 + 1));
            assert(out@ + render_rows(spec_t, k3 + 1) =~= out0 + render_rows(spec_t, k3 as int));
        }
        k3 += 1;
    }
    string_from_chars(out.as_slice())
}


/// Index of the first character at or after `i` that is not a newline.
pub open spec fn skip_newlines(s: Seq<char>, i: int) -> int
    decreases s.len() - i,
{
    if 0 <= i < s.len() && s[i] == '\n' {
        skip_newlines(s, i + 1)
    } else {
        i
    }
}

/// End of `s[..e]` once trailing newlines are dropped.
pub open spec fn drop_trailing_newlines(s: Seq<char>, e: int) -> int
    decreases e,
{
    if 0 < e <= s.len() && s[e - 1] == '\n' {
        drop_trailing_newlines(s, e - 1)
    } else {
        e
    }
}

/// `s` without leading and trailing newlines (`trim_matches('\n')`).
pub open spec fn strip_newlines(s: Seq<char>) -> Seq<char> {
    let a = skip_newlines(s, 0);
    if a >= s.len() {
        Seq::empty()
    } else {
        s.subrange(a, drop_trailing_newlines(s, s.len() as int))
    }
}

/// The lines of `ls` that hold something besides whitespace.
pub open spec fn keep_non_blank(ls: Seq<Seq<char>>) -> Seq<Seq<char>>
    decreases ls.len(),
{
    if ls.len() == 0 {
        ls
    } else {
        (if trim_spec(ls[0]).len() > 0 {
            seq![ls[0]]
        } else {
            Seq::empty()
        }) + keep_non_blank(ls.drop_first())
    }
}

/// The non-blank lines of a block's content.
pub open spec fn block_lines(content: Seq<char>) -> Seq<Seq<char>> {
    keep_non_blank(split_char(strip_newlines(content), '\n'))
}

/// Outcome of reading a TSV block.
pub enum TsvParse {
    /// The decoded cells of every data row.
    Rows(Seq<Seq<Seq<char>>>),
    /// No header row.
    Empty,
    /// The header holds these cells instead of the expected columns.
    Header(Seq<Seq<char>>),
    /// Data row `row` (counted from 0 after the header) has `got` cells.
    CellCount(int, int),
}

/// Data rows from line `k` on, after `acc` has been read.
pub open spec fn rows_from(lines: Seq<Seq<char>>, k: int, ncols: int, acc: Seq<Seq<Seq<char>>>) -> TsvParse
    decreases lines.len() - k,
{
    if k < 1 || k >= lines.len() {
        TsvParse::Rows(acc)
    } else {
        let cells = split_row_spec(lines[k]);
        if cells.len() != ncols {
            TsvParse::CellCount(k - 1, cells.len() as int)
        } else {
            rows_from(
                lines,
                k + 1,
                ncols,
                acc.push(cells.map_values(|c: Seq<char>| decode_cell_spec(c))),
            )
        }
    }
}

/// Reading a TSV block against the expected `columns`.
pub open spec fn parse_block_spec(content: Seq<char>, columns: Seq<Seq<char>>) -> TsvParse {
    let t = strip_newlines(content);
    if trim_spec(t).len() == 0 {
        TsvParse::Empty
    } else {
        let lines = block_lines(content);
        if lines.len() == 0 {
            TsvParse::Empty
        } else if split_row_spec(lines[0]) != columns {
            TsvParse::Header(split_row_spec(lines[0]))
        } else {
            rows_from(lines, 1, columns.len() as int, Seq::empty())
        }
    }
}

pub open spec fn parse_block_result(
    r: Result<Vec<Vec<String>>, FormatError>,
    block: Seq<char>,
    columns: Seq<Seq<char>>,
    outcome: TsvParse,
) -> bool {
    match outcome {
        TsvParse::Rows(rs) => r matches Ok(v) && rows_view(v@) == rs,
        TsvParse::Empty => r matches Err(FormatError::TsvEmpty { block: b }) && b@ == block,
        TsvParse::Header(got) => r matches Err(
            FormatError::TsvHeaderMismatch { block: b, got: g, expected: e },
        ) && b@ == block && strings_view(g@) == got && strings_view(e@) == columns,
        TsvParse::CellCount(row, got) => r matches Err(
            FormatError::TsvCellCountMismatch { block: b, row: n, got: g, expected: e, columns: c },
        ) && b@ == block && n == row && g == got && e == columns.len() && strings_view(c@)
            == columns,
    }
}

fn columns_to_strings(columns: &[&str]) -> (r: Vec<String>)
    ensures
        strings_view(r@) == strs_view(columns@),
{
    let mut r: Vec<String> = Vec::new();
    let mut i: usize = 0;
    while i < columns.len()
        invariant
            i <= columns@.len(),
            strings_view(r@) == strs_view(columns@).subrange(0, i as int),
        decreases columns.len() - i,
    {
        let ghost before = r@;
        let item = columns[i].to_owned();
        let ghost it = item;
        r.push(item);
        proof {
            lemma_strings_view_push(before, it);
            assert(strings_view(before).len() == i);
            assert(strs_view(columns@).subrange(0, i + 1) =~= strs_view(columns@).subrange(0, i as int).push(
                columns@[i as int]@,
            ));
        }
        i += 1;
    }
    assert(strs_view(columns@).subrange(0, i as int) =~= strs_view(columns@));
    r
}

fn cells_match_columns(cells: &Vec<String>, columns: &[&str]) -> (r: bool)
    ensures
        r == (strings_view(cells@) == strs_view(columns@)),
{
    if cells.len() != columns.len() {
        assert(strings_view(cells@).len() != strs_view(columns@).len());
        return false;
    }
    let mut i: usize = 0;
    while i < cells.len()
        invariant
            i <= cells@.len() == columns@.len(),
            forall|j: int| 0 <= j < i ==> cells@[j]@ == columns@[j]@,
        decreases cells.len() - i,
    {
        let a = chars_of(cells[i].as_str());
        let b = chars_of(columns[i]);
        if !chars_eq(a.as_slice(), b.as_slice()) {
            assert(strings_view(cells@)[i as int] != strs_view(columns@)[i as int]);
            return false;
        }
        i += 1;
    }
    assert(strings_view(cells@) =~= strs_view(columns@));
    true
}

/// Read a TSV block: check the header against `columns`, then read each
/// data row, decoding its cells. Leading and trailing newlines and blank
/// lines are ignored.
pub fn parse_tsv_block(block: &str, content: &str, columns: &[&str]) -> (r: Result<
    Vec<Vec<String>>,
    FormatError,
>)
    ensures
        parse_block_result(r, block@, strs_view(columns@), parse_block_spec(content@, strs_view(columns@))),
{
    let cs = chars_of(content);
    // Strip surrounding newlines.
    let mut a: usize = 0;
    while a < cs.len() && cs[a] == '\n'
        invariant
            a <= cs.len(),
            skip_newlines(cs@, a as int) == skip_newlines(cs@, 0),
        decreases cs.len() - a,
    {
        a += 1;
    }
    assert(skip_newlines(cs@, a as int) == a as int);
    let t: Vec<char> = if a >= cs.len() {
        Vec::new()
    } else {
        let mut e: usize = cs.len();
        while e > a && cs[e - 1] == '\n'
            invariant
                a < e <= cs.len(),
                cs@[a as int] != '\n',
                drop_trailing_newlines(cs@, e as int) == drop_trailing_newlines(cs@, cs.len() as int),
            decreases e,
        {
            e -= 1;
        }
        assert(drop_trailing_newlines(cs@, e as int) == e as int);
        slice_chars(cs.as_slice(), a, e)
    };
    assert(t@ == strip_newlines(content@));
    let trimmed = trim_chars(t.as_slice());
    if trimmed.len() == 0 {
        return Err(FormatError::TsvEmpty { block: block.to_owned() });
    }
    let parts = split_on(t.as_slice(), '\n');
    let ghost parts_view = parts@.map_values(|v: Vec<char>| v@);
    // Keep the non-blank lines.
    let mut lines: Vec<Vec<char>> = Vec::new();
    let mut p: usize = 0;
    assert(parts_view.skip(0) =~= parts_view);
    assert(lines@.map_values(|v: Vec<char>| v@) =~= Seq::<Seq<char>>::empty());
    while p < parts.len()
        invariant
            p <= parts@.len(),
            parts_view == parts@.map_values(|v: Vec<char>| v@),
            lines@.map_values(|v: Vec<char>| v@) + keep_non_blank(parts_view.skip(p as int))
                == keep_non_blank(parts_view),
        decreases parts.len() - p,
    {
        let ghost rest = parts_view.skip(p as int);
        assert(rest.drop_first() =~= parts_view.skip(p + 1));
        assert(rest[0] == parts@[p as int]@);
        let tr = trim_chars(parts[p].as_slice());
        if tr.len() > 0 {
            let ghost before = lines@;
            let line = slice_chars(parts[p].as_slice(), 0, parts[p].len());
            assert(line@ =~= rest[0]);
            let ghost ln = line;
            lines.push(line);
            proof {
                lemma_lines_view_push(before, ln);
            }
            assert(lines@.map_values(|v: Vec<char>| v@) =~= before.map_values(|v: Vec<char>| v@)
                + seq![rest[0]]);
            assert(lines@.map_values(|v: Vec<char>| v@) + keep_non_blank(parts_view.skip(p + 1))
                =~= before.map_values(|v: Vec<char>| v@) + keep_non_blank(rest));
        } else {
            assert(keep_non_blank(rest) =~= keep_non_blank(parts_view.skip(p + 1)));
        }
        p += 1;
    }
    let ghost lines_view = lines@.map_values(|v: Vec<char>| v@);
    assert(lines_view =~= block_lines(content@)) by {
        assert(parts_view.skip(parts_view.len() as int) =~= Seq::<Seq<char>>::empty());
    }
    if lines.len() == 0 {
        return Err(FormatError::TsvEmpty { block: block.to_owned() });
    }
    let header_cells = split_row_chars(lines[0].as_slice());
    if !cells_match_columns(&header_cells, columns) {
        return Err(
            FormatError::TsvHeaderMismatch {
                block: block.to_owned(),
                got: header_cells,
                expected: columns_to_strings(columns),
            },
        );
    }
    let ncols = columns.len();
    let mut rows: Vec<Vec<String>> = Vec::new();
    let mut k: usize = 1;
    assert(rows_view(rows@) =~= Seq::<Seq<Seq<char>>>::empty());
    assert(lines_view[0] == lines@[0]@);
    assert(parse_block_spec(content@, strs_view(columns@)) == rows_from(
        lines_view,
        1,
        ncols as int,
        Seq::empty(),
    ));
    while k < lines.len()
        invariant
            1 <= k <= lines@.len(),
            ncols == columns@.len(),
            lines_view == lines@.map_values(|v: Vec<char>| v@),
            lines_view == block_lines(content@),
            parse_block_spec(content@, strs_view(columns@)) == rows_from(
                lines_view,
                1,
                ncols as int,
                Seq::empty(),
            ),
            rows_from(lines_view, k as int, ncols as int, rows_view(rows@)) == rows_from(
                lines_view,
                1,
                ncols as int,
                Seq::empty(),
            ),
        decreases lines.len() - k,
    {
        assert(lines_view[k as int] == lines@[k as int]@);
        let cells = split_row_chars(lines[k].as_slice());
        if cells.len() != ncols {
            assert(strings_view(cells@).len() == cells@.len());
            assert(split_row_spec(lines_view[k as int]) == strings_view(cells@));
            return Err(
                FormatError::TsvCellCountMismatch {
                    block: block.to_owned(),
                    row: k - 1,
                    got: cells.len(),
                    expected: ncols,
                    columns: columns_to_strings(columns),
                },
            );
        }
        let mut decoded: Vec<String> = Vec::new();
        let mut j: usize = 0;
        let ghost cv = strings_view(cells@);
        while j < cells.len()
            invariant
                j <= cells@.len(),
                cv == strings_view(cells@),
                strings_view(decoded@) == cv.map_values(|c: Seq<char>| decode_cell_spec(c)).subrange(0, j as int),
            decreases cells.len() - j,
        {
            let d = decode_cell(cells[j].as_str());
            let ghost before = decoded@;
            let ghost dd = d;
            decoded.push(d);
            proof {
                let full = cv.map_values(|c: Seq<char>| decode_cell_spec(c));
                lemma_strings_view_push(before, dd);
                assert(cv[j as int] == cells@[j as int]@);
                assert(full.subrange(0, j + 1) =~= full.subrange(0, j as int).push(full[j as int]));
            }
            j += 1;
        }
        assert(cv.map_values(|c: Seq<char>| decode_cell_spec(c)).subrange(0, j as int) =~= cv.map_values(
            |c: Seq<char>| decode_cell_spec(c),
        ));
        let ghost before_rows = rows@;
        let ghost dv = strings_view(decoded@);
        rows.push(decoded);
        assert(rows_view(rows@) =~= rows_view(before_rows).push(dv));
        k += 1;
    }
    Ok(rows)
}

} // verus!
