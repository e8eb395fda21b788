//! Writing KiCad S-expressions: token vocabularies, millimetre numerals,
//! the shared text-effect nodes and the instance blocks of a schematic.

use vstd::prelude::*;

use crate::schematic::{
    FillType, HAlign, LabelType, PinDirection, PinShapeStyle, StrokeColor, VAlign,
    SCHEMATIC_TEXT_NM,
};
use crate::sexpr::{
    atom, node, node_tree, push_item, raw, render_into, render_spec, tree_of, trees, SExpr, Tree,
};
use crate::schematic::{SheetInstance, SymbolInstance};
use crate::order::{asymmetric, lemma_seq_lt_asymmetric, lemma_sorted_unique, sorted_by};
use crate::text::{
    append_chars, chars_eq, chars_lt, chars_of, decimal, digit, digit_char, lemma_seq_lt_irrefl,
    lemma_seq_lt_total, lemma_seq_lt_trans, seq_lt, string_from_chars, u64_decimal,
};

verus! {

broadcast use vstd::std_specs::vec::group_vec_axioms;

// ---------------------------------------------------------------------------
// Token vocabularies
// ---------------------------------------------------------------------------

pub open spec fn halign_token(a: HAlign) -> Seq<char> {
    match a {
        HAlign::Left => "left"@,
        HAlign::Center => "center"@,
        HAlign::Right => "right"@,
    }
}

/// KiCad's token for a horizontal justification.
pub fn halign_str(a: HAlign) -> (r: &'static str)
    ensures
        r@ == halign_token(a),
{
    match a {
        HAlign::Left => "left",
        HAlign::Center => "center",
        HAlign::Right => "right",
    }
}

pub open spec fn valign_token(a: VAlign) -> Seq<char> {
    match a {
        VAlign::Top => "top"@,
        VAlign::Center => "center"@,
        VAlign::Bottom => "bottom"@,
    }
}

/// KiCad's token for a vertical justification.
pub fn valign_str(a: VAlign) -> (r: &'static str)
    ensures
        r@ == valign_token(a),
{
    match a {
        VAlign::Top => "top",
        VAlign::Center => "center",
        VAlign::Bottom => "bottom",
    }
}

pub open spec fn fill_type_token(f: FillType) -> Seq<char> {
    match f {
        FillType::Unfilled => "none"@,
        FillType::Outline => "outline"@,
        FillType::Background => "background"@,
    }
}

/// KiCad's token for a drawing fill.
pub fn fill_type_str(f: FillType) -> (r: &'static str)
    ensures
        r@ == fill_type_token(f),
{
    match f {
        FillType::Unfilled => "none",
        FillType::Outline => "outline",
        FillType::Background => "background",
    }
}

pub open spec fn pin_electrical_token(t: PinDirection) -> Seq<char> {
    match t {
        PinDirection::Input => "input"@,
        PinDirection::Output => "output"@,
        PinDirection::Bidirectional => "bidirectional"@,
        PinDirection::ThreeStatable => "tri_state"@,
        PinDirection::Passive => "passive"@,
        PinDirection::PowerInput => "power_in"@,
        PinDirection::PowerOutput => "power_out"@,
        PinDirection::OpenDrainLow => "open_collector"@,
        PinDirection::OpenDrainHigh => "open_emitter"@,
        PinDirection::DoNotConnect => "no_connect"@,
        PinDirection::GroundReference => "unspecified"@,
        PinDirection::Differential => "unspecified"@,
        PinDirection::Clock => "unspecified"@,
        PinDirection::Unclassified => "unspecified"@,
    }
}

/// KiCad's electrical-type token for a pin; the directions KiCad has no
/// word for are written `unspecified`.
pub fn pin_electrical_str(t: PinDirection) -> (r: &'static str)
    ensures
        r@ == pin_electrical_token(t),
{
    match t {
        PinDirection::Input => "input",
        PinDirection::Output => "output",
        PinDirection::Bidirectional => "bidirectional",
        PinDirection::ThreeStatable => "tri_state",
        PinDirection::Passive => "passive",
        PinDirection::PowerInput => "power_in",
        PinDirection::PowerOutput => "power_out",
        PinDirection::OpenDrainLow => "open_collector",
        PinDirection::OpenDrainHigh => "open_emitter",
        PinDirection::DoNotConnect => "no_connect",
        PinDirection::GroundReference => "unspecified",
        PinDirection::Differential => "unspecified",
        PinDirection::Clock => "unspecified",
        PinDirection::Unclassified => "unspecified",
    }
}

pub open spec fn pin_shape_token(s: PinShapeStyle) -> Seq<char> {
    match s {
        PinShapeStyle::Plain => "line"@,
        PinShapeStyle::InvertedBubble => "inverted"@,
        PinShapeStyle::ClockTriangle => "clock"@,
        PinShapeStyle::InvertedClockBubble => "inverted_clock"@,
        PinShapeStyle::HysteresisInput => "line"@,
        PinShapeStyle::HysteresisOutput => "line"@,
        PinShapeStyle::Schmitt => "line"@,
    }
}

/// KiCad's pin-shape token; the shapes KiCad cannot draw are written as a
/// plain `line`.
pub fn pin_shape_str(s: PinShapeStyle) -> (r: &'static str)
    ensures
        r@ == pin_shape_token(s),
{
    match s {
        PinShapeStyle::Plain => "line",
        PinShapeStyle::InvertedBubble => "inverted",
        PinShapeStyle::ClockTriangle => "clock",
        PinShapeStyle::InvertedClockBubble => "inverted_clock",
        PinShapeStyle::HysteresisInput => "line",
        PinShapeStyle::HysteresisOutput => "line",
        PinShapeStyle::Schmitt => "line",
    }
}

pub open spec fn label_keyword(lt: LabelType) -> Seq<char> {
    match lt {
        LabelType::Net => "label"@,
        LabelType::Power => "label"@,
        LabelType::Global => "global_label"@,
        LabelType::Hierarchical => "hierarchical_label"@,
    }
}

/// The keyword a label of each kind is written under.
pub fn label_type_keyword(lt: LabelType) -> (r: &'static str)
    ensures
        r@ == label_keyword(lt),
{
    match lt {
        LabelType::Net => "label",
        LabelType::Power => "label",
        LabelType::Global => "global_label",
        LabelType::Hierarchical => "hierarchical_label",
    }
}

/// A written justification reads back as itself.
pub proof fn lemma_align_tokens_round_trip(h: HAlign, v: VAlign)
    ensures
        crate::kicad_read::halign_of(halign_token(h)) == h,
        crate::kicad_read::valign_of(valign_token(v)) == v,
{
    reveal_strlit("left");
    assert("left"@.len() == 4 && "left"@[0] == 'l' && "left"@[1] == 'e' && "left"@[2] == 'f' && "left"@[3] == 't');
    reveal_strlit("right");
    assert("right"@.len() == 5 && "right"@[0] == 'r' && "right"@[1] == 'i' && "right"@[2] == 'g' && "right"@[3] == 'h' && "right"@[4] == 't');
    reveal_strlit("center");
    assert("center"@.len() == 6 && "center"@[0] == 'c' && "center"@[1] == 'e' && "center"@[2] == 'n' && "center"@[3] == 't' && "center"@[4] == 'e' && "center"@[5] == 'r');
    reveal_strlit("top");
    assert("top"@.len() == 3 && "top"@[0] == 't' && "top"@[1] == 'o' && "top"@[2] == 'p');
    reveal_strlit("bottom");
    assert("bottom"@.len() == 6 && "bottom"@[0] == 'b' && "bottom"@[1] == 'o' && "bottom"@[2] == 't' && "bottom"@[3] == 't' && "bottom"@[4] == 'o' && "bottom"@[5] == 'm');
}

/// A written fill type reads back as itself.
pub proof fn lemma_fill_token_round_trip(f: FillType)
    ensures
        crate::kicad_read::fill_of_token(fill_type_token(f)) == f,
{
    reveal_strlit("none");
    assert("none"@.len() == 4 && "none"@[0] == 'n' && "none"@[1] == 'o' && "none"@[2] == 'n' && "none"@[3] == 'e');
    reveal_strlit("outline");
    assert("outline"@.len() == 7 && "outline"@[0] == 'o' && "outline"@[1] == 'u' && "outline"@[2] == 't' && "outline"@[3] == 'l' && "outline"@[4] == 'i' && "outline"@[5] == 'n' && "outline"@[6] == 'e');
    reveal_strlit("background");
    assert("background"@.len() == 10 && "background"@[0] == 'b' && "background"@[1] == 'a' && "background"@[2] == 'c' && "background"@[3] == 'k' && "background"@[4] == 'g' && "background"@[5] == 'r' && "background"@[6] == 'o' && "background"@[7] == 'u' && "background"@[8] == 'n' && "background"@[9] == 'd');
}

/// A written pin type reads back as itself, except the directions KiCad
/// has no word for, which read back as unclassified.
pub proof fn lemma_pin_electrical_round_trip(t: PinDirection)
    ensures
        crate::kicad_read::pin_electrical_spec(pin_electrical_token(t)) == match t {
            PinDirection::GroundReference | PinDirection::Differential | PinDirection::Clock => PinDirection::Unclassified,
            _ => t,
        },
{
    reveal_strlit("input");
    assert("input"@.len() == 5 && "input"@[0] == 'i' && "input"@[1] == 'n' && "input"@[2] == 'p' && "input"@[3] == 'u' && "input"@[4] == 't');
    reveal_strlit("output");
    assert("output"@.len() == 6 && "output"@[0] == 'o' && "output"@[1] == 'u' && "output"@[2] == 't' && "output"@[3] == 'p' && "output"@[4] == 'u' && "output"@[5] == 't');
    reveal_strlit("bidirectional");
    assert("bidirectional"@.len() == 13 && "bidirectional"@[0] == 'b' && "bidirectional"@[1] == 'i' && "bidirectional"@[2] == 'd' && "bidirectional"@[3] == 'i' && "bidirectional"@[4] == 'r' && "bidirectional"@[5] == 'e' && "bidirectional"@[6] == 'c' && "bidirectional"@[7] == 't' && "bidirectional"@[8] == 'i' && "bidirectional"@[9] == 'o' && "bidirectional"@[10] == 'n' && "bidirectional"@[11] == 'a' && "bidirectional"@[12] == 'l');
    reveal_strlit("tri_state");
    assert("tri_state"@.len() == 9 && "tri_state"@[0] == 't' && "tri_state"@[1] == 'r' && "tri_state"@[2] == 'i' && "tri_state"@[3] == '_' && "tri_state"@[4] == 's' && "tri_state"@[5] == 't' && "tri_state"@[6] == 'a' && "tri_state"@[7] == 't' && "tri_state"@[8] == 'e');
    reveal_strlit("passive");
    assert("passive"@.len() == 7 && "passive"@[0] == 'p' && "passive"@[1] == 'a' && "passive"@[2] == 's' && "passive"@[3] == 's' && "passive"@[4] == 'i' && "passive"@[5] == 'v' && "passive"@[6] == 'e');
    reveal_strlit("free");
    assert("free"@.len() == 4 && "free"@[0] == 'f' && "free"@[1] == 'r' && "free"@[2] == 'e' && "free"@[3] == 'e');
    reveal_strlit("power_in");
    assert("power_in"@.len() == 8 && "power_in"@[0] == 'p' && "power_in"@[1] == 'o' && "power_in"@[2] == 'w' && "power_in"@[3] == 'e' && "power_in"@[4] == 'r' && "power_in"@[5] == '_' && "power_in"@[6] == 'i' && "power_in"@[7] == 'n');
    reveal_strlit("power_out");
    assert("power_out"@.len() == 9 && "power_out"@[0] == 'p' && "power_out"@[1] == 'o' && "power_out"@[2] == 'w' && "power_out"@[3] == 'e' && "power_out"@[4] == 'r' && "power_out"@[5] == '_' && "power_out"@[6] == 'o' && "power_out"@[7] == 'u' && "power_out"@[8] == 't');
    reveal_strlit("open_collector");
    assert("open_collector"@.len() == 14 && "open_collector"@[0] == 'o' && "open_collector"@[1] == 'p' && "open_collector"@[2] == 'e' && "open_collector"@[3] == 'n' && "open_collector"@[4] == '_' && "open_collector"@[5] == 'c' && "open_collector"@[6] == 'o' && "open_collector"@[7] == 'l' && "open_collector"@[8] == 'l' && "open_collector"@[9] == 'e' && "open_collector"@[10] == 'c' && "open_collector"@[11] == 't' && "open_collector"@[12] == 'o' && "open_collector"@[13] == 'r');
    reveal_strlit("open_emitter");
    assert("open_emitter"@.len() == 12 && "open_emitter"@[0] == 'o' && "open_emitter"@[1] == 'p' && "open_emitter"@[2] == 'e' && "open_emitter"@[3] == 'n' && "open_emitter"@[4] == '_' && "open_emitter"@[5] == 'e' && "open_emitter"@[6] == 'm' && "open_emitter"@[7] == 'i' && "open_emitter"@[8] == 't' && "open_emitter"@[9] == 't' && "open_emitter"@[10] == 'e' && "open_emitter"@[11] == 'r');
    reveal_strlit("no_connect");
    assert("no_connect"@.len() == 10 && "no_connect"@[0] == 'n' && "no_connect"@[1] == 'o' && "no_connect"@[2] == '_' && "no_connect"@[3] == 'c' && "no_connect"@[4] == 'o' && "no_connect"@[5] == 'n' && "no_connect"@[6] == 'n' && "no_connect"@[7] == 'e' && "no_connect"@[8] == 'c' && "no_connect"@[9] == 't');
    reveal_strlit("not_connected");
    assert("not_connected"@.len() == 13 && "not_connected"@[0] == 'n' && "not_connected"@[1] == 'o' && "not_connected"@[2] == 't' && "not_connected"@[3] == '_' && "not_connected"@[4] == 'c' && "not_connected"@[5] == 'o' && "not_connected"@[6] == 'n' && "not_connected"@[7] == 'n' && "not_connected"@[8] == 'e' && "not_connected"@[9] == 'c' && "not_connected"@[10] == 't' && "not_connected"@[11] == 'e' && "not_connected"@[12] == 'd');
    reveal_strlit("unspecified");
    assert("unspecified"@.len() == 11 && "unspecified"@[0] == 'u' && "unspecified"@[1] == 'n' && "unspecified"@[2] == 's' && "unspecified"@[3] == 'p' && "unspecified"@[4] == 'e' && "unspecified"@[5] == 'c' && "unspecified"@[6] == 'i' && "unspecified"@[7] == 'f' && "unspecified"@[8] == 'i' && "unspecified"@[9] == 'e' && "unspecified"@[10] == 'd');
}

/// A written pin shape reads back as itself, except the shapes KiCad
/// cannot draw, which read back plain.
pub proof fn lemma_pin_shape_round_trip(s: PinShapeStyle)
    ensures
        crate::kicad_read::pin_shape_spec(pin_shape_token(s)) == match s {
            PinShapeStyle::HysteresisInput | PinShapeStyle::HysteresisOutput | PinShapeStyle::Schmitt => PinShapeStyle::Plain,
            _ => s,
        },
{
    reveal_strlit("line");
    assert("line"@.len() == 4 && "line"@[0] == 'l' && "line"@[1] == 'i' && "line"@[2] == 'n' && "line"@[3] == 'e');
    reveal_strlit("inverted");
    assert("inverted"@.len() == 8 && "inverted"@[0] == 'i' && "inverted"@[1] == 'n' && "inverted"@[2] == 'v' && "inverted"@[3] == 'e' && "inverted"@[4] == 'r' && "inverted"@[5] == 't' && "inverted"@[6] == 'e' && "inverted"@[7] == 'd');
    reveal_strlit("clock");
    assert("clock"@.len() == 5 && "clock"@[0] == 'c' && "clock"@[1] == 'l' && "clock"@[2] == 'o' && "clock"@[3] == 'c' && "clock"@[4] == 'k');
    reveal_strlit("inverted_clock");
    assert("inverted_clock"@.len() == 14 && "inverted_clock"@[0] == 'i' && "inverted_clock"@[1] == 'n' && "inverted_clock"@[2] == 'v' && "inverted_clock"@[3] == 'e' && "inverted_clock"@[4] == 'r' && "inverted_clock"@[5] == 't' && "inverted_clock"@[6] == 'e' && "inverted_clock"@[7] == 'd' && "inverted_clock"@[8] == '_' && "inverted_clock"@[9] == 'c' && "inverted_clock"@[10] == 'l' && "inverted_clock"@[11] == 'o' && "inverted_clock"@[12] == 'c' && "inverted_clock"@[13] == 'k');
    reveal_strlit("input_low");
    assert("input_low"@.len() == 9 && "input_low"@[0] == 'i' && "input_low"@[1] == 'n' && "input_low"@[2] == 'p' && "input_low"@[3] == 'u' && "input_low"@[4] == 't' && "input_low"@[5] == '_' && "input_low"@[6] == 'l' && "input_low"@[7] == 'o' && "input_low"@[8] == 'w');
    reveal_strlit("clock_low");
    assert("clock_low"@.len() == 9 && "clock_low"@[0] == 'c' && "clock_low"@[1] == 'l' && "clock_low"@[2] == 'o' && "clock_low"@[3] == 'c' && "clock_low"@[4] == 'k' && "clock_low"@[5] == '_' && "clock_low"@[6] == 'l' && "clock_low"@[7] == 'o' && "clock_low"@[8] == 'w');
    reveal_strlit("output_low");
    assert("output_low"@.len() == 10 && "output_low"@[0] == 'o' && "output_low"@[1] == 'u' && "output_low"@[2] == 't' && "output_low"@[3] == 'p' && "output_low"@[4] == 'u' && "output_low"@[5] == 't' && "output_low"@[6] == '_' && "output_low"@[7] == 'l' && "output_low"@[8] == 'o' && "output_low"@[9] == 'w');
    reveal_strlit("edge_clock_high");
    assert("edge_clock_high"@.len() == 15 && "edge_clock_high"@[0] == 'e' && "edge_clock_high"@[1] == 'd' && "edge_clock_high"@[2] == 'g' && "edge_clock_high"@[3] == 'e' && "edge_clock_high"@[4] == '_' && "edge_clock_high"@[5] == 'c' && "edge_clock_high"@[6] == 'l' && "edge_clock_high"@[7] == 'o' && "edge_clock_high"@[8] == 'c' && "edge_clock_high"@[9] == 'k' && "edge_clock_high"@[10] == '_' && "edge_clock_high"@[11] == 'h' && "edge_clock_high"@[12] == 'i' && "edge_clock_high"@[13] == 'g' && "edge_clock_high"@[14] == 'h');
}

// ---------------------------------------------------------------------------
// Millimetre numerals
// ---------------------------------------------------------------------------

/// The six digits of a fraction `f < 10^6`, zero-padded on the left.
pub open spec fn six_digits(f: nat) -> Seq<char> {
    seq![
        digit_char(((f / 100000) % 10) as int),
        digit_char(((f / 10000) % 10) as int),
        digit_char(((f / 1000) % 10) as int),
        digit_char(((f / 100) % 10) as int),
        digit_char(((f / 10) % 10) as int),
        digit_char((f % 10) as int),
    ]
}

/// `s` without its trailing zeros.
pub open spec fn strip_zeros(s: Seq<char>) -> Seq<char>
    decreases s.len(),
{
    if s.len() > 0 && s.last() == '0' {
        strip_zeros(s.drop_last())
    } else {
        s
    }
}

/// The numeral of `v` millionths (a length of `v` nanometres written in
/// millimetres, an angle of `v` millionths of a degree in degrees): sign,
/// whole part and, unless the value is whole, a point and up to six
/// decimals without trailing zeros.
pub open spec fn fixed_text_spec(nm: int) -> Seq<char> {
    let a = if nm < 0 { -nm } else { nm };
    let whole = a / 1_000_000;
    let frac = a % 1_000_000;
    (if nm < 0 { seq!['-'] } else { Seq::empty() }) + decimal(whole as nat) + (if frac == 0 {
        Seq::empty()
    } else {
        seq!['.'] + strip_zeros(six_digits(frac as nat))
    })
}

/// The numeral of a value given in millionths (see `fixed_text_spec`).
pub fn fixed_text(v: i128) -> (r: String)
    ensures
        r@ == fixed_text_spec(v as int),
{
    let neg = v < 0;
    let a: u128 = if v == i128::MIN {
        170141183460469231731687303715884105728u128
    } else if neg {
        (-v) as u128
    } else {
        v as u128
    };
    let whole = a / 1000000;
    let frac = (a % 1000000) as u64;
    let mut out: Vec<char> = Vec::new();
    if neg {
        out.push('-');
    }
    let d = crate::text::u128_decimal(whole);
    append_chars(&mut out, d.as_slice());
    if frac != 0 {
        out.push('.');
        let mut digits: Vec<char> = Vec::new();
        digits.push(digit((frac / 100000) % 10));
        digits.push(digit((frac / 10000) % 10));
        digits.push(digit((frac / 1000) % 10));
        digits.push(digit((frac / 100) % 10));
        digits.push(digit((frac / 10) % 10));
        digits.push(digit(frac % 10));
        let ghost six = six_digits(frac as nat);
        assert(digits@ =~= six);
        let mut n: usize = 6;
        assert(digits@.take(6) =~= six);
        while n > 0 && digits[n - 1] == '0'
            invariant
                n <= 6,
                six.len() == 6,
                digits@ == six,
                strip_zeros(six.take(n as int)) == strip_zeros(six),
            decreases n,
        {
            assert(six.take(n as int).drop_last() =~= six.take(n - 1));
            n -= 1;
        }
        let mut k: usize = 0;
        let ghost before = out@;
        while k < n
            invariant
                k <= n <= 6,
                six.len() == 6,
                digits@ == six,
                out@ == before + six.take(k as int),
            decreases n - k,
        {
            assert(six.take(k + 1) =~= six.take(k as int).push(six[k as int]));
            out.push(digits[k]);
            k += 1;
        }
        assert(strip_zeros(six.take(n as int)) == six.take(n as int));
    }
    let ghost a_int: int = if v < 0 { -(v as int) } else { v as int };
    assert(a as int == a_int);
    assert(out@ =~= fixed_text_spec(v as int));
    string_from_chars(out.as_slice())
}

/// A bare numeral for a value given in millionths.
pub fn fixed_atom(v: i128) -> (e: SExpr)
    ensures
        tree_of(e) == Tree::Raw(fixed_text_spec(v as int)),
{
    SExpr::Atom(crate::sexpr::Atom::Raw(fixed_text(v)))
}

// ---------------------------------------------------------------------------
// Text effects
// ---------------------------------------------------------------------------

pub open spec fn font_tree(size_nm: int, thickness_nm: Option<int>, bold: bool, italic: bool) -> Tree {
    let size = Tree::Raw(fixed_text_spec(size_nm));
    let kids = seq![node_tree("size"@, seq![size, size])] + (match thickness_nm {
        Some(t) => seq![node_tree("thickness"@, seq![Tree::Raw(fixed_text_spec(t))])],
        None => Seq::empty(),
    }) + (if bold { seq![Tree::Raw("bold"@)] } else { Seq::empty() }) + (if italic {
        seq![Tree::Raw("italic"@)]
    } else {
        Seq::empty()
    });
    node_tree("font"@, kids)
}

/// `(font (size S S) [(thickness T)] [bold] [italic])`, lengths in
/// nanometres.
pub fn font_node(size_nm: i64, thickness_nm: Option<i64>, bold: bool, italic: bool) -> (e: SExpr)
    ensures
        tree_of(e) == font_tree(size_nm as int, match thickness_nm {
            Some(t) => Some(t as int),
            None => None,
        }, bold, italic),
{
    let ghost size = Tree::Raw(fixed_text_spec(size_nm as int));
    let mut size_kids: Vec<SExpr> = Vec::new();
    push_item(&mut size_kids, fixed_atom(size_nm as i128));
    push_item(&mut size_kids, fixed_atom(size_nm as i128));
    assert(trees(size_kids@) =~= seq![size, size]);
    let mut items: Vec<SExpr> = Vec::new();
    push_item(&mut items, node("size", size_kids));
    let ghost mut kids = seq![node_tree("size"@, seq![size, size])];
    assert(trees(items@) =~= kids);
    if let Some(t) = thickness_nm {
        let mut tk: Vec<SExpr> = Vec::new();
        push_item(&mut tk, fixed_atom(t as i128));
        assert(trees(tk@) =~= seq![Tree::Raw(fixed_text_spec(t as int))]);
        push_item(&mut items, node("thickness", tk));
        proof {
            kids = kids + seq![node_tree("thickness"@, seq![Tree::Raw(fixed_text_spec(t as int))])];
        }
    } else {
        assert(kids =~= kids + Seq::<Tree>::empty());
    }
    assert(trees(items@) =~= kids);
    if bold {
        push_item(&mut items, raw("bold"));
        proof {
            kids = kids + seq![Tree::Raw("bold"@)];
        }
    } else {
        assert(kids =~= kids + Seq::<Tree>::empty());
    }
    assert(trees(items@) =~= kids);
    if italic {
        push_item(&mut items, raw("italic"));
        proof {
            kids = kids + seq![Tree::Raw("italic"@)];
        }
    } else {
        assert(kids =~= kids + Seq::<Tree>::empty());
    }
    assert(trees(items@) =~= kids);
    node("font", items)
}

pub open spec fn effects_tree(
    size_nm: int,
    thickness_nm: Option<int>,
    bold: bool,
    italic: bool,
    extras: Seq<Tree>,
) -> Tree {
    node_tree("effects"@, seq![font_tree(size_nm, thickness_nm, bold, italic)] + extras)
}

/// `(effects (font ...) extras...)`.
pub fn effects_node(
    size_nm: i64,
    thickness_nm: Option<i64>,
    bold: bool,
    italic: bool,
    extras: Vec<SExpr>,
) -> (e: SExpr)
    ensures
        tree_of(e) == effects_tree(size_nm as int, match thickness_nm {
            Some(t) => Some(t as int),
            None => None,
        }, bold, italic, trees(extras@)),
{
    let mut items: Vec<SExpr> = Vec::new();
    push_item(&mut items, font_node(size_nm, thickness_nm, bold, italic));
    let ghost first = items@;
    assert(trees(first) =~= seq![font_tree(size_nm as int, match thickness_nm {
        Some(t) => Some(t as int),
        None => None,
    }, bold, italic)]);
    let ghost ex = extras@;
    let mut extras = extras;
    items.append(&mut extras);
    assert(trees(items@) =~= trees(first) + trees(ex));
    node("effects", items)
}

pub open spec fn raw_trees(tokens: Seq<&str>) -> Seq<Tree> {
    Seq::new(tokens.len(), |i: int| Tree::Raw(tokens[i]@))
}

/// Default-size text effects with `(justify tokens...)` when any token
/// is given.
pub fn effects_with_justify_node(justify_tokens: &[&str]) -> (e: SExpr)
    ensures
        tree_of(e) == effects_tree(SCHEMATIC_TEXT_NM as int, None, false, false, if justify_tokens@.len() == 0 {
            Seq::empty()
        } else {
            seq![node_tree("justify"@, raw_trees(justify_tokens@))]
        }),
{
    let mut extras: Vec<SExpr> = Vec::new();
    if justify_tokens.len() > 0 {
        let mut toks: Vec<SExpr> = Vec::new();
        let mut i: usize = 0;
        while i < justify_tokens.len()
            invariant
                i <= justify_tokens@.len(),
                trees(toks@) == raw_trees(justify_tokens@.take(i as int)),
            decreases justify_tokens.len() - i,
        {
            let ghost before = toks@;
            toks.push(raw(justify_tokens[i]));
            assert(trees(toks@) =~= trees(before).push(Tree::Raw(justify_tokens@[i as int]@)));
            assert(raw_trees(justify_tokens@.take(i + 1)) =~= raw_trees(justify_tokens@.take(i as int)).push(
                Tree::Raw(justify_tokens@[i as int]@),
            ));
            i += 1;
        }
        assert(justify_tokens@.take(i as int) =~= justify_tokens@);
        extras.push(node("justify", toks));
    }
    let ghost ex = extras@;
    let e = effects_node(SCHEMATIC_TEXT_NM, None, false, false, extras);
    assert(trees(ex) =~= (if justify_tokens@.len() == 0 {
        Seq::empty()
    } else {
        seq![node_tree("justify"@, raw_trees(justify_tokens@))]
    }));
    e
}

// ---------------------------------------------------------------------------
// Fills and properties
// ---------------------------------------------------------------------------

pub open spec fn fill_tree(fill: FillType) -> Tree {
    node_tree("fill"@, seq![node_tree("type"@, seq![Tree::Raw(fill_type_token(fill))])])
}

/// `(fill (type TOKEN))`.
pub fn fill_type_node(fill: FillType) -> (e: SExpr)
    ensures
        tree_of(e) == fill_tree(fill),
{
    let mut t: Vec<SExpr> = Vec::new();
    push_item(&mut t, raw(fill_type_str(fill)));
    assert(trees(t@) =~= seq![Tree::Raw(fill_type_token(fill))]);
    let mut f: Vec<SExpr> = Vec::new();
    push_item(&mut f, node("type", t));
    assert(trees(f@) =~= seq![node_tree("type"@, seq![Tree::Raw(fill_type_token(fill))])]);
    node("fill", f)
}

pub open spec fn sheet_fill_tree(fill: FillType, color: Option<StrokeColor>, alpha_text: Seq<char>) -> Tree {
    match color {
        Some(c) => node_tree(
            "fill"@,
            seq![
                node_tree(
                    "color"@,
                    seq![
                        Tree::Raw(decimal(c.r as nat)),
                        Tree::Raw(decimal(c.g as nat)),
                        Tree::Raw(decimal(c.b as nat)),
                        Tree::Raw(alpha_text),
                    ],
                ),
            ],
        ),
        None => fill_tree(fill),
    }
}

/// The body fill of a child sheet: `(fill (color R G B A))` when the sheet
/// has its own colour, else `(fill (type TOKEN))`. `alpha_text` is the
/// colour's alpha as KiCad writes it, a fraction between 0 and 1.
pub fn sheet_fill_node(fill: FillType, color: Option<StrokeColor>, alpha_text: &str) -> (e: SExpr)
    ensures
        tree_of(e) == sheet_fill_tree(fill, color, alpha_text@),
{
    match color {
        Some(c) => {
            let mut quad: Vec<SExpr> = Vec::new();
            push_item(&mut quad, atom(c.r));
            push_item(&mut quad, atom(c.g));
            push_item(&mut quad, atom(c.b));
            push_item(&mut quad, raw(alpha_text));
            let ghost q = seq![
                Tree::Raw(decimal(c.r as nat)),
                Tree::Raw(decimal(c.g as nat)),
                Tree::Raw(decimal(c.b as nat)),
                Tree::Raw(alpha_text@),
            ];
            assert(trees(quad@) =~= q);
            let mut f: Vec<SExpr> = Vec::new();
            push_item(&mut f, node("color", quad));
            assert(trees(f@) =~= seq![node_tree("color"@, q)]);
            node("fill", f)
        },
        None => fill_type_node(fill),
    }
}

pub open spec fn zero_at_tree() -> Tree {
    node_tree("at"@, seq![Tree::Raw("0"@), Tree::Raw("0"@), Tree::Raw("0"@)])
}

pub open spec fn lib_symbol_property_tree(key: Seq<char>, value: Seq<char>, id: u32) -> Tree {
    node_tree(
        "property"@,
        seq![
            Tree::Quoted(key),
            Tree::Quoted(value),
            node_tree("id"@, seq![Tree::Raw(decimal(id as nat))]),
            zero_at_tree(),
            effects_tree(SCHEMATIC_TEXT_NM as int, None, false, false, Seq::empty()),
        ],
    )
}

/// A library symbol's `(property "KEY" "VALUE" (id N) (at 0 0 0)
/// (effects ...))`.
pub fn lib_symbol_property_node(key: &str, value: &str, id: u32) -> (e: SExpr)
    ensures
        tree_of(e) == lib_symbol_property_tree(key@, value@, id),
{
    let mut idv: Vec<SExpr> = Vec::new();
    push_item(&mut idv, atom(id));
    assert(trees(idv@) =~= seq![Tree::Raw(decimal(id as nat))]);
    let mut at: Vec<SExpr> = Vec::new();
    push_item(&mut at, raw("0"));
    push_item(&mut at, raw("0"));
    push_item(&mut at, raw("0"));
    assert(trees(at@) =~= seq![Tree::Raw("0"@), Tree::Raw("0"@), Tree::Raw("0"@)]);
    let no_extras: Vec<SExpr> = Vec::new();
    assert(trees(no_extras@) =~= Seq::<Tree>::empty());
    let mut items: Vec<SExpr> = Vec::new();
    push_item(&mut items, atom(key));
    push_item(&mut items, atom(value));
    push_item(&mut items, node("id", idv));
    push_item(&mut items, node("at", at));
    push_item(&mut items, effects_node(SCHEMATIC_TEXT_NM, None, false, false, no_extras));
    assert(trees(items@) =~= seq![
        Tree::Quoted(key@),
        Tree::Quoted(value@),
        node_tree("id"@, seq![Tree::Raw(decimal(id as nat))]),
        zero_at_tree(),
        effects_tree(SCHEMATIC_TEXT_NM as int, None, false, false, Seq::empty()),
    ]);
    node("property", items)
}

// ---------------------------------------------------------------------------
// Instance blocks
// ---------------------------------------------------------------------------

pub open spec fn char_seqs(v: Seq<Vec<char>>) -> Seq<Seq<char>> {
    v.map_values(|c: Vec<char>| c@)
}

/// `order` lists every project name of `projects` once, in increasing
/// order.
pub open spec fn project_order(projects: Seq<Seq<char>>, order: Seq<Seq<char>>) -> bool {
    &&& forall|i: int, j: int| 0 <= i < j < order.len() ==> seq_lt(#[trigger] order[i], #[trigger] order[j])
    &&& forall|i: int| 0 <= i < order.len() ==> projects.contains(#[trigger] order[i])
    &&& forall|j: int| 0 <= j < projects.len() ==> order.contains(#[trigger] projects[j])
}

/// Entry `a` comes before entry `b`: by path, then by position.
pub open spec fn path_before(paths: Seq<Seq<char>>, a: int, b: int) -> bool {
    seq_lt(paths[a], paths[b]) || (paths[a] == paths[b] && a < b)
}

/// `idx` lists the positions of the entries of project `p`, each once,
/// ordered by path and, among equal paths, by position.
pub open spec fn path_order(projects: Seq<Seq<char>>, paths: Seq<Seq<char>>, p: Seq<char>, idx: Seq<int>) -> bool {
    &&& forall|i: int, j: int| 0 <= i < j < idx.len() ==> path_before(paths, #[trigger] idx[i], #[trigger] idx[j])
    &&& forall|i: int| 0 <= i < idx.len() ==> 0 <= #[trigger] idx[i] < projects.len() && projects[idx[i]] == p
    &&& forall|j: int| 0 <= j < projects.len() && #[trigger] projects[j] == p ==> idx.contains(j)
}

fn sorted_projects(projects: &Vec<Vec<char>>) -> (order: Vec<Vec<char>>)
    ensures
        project_order(char_seqs(projects@), char_seqs(order@)),
{
    let ghost ps = char_seqs(projects@);
    let mut order: Vec<Vec<char>> = Vec::new();
    let mut i: usize = 0;
    while i < projects.len()
        invariant
            i <= projects@.len(),
            ps == char_seqs(projects@),
            forall|a: int, b: int| 0 <= a < b < order@.len() ==> seq_lt(#[trigger] order@[a]@, #[trigger] order@[b]@),
            forall|a: int| 0 <= a < order@.len() ==> ps.contains(#[trigger] order@[a]@),
            forall|j: int| 0 <= j < i ==> char_seqs(order@).contains(#[trigger] ps[j]),
        decreases projects.len() - i,
    {
        let p = &projects[i];
        assert(ps[i as int] == p@);
        let mut k: usize = 0;
        while k < order.len() && chars_lt(order[k].as_slice(), p.as_slice())
            invariant
                k <= order@.len(),
                forall|a: int| 0 <= a < k ==> seq_lt(#[trigger] order@[a]@, p@),
            decreases order.len() - k,
        {
            k += 1;
        }
        let dup = k < order.len() && chars_eq(order[k].as_slice(), p.as_slice());
        let ghost before = order@;
        if dup {
            assert(char_seqs(order@)[k as int] == p@);
        } else {
            proof {
                if k < before.len() {
                    lemma_seq_lt_total(before[k as int]@, p@);
                }
            }
            order.insert(k, p.clone());
            assert(order@[k as int]@ == p@);
            assert forall|a: int, b: int| 0 <= a < b < order@.len() implies seq_lt(#[trigger] order@[a]@, #[trigger] order@[b]@) by {
                if b < k {
                } else if a < k && b == k {
                } else if a < k && b > k {
                    assert(order@[b] == before[b - 1]);
                    if k < before.len() {
                        if b - 1 > k {
                            lemma_seq_lt_trans(p@, before[k as int]@, before[b - 1]@);
                        }
                        lemma_seq_lt_trans(before[a]@, p@, order@[b]@);
                    }
                } else if a == k {
                    assert(order@[b] == before[b - 1]);
                    if b - 1 > k {
                        lemma_seq_lt_trans(p@, before[k as int]@, before[b - 1]@);
                    }
                } else {
                    assert(order@[a] == before[a - 1]);
                    assert(order@[b] == before[b - 1]);
                }
            }
            assert forall|a: int| 0 <= a < order@.len() implies ps.contains(#[trigger] order@[a]@) by {
                if a == k {
                    assert(ps[i as int] == p@);
                } else if a < k {
                    assert(order@[a] == before[a]);
                } else {
                    assert(order@[a] == before[a - 1]);
                }
            }
            assert forall|j: int| 0 <= j < i implies char_seqs(order@).contains(#[trigger] ps[j]) by {
                assert(char_seqs(before).contains(ps[j]));
                let w = choose|w: int| 0 <= w < before.len() && char_seqs(before)[w] == ps[j];
                if w < k {
                    assert(char_seqs(order@)[w] == ps[j]);
                } else {
                    assert(char_seqs(order@)[w + 1] == ps[j]);
                }
            }
            assert(char_seqs(order@)[k as int] == p@);
        }
        i += 1;
    }
    proof {
        assert forall|j: int| 0 <= j < ps.len() implies char_seqs(order@).contains(#[trigger] ps[j]) by {
        }
        assert forall|a: int| 0 <= a < char_seqs(order@).len() implies ps.contains(#[trigger] char_seqs(order@)[a]) by {
            assert(char_seqs(order@)[a] == order@[a]@);
        }
        assert forall|a: int, b: int| 0 <= a < b < char_seqs(order@).len() implies seq_lt(
            #[trigger] char_seqs(order@)[a],
            #[trigger] char_seqs(order@)[b],
        ) by {
            assert(char_seqs(order@)[a] == order@[a]@);
            assert(char_seqs(order@)[b] == order@[b]@);
        }
    }
    order
}

/// The group marks that keep the positions flagged in `keep`.
pub open spec fn keep_marks(keep: Seq<bool>) -> Seq<Seq<char>> {
    Seq::new(keep.len(), |i: int| if keep[i] { Seq::<char>::empty() } else { seq!['x'] })
}

/// The kept positions of `keys`, ordered by key and, among equal keys, by
/// position: what a stable sort by key gives.
pub open spec fn key_order(keys: Seq<Seq<char>>, keep: Seq<bool>) -> Seq<int> {
    choose|idx: Seq<int>| path_order(keep_marks(keep), keys, Seq::empty(), idx)
}

pub open spec fn usizes(v: Seq<usize>) -> Seq<int> {
    v.map_values(|x: usize| x as int)
}

pub(crate) fn group_positions(projects: &Vec<Vec<char>>, paths: &Vec<Vec<char>>, p: &Vec<char>) -> (idx: Vec<usize>)
    requires
        projects@.len() == paths@.len(),
    ensures
        path_order(char_seqs(projects@), char_seqs(paths@), p@, usizes(idx@)),
{
    let ghost ps = char_seqs(projects@);
    let ghost qs = char_seqs(paths@);
    let mut idx: Vec<usize> = Vec::new();
    let mut j: usize = 0;
    while j < projects.len()
        invariant
            j <= projects@.len() == paths@.len(),
            ps == char_seqs(projects@),
            qs == char_seqs(paths@),
            forall|a: int, b: int| 0 <= a < b < idx@.len() ==> path_before(qs, #[trigger] idx@[a] as int, #[trigger] idx@[b] as int),
            forall|a: int| 0 <= a < idx@.len() ==> #[trigger] idx@[a] < j && ps[idx@[a] as int] == p@,
            forall|m: int| 0 <= m < j && #[trigger] ps[m] == p@ ==> usizes(idx@).contains(m),
        decreases projects.len() - j,
    {
        assert(ps[j as int] == projects@[j as int]@);
        assert(qs[j as int] == paths@[j as int]@);
        if chars_eq(projects[j].as_slice(), p.as_slice()) {
            let mut k: usize = 0;
            while k < idx.len() && !chars_lt(paths[j].as_slice(), paths[idx[k]].as_slice())
                invariant
                    k <= idx@.len(),
                    j < paths@.len(),
                    qs == char_seqs(paths@),
                    forall|a: int| 0 <= a < idx@.len() ==> #[trigger] idx@[a] < j,
                    forall|a: int| 0 <= a < k ==> !seq_lt(qs[j as int], qs[#[trigger] idx@[a] as int]),
                decreases idx.len() - k,
            {
                assert(qs[idx@[k as int] as int] == paths@[idx@[k as int] as int]@);
                k += 1;
            }
            if k < idx.len() {
                assert(qs[idx@[k as int] as int] == paths@[idx@[k as int] as int]@);
            }
            let ghost before = idx@;
            idx.insert(k, j);
            assert forall|a: int, b: int| 0 <= a < b < idx@.len() implies path_before(qs, #[trigger] idx@[a] as int, #[trigger] idx@[b] as int) by {
                if b < k {
                } else if a < k && b == k {
                    lemma_seq_lt_total(qs[before[a] as int], qs[j as int]);
                } else if a == k {
                    let y = before[b - 1] as int;
                    assert(idx@[b] == before[b - 1]);
                    if b - 1 == k {
                    } else {
                        let x = before[k as int] as int;
                        assert(path_before(qs, x, y));
                        if seq_lt(qs[x], qs[y]) {
                            lemma_seq_lt_trans(qs[j as int], qs[x], qs[y]);
                        }
                    }
                } else if a < k && b > k {
                    assert(idx@[b] == before[b - 1]);
                    assert(path_before(qs, before[a] as int, before[b - 1] as int));
                } else {
                    assert(idx@[a] == before[a - 1]);
                    assert(idx@[b] == before[b - 1]);
                }
            }
            assert forall|m: int| 0 <= m < j + 1 && #[trigger] ps[m] == p@ implies usizes(idx@).contains(m) by {
                if m == j {
                    assert(usizes(idx@)[k as int] == m);
                } else {
                    assert(usizes(before).contains(m));
                    let w = choose|w: int| 0 <= w < before.len() && usizes(before)[w] == m;
                    if w < k {
                        assert(usizes(idx@)[w] == m);
                    } else {
                        assert(usizes(idx@)[w + 1] == m);
                    }
                }
            }
            assert forall|a: int| 0 <= a < idx@.len() implies #[trigger] idx@[a] < j + 1 && ps[idx@[a] as int] == p@ by {
                if a < k {
                    assert(idx@[a] == before[a]);
                } else if a > k {
                    assert(idx@[a] == before[a - 1]);
                }
            }
        }
        j += 1;
    }
    proof {
        let u = usizes(idx@);
        assert forall|a: int, b: int| 0 <= a < b < u.len() implies path_before(qs, #[trigger] u[a], #[trigger] u[b]) by {
            assert(u[a] == idx@[a] as int);
            assert(u[b] == idx@[b] as int);
        }
        assert forall|a: int| 0 <= a < u.len() implies 0 <= #[trigger] u[a] < ps.len() && ps[u[a]] == p@ by {
            assert(u[a] == idx@[a] as int);
        }
    }
    idx
}

/// The projects are `order`, each with the entries `groups[k]`.
pub open spec fn instances_layout(
    projects: Seq<Seq<char>>,
    paths: Seq<Seq<char>>,
    order: Seq<Seq<char>>,
    groups: Seq<Seq<int>>,
) -> bool {
    &&& project_order(projects, order)
    &&& groups.len() == order.len()
    &&& forall|k: int| 0 <= k < order.len() ==> path_order(projects, paths, order[k], #[trigger] groups[k])
}

/// The entries of one project, ordered by path and position, are fixed.
pub proof fn lemma_path_order_unique(projects: Seq<Seq<char>>, paths: Seq<Seq<char>>, p: Seq<char>, a: Seq<int>, b: Seq<int>)
    requires
        path_order(projects, paths, p, a),
        path_order(projects, paths, p, b),
    ensures
        a == b,
{
    let plt = |x: int, y: int| path_before(paths, x, y);
    assert(asymmetric(plt)) by {
        assert forall|x: int, y: int| #[trigger] plt(x, y) implies !plt(y, x) && x != y by {
            lemma_seq_lt_irrefl(paths[x]);
            lemma_seq_lt_irrefl(paths[y]);
            if seq_lt(paths[x], paths[y]) && seq_lt(paths[y], paths[x]) {
                lemma_seq_lt_trans(paths[x], paths[y], paths[x]);
            }
        }
    }
    assert(sorted_by(a, plt)) by {
        assert forall|i: int, j: int| 0 <= i < j < a.len() implies #[trigger] plt(a[i], a[j]) by {
            assert(path_before(paths, a[i], a[j]));
        }
    }
    assert(sorted_by(b, plt)) by {
        assert forall|i: int, j: int| 0 <= i < j < b.len() implies #[trigger] plt(b[i], b[j]) by {
            assert(path_before(paths, b[i], b[j]));
        }
    }
    assert forall|x: int| a.contains(x) <==> b.contains(x) by {
        if a.contains(x) {
            let w = choose|w: int| 0 <= w < a.len() && a[w] == x;
            assert(0 <= a[w] < projects.len() && projects[a[w]] == p);
        }
        if b.contains(x) {
            let w = choose|w: int| 0 <= w < b.len() && b[w] == x;
            assert(0 <= b[w] < projects.len() && projects[b[w]] == p);
        }
    }
    lemma_sorted_unique(a, b, plt);
}

/// An instance layout is unique: the order of projects and the entries of
/// each are fixed by the instances.
pub proof fn lemma_instances_layout_unique(
    projects: Seq<Seq<char>>,
    paths: Seq<Seq<char>>,
    o1: Seq<Seq<char>>,
    g1: Seq<Seq<int>>,
    o2: Seq<Seq<char>>,
    g2: Seq<Seq<int>>,
)
    requires
        instances_layout(projects, paths, o1, g1),
        instances_layout(projects, paths, o2, g2),
    ensures
        o1 == o2,
        g1 == g2,
{
    lemma_seq_lt_asymmetric();
    let lt = |x: Seq<char>, y: Seq<char>| seq_lt(x, y);
    assert(sorted_by(o1, lt)) by {
        assert forall|i: int, j: int| 0 <= i < j < o1.len() implies #[trigger] lt(o1[i], o1[j]) by {
            assert(seq_lt(o1[i], o1[j]));
        }
    }
    assert(sorted_by(o2, lt)) by {
        assert forall|i: int, j: int| 0 <= i < j < o2.len() implies #[trigger] lt(o2[i], o2[j]) by {
            assert(seq_lt(o2[i], o2[j]));
        }
    }
    assert forall|x: Seq<char>| o1.contains(x) <==> o2.contains(x) by {
        if o1.contains(x) {
            let w = choose|w: int| 0 <= w < o1.len() && o1[w] == x;
            assert(projects.contains(o1[w]));
            let j = choose|j: int| 0 <= j < projects.len() && projects[j] == x;
            assert(o2.contains(projects[j]));
        }
        if o2.contains(x) {
            let w = choose|w: int| 0 <= w < o2.len() && o2[w] == x;
            assert(projects.contains(o2[w]));
            let j = choose|j: int| 0 <= j < projects.len() && projects[j] == x;
            assert(o1.contains(projects[j]));
        }
    }
    lemma_sorted_unique(o1, o2, lt);
    assert forall|k: int| 0 <= k < g1.len() implies g1[k] == g2[k] by {
        lemma_path_order_unique(projects, paths, o1[k], g1[k], g2[k]);
    }
    assert(g1 =~= g2);
}

pub open spec fn symbol_path_tree(i: SymbolInstance) -> Tree {
    node_tree(
        "path"@,
        seq![
            Tree::Quoted(i.path@),
            node_tree("reference"@, seq![Tree::Quoted(i.reference@)]),
            node_tree("unit"@, seq![Tree::Raw(decimal(i.unit as nat))]),
        ],
    )
}

pub open spec fn symbol_project_tree(v: Seq<SymbolInstance>, p: Seq<char>, g: Seq<int>) -> Tree {
    node_tree("project"@, seq![Tree::Quoted(p)] + Seq::new(g.len(), |m: int| symbol_path_tree(v[g[m]])))
}

pub open spec fn symbol_instances_tree(v: Seq<SymbolInstance>, order: Seq<Seq<char>>, groups: Seq<Seq<int>>) -> Tree {
    node_tree("instances"@, Seq::new(order.len(), |k: int| symbol_project_tree(v, order[k], groups[k])))
}

/// The instances block of placed-symbol entries `v`: the tree for the one
/// layout that `instances_layout` admits.
pub open spec fn symbol_instances_spec(v: Seq<SymbolInstance>) -> Tree {
    let (o, g) = choose|o: Seq<Seq<char>>, g: Seq<Seq<int>>|
        instances_layout(symbol_projects(v), symbol_path_keys(v), o, g);
    symbol_instances_tree(v, o, g)
}

pub open spec fn symbol_projects(v: Seq<SymbolInstance>) -> Seq<Seq<char>> {
    v.map_values(|i: SymbolInstance| i.project@)
}

pub open spec fn symbol_path_keys(v: Seq<SymbolInstance>) -> Seq<Seq<char>> {
    v.map_values(|i: SymbolInstance| i.path@)
}

fn symbol_path_node(i: &SymbolInstance) -> (e: SExpr)
    ensures
        tree_of(e) == symbol_path_tree(*i),
{
    let mut r: Vec<SExpr> = Vec::new();
    push_item(&mut r, atom(&i.reference));
    assert(trees(r@) =~= seq![Tree::Quoted(i.reference@)]);
    let mut u: Vec<SExpr> = Vec::new();
    push_item(&mut u, atom(i.unit));
    assert(trees(u@) =~= seq![Tree::Raw(decimal(i.unit as nat))]);
    let mut items: Vec<SExpr> = Vec::new();
    push_item(&mut items, atom(&i.path));
    push_item(&mut items, node("reference", r));
    push_item(&mut items, node("unit", u));
    assert(trees(items@) =~= seq![
        Tree::Quoted(i.path@),
        node_tree("reference"@, seq![Tree::Quoted(i.reference@)]),
        node_tree("unit"@, seq![Tree::Raw(decimal(i.unit as nat))]),
    ]);
    node("path", items)
}

/// The positions of `keys` that `keep` flags, in the order of a stable
/// sort by key.
pub fn key_positions(keys: &Vec<Vec<char>>, keep: &Vec<bool>) -> (idx: Vec<usize>)
    requires
        keys@.len() == keep@.len(),
    ensures
        usizes(idx@) == key_order(char_seqs(keys@), keep@),
        forall|m: int| 0 <= m < idx@.len() ==> #[trigger] idx@[m] < keys@.len() && keep@[idx@[m] as int],
{
    let mut marks: Vec<Vec<char>> = Vec::new();
    let mut i: usize = 0;
    while i < keep.len()
        invariant
            i <= keep@.len(),
            char_seqs(marks@) == keep_marks(keep@).take(i as int),
        decreases keep.len() - i,
    {
        let mut m: Vec<char> = Vec::new();
        if !keep[i] {
            m.push('x');
        }
        let ghost before = marks@;
        assert(m@ =~= keep_marks(keep@)[i as int]);
        marks.push(m);
        assert(char_seqs(marks@) =~= char_seqs(before).push(keep_marks(keep@)[i as int]));
        assert(char_seqs(marks@) =~= keep_marks(keep@).take(i + 1));
        i += 1;
    }
    assert(keep_marks(keep@).take(i as int) =~= keep_marks(keep@));
    let empty: Vec<char> = Vec::new();
    assert(empty@ =~= Seq::<char>::empty());
    let idx = group_positions(&marks, keys, &empty);
    proof {
        let other = choose|o: Seq<int>| path_order(keep_marks(keep@), char_seqs(keys@), Seq::<char>::empty(), o);
        lemma_path_order_unique(keep_marks(keep@), char_seqs(keys@), Seq::empty(), usizes(idx@), other);
        assert forall|m: int| 0 <= m < idx@.len() implies #[trigger] idx@[m] < keys@.len() && keep@[idx@[m] as int] by {
            assert(usizes(idx@)[m] == idx@[m] as int);
            assert(keep_marks(keep@)[idx@[m] as int] == Seq::<char>::empty());
            if !keep@[idx@[m] as int] {
                assert(keep_marks(keep@)[idx@[m] as int].len() == 1);
            }
        }
    }
    idx
}

/// The `(instances (project "P" (path "/.." (reference "R") (unit N))...)...)`
/// block of a placed symbol: projects in increasing order of name, and in
/// each the entries of that project ordered by path, keeping file order
/// among equal paths. `None` when the symbol lists no instance.
pub fn symbol_instances_node(instances: &[SymbolInstance]) -> (r: Option<SExpr>)
    ensures
        r is None <==> instances@.len() == 0,
        r matches Some(e) ==> exists|order: Seq<Seq<char>>, groups: Seq<Seq<int>>|
            #[trigger] instances_layout(symbol_projects(instances@), symbol_path_keys(instances@), order, groups)
                && tree_of(e) == symbol_instances_tree(instances@, order, groups),
        r matches Some(e) ==> tree_of(e) == symbol_instances_spec(instances@),
{
    if instances.len() == 0 {
        return None;
    }
    let ghost v = instances@;
    let mut projs: Vec<Vec<char>> = Vec::new();
    let mut paths: Vec<Vec<char>> = Vec::new();
    let mut i: usize = 0;
    while i < instances.len()
        invariant
            i <= instances@.len(),
            v == instances@,
            char_seqs(projs@) == symbol_projects(v).take(i as int),
            char_seqs(paths@) == symbol_path_keys(v).take(i as int),
        decreases instances.len() - i,
    {
        let ghost (p0, q0) = (projs@, paths@);
        projs.push(chars_of(instances[i].project.as_str()));
        paths.push(chars_of(instances[i].path.as_str()));
        assert(char_seqs(projs@) =~= char_seqs(p0).push(v[i as int].project@));
        assert(char_seqs(paths@) =~= char_seqs(q0).push(v[i as int].path@));
        assert(symbol_projects(v).take(i + 1) =~= symbol_projects(v).take(i as int).push(v[i as int].project@));
        assert(symbol_path_keys(v).take(i + 1) =~= symbol_path_keys(v).take(i as int).push(v[i as int].path@));
        i += 1;
    }
    assert(symbol_projects(v).take(i as int) =~= symbol_projects(v));
    assert(symbol_path_keys(v).take(i as int) =~= symbol_path_keys(v));
    let ghost ps = char_seqs(projs@);
    let ghost qs = char_seqs(paths@);
    let order = sorted_projects(&projs);
    let ghost ov = char_seqs(order@);
    let ghost mut gs: Seq<Seq<int>> = Seq::empty();
    let mut blocks: Vec<SExpr> = Vec::new();
    let mut k: usize = 0;
    while k < order.len()
        invariant
            k <= order@.len(),
            v == instances@,
            ps == char_seqs(projs@),
            qs == char_seqs(paths@),
            ps == symbol_projects(v),
            qs == symbol_path_keys(v),
            projs@.len() == paths@.len() == v.len(),
            ov == char_seqs(order@),
            gs.len() == k,
            forall|a: int| 0 <= a < k ==> path_order(ps, qs, ov[a], #[trigger] gs[a]),
            trees(blocks@) == Seq::new(k as nat, |a: int| symbol_project_tree(v, ov[a], gs[a])),
        decreases order.len() - k,
    {
        let idx = group_positions(&projs, &paths, &order[k]);
        assert(ov[k as int] == order@[k as int]@);
        let ghost g = usizes(idx@);
        let mut kids: Vec<SExpr> = Vec::new();
        push_item(&mut kids, atom(string_from_chars(order[k].as_slice())));
        let mut m: usize = 0;
        while m < idx.len()
            invariant
                m <= idx@.len(),
                v == instances@,
                g == usizes(idx@),
                path_order(ps, qs, ov[k as int], g),
                ps.len() == v.len(),
                trees(kids@) == seq![Tree::Quoted(ov[k as int])] + Seq::new(m as nat, |b: int| symbol_path_tree(v[g[b]])),
            decreases idx.len() - m,
        {
            assert(g[m as int] == idx@[m as int] as int);
            let ghost before = kids@;
            push_item(&mut kids, symbol_path_node(&instances[idx[m]]));
            assert(trees(kids@) =~= seq![Tree::Quoted(ov[k as int])] + Seq::new((m + 1) as nat, |b: int| symbol_path_tree(v[g[b]])));
            m += 1;
        }
        let ghost bl = blocks@;
        push_item(&mut blocks, node("project", kids));
        proof {
            gs = gs.push(g);
        }
        assert(trees(blocks@) =~= Seq::new((k + 1) as nat, |a: int| symbol_project_tree(v, ov[a], gs[a])));
        k += 1;
    }
    let e = node("instances", blocks);
    assert(instances_layout(symbol_projects(v), symbol_path_keys(v), ov, gs));
    assert(tree_of(e) == symbol_instances_tree(v, ov, gs));
    proof {
        let (o2, g2) = choose|o: Seq<Seq<char>>, g: Seq<Seq<int>>|
            instances_layout(symbol_projects(v), symbol_path_keys(v), o, g);
        lemma_instances_layout_unique(symbol_projects(v), symbol_path_keys(v), ov, gs, o2, g2);
    }
    Some(e)
}

pub open spec fn sheet_path_tree(i: SheetInstance) -> Tree {
    node_tree("path"@, seq![Tree::Quoted(i.path@), node_tree("page"@, seq![Tree::Quoted(i.page@)])])
}

pub open spec fn sheet_project_tree(v: Seq<SheetInstance>, p: Seq<char>, g: Seq<int>) -> Tree {
    node_tree("project"@, seq![Tree::Quoted(p)] + Seq::new(g.len(), |m: int| sheet_path_tree(v[g[m]])))
}

pub open spec fn sheet_instances_tree(v: Seq<SheetInstance>, order: Seq<Seq<char>>, groups: Seq<Seq<int>>) -> Tree {
    node_tree("instances"@, Seq::new(order.len(), |k: int| sheet_project_tree(v, order[k], groups[k])))
}

/// The instances block of child-sheet entries `v`, as for symbols.
pub open spec fn sheet_instances_spec(v: Seq<SheetInstance>) -> Tree {
    let (o, g) = choose|o: Seq<Seq<char>>, g: Seq<Seq<int>>|
        instances_layout(sheet_projects(v), sheet_path_keys(v), o, g);
    sheet_instances_tree(v, o, g)
}

pub open spec fn sheet_projects(v: Seq<SheetInstance>) -> Seq<Seq<char>> {
    v.map_values(|i: SheetInstance| i.project@)
}

pub open spec fn sheet_path_keys(v: Seq<SheetInstance>) -> Seq<Seq<char>> {
    v.map_values(|i: SheetInstance| i.path@)
}

fn sheet_path_node(i: &SheetInstance) -> (e: SExpr)
    ensures
        tree_of(e) == sheet_path_tree(*i),
{
    let mut pg: Vec<SExpr> = Vec::new();
    push_item(&mut pg, atom(&i.page));
    assert(trees(pg@) =~= seq![Tree::Quoted(i.page@)]);
    let mut items: Vec<SExpr> = Vec::new();
    push_item(&mut items, atom(&i.path));
    push_item(&mut items, node("page", pg));
    assert(trees(items@) =~= seq![Tree::Quoted(i.path@), node_tree("page"@, seq![Tree::Quoted(i.page@)])]);
    node("path", items)
}

/// The `(instances (project "P" (path "/.." (page "N"))...)...)` block of
/// a child sheet, ordered as for symbols. `None` when there is no
/// instance.
pub fn sheet_instances_node(instances: &[SheetInstance]) -> (r: Option<SExpr>)
    ensures
        r is None <==> instances@.len() == 0,
        r matches Some(e) ==> exists|order: Seq<Seq<char>>, groups: Seq<Seq<int>>|
            #[trigger] instances_layout(sheet_projects(instances@), sheet_path_keys(instances@), order, groups)
                && tree_of(e) == sheet_instances_tree(instances@, order, groups),
        r matches Some(e) ==> tree_of(e) == sheet_instances_spec(instances@),
{
    if instances.len() == 0 {
        return None;
    }
    let ghost v = instances@;
    let mut projs: Vec<Vec<char>> = Vec::new();
    let mut paths: Vec<Vec<char>> = Vec::new();
    let mut i: usize = 0;
    while i < instances.len()
        invariant
            i <= instances@.len(),
            v == instances@,
            char_seqs(projs@) == sheet_projects(v).take(i as int),
            char_seqs(paths@) == sheet_path_keys(v).take(i as int),
        decreases instances.len() - i,
    {
        let ghost (p0, q0) = (projs@, paths@);
        projs.push(chars_of(instances[i].project.as_str()));
        paths.push(chars_of(instances[i].path.as_str()));
        assert(char_seqs(projs@) =~= char_seqs(p0).push(v[i as int].project@));
        assert(char_seqs(paths@) =~= char_seqs(q0).push(v[i as int].path@));
        assert(sheet_projects(v).take(i + 1) =~= sheet_projects(v).take(i as int).push(v[i as int].project@));
        assert(sheet_path_keys(v).take(i + 1) =~= sheet_path_keys(v).take(i as int).push(v[i as int].path@));
        i += 1;
    }
    assert(sheet_projects(v).take(i as int) =~= sheet_projects(v));
    assert(sheet_path_keys(v).take(i as int) =~= sheet_path_keys(v));
    let ghost ps = char_seqs(projs@);
    let ghost qs = char_seqs(paths@);
    let order = sorted_projects(&projs);
    let ghost ov = char_seqs(order@);
    let ghost mut gs: Seq<Seq<int>> = Seq::empty();
    let mut blocks: Vec<SExpr> = Vec::new();
    let mut k: usize = 0;
    while k < order.len()
        invariant
            k <= order@.len(),
            v == instances@,
            ps == char_seqs(projs@),
            qs == char_seqs(paths@),
            ps == sheet_projects(v),
            qs == sheet_path_keys(v),
            projs@.len() == paths@.len() == v.len(),
            ov == char_seqs(order@),
            gs.len() == k,
            forall|a: int| 0 <= a < k ==> path_order(ps, qs, ov[a], #[trigger] gs[a]),
            trees(blocks@) == Seq::new(k as nat, |a: int| sheet_project_tree(v, ov[a], gs[a])),
        decreases order.len() - k,
    {
        let idx = group_positions(&projs, &paths, &order[k]);
        assert(ov[k as int] == order@[k as int]@);
        let ghost g = usizes(idx@);
        let mut kids: Vec<SExpr> = Vec::new();
        push_item(&mut kids, atom(string_from_chars(order[k].as_slice())));
        let mut m: usize = 0;
        while m < idx.len()
            invariant
                m <= idx@.len(),
                v == instances@,
                g == usizes(idx@),
                path_order(ps, qs, ov[k as int], g),
                ps.len() == v.len(),
                trees(kids@) == seq![Tree::Quoted(ov[k as int])] + Seq::new(m as nat, |b: int| sheet_path_tree(v[g[b]])),
            decreases idx.len() - m,
        {
            assert(g[m as int] == idx@[m as int] as int);
            push_item(&mut kids, sheet_path_node(&instances[idx[m]]));
            assert(trees(kids@) =~= seq![Tree::Quoted(ov[k as int])] + Seq::new((m + 1) as nat, |b: int| sheet_path_tree(v[g[b]])));
            m += 1;
        }
        push_item(&mut blocks, node("project", kids));
        proof {
            gs = gs.push(g);
        }
        assert(trees(blocks@) =~= Seq::new((k + 1) as nat, |a: int| sheet_project_tree(v, ov[a], gs[a])));
        k += 1;
    }
    let e = node("instances", blocks);
    assert(instances_layout(sheet_projects(v), sheet_path_keys(v), ov, gs));
    assert(tree_of(e) == sheet_instances_tree(v, ov, gs));
    proof {
        let (o2, g2) = choose|o: Seq<Seq<char>>, g: Seq<Seq<int>>|
            instances_layout(sheet_projects(v), sheet_path_keys(v), o, g);
        lemma_instances_layout_unique(sheet_projects(v), sheet_path_keys(v), ov, gs, o2, g2);
    }
    Some(e)
}

} // verus!

verus! {

// ---------------------------------------------------------------------------
// Output
// ---------------------------------------------------------------------------

pub open spec fn spaces(n: nat) -> Seq<char> {
    Seq::new(n, |i: int| ' ')
}

/// Appends `expr` to `out` as one line: `indent` spaces, the expression,
/// a newline.
pub fn write_rendered_sexpr(out: &mut String, indent: usize, expr: SExpr)
    ensures
        final(out)@ == old(out)@ + spaces(indent as nat) + render_spec(expr) + seq!['\n'],
{
    let mut buf = chars_of(out.as_str());
    let ghost start = buf@;
    let mut i: usize = 0;
    while i < indent
        invariant
            i <= indent,
            buf@ == start + spaces(i as nat),
        decreases indent - i,
    {
        buf.push(' ');
        assert(spaces((i + 1) as nat) =~= spaces(i as nat).push(' '));
        i += 1;
    }
    render_into(&mut buf, &expr);
    buf.push('\n');
    *out = string_from_chars(buf.as_slice());
}

} // verus!
