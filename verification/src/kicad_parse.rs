//! Reading the elements of a KiCad schematic from its S-expression tree:
//! numerals as integer millionths, placements, text, colours, UUIDs and
//! properties.

use vstd::prelude::*;

use crate::coord::Vec2;
use crate::fresh_id::{fresh_uuid_value, FreshUuids};
use crate::kicad_pcb::uuid_hyphenated;
use crate::kicad_read::{
    arg_or, child_arg, child_first_arg, effects_hidden_spec, is_effects_hidden, owned_or, parse_u32,
    parse_u32_spec,
};
use crate::numeral::{numeral_millionths, parse_millionths};
use crate::schematic::{HAlign, SchematicProperty, StrokeColor, TextProp, VAlign, SCHEMATIC_TEXT_NM};
use crate::sexpr::{
    arg_spec, children_spec, find_all_spec, find_spec, keyword_spec, opt_ref_view, opt_str_view, refs_view,
    SExpr,
};
use crate::varmap::VarMap;
use crate::text::str_eq;

verus! {

// ---------------------------------------------------------------------------
// Numbers and points
// ---------------------------------------------------------------------------

/// Argument `i` of `e` read as a numeral, in millionths.
pub open spec fn arg_num(e: SExpr, i: int) -> Option<int> {
    match arg_spec(e, i) {
        Some(t) => numeral_millionths(t),
        None => None,
    }
}

pub open spec fn num_or(o: Option<int>, default: int) -> int {
    match o {
        Some(v) => v,
        None => default,
    }
}

/// Argument `i` of `e` as a numeral in millionths.
pub fn arg_millionths(e: &SExpr, i: usize) -> (r: Option<i64>)
    ensures
        match r {
            Some(v) => arg_num(*e, i as int) == Some(v as int),
            None => arg_num(*e, i as int) is None,
        },
{
    match e.arg(i) {
        Some(t) => parse_millionths(t),
        None => None,
    }
}

/// Argument `i` as a numeral, or `default`.
fn arg_millionths_or(e: &SExpr, i: usize, default: i64) -> (r: i64)
    ensures
        r as int == num_or(arg_num(*e, i as int), default as int),
{
    match arg_millionths(e, i) {
        Some(v) => v,
        None => default,
    }
}

/// The point `(keyword X Y)`, a missing or unreadable coordinate being 0.
pub open spec fn xy_of(e: SExpr) -> Vec2 {
    Vec2 { x: num_or(arg_num(e, 0), 0) as i64, y: num_or(arg_num(e, 1), 0) as i64 }
}

pub fn parse_xy(e: &SExpr) -> (p: Vec2)
    ensures
        p == xy_of(*e),
{
    Vec2 { x: arg_millionths_or(e, 0, 0), y: arg_millionths_or(e, 1, 0) }
}

/// The point of child `name`, the origin when there is none.
pub open spec fn child_point(node: SExpr, name: Seq<char>) -> Vec2 {
    match find_spec(node, name) {
        Some(c) => xy_of(c),
        None => Vec2 { x: 0, y: 0 },
    }
}

pub fn parse_child_point(node: &SExpr, name: &str) -> (p: Vec2)
    ensures
        p == child_point(*node, name@),
{
    match node.find(name) {
        Some(c) => parse_xy(c),
        None => Vec2 { x: 0, y: 0 },
    }
}

/// The first numeral of child `name`.
pub open spec fn child_num(node: SExpr, name: Seq<char>) -> Option<int> {
    match find_spec(node, name) {
        Some(c) => arg_num(c, 0),
        None => None,
    }
}

pub fn parse_child_num(node: &SExpr, name: &str) -> (r: Option<i64>)
    ensures
        match r {
            Some(v) => child_num(*node, name@) == Some(v as int),
            None => child_num(*node, name@) is None,
        },
{
    match node.find(name) {
        Some(c) => arg_millionths(c, 0),
        None => None,
    }
}

/// `(at X Y [ROT])`: position and rotation, zero where missing.
pub open spec fn at_of(node: SExpr) -> (Vec2, i64) {
    match find_spec(node, "at"@) {
        Some(at) => (xy_of(at), num_or(arg_num(at, 2), 0) as i64),
        None => (Vec2 { x: 0, y: 0 }, 0),
    }
}

/// A node's placement: `(at X Y [ROT])`.
pub fn parse_at(node: &SExpr) -> (r: (Vec2, i64))
    ensures
        r == at_of(*node),
{
    match node.find("at") {
        Some(at) => (parse_xy(at), arg_millionths_or(at, 2, 0)),
        None => (Vec2 { x: 0, y: 0 }, 0),
    }
}

/// `(stroke (width W))`, 0 where missing.
pub open spec fn stroke_width_of(node: SExpr) -> int {
    match find_spec(node, "stroke"@) {
        Some(s) => num_or(child_num(s, "width"@), 0),
        None => 0,
    }
}

pub fn parse_stroke_width(node: &SExpr) -> (w: i64)
    ensures
        w as int == stroke_width_of(*node),
        w == stroke_width_of(*node) as i64,
{
    match node.find("stroke") {
        Some(s) => match parse_child_num(s, "width") {
            Some(v) => v,
            None => 0,
        },
        None => 0,
    }
}

// ---------------------------------------------------------------------------
// Colours
// ---------------------------------------------------------------------------

/// A colour channel: the numeral clamped to 0..255 and truncated.
pub open spec fn channel_of(v: int) -> u8 {
    (if v < 0 {
        0
    } else if v > 255_000_000 {
        255
    } else {
        v / 1_000_000
    }) as u8
}

/// Alpha: a fraction up to 1 is scaled to 0..255 and rounded; a larger
/// value is a byte, clamped and truncated.
pub open spec fn alpha_of(v: int) -> u8 {
    let a: int = if v <= 1_000_000 {
        ((if v < 0 {
            0
        } else {
            v
        }) * 255 + 500_000) / 1_000_000
    } else {
        channel_of(v) as int
    };
    a as u8
}

/// `(color R G B [A])`: `None` when a channel is missing or unreadable,
/// or when all four are zero (the theme's colour).
pub open spec fn rgba_of(color: SExpr) -> Option<StrokeColor> {
    match (arg_num(color, 0), arg_num(color, 1), arg_num(color, 2)) {
        (Some(r), Some(g), Some(b)) => {
            let c = StrokeColor {
                r: channel_of(r),
                g: channel_of(g),
                b: channel_of(b),
                a: alpha_of(num_or(arg_num(color, 3), 1_000_000)),
            };
            if c.r == 0 && c.g == 0 && c.b == 0 && c.a == 0 {
                None
            } else {
                Some(c)
            }
        },
        _ => None,
    }
}

fn channel(v: i64) -> (c: u8)
    ensures
        c == channel_of(v as int),
{
    if v < 0 {
        0
    } else if v > 255_000_000 {
        255
    } else {
        (v / 1_000_000) as u8
    }
}

fn alpha(v: i64) -> (a: u8)
    ensures
        a == alpha_of(v as int),
{
    if v <= 1_000_000 {
        let f: i64 = if v < 0 {
            0
        } else {
            v
        };
        ((f * 255 + 500_000) / 1_000_000) as u8
    } else {
        channel(v)
    }
}

/// Reads a `(color R G B [A])` quad.
pub fn parse_rgba_quad(color: &SExpr) -> (r: Option<StrokeColor>)
    ensures
        r == rgba_of(*color),
{
    let r = match arg_millionths(color, 0) {
        Some(v) => channel(v),
        None => {
            return None;
        },
    };
    let g = match arg_millionths(color, 1) {
        Some(v) => channel(v),
        None => {
            return None;
        },
    };
    let b = match arg_millionths(color, 2) {
        Some(v) => channel(v),
        None => {
            return None;
        },
    };
    let a = alpha(arg_millionths_or(color, 3, 1_000_000));
    if r == 0 && g == 0 && b == 0 && a == 0 {
        None
    } else {
        Some(StrokeColor { r, g, b, a })
    }
}

/// `(stroke ... (color R G B A))`.
pub open spec fn stroke_color_of(node: SExpr) -> Option<StrokeColor> {
    match find_spec(node, "stroke"@) {
        Some(s) => match find_spec(s, "color"@) {
            Some(c) => rgba_of(c),
            None => None,
        },
        None => None,
    }
}

pub fn parse_stroke_color(node: &SExpr) -> (r: Option<StrokeColor>)
    ensures
        r == stroke_color_of(*node),
{
    match node.find("stroke") {
        Some(s) => match s.find("color") {
            Some(c) => parse_rgba_quad(c),
            None => None,
        },
        None => None,
    }
}

/// `(fill (color R G B A))`, as sheets write their body colour.
pub open spec fn fill_color_of(node: SExpr) -> Option<StrokeColor> {
    match find_spec(node, "fill"@) {
        Some(s) => match find_spec(s, "color"@) {
            Some(c) => rgba_of(c),
            None => None,
        },
        None => None,
    }
}

pub fn parse_fill_color(node: &SExpr) -> (r: Option<StrokeColor>)
    ensures
        r == fill_color_of(*node),
{
    match node.find("fill") {
        Some(s) => match s.find("color") {
            Some(c) => parse_rgba_quad(c),
            None => None,
        },
        None => None,
    }
}


// ---------------------------------------------------------------------------
// UUIDs
// ---------------------------------------------------------------------------

/// What `uuid::Uuid::parse_str` makes of text `s`: the UUID's 128-bit
/// value, or the message its error displays.
pub uninterp spec fn uuid_parse_result(s: Seq<char>) -> Result<u128, Seq<char>>;

/// The 128-bit value of the UUID that text `s` names, when it names one.
pub open spec fn uuid_text_value(s: Seq<char>) -> Option<u128> {
    match uuid_parse_result(s) {
        Ok(v) => Some(v),
        Err(_) => None,
    }
}

/// A UUID's value, or why text names none.
pub type UuidOutcome = Result<u128, String>;

/// The value of an outcome that has one.
pub open spec fn ok_value(r: UuidOutcome) -> Option<u128> {
    match r {
        Ok(v) => Some(v),
        Err(_) => None,
    }
}

/// A value or an error message, as values.
pub open spec fn outcome_view(r: UuidOutcome) -> Result<u128, Seq<char>> {
    match r {
        Ok(v) => Ok(v),
        Err(m) => Err(m@),
    }
}

/// `uuid::Uuid::parse_str(s)`, as the UUID's 128-bit value, or its
/// error's message (`to_string` of the error). Trusted: the outcome is
/// the crate's reading of the text (simple, hyphenated, braced or URN
/// form), named `uuid_parse_result`; the clause on hyphenated text is
/// what the crate's parser does with the lowercase hyphenated form it
/// writes: it reads back the same value. The messages themselves are
/// left unsaid.
#[verifier::external_body]
pub(crate) fn uuid_parse(s: &str) -> (r: UuidOutcome)
    ensures
        outcome_view(r) == uuid_parse_result(s@),
        forall|v: u128| s@ == uuid_hyphenated(v as int) ==> ok_value(r) == Some(v),
{
    match uuid::Uuid::parse_str(s) {
        Ok(u) => Ok(u.as_u128()),
        Err(e) => Err(e.to_string()),
    }
}

/// The UUID that text `s` names, when it names one.
fn uuid_from_text(s: &str) -> (r: Option<u128>)
    ensures
        r == uuid_text_value(s@),
        forall|v: u128| s@ == uuid_hyphenated(v as int) ==> r == Some(v),
{
    match uuid_parse(s) {
        Ok(v) => Some(v),
        Err(_) => None,
    }
}

/// The UUID a node names in `(uuid "...")`, when it names a readable one.
pub open spec fn named_uuid(node: SExpr) -> Option<u128> {
    match child_arg(node, "uuid"@) {
        Some(t) => uuid_text_value(t),
        None => None,
    }
}

/// The node's UUID, or the next fresh one (and the session after it) when
/// it names none that reads.
pub open spec fn uuid_of(node: SExpr, ids: FreshUuids) -> (u128, FreshUuids) {
    match named_uuid(node) {
        Some(v) => (v, ids),
        None => (
            fresh_uuid_value(ids.counter, ids.seed),
            FreshUuids { counter: ids.counter.wrapping_add(5), seed: ids.seed },
        ),
    }
}

/// Reads a node's UUID, drawing a fresh one when it has none.
pub fn parse_uuid(node: &SExpr, ids: &mut FreshUuids) -> (u: u128)
    ensures
        (u, *final(ids)) == uuid_of(*node, *old(ids)),
{
    let named = match child_first_arg(node, "uuid") {
        Some(t) => uuid_from_text(t),
        None => None,
    };
    match named {
        Some(v) => v,
        None => ids.next_uuid(),
    }
}

// ---------------------------------------------------------------------------
// Text
// ---------------------------------------------------------------------------

/// `(hide yes)`, or a bare `(hide)`, directly on a node.
pub open spec fn hide_flag(node: SExpr) -> bool {
    match find_spec(node, "hide"@) {
        Some(h) => match arg_spec(h, 0) {
            Some(v) => v == "yes"@,
            None => true,
        },
        None => false,
    }
}

pub fn has_hide_flag(node: &SExpr) -> (b: bool)
    ensures
        b == hide_flag(*node),
{
    match node.find("hide") {
        Some(h) => match h.first_arg() {
            Some(v) => str_eq(v, "yes"),
            None => true,
        },
        None => false,
    }
}

/// Justification read so far: the two axes and whether each was named.
pub type JustifyState = (HAlign, VAlign, bool, bool);

pub open spec fn justify_step(st: JustifyState, e: SExpr) -> JustifyState {
    match e {
        SExpr::Atom(a) => {
            let t = a.text();
            if t == "left"@ {
                (HAlign::Left, st.1, true, st.3)
            } else if t == "right"@ {
                (HAlign::Right, st.1, true, st.3)
            } else if t == "top"@ {
                (st.0, VAlign::Top, st.2, true)
            } else if t == "bottom"@ {
                (st.0, VAlign::Bottom, st.2, true)
            } else if t == "center"@ {
                (if st.2 {
                    st.0
                } else {
                    HAlign::Center
                }, if st.3 {
                    st.1
                } else {
                    VAlign::Center
                }, true, true)
            } else {
                st
            }
        },
        SExpr::List(_) => st,
    }
}

/// The justification its tokens give, read in order: each axis is centred
/// unless a token names it; `center` centres the axes not yet named.
pub open spec fn justify_fold(items: Seq<SExpr>) -> JustifyState
    decreases items.len(),
{
    if items.len() == 0 {
        (HAlign::Center, VAlign::Center, false, false)
    } else {
        justify_step(justify_fold(items.drop_last()), items.last())
    }
}

pub open spec fn justify_of(effects: Option<SExpr>) -> JustifyState {
    match effects {
        Some(e) => match find_spec(e, "justify"@) {
            Some(j) => justify_fold(children_spec(j)),
            None => (HAlign::Center, VAlign::Center, false, false),
        },
        None => (HAlign::Center, VAlign::Center, false, false),
    }
}

fn parse_justify(effects: Option<&SExpr>) -> (r: JustifyState)
    ensures
        r == justify_of(opt_ref_view(effects)),
{
    let mut st: JustifyState = (HAlign::Center, VAlign::Center, false, false);
    let j = match effects {
        Some(e) => match e.find("justify") {
            Some(j) => j,
            None => {
                return st;
            },
        },
        None => {
            return st;
        },
    };
    let items = j.children();
    let mut i: usize = 0;
    while i < items.len()
        invariant
            i <= items@.len(),
            items@ == children_spec(*j),
            st == justify_fold(items@.take(i as int)),
        decreases items.len() - i,
    {
        assert(items@.take(i + 1).drop_last() =~= items@.take(i as int));
        if let SExpr::Atom(a) = &items[i] {
            let t = a.as_str();
            if str_eq(t, "left") {
                st = (HAlign::Left, st.1, true, st.3);
            } else if str_eq(t, "right") {
                st = (HAlign::Right, st.1, true, st.3);
            } else if str_eq(t, "top") {
                st = (st.0, VAlign::Top, st.2, true);
            } else if str_eq(t, "bottom") {
                st = (st.0, VAlign::Bottom, st.2, true);
            } else if str_eq(t, "center") {
                let h = if st.2 {
                    st.0
                } else {
                    HAlign::Center
                };
                let v = if st.3 {
                    st.1
                } else {
                    VAlign::Center
                };
                st = (h, v, true, true);
            }
        }
        i += 1;
    }
    assert(items@.take(i as int) =~= items@);
    st
}

/// The font size of `(effects (font (size S S)))`, the default where
/// missing.
pub open spec fn font_size_of(effects: Option<SExpr>) -> int {
    match effects {
        Some(e) => match find_spec(e, "font"@) {
            Some(f) => num_or(child_num(f, "size"@), SCHEMATIC_TEXT_NM as int),
            None => SCHEMATIC_TEXT_NM as int,
        },
        None => SCHEMATIC_TEXT_NM as int,
    }
}

pub(crate) fn parse_font_size(effects: Option<&SExpr>) -> (r: i64)
    ensures
        r as int == font_size_of(opt_ref_view(effects)),
        r == font_size_of(opt_ref_view(effects)) as i64,
{
    match effects {
        Some(e) => match e.find("font") {
            Some(f) => match parse_child_num(f, "size") {
                Some(v) => v,
                None => SCHEMATIC_TEXT_NM,
            },
            None => SCHEMATIC_TEXT_NM,
        },
        None => SCHEMATIC_TEXT_NM,
    }
}

/// The text of a property: placement, font size, justification, and
/// hidden when its effects hide it or it carries `(hide ...)` itself.
pub open spec fn text_prop_of(node: SExpr) -> TextProp {
    let (position, rotation) = at_of(node);
    let effects = find_spec(node, "effects"@);
    let j = justify_of(effects);
    TextProp {
        position,
        rotation,
        font_size: font_size_of(effects) as i64,
        justify_h: j.0,
        justify_v: j.1,
        hidden: effects_hidden_spec(effects) || hide_flag(node),
    }
}

pub fn parse_text_prop(node: &SExpr) -> (t: TextProp)
    ensures
        t == text_prop_of(*node),
{
    let (position, rotation) = parse_at(node);
    let effects = node.find("effects");
    let font_size = parse_font_size(effects);
    let hidden_in_effects = is_effects_hidden(effects);
    let hidden_on_prop = has_hide_flag(node);
    let j = parse_justify(effects);
    TextProp {
        position,
        rotation,
        font_size,
        justify_h: j.0,
        justify_v: j.1,
        hidden: hidden_in_effects || hidden_on_prop,
    }
}


// ---------------------------------------------------------------------------
// Properties
// ---------------------------------------------------------------------------

/// `(keyword yes|no)` read as a flag: `Some(v == "yes")` when present.
pub open spec fn yes_flag(node: SExpr, keyword: Seq<char>) -> Option<bool> {
    match child_arg(node, keyword) {
        Some(v) => Some(v == "yes"@),
        None => None,
    }
}

pub fn parse_yes_flag(node: &SExpr, keyword: &str) -> (r: Option<bool>)
    ensures
        r == yes_flag(*node, keyword@),
{
    match child_first_arg(node, keyword) {
        Some(v) => Some(str_eq(v, "yes")),
        None => None,
    }
}

/// The values of the `(variant NAME VALUE)` nodes, a later name replacing
/// an earlier one; nodes missing either part are skipped.
pub open spec fn variants_map(vs: Seq<SExpr>) -> Map<Seq<char>, Seq<char>>
    decreases vs.len(),
{
    if vs.len() == 0 {
        Map::empty()
    } else {
        let m = variants_map(vs.drop_last());
        match (arg_spec(vs.last(), 0), arg_spec(vs.last(), 1)) {
            (Some(n), Some(x)) => m.insert(n, x),
            _ => m,
        }
    }
}

pub open spec fn variant_overrides_of(node: SExpr) -> Map<Seq<char>, Seq<char>> {
    match find_spec(node, "variants"@) {
        Some(vn) => variants_map(find_all_spec(vn, "variant"@)),
        None => Map::empty(),
    }
}

pub open spec fn property_id_of(node: SExpr) -> Option<u32> {
    match child_arg(node, "id"@) {
        Some(t) => match parse_u32_spec(t) {
            Some(n) => Some(n as u32),
            None => None,
        },
        None => None,
    }
}

/// `p` is what a `(property "KEY" "VALUE" ...)` node reads as: key and
/// value (empty where missing), id, name display, autoplacement, its text
/// when it has a placement, and its variant values.
pub open spec fn property_read(p: SchematicProperty, node: SExpr) -> bool {
    &&& p.key@ == arg_or(node, 0, Seq::empty())
    &&& p.value@ == arg_or(node, 1, Seq::empty())
    &&& p.id == property_id_of(node)
    &&& p.show_name == yes_flag(node, "show_name"@)
    &&& p.do_not_autoplace == yes_flag(node, "do_not_autoplace"@)
    &&& p.text == (if find_spec(node, "at"@) is Some {
        Some(text_prop_of(node))
    } else {
        None
    })
    &&& p.variant_overrides@ == variant_overrides_of(node)
}

fn parse_variant_overrides(node: &SExpr) -> (m: VarMap)
    ensures
        m@ == variant_overrides_of(*node),
{
    let mut m = VarMap::new();
    let vn = match node.find("variants") {
        Some(v) => v,
        None => {
            return m;
        },
    };
    let vs = vn.find_all("variant");
    let ghost all = refs_view(vs@);
    let mut i: usize = 0;
    while i < vs.len()
        invariant
            i <= vs@.len(),
            all == refs_view(vs@),
            all == find_all_spec(*vn, "variant"@),
            m@ == variants_map(all.take(i as int)),
        decreases vs.len() - i,
    {
        assert(all.take(i + 1).drop_last() =~= all.take(i as int));
        assert(all.take(i + 1).last() == *vs@[i as int]);
        let v = vs[i];
        match (v.first_arg(), v.arg(1)) {
            (Some(n), Some(x)) => {
                m.insert(n.to_owned(), x.to_owned());
            },
            _ => {},
        }
        i += 1;
    }
    assert(all.take(i as int) =~= all);
    m
}

/// Reads a symbol property node.
pub fn parse_schematic_property(node: &SExpr) -> (p: SchematicProperty)
    ensures
        property_read(p, *node),
{
    let id = match child_first_arg(node, "id") {
        Some(t) => parse_u32(t),
        None => None,
    };
    let text = match node.find("at") {
        Some(_) => Some(parse_text_prop(node)),
        None => None,
    };
    proof {
        reveal_strlit("");
    }
    let key = owned_or(node.first_arg(), "");
    let value = owned_or(node.arg(1), "");
    assert(key@ == arg_or(*node, 0, Seq::empty()));
    assert(value@ == arg_or(*node, 1, Seq::empty()));
    assert(id == property_id_of(*node));
    let show_name = parse_yes_flag(node, "show_name");
    let do_not_autoplace = parse_yes_flag(node, "do_not_autoplace");
    let variant_overrides = parse_variant_overrides(node);
    SchematicProperty { key, value, id, text, show_name, do_not_autoplace, variant_overrides }
}

/// The value of the first `(property "NAME" VALUE ...)` child from `k`
/// on.
pub open spec fn property_from(items: Seq<SExpr>, k: int, name: Seq<char>) -> Option<Seq<char>>
    decreases items.len() - k,
{
    if k < 0 || k >= items.len() {
        None
    } else if keyword_spec(items[k]) == Some("property"@) && arg_spec(items[k], 0) == Some(name) {
        arg_spec(items[k], 1)
    } else {
        property_from(items, k + 1, name)
    }
}

pub open spec fn property_value(node: SExpr, name: Seq<char>) -> Option<Seq<char>> {
    property_from(children_spec(node), 0, name)
}

/// The value of a node's property `name`.
pub fn find_property<'a>(node: &'a SExpr, name: &str) -> (r: Option<&'a str>)
    ensures
        opt_str_view(r) == property_value(*node, name@),
{
    let items = node.children();
    let mut k: usize = 0;
    while k < items.len()
        invariant
            k <= items@.len(),
            items@ == children_spec(*node),
            property_from(items@, k as int, name@) == property_from(items@, 0, name@),
        decreases items.len() - k,
    {
        let is_prop = match items[k].keyword() {
            Some(kw) => str_eq(kw, "property"),
            None => false,
        };
        if is_prop {
            if let Some(a) = items[k].first_arg() {
                if str_eq(a, name) {
                    return items[k].arg(1);
                }
            }
        }
        k += 1;
    }
    None
}

} // verus!
