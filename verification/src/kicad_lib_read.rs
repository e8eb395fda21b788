//! Reading a library symbol from its KiCad S-expression: fields, flags,
//! and the drawings and pins of each unit and body style.

use vstd::prelude::*;

use crate::coord::Vec2;
use crate::kicad_parse::{
    at_of, child_num, child_point, find_property, hide_flag, num_or, parse_at, parse_child_num,
    parse_child_point, parse_stroke_width, parse_xy, parse_yes_flag, property_value,
    stroke_width_of, xy_of, yes_flag,
};
use crate::kicad_read::{
    arg_or, child_arg_or, child_first_arg, effects_hidden_spec, fill_type_spec, halign_of,
    is_effects_hidden, is_hide_atom, owned_or, parse_fill_type, parse_halign,
    parse_pin_electrical_type, parse_pin_shape, parse_u32, parse_u32_spec, parse_valign,
    pin_electrical_spec, pin_shape_spec, valign_of,
};
use crate::schematic::{
    Graphic, GraphicView, HAlign, LibGraphic, LibPin, LibSymbol, Pin, PinView, VAlign,
    PIN_LENGTH_NM, PIN_NAME_OFFSET_NM, SCHEMATIC_TEXT_NM,
};
use crate::sexpr::{
    arg_spec, children_spec, find_all_spec, find_spec, keyword_spec, opt_ref_view, opt_str_view,
    refs_view, Atom, SExpr,
};
use crate::text::{chars_of, str_eq, string_from_chars};

verus! {

broadcast use vstd::std_specs::vec::group_vec_axioms;

// ---------------------------------------------------------------------------
// Sub-symbol names
// ---------------------------------------------------------------------------

/// What follows the last `c` in `s` (all of `s` without one).
pub open spec fn after_last(s: Seq<char>, c: char) -> Seq<char>
    decreases s.len(),
{
    if s.len() == 0 {
        s
    } else if s.last() == c {
        Seq::empty()
    } else {
        after_last(s.drop_last(), c).push(s.last())
    }
}

/// What precedes the last `c` in `s`, when `s` holds one.
pub open spec fn before_last(s: Seq<char>, c: char) -> Option<Seq<char>>
    decreases s.len(),
{
    if s.len() == 0 {
        None
    } else if s.last() == c {
        Some(s.drop_last())
    } else {
        before_last(s.drop_last(), c)
    }
}

/// Splits `s` at its last `c`: the part before it (if any) and the part
/// after it.
pub(crate) fn split_last(s: &Vec<char>, c: char) -> (r: (Option<Vec<char>>, Vec<char>))
    ensures
        r.1@ == after_last(s@, c),
        match r.0 {
            Some(b) => before_last(s@, c) == Some(b@),
            None => before_last(s@, c) is None,
        },
{
    let ghost t = s@;
    let mut k: usize = s.len();
    assert(t.take(k as int) =~= t);
    assert(after_last(t, c) =~= after_last(t.take(k as int), c) + t.skip(k as int));
    while k > 0 && s[k - 1] != c
        invariant
            k <= t.len(),
            t == s@,
            after_last(t, c) == after_last(t.take(k as int), c) + t.skip(k as int),
            before_last(t, c) == before_last(t.take(k as int), c),
        decreases k,
    {
        assert(t.take(k as int).drop_last() =~= t.take(k - 1));
        assert(t.take(k as int).last() == t[k - 1]);
        assert(after_last(t.take(k - 1), c).push(t[k - 1]) + t.skip(k as int) =~= after_last(t.take(k - 1), c)
            + t.skip(k - 1));
        k -= 1;
    }
    let mut after: Vec<char> = Vec::new();
    let mut i: usize = k;
    while i < s.len()
        invariant
            k <= i <= t.len(),
            t == s@,
            after@ == t.subrange(k as int, i as int),
        decreases t.len() - i,
    {
        after.push(s[i]);
        assert(after@ =~= t.subrange(k as int, i + 1));
        i += 1;
    }
    assert(t.skip(k as int) =~= t.subrange(k as int, t.len() as int));
    if k == 0 {
        assert(t.take(0) =~= Seq::<char>::empty());
        (None, after)
    } else {
        assert(t.take(k as int).last() == c);
        assert(t.take(k as int).drop_last() =~= t.take(k - 1));
        let mut before: Vec<char> = Vec::new();
        let mut j: usize = 0;
        while j < k - 1
            invariant
                j <= k - 1,
                k <= t.len(),
                t == s@,
                before@ == t.take(j as int),
            decreases k - 1 - j,
        {
            before.push(s[j]);
            assert(before@ =~= t.take(j + 1));
            j += 1;
        }
        (Some(before), after)
    }
}

/// Splitting `a _ t` at its last `_`, where `t` holds none, gives `a`
/// before it and `t` after it.
proof fn lemma_split_at_last(a: Seq<char>, c: char, t: Seq<char>)
    requires
        forall|k: int| 0 <= k < t.len() ==> t[k] != c,
    ensures
        after_last(a + seq![c] + t, c) == t,
        before_last(a + seq![c] + t, c) == Some(a),
    decreases t.len(),
{
    let s = a + seq![c] + t;
    if t.len() == 0 {
        assert(s =~= a.push(c));
        assert(s.drop_last() =~= a);
    } else {
        lemma_split_at_last(a, c, t.drop_last());
        assert(s.drop_last() =~= a + seq![c] + t.drop_last());
        assert(s.last() == t.last());
        assert(t.drop_last().push(t.last()) =~= t);
    }
}

/// Reading digits as a `u32` the TSV way and the KiCad way agree.
proof fn lemma_digit_readers_agree(s: Seq<char>, i: int, acc: int, v: int)
    requires
        crate::snx_rows::u32_digits_from(s, i, acc) == crate::snx::IntParse::Value(v),
    ensures
        crate::kicad_read::unsigned_digits(s, i, acc) == Some(v),
    decreases s.len() - i,
{
    if 0 <= i < s.len() && crate::snx::is_digit(s[i]) {
        let next = acc * 10 + crate::snx::digit_value(s[i]);
        if next <= u32::MAX {
            lemma_digit_readers_agree(s, i + 1, next, v);
        }
    }
}

/// The numeral of a `u32` reads back as that number and holds no `_`.
proof fn lemma_u32_numeral(n: u32)
    ensures
        parse_u32_spec(crate::text::decimal(n as nat)) == Some(n as int),
        forall|k: int|
            0 <= k < crate::text::decimal(n as nat).len() ==> #[trigger] crate::text::decimal(n as nat)[k] != '_',
{
    let s = crate::text::decimal(n as nat);
    crate::cell_laws::lemma_decimal_digits(n as nat);
    crate::cell_laws::lemma_u32_cell_round_trip(n);
    assert(crate::snx::is_digit(s[0]));
    lemma_digit_readers_agree(s, 0, 0, n as int);
    assert forall|k: int| 0 <= k < s.len() implies #[trigger] s[k] != '_' by {
        assert(crate::snx::is_digit(s[k]));
    }
}

/// A sub-symbol named `PREFIX_U_B`, with `U` and `B` written in decimal,
/// belongs to unit `U` and body style `B`: the unit is the number between
/// the last two underscores and the body style the number after the last
/// one, whatever the prefix holds.
pub proof fn lemma_sub_name_unit_style(sub: SExpr, prefix: Seq<char>, unit: u32, body: u32)
    requires
        crate::sexpr::arg_spec(sub, 0) == Some(
            prefix + seq!['_'] + crate::text::decimal(unit as nat) + seq!['_'] + crate::text::decimal(body as nat),
        ),
    ensures
        sub_key(sub) == (unit, body),
{
    let u = crate::text::decimal(unit as nat);
    let b = crate::text::decimal(body as nat);
    let name = prefix + seq!['_'] + u + seq!['_'] + b;
    lemma_u32_numeral(unit);
    lemma_u32_numeral(body);
    let head = prefix + seq!['_'] + u;
    assert(name =~= head + seq!['_'] + b);
    lemma_split_at_last(head, '_', b);
    lemma_split_at_last(prefix, '_', u);
}

/// The unit and body style a sub-symbol's name `PREFIX_UNIT_BODY` gives:
/// the body style after the last `_` (1 when unreadable), the unit
/// between the last two (0 when missing or unreadable).
pub open spec fn sub_key(sub: SExpr) -> (u32, u32) {
    let name = arg_or(sub, 0, Seq::empty());
    let body = match parse_u32_spec(after_last(name, '_')) {
        Some(n) => n as u32,
        None => 1,
    };
    let unit = match before_last(name, '_') {
        Some(p) => match parse_u32_spec(after_last(p, '_')) {
            Some(n) => n as u32,
            None => 0,
        },
        None => 0,
    };
    (unit, body)
}

fn u32_of_chars(v: &Vec<char>) -> (r: Option<u32>)
    ensures
        match parse_u32_spec(v@) {
            Some(n) => r == Some(n as u32),
            None => r is None,
        },
{
    let s = string_from_chars(v.as_slice());
    parse_u32(s.as_str())
}

/// The unit and body style of a sub-symbol.
pub fn sub_unit_style(sub: &SExpr) -> (r: (u32, u32))
    ensures
        r == sub_key(*sub),
{
    proof {
        reveal_strlit("");
    }
    let name = chars_of(owned_or(sub.first_arg(), "").as_str());
    let (before, after) = split_last(&name, '_');
    let body = match u32_of_chars(&after) {
        Some(n) => n,
        None => 1,
    };
    let unit = match before {
        Some(b) => {
            let (_, mid) = split_last(&b, '_');
            match u32_of_chars(&mid) {
                Some(n) => n,
                None => 0,
            }
        },
        None => 0,
    };
    (unit, body)
}

/// The sub-symbols of unit 0 (`zero`) or of other units, in order.
pub open spec fn subs_with(subs: Seq<SExpr>, zero: bool) -> Seq<SExpr>
    decreases subs.len(),
{
    if subs.len() == 0 {
        Seq::empty()
    } else {
        let r = subs_with(subs.drop_last(), zero);
        if (sub_key(subs.last()).0 == 0) == zero {
            r.push(subs.last())
        } else {
            r
        }
    }
}

/// The sub-symbols in the order they are read: those of particular units
/// first, then the common ones (unit 0), each group in file order; the
/// common drawings so paint over the others.
pub open spec fn ordered_subs(node: SExpr) -> Seq<SExpr> {
    let s = find_all_spec(node, "symbol"@);
    subs_with(s, false) + subs_with(s, true)
}

fn subs_in_order<'a>(node: &'a SExpr) -> (r: Vec<&'a SExpr>)
    ensures
        refs_view(r@) == ordered_subs(*node),
{
    let all = node.find_all("symbol");
    let ghost s = refs_view(all@);
    let mut first: Vec<&SExpr> = Vec::new();
    let mut last: Vec<&SExpr> = Vec::new();
    let mut i: usize = 0;
    while i < all.len()
        invariant
            i <= all@.len(),
            s == refs_view(all@),
            refs_view(first@) == subs_with(s.take(i as int), false),
            refs_view(last@) == subs_with(s.take(i as int), true),
        decreases all.len() - i,
    {
        assert(s.take(i + 1).drop_last() =~= s.take(i as int));
        assert(s.take(i + 1).last() == *all@[i as int]);
        let (unit, _) = sub_unit_style(all[i]);
        let ghost (f0, l0) = (first@, last@);
        if unit == 0 {
            last.push(all[i]);
            assert(refs_view(last@) =~= refs_view(l0).push(*all@[i as int]));
        } else {
            first.push(all[i]);
            assert(refs_view(first@) =~= refs_view(f0).push(*all@[i as int]));
        }
        i += 1;
    }
    assert(s.take(i as int) =~= s);
    let ghost (f, l) = (first@, last@);
    first.append(&mut last);
    assert(refs_view(first@) =~= refs_view(f) + refs_view(l));
    first
}


// ---------------------------------------------------------------------------
// Drawings
// ---------------------------------------------------------------------------

/// The points `(xy X Y)` of a `(pts ...)` node.
pub open spec fn points_of(pts: SExpr) -> Seq<Vec2> {
    let xs = find_all_spec(pts, "xy"@);
    Seq::new(xs.len(), |i: int| xy_of(xs[i]))
}

pub(crate) fn parse_points(pts: &SExpr) -> (r: Vec<Vec2>)
    ensures
        r@ == points_of(*pts),
{
    let xs = pts.find_all("xy");
    let ghost v = refs_view(xs@);
    let mut out: Vec<Vec2> = Vec::new();
    let mut i: usize = 0;
    while i < xs.len()
        invariant
            i <= xs@.len(),
            v == refs_view(xs@),
            v == find_all_spec(*pts, "xy"@),
            out@ == Seq::new(i as nat, |k: int| xy_of(v[k])),
        decreases xs.len() - i,
    {
        out.push(parse_xy(xs[i]));
        assert(out@ =~= Seq::new((i + 1) as nat, |k: int| xy_of(v[k])));
        i += 1;
    }
    out
}

pub open spec fn is_atom_named(e: SExpr, name: Seq<char>) -> bool {
    e matches SExpr::Atom(a) && a.text() == name
}

/// Some child of `f` is the bare atom `name`.
pub open spec fn has_atom(f: SExpr, name: Seq<char>) -> bool {
    exists|i: int| 0 <= i < children_spec(f).len() && is_atom_named(#[trigger] children_spec(f)[i], name)
}

fn find_atom(f: &SExpr, name: &str) -> (b: bool)
    ensures
        b == has_atom(*f, name@),
{
    let items = f.children();
    let mut i: usize = 0;
    while i < items.len()
        invariant
            i <= items@.len(),
            items@ == children_spec(*f),
            forall|k: int| 0 <= k < i ==> !is_atom_named(#[trigger] items@[k], name@),
        decreases items.len() - i,
    {
        if let SExpr::Atom(a) = &items[i] {
            if str_eq(a.as_str(), name) {
                assert(is_atom_named(items@[i as int], name@));
                return true;
            }
        }
        i += 1;
    }
    false
}

/// A font style flag: `(bold yes)`, else a bare `bold` atom.
pub open spec fn font_flag(font: Option<SExpr>, name: Seq<char>) -> bool {
    match font {
        Some(f) => match find_spec(f, name) {
            Some(b) => match arg_spec(b, 0) {
                Some(v) => v == "yes"@,
                None => has_atom(f, name),
            },
            None => has_atom(f, name),
        },
        None => false,
    }
}

fn parse_font_flag(font: Option<&SExpr>, name: &str) -> (b: bool)
    ensures
        b == font_flag(opt_ref_view(font), name@),
{
    match font {
        Some(f) => match f.find(name) {
            Some(b) => match b.first_arg() {
                Some(v) => str_eq(v, "yes"),
                None => find_atom(f, name),
            },
            None => find_atom(f, name),
        },
        None => false,
    }
}

pub open spec fn font_of(c: SExpr) -> Option<SExpr> {
    match find_spec(c, "effects"@) {
        Some(e) => find_spec(e, "font"@),
        None => None,
    }
}

pub open spec fn lib_font_size(font: Option<SExpr>) -> int {
    match font {
        Some(f) => num_or(child_num(f, "size"@), SCHEMATIC_TEXT_NM as int),
        None => SCHEMATIC_TEXT_NM as int,
    }
}

fn parse_lib_font_size(font: Option<&SExpr>) -> (r: i64)
    ensures
        r as int == lib_font_size(opt_ref_view(font)),
        r == lib_font_size(opt_ref_view(font)) as i64,
{
    match font {
        Some(f) => match parse_child_num(f, "size") {
            Some(v) => v,
            None => SCHEMATIC_TEXT_NM,
        },
        None => SCHEMATIC_TEXT_NM,
    }
}

/// `(justify H [V])` of a text's effects, each centred where missing.
pub open spec fn text_justify(c: SExpr) -> (HAlign, VAlign) {
    let j = match find_spec(c, "effects"@) {
        Some(e) => find_spec(e, "justify"@),
        None => None,
    };
    match j {
        Some(jn) => (
            match arg_spec(jn, 0) {
                Some(v) => halign_of(v),
                None => HAlign::Center,
            },
            match arg_spec(jn, 1) {
                Some(v) => valign_of(v),
                None => VAlign::Center,
            },
        ),
        None => (HAlign::Center, VAlign::Center),
    }
}

fn parse_text_justify(c: &SExpr) -> (r: (HAlign, VAlign))
    ensures
        r == text_justify(*c),
{
    let j = match c.find("effects") {
        Some(e) => e.find("justify"),
        None => None,
    };
    match j {
        Some(jn) => (
            match jn.first_arg() {
                Some(v) => parse_halign(v),
                None => HAlign::Center,
            },
            match jn.arg(1) {
                Some(v) => parse_valign(v),
                None => VAlign::Center,
            },
        ),
        None => (HAlign::Center, VAlign::Center),
    }
}

/// The drawing a child of a sub-symbol reads as, if it is one: polylines
/// need points and beziers exactly four; a missing point is the origin, a
/// missing radius 1 mm.
pub open spec fn graphic_of(c: SExpr) -> Option<GraphicView> {
    let kw = keyword_spec(c);
    let width = stroke_width_of(c) as i64;
    let fill = fill_type_spec(c);
    if kw == Some("polyline"@) {
        match find_spec(c, "pts"@) {
            Some(p) => if points_of(p).len() > 0 {
                Some(GraphicView::Polyline { points: points_of(p), width, fill })
            } else {
                None
            },
            None => None,
        }
    } else if kw == Some("rectangle"@) {
        Some(GraphicView::Rectangle { start: child_point(c, "start"@), end: child_point(c, "end"@), width, fill })
    } else if kw == Some("circle"@) {
        Some(
            GraphicView::Circle {
                center: child_point(c, "center"@),
                radius: num_or(child_num(c, "radius"@), 1_000_000) as i64,
                width,
                fill,
            },
        )
    } else if kw == Some("arc"@) {
        Some(
            GraphicView::Arc {
                start: child_point(c, "start"@),
                mid: child_point(c, "mid"@),
                end: child_point(c, "end"@),
                width,
                fill,
            },
        )
    } else if kw == Some("bezier"@) {
        match find_spec(c, "pts"@) {
            Some(p) => if points_of(p).len() == 4 {
                Some(GraphicView::Bezier { points: points_of(p), width, fill })
            } else {
                None
            },
            None => None,
        }
    } else if kw == Some("text"@) {
        Some(
            GraphicView::Text {
                text: arg_or(c, 0, Seq::empty()),
                position: at_of(c).0,
                rotation: at_of(c).1,
                font_size: lib_font_size(font_of(c)) as i64,
                bold: font_flag(font_of(c), "bold"@),
                italic: font_flag(font_of(c), "italic"@),
                justify_h: text_justify(c).0,
                justify_v: text_justify(c).1,
            },
        )
    } else if kw == Some("text_box"@) {
        Some(
            GraphicView::TextBox {
                text: arg_or(c, 0, Seq::empty()),
                position: at_of(c).0,
                rotation: at_of(c).1,
                size: child_point(c, "size"@),
                font_size: lib_font_size(font_of(c)) as i64,
                bold: font_flag(font_of(c), "bold"@),
                italic: font_flag(font_of(c), "italic"@),
                width,
                fill,
            },
        )
    } else {
        None
    }
}

proof fn reveal_graphic_keywords()
    ensures
        "polyline"@ =~= seq!['p', 'o', 'l', 'y', 'l', 'i', 'n', 'e'],
        "rectangle"@ =~= seq!['r', 'e', 'c', 't', 'a', 'n', 'g', 'l', 'e'],
        "circle"@ =~= seq!['c', 'i', 'r', 'c', 'l', 'e'],
        "arc"@ =~= seq!['a', 'r', 'c'],
        "bezier"@ =~= seq!['b', 'e', 'z', 'i', 'e', 'r'],
        "text"@ =~= seq!['t', 'e', 'x', 't'],
        "text_box"@ =~= seq!['t', 'e', 'x', 't', '_', 'b', 'o', 'x'],
        "polyline"@.len() == 8 && "rectangle"@.len() == 9 && "circle"@.len() == 6 && "arc"@.len() == 3,
        "bezier"@.len() == 6 && "text"@.len() == 4 && "text_box"@.len() == 8,
        "polyline"@[0] == 'p' && "text_box"@[0] == 't' && "circle"@[0] == 'c' && "bezier"@[0] == 'b',
{
    reveal_strlit("polyline");
    reveal_strlit("rectangle");
    reveal_strlit("circle");
    reveal_strlit("arc");
    reveal_strlit("bezier");
    reveal_strlit("text");
    reveal_strlit("text_box");
}

fn parse_points_graphic(c: &SExpr, bezier: bool) -> (r: Option<Graphic>)
    requires
        keyword_spec(*c) == Some(if bezier { "bezier"@ } else { "polyline"@ }),
    ensures
        match r {
            Some(g) => graphic_of(*c) == Some(g@),
            None => graphic_of(*c) is None,
        },
{
    proof {
        reveal_graphic_keywords();
    }
    match c.find("pts") {
        Some(p) => {
            let points = parse_points(p);
            let ok = if bezier {
                points.len() == 4
            } else {
                points.len() > 0
            };
            if ok {
                let width = parse_stroke_width(c);
                let fill = parse_fill_type(c);
                if bezier {
                    Some(Graphic::Bezier { points, width, fill })
                } else {
                    Some(Graphic::Polyline { points, width, fill })
                }
            } else {
                None
            }
        },
        None => None,
    }
}

fn parse_text_graphic(c: &SExpr, boxed: bool) -> (r: Graphic)
    requires
        keyword_spec(*c) == Some(if boxed { "text_box"@ } else { "text"@ }),
    ensures
        graphic_of(*c) == Some(r@),
{
    proof {
        reveal_graphic_keywords();
        reveal_strlit("");
    }
    let text = owned_or(c.first_arg(), "");
    let (position, rotation) = parse_at(c);
    let font = match c.find("effects") {
        Some(e) => e.find("font"),
        None => None,
    };
    assert(opt_ref_view(font) == font_of(*c));
    assert(text@ == arg_or(*c, 0, Seq::empty()));
    let font_size = parse_lib_font_size(font);
    let bold = parse_font_flag(font, "bold");
    let italic = parse_font_flag(font, "italic");
    if boxed {
        let size = parse_child_point(c, "size");
        let width = parse_stroke_width(c);
        let fill = parse_fill_type(c);
        let g = Graphic::TextBox { text, position, rotation, size, font_size, bold, italic, width, fill };
        assert(keyword_spec(*c) == Some("text_box"@));
        assert(keyword_spec(*c) != Some("text"@));
        assert(keyword_spec(*c) != Some("polyline"@));
        assert(keyword_spec(*c) != Some("bezier"@));
        assert(g@ == GraphicView::TextBox {
            text: arg_or(*c, 0, Seq::empty()),
            position: at_of(*c).0,
            rotation: at_of(*c).1,
            size: child_point(*c, "size"@),
            font_size: lib_font_size(font_of(*c)) as i64,
            bold: font_flag(font_of(*c), "bold"@),
            italic: font_flag(font_of(*c), "italic"@),
            width: stroke_width_of(*c) as i64,
            fill: fill_type_spec(*c),
        });
        assert(graphic_of(*c) == Some(g@));
        g
    } else {
        let (justify_h, justify_v) = parse_text_justify(c);
        let g = Graphic::Text { text, position, rotation, font_size, bold, italic, justify_h, justify_v };
        assert(keyword_spec(*c) == Some("text"@));
        assert(g@ == GraphicView::Text {
            text: arg_or(*c, 0, Seq::empty()),
            position: at_of(*c).0,
            rotation: at_of(*c).1,
            font_size: lib_font_size(font_of(*c)) as i64,
            bold: font_flag(font_of(*c), "bold"@),
            italic: font_flag(font_of(*c), "italic"@),
            justify_h: text_justify(*c).0,
            justify_v: text_justify(*c).1,
        });
        assert(graphic_of(*c) == Some(g@));
        g
    }
}

fn parse_shape_graphic(c: &SExpr, kw: &str) -> (r: Graphic)
    requires
        keyword_spec(*c) == Some(kw@),
        kw@ == "rectangle"@ || kw@ == "circle"@ || kw@ == "arc"@,
    ensures
        graphic_of(*c) == Some(r@),
{
    proof {
        reveal_graphic_keywords();
    }
    let width = parse_stroke_width(c);
    let fill = parse_fill_type(c);
    if str_eq(kw, "rectangle") {
        Graphic::Rectangle { start: parse_child_point(c, "start"), end: parse_child_point(c, "end"), width, fill }
    } else if str_eq(kw, "circle") {
        let radius = match parse_child_num(c, "radius") {
            Some(v) => v,
            None => 1_000_000,
        };
        Graphic::Circle { center: parse_child_point(c, "center"), radius, width, fill }
    } else {
        Graphic::Arc {
            start: parse_child_point(c, "start"),
            mid: parse_child_point(c, "mid"),
            end: parse_child_point(c, "end"),
            width,
            fill,
        }
    }
}

/// The drawing a sub-symbol child reads as, if any.
pub fn parse_lib_graphic(c: &SExpr) -> (r: Option<Graphic>)
    ensures
        match r {
            Some(g) => graphic_of(*c) == Some(g@),
            None => graphic_of(*c) is None,
        },
{
    let kw = match c.keyword() {
        Some(k) => k,
        None => {
            return None;
        },
    };
    if str_eq(kw, "polyline") {
        parse_points_graphic(c, false)
    } else if str_eq(kw, "bezier") {
        parse_points_graphic(c, true)
    } else if str_eq(kw, "rectangle") || str_eq(kw, "circle") || str_eq(kw, "arc") {
        Some(parse_shape_graphic(c, kw))
    } else if str_eq(kw, "text") {
        Some(parse_text_graphic(c, false))
    } else if str_eq(kw, "text_box") {
        Some(parse_text_graphic(c, true))
    } else {
        proof {
            reveal_graphic_keywords();
        }
        None
    }
}


// ---------------------------------------------------------------------------
// Pins
// ---------------------------------------------------------------------------

/// A name or number node hides its text.
pub open spec fn label_hidden(n: Option<SExpr>) -> bool {
    match n {
        Some(x) => effects_hidden_spec(find_spec(x, "effects"@)),
        None => false,
    }
}

/// What a `(pin TYPE SHAPE (at ..) (length ..) (name ..) (number ..))`
/// node reads as: unknown type and shape tokens as for the token readers,
/// the default length where missing, the name `~` and an empty number
/// where missing.
pub open spec fn pin_view_of(p: SExpr) -> PinView {
    PinView {
        direction: pin_electrical_spec(arg_or(p, 0, "unspecified"@)),
        shape_style: pin_shape_spec(arg_or(p, 1, "line"@)),
        position: at_of(p).0,
        rotation: at_of(p).1,
        length: num_or(child_num(p, "length"@), PIN_LENGTH_NM as int) as i64,
        name: child_arg_or(p, "name"@, "~"@),
        number: child_arg_or(p, "number"@, Seq::empty()),
        visible: !hide_flag(p),
        name_visible: !label_hidden(find_spec(p, "name"@)),
        number_visible: !label_hidden(find_spec(p, "number"@)),
    }
}

fn parse_label_hidden(n: Option<&SExpr>) -> (b: bool)
    ensures
        b == label_hidden(opt_ref_view(n)),
{
    match n {
        Some(x) => is_effects_hidden(x.find("effects")),
        None => false,
    }
}

/// Reads a library pin.
pub fn parse_lib_pin(p: &SExpr) -> (r: Pin)
    ensures
        r@ == pin_view_of(*p),
{
    proof {
        reveal_strlit("");
    }
    let direction = parse_pin_electrical_type(match p.first_arg() {
        Some(t) => t,
        None => "unspecified",
    });
    let shape_style = parse_pin_shape(match p.arg(1) {
        Some(t) => t,
        None => "line",
    });
    let (position, rotation) = parse_at(p);
    let length = match parse_child_num(p, "length") {
        Some(v) => v,
        None => PIN_LENGTH_NM,
    };
    let name_node = p.find("name");
    let name = owned_or(match name_node {
        Some(n) => n.first_arg(),
        None => None,
    }, "~");
    let number_node = p.find("number");
    let number = owned_or(match number_node {
        Some(n) => n.first_arg(),
        None => None,
    }, "");
    let visible = !crate::kicad_parse::has_hide_flag(p);
    let name_visible = !parse_label_hidden(name_node);
    let number_visible = !parse_label_hidden(number_node);
    assert(direction == pin_electrical_spec(arg_or(*p, 0, "unspecified"@)));
    assert(shape_style == pin_shape_spec(arg_or(*p, 1, "line"@)));
    assert(length == num_or(child_num(*p, "length"@), PIN_LENGTH_NM as int) as i64);
    assert(name@ == child_arg_or(*p, "name"@, "~"@));
    assert(number@ == child_arg_or(*p, "number"@, Seq::empty()));
    Pin { direction, shape_style, position, rotation, length, name, number, visible, name_visible, number_visible }
}

// ---------------------------------------------------------------------------
// The symbol
// ---------------------------------------------------------------------------

pub open spec fn graphic_entry(c: SExpr, key: (u32, u32)) -> Option<(u32, u32, GraphicView)> {
    match graphic_of(c) {
        Some(g) => Some((key.0, key.1, g)),
        None => None,
    }
}

/// The drawings among a sub-symbol's children, in order.
pub open spec fn sub_graphics(items: Seq<SExpr>, key: (u32, u32)) -> Seq<(u32, u32, GraphicView)>
    decreases items.len(),
{
    if items.len() == 0 {
        Seq::empty()
    } else {
        let r = sub_graphics(items.drop_last(), key);
        match graphic_entry(items.last(), key) {
            Some(g) => r.push(g),
            None => r,
        }
    }
}

pub open spec fn sub_pins(sub: SExpr, key: (u32, u32)) -> Seq<(u32, u32, PinView)> {
    let ps = find_all_spec(sub, "pin"@);
    Seq::new(ps.len(), |i: int| (key.0, key.1, pin_view_of(ps[i])))
}

/// The drawings of the sub-symbols, one after another.
pub open spec fn graphics_over(subs: Seq<SExpr>) -> Seq<(u32, u32, GraphicView)>
    decreases subs.len(),
{
    if subs.len() == 0 {
        Seq::empty()
    } else {
        graphics_over(subs.drop_last()) + sub_graphics(children_spec(subs.last()), sub_key(subs.last()))
    }
}

/// The pins of the sub-symbols, one after another.
pub open spec fn pins_over(subs: Seq<SExpr>) -> Seq<(u32, u32, PinView)>
    decreases subs.len(),
{
    if subs.len() == 0 {
        Seq::empty()
    } else {
        pins_over(subs.drop_last()) + sub_pins(subs.last(), sub_key(subs.last()))
    }
}

fn push_sub_graphics(out: &mut Vec<LibGraphic>, sub: &SExpr, key: (u32, u32))
    ensures
        final(out)@.map_values(|g: LibGraphic| g@) == old(out)@.map_values(|g: LibGraphic| g@) + sub_graphics(
            children_spec(*sub),
            key,
        ),
{
    let ghost start = out@.map_values(|g: LibGraphic| g@);
    let items = sub.children();
    let mut i: usize = 0;
    while i < items.len()
        invariant
            i <= items@.len(),
            items@ == children_spec(*sub),
            out@.map_values(|g: LibGraphic| g@) == start + sub_graphics(items@.take(i as int), key),
        decreases items.len() - i,
    {
        assert(items@.take(i + 1).drop_last() =~= items@.take(i as int));
        assert(items@.take(i + 1).last() == items@[i as int]);
        let ghost before = out@;
        if let Some(g) = parse_lib_graphic(&items[i]) {
            out.push(LibGraphic { unit: key.0, body_style: key.1, graphic: g });
            assert(out@.map_values(|g: LibGraphic| g@) =~= before.map_values(|g: LibGraphic| g@).push(
                (key.0, key.1, g@),
            ));
        }
        i += 1;
    }
    assert(items@.take(i as int) =~= items@);
}

fn push_sub_pins(out: &mut Vec<LibPin>, sub: &SExpr, key: (u32, u32))
    ensures
        final(out)@.map_values(|p: LibPin| p@) == old(out)@.map_values(|p: LibPin| p@) + sub_pins(*sub, key),
{
    let ghost start = out@.map_values(|p: LibPin| p@);
    let ps = sub.find_all("pin");
    let ghost v = refs_view(ps@);
    let mut i: usize = 0;
    while i < ps.len()
        invariant
            i <= ps@.len(),
            v == refs_view(ps@),
            v == find_all_spec(*sub, "pin"@),
            out@.map_values(|p: LibPin| p@) == start + Seq::new(i as nat, |k: int| (key.0, key.1, pin_view_of(v[k]))),
        decreases ps.len() - i,
    {
        let ghost before = out@;
        let pin = parse_lib_pin(ps[i]);
        assert(v[i as int] == *ps@[i as int]);
        let ghost pv = pin@;
        out.push(LibPin { unit: key.0, body_style: key.1, pin });
        assert(out@.map_values(|p: LibPin| p@) =~= before.map_values(|p: LibPin| p@).push((key.0, key.1, pv)));
        assert(out@.map_values(|p: LibPin| p@) =~= start + Seq::new((i + 1) as nat, |k: int| (key.0, key.1, pin_view_of(v[k]))));
        i += 1;
    }
}

/// Whether `(pin_numbers ...)` or `(pin_names ...)` leaves the text shown:
/// hidden by a `hide` first argument, by `(hide yes)` or a bare `(hide)`,
/// or by a `hide` atom among its children.
pub open spec fn pin_text_shown(n: Option<SExpr>) -> bool {
    match n {
        Some(pn) => if arg_spec(pn, 0) == Some("hide"@) {
            false
        } else {
            match find_spec(pn, "hide"@) {
                Some(h) => !(match arg_spec(h, 0) {
                    Some(v) => v == "yes"@,
                    None => true,
                }),
                None => !has_atom(pn, "hide"@),
            }
        },
        None => true,
    }
}

fn parse_pin_text_shown(n: Option<&SExpr>) -> (b: bool)
    ensures
        b == pin_text_shown(opt_ref_view(n)),
{
    match n {
        Some(pn) => {
            if let Some(a) = pn.first_arg() {
                if str_eq(a, "hide") {
                    return false;
                }
            }
            match pn.find("hide") {
                Some(h) => !match h.first_arg() {
                    Some(v) => str_eq(v, "yes"),
                    None => true,
                },
                None => !find_atom(pn, "hide"),
            }
        },
        None => true,
    }
}

pub open spec fn flag_or(o: Option<bool>, default: bool) -> bool {
    match o {
        Some(b) => b,
        None => default,
    }
}

pub open spec fn property_or_empty(node: SExpr, name: Seq<char>) -> Seq<char> {
    match property_value(node, name) {
        Some(v) => v,
        None => Seq::empty(),
    }
}

/// `l` is what a library `(symbol "ID" ...)` node reads as: id, fields
/// from its properties (empty where missing), flags (`in_bom`,
/// `on_board`, `in_pos_files` set unless `no`; jumpers only when `yes`),
/// pin text display, the pin name offset (default where missing), and the
/// drawings and pins of its sub-symbols in reading order.
pub open spec fn lib_symbol_read(l: LibSymbol, node: SExpr) -> bool {
    &&& l.id@ == arg_or(node, 0, Seq::empty())
    &&& l.reference@ == property_or_empty(node, "Reference"@)
    &&& l.value@ == property_or_empty(node, "Value"@)
    &&& l.footprint@ == property_or_empty(node, "Footprint"@)
    &&& l.datasheet@ == property_or_empty(node, "Datasheet"@)
    &&& l.description@ == property_or_empty(node, "Description"@)
    &&& l.keywords@ == property_or_empty(node, "ki_keywords"@)
    &&& l.fp_filters@ == property_or_empty(node, "ki_fp_filters"@)
    &&& l.in_bom == flag_or(yes_flag(node, "in_bom"@), true)
    &&& l.on_board == flag_or(yes_flag(node, "on_board"@), true)
    &&& l.in_pos_files == flag_or(yes_flag(node, "in_pos_files"@), true)
    &&& l.duplicate_pin_numbers_are_jumpers == flag_or(yes_flag(node, "duplicate_pin_numbers_are_jumpers"@), false)
    &&& l.show_pin_numbers == pin_text_shown(find_spec(node, "pin_numbers"@))
    &&& l.show_pin_names == pin_text_shown(find_spec(node, "pin_names"@))
    &&& l.pin_name_offset == (match find_spec(node, "pin_names"@) {
        Some(pn) => num_or(child_num(pn, "offset"@), PIN_NAME_OFFSET_NM as int),
        None => PIN_NAME_OFFSET_NM as int,
    }) as i64
    &&& l.graphics@.map_values(|g: LibGraphic| g@) == graphics_over(ordered_subs(node))
    &&& l.pins@.map_values(|p: LibPin| p@) == pins_over(ordered_subs(node))
}

fn property_text(node: &SExpr, name: &str) -> (r: String)
    ensures
        r@ == property_or_empty(*node, name@),
{
    proof {
        reveal_strlit("");
    }
    owned_or(find_property(node, name), "")
}

fn flag_text_or(node: &SExpr, keyword: &str, default: bool) -> (b: bool)
    ensures
        b == flag_or(yes_flag(*node, keyword@), default),
{
    match parse_yes_flag(node, keyword) {
        Some(v) => v,
        None => default,
    }
}

/// Reads a library symbol.
pub fn parse_lib_symbol(node: &SExpr) -> (l: LibSymbol)
    ensures
        lib_symbol_read(l, *node),
{
    proof {
        reveal_strlit("");
    }
    let subs = subs_in_order(node);
    let ghost ordered = refs_view(subs@);
    let mut graphics: Vec<LibGraphic> = Vec::new();
    let mut pins: Vec<LibPin> = Vec::new();
    let mut i: usize = 0;
    assert(graphics@.map_values(|g: LibGraphic| g@) =~= graphics_over(ordered.take(0)));
    assert(pins@.map_values(|p: LibPin| p@) =~= pins_over(ordered.take(0)));
    while i < subs.len()
        invariant
            i <= subs@.len(),
            ordered == refs_view(subs@),
            graphics@.map_values(|g: LibGraphic| g@) == graphics_over(ordered.take(i as int)),
            pins@.map_values(|p: LibPin| p@) == pins_over(ordered.take(i as int)),
        decreases subs.len() - i,
    {
        assert(ordered.take(i + 1).drop_last() =~= ordered.take(i as int));
        assert(ordered.take(i + 1).last() == *subs@[i as int]);
        let key = sub_unit_style(subs[i]);
        push_sub_graphics(&mut graphics, subs[i], key);
        push_sub_pins(&mut pins, subs[i], key);
        i += 1;
    }
    assert(ordered.take(i as int) =~= ordered);
    let pin_names = node.find("pin_names");
    let pin_name_offset = match pin_names {
        Some(pn) => match parse_child_num(pn, "offset") {
            Some(v) => v,
            None => PIN_NAME_OFFSET_NM,
        },
        None => PIN_NAME_OFFSET_NM,
    };
    assert(pin_name_offset == (match find_spec(*node, "pin_names"@) {
        Some(pn) => num_or(child_num(pn, "offset"@), PIN_NAME_OFFSET_NM as int),
        None => PIN_NAME_OFFSET_NM as int,
    }) as i64);
    let id = owned_or(node.first_arg(), "");
    let show_pin_numbers = parse_pin_text_shown(node.find("pin_numbers"));
    let show_pin_names = parse_pin_text_shown(pin_names);
    let l = LibSymbol {
        id,
        reference: property_text(node, "Reference"),
        value: property_text(node, "Value"),
        footprint: property_text(node, "Footprint"),
        datasheet: property_text(node, "Datasheet"),
        description: property_text(node, "Description"),
        keywords: property_text(node, "ki_keywords"),
        fp_filters: property_text(node, "ki_fp_filters"),
        in_bom: flag_text_or(node, "in_bom", true),
        on_board: flag_text_or(node, "on_board", true),
        in_pos_files: flag_text_or(node, "in_pos_files", true),
        duplicate_pin_numbers_are_jumpers: flag_text_or(node, "duplicate_pin_numbers_are_jumpers", false),
        graphics,
        pins,
        show_pin_numbers,
        show_pin_names,
        pin_name_offset,
    };
    assert(l.graphics@.map_values(|g: LibGraphic| g@) == graphics_over(ordered_subs(*node)));
    assert(l.pins@.map_values(|p: LibPin| p@) == pins_over(ordered_subs(*node)));
    assert(l.id@ == arg_or(*node, 0, Seq::empty()));
    assert(l.show_pin_numbers == pin_text_shown(find_spec(*node, "pin_numbers"@)));
    assert(l.show_pin_names == pin_text_shown(find_spec(*node, "pin_names"@)));
    assert(l.in_bom == flag_or(yes_flag(*node, "in_bom"@), true));
    assert(l.reference@ == property_or_empty(*node, "Reference"@));
    l
}

} // verus!
