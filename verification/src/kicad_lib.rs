//! Writing a schematic's library symbols: drawings, pins, per-unit
//! sub-symbols and the parent symbol with its fields.

use vstd::prelude::*;

use crate::kicad_pcb::{at_coord, at_tree, num, num_node, point_node, pts_node, pts_tree, stroke_node, stroke_tree, xy_kids};
use crate::kicad_write::{
    effects_node, effects_tree, fill_tree, fill_type_node, halign_str, halign_token,
    lib_symbol_property_node, lib_symbol_property_tree, pin_electrical_str, pin_electrical_token,
    pin_shape_str, pin_shape_token, valign_str, valign_token,
};
use crate::coord::Vec2;
use crate::order::{lemma_sorted_unique, sorted_by};
use crate::schematic::{FillType, Graphic, HAlign, LibGraphic, LibPin, LibSymbol, Pin, VAlign, SCHEMATIC_TEXT_NM};
use crate::text::{append_chars, chars_of, decimal, string_from_chars, substring, u64_decimal};
use crate::sexpr::{atom, hide_yes_node, node, node_tree, push_item, raw, tree_of, trees, yes_no_node, SExpr, Tree};

verus! {

broadcast use vstd::std_specs::vec::group_vec_axioms;

/// Appends every item of `more` to a list under construction.
pub(crate) fn extend_items(items: &mut Vec<SExpr>, more: Vec<SExpr>)
    ensures
        trees(final(items)@) == trees(old(items)@) + trees(more@),
{
    let ghost before = items@;
    let ghost m = more@;
    let mut more = more;
    items.append(&mut more);
    assert(trees(items@) =~= trees(before) + trees(m));
}

// ---------------------------------------------------------------------------
// Text effects
// ---------------------------------------------------------------------------

pub open spec fn justify_kids(h: HAlign, v: VAlign) -> Seq<Tree> {
    (if h != HAlign::Center {
        seq![Tree::Raw(halign_token(h))]
    } else {
        Seq::empty()
    }) + (if v != VAlign::Center {
        seq![Tree::Raw(valign_token(v))]
    } else {
        Seq::empty()
    })
}

pub open spec fn text_effects_tree(size_nm: int, bold: bool, italic: bool, h: HAlign, v: VAlign) -> Tree {
    effects_tree(size_nm, None, bold, italic, if h != HAlign::Center || v != VAlign::Center {
        seq![node_tree("justify"@, justify_kids(h, v))]
    } else {
        Seq::empty()
    })
}

/// Text effects with `(justify ...)` naming each axis that is not centred;
/// fully centred text has no justify node.
pub fn text_effects_node(size_nm: i64, bold: bool, italic: bool, h: HAlign, v: VAlign) -> (e: SExpr)
    ensures
        tree_of(e) == text_effects_tree(size_nm as int, bold, italic, h, v),
{
    let mut extras: Vec<SExpr> = Vec::new();
    if h != HAlign::Center || v != VAlign::Center {
        let mut jk: Vec<SExpr> = Vec::new();
        if h != HAlign::Center {
            push_item(&mut jk, raw(halign_str(h)));
        }
        if v != VAlign::Center {
            push_item(&mut jk, raw(valign_str(v)));
        }
        assert(trees(jk@) =~= justify_kids(h, v));
        push_item(&mut extras, node("justify", jk));
    }
    let ghost ex = extras@;
    let e = effects_node(size_nm, None, bold, italic, extras);
    assert(trees(ex) =~= (if h != HAlign::Center || v != VAlign::Center {
        seq![node_tree("justify"@, justify_kids(h, v))]
    } else {
        Seq::<Tree>::empty()
    }));
    e
}

// ---------------------------------------------------------------------------
// Drawings
// ---------------------------------------------------------------------------

pub open spec fn hide_tree() -> Tree {
    node_tree("hide"@, seq![Tree::Raw("yes"@)])
}

pub open spec fn graphic_tree(g: Graphic) -> Tree {
    match g {
        Graphic::Polyline { points, width, fill } => node_tree(
            "polyline"@,
            seq![pts_tree(points@), stroke_tree(width as int), fill_tree(fill)],
        ),
        Graphic::Rectangle { start, end, width, fill } => node_tree(
            "rectangle"@,
            seq![
                node_tree("start"@, xy_kids(start)),
                node_tree("end"@, xy_kids(end)),
                stroke_tree(width as int),
                fill_tree(fill),
            ],
        ),
        Graphic::Circle { center, radius, width, fill } => node_tree(
            "circle"@,
            seq![
                node_tree("center"@, xy_kids(center)),
                node_tree("radius"@, seq![num(radius as int)]),
                stroke_tree(width as int),
                fill_tree(fill),
            ],
        ),
        Graphic::Arc { start, mid, end, width, fill } => node_tree(
            "arc"@,
            seq![
                node_tree("start"@, xy_kids(start)),
                node_tree("mid"@, xy_kids(mid)),
                node_tree("end"@, xy_kids(end)),
                stroke_tree(width as int),
                fill_tree(fill),
            ],
        ),
        Graphic::Text { text, position, rotation, font_size, bold, italic, justify_h, justify_v } => node_tree(
            "text"@,
            seq![
                Tree::Quoted(text@),
                at_tree(position.x as int, position.y as int, Some(rotation as int)),
                text_effects_tree(font_size as int, bold, italic, justify_h, justify_v),
            ],
        ),
        Graphic::TextBox { text, position, rotation, size, font_size, bold, italic, width, fill } => node_tree(
            "text_box"@,
            seq![
                Tree::Quoted(text@),
                at_tree(position.x as int, position.y as int, Some(rotation as int)),
                node_tree("size"@, xy_kids(size)),
                stroke_tree(width as int),
                fill_tree(fill),
                effects_tree(font_size as int, None, bold, italic, Seq::empty()),
            ],
        ),
        Graphic::Bezier { points, width, fill } => node_tree(
            "bezier"@,
            seq![pts_tree(points@), stroke_tree(width as int), fill_tree(fill)],
        ),
    }
}

/// `(keyword lead... (stroke ...) (fill ...))`.
fn outlined_node(keyword: &str, lead: Vec<SExpr>, width: i64, fill: FillType) -> (e: SExpr)
    ensures
        tree_of(e) == node_tree(keyword@, trees(lead@) + seq![stroke_tree(width as int), fill_tree(fill)]),
{
    let mut items = lead;
    let ghost l = trees(items@);
    push_item(&mut items, stroke_node(width));
    push_item(&mut items, fill_type_node(fill));
    assert(trees(items@) =~= l + seq![stroke_tree(width as int), fill_tree(fill)]);
    node(keyword, items)
}

/// `(text "TEXT" (at X Y ROT) (effects ...))`.
fn lib_text_node(text: &String, position: Vec2, rotation: i64, font_size: i64, bold: bool, italic: bool, h: HAlign, v: VAlign) -> (e: SExpr)
    ensures
        tree_of(e) == node_tree(
            "text"@,
            seq![
                Tree::Quoted(text@),
                at_tree(position.x as int, position.y as int, Some(rotation as int)),
                text_effects_tree(font_size as int, bold, italic, h, v),
            ],
        ),
{
    let mut items: Vec<SExpr> = Vec::new();
    push_item(&mut items, atom(text));
    push_item(&mut items, at_coord(position.x, position.y, Some(rotation)));
    push_item(&mut items, text_effects_node(font_size, bold, italic, h, v));
    assert(trees(items@) =~= seq![
        Tree::Quoted(text@),
        at_tree(position.x as int, position.y as int, Some(rotation as int)),
        text_effects_tree(font_size as int, bold, italic, h, v),
    ]);
    node("text", items)
}

/// `(text_box "TEXT" (at X Y ROT) (size W H) (stroke ...) (fill ...) (effects ...))`.
fn lib_text_box_node(
    text: &String,
    position: Vec2,
    rotation: i64,
    size: Vec2,
    font_size: i64,
    bold: bool,
    italic: bool,
    width: i64,
    fill: FillType,
) -> (e: SExpr)
    ensures
        tree_of(e) == node_tree(
            "text_box"@,
            seq![
                Tree::Quoted(text@),
                at_tree(position.x as int, position.y as int, Some(rotation as int)),
                node_tree("size"@, xy_kids(size)),
                stroke_tree(width as int),
                fill_tree(fill),
                effects_tree(font_size as int, None, bold, italic, Seq::empty()),
            ],
        ),
{
    let mut items: Vec<SExpr> = Vec::new();
    push_item(&mut items, atom(text));
    push_item(&mut items, at_coord(position.x, position.y, Some(rotation)));
    push_item(&mut items, point_node("size", size.x as i128, size.y as i128));
    push_item(&mut items, stroke_node(width));
    push_item(&mut items, fill_type_node(fill));
    let no_extras: Vec<SExpr> = Vec::new();
    assert(trees(no_extras@) =~= Seq::<Tree>::empty());
    push_item(&mut items, effects_node(font_size, None, bold, italic, no_extras));
    assert(trees(items@) =~= seq![
        Tree::Quoted(text@),
        at_tree(position.x as int, position.y as int, Some(rotation as int)),
        node_tree("size"@, xy_kids(size)),
        stroke_tree(width as int),
        fill_tree(fill),
        effects_tree(font_size as int, None, bold, italic, Seq::empty()),
    ]);
    node("text_box", items)
}

/// `(keyword (pts ...) (stroke ...) (fill ...))`.
fn points_shape_node(keyword: &str, points: &Vec<Vec2>, width: i64, fill: FillType) -> (e: SExpr)
    ensures
        tree_of(e) == node_tree(keyword@, seq![pts_tree(points@), stroke_tree(width as int), fill_tree(fill)]),
{
    let mut lead: Vec<SExpr> = Vec::new();
    push_item(&mut lead, pts_node(points.as_slice()));
    assert(trees(lead@) + seq![stroke_tree(width as int), fill_tree(fill)] =~= seq![
        pts_tree(points@),
        stroke_tree(width as int),
        fill_tree(fill),
    ]);
    outlined_node(keyword, lead, width, fill)
}

/// `(rectangle (start X Y) (end X Y) (stroke ...) (fill ...))`.
fn rectangle_node(start: Vec2, end: Vec2, width: i64, fill: FillType) -> (e: SExpr)
    ensures
        tree_of(e) == node_tree(
            "rectangle"@,
            seq![
                node_tree("start"@, xy_kids(start)),
                node_tree("end"@, xy_kids(end)),
                stroke_tree(width as int),
                fill_tree(fill),
            ],
        ),
{
    let mut lead: Vec<SExpr> = Vec::new();
    push_item(&mut lead, point_node("start", start.x as i128, start.y as i128));
    push_item(&mut lead, point_node("end", end.x as i128, end.y as i128));
    assert(trees(lead@) + seq![stroke_tree(width as int), fill_tree(fill)] =~= seq![
        node_tree("start"@, xy_kids(start)),
        node_tree("end"@, xy_kids(end)),
        stroke_tree(width as int),
        fill_tree(fill),
    ]);
    outlined_node("rectangle", lead, width, fill)
}

/// `(circle (center X Y) (radius R) (stroke ...) (fill ...))`.
fn circle_node(center: Vec2, radius: i64, width: i64, fill: FillType) -> (e: SExpr)
    ensures
        tree_of(e) == node_tree(
            "circle"@,
            seq![
                node_tree("center"@, xy_kids(center)),
                node_tree("radius"@, seq![num(radius as int)]),
                stroke_tree(width as int),
                fill_tree(fill),
            ],
        ),
{
    let mut lead: Vec<SExpr> = Vec::new();
    push_item(&mut lead, point_node("center", center.x as i128, center.y as i128));
    push_item(&mut lead, num_node("radius", radius as i128));
    assert(trees(lead@) + seq![stroke_tree(width as int), fill_tree(fill)] =~= seq![
        node_tree("center"@, xy_kids(center)),
        node_tree("radius"@, seq![num(radius as int)]),
        stroke_tree(width as int),
        fill_tree(fill),
    ]);
    outlined_node("circle", lead, width, fill)
}

/// An arc through three points.
fn arc_node(g: &Graphic) -> (e: SExpr)
    requires
        g is Arc,
    ensures
        tree_of(e) == graphic_tree(*g),
{
    let mut lead: Vec<SExpr> = Vec::new();
    match g {
        Graphic::Arc { start, mid, end, width, fill } => {
            push_item(&mut lead, point_node("start", start.x as i128, start.y as i128));
            push_item(&mut lead, point_node("mid", mid.x as i128, mid.y as i128));
            push_item(&mut lead, point_node("end", end.x as i128, end.y as i128));
            assert(trees(lead@) + seq![stroke_tree(*width as int), fill_tree(*fill)] =~= seq![
                node_tree("start"@, xy_kids(*start)),
                node_tree("mid"@, xy_kids(*mid)),
                node_tree("end"@, xy_kids(*end)),
                stroke_tree(*width as int),
                fill_tree(*fill),
            ]);
            outlined_node("arc", lead, *width, *fill)
        },
        _ => {
            assert(false);
            outlined_node("arc", lead, 0, FillType::Unfilled)
        },
    }
}

/// A library drawing as its KiCad node: shape, stroke and fill, or text
/// with its placement and effects.
pub fn lib_graphic_node(graphic: &Graphic) -> (e: SExpr)
    ensures
        tree_of(e) == graphic_tree(*graphic),
{
    match graphic {
        Graphic::Polyline { points, width, fill } => points_shape_node("polyline", points, *width, *fill),
        Graphic::Bezier { points, width, fill } => points_shape_node("bezier", points, *width, *fill),
        Graphic::Rectangle { start, end, width, fill } => rectangle_node(*start, *end, *width, *fill),
        Graphic::Circle { center, radius, width, fill } => circle_node(*center, *radius, *width, *fill),
        Graphic::Arc { .. } => arc_node(graphic),
        Graphic::Text { text, position, rotation, font_size, bold, italic, justify_h, justify_v } => {
            lib_text_node(text, *position, *rotation, *font_size, *bold, *italic, *justify_h, *justify_v)
        },
        Graphic::TextBox { text, position, rotation, size, font_size, bold, italic, width, fill } => {
            lib_text_box_node(text, *position, *rotation, *size, *font_size, *bold, *italic, *width, *fill)
        },
    }
}

// ---------------------------------------------------------------------------
// Pins
// ---------------------------------------------------------------------------

pub open spec fn hidden_extras(shown: bool) -> Seq<Tree> {
    if shown {
        Seq::empty()
    } else {
        seq![hide_tree()]
    }
}

pub open spec fn pin_label_tree(keyword: Seq<char>, text: Seq<char>, shown: bool) -> Tree {
    node_tree(
        keyword,
        seq![Tree::Quoted(text), effects_tree(SCHEMATIC_TEXT_NM as int, None, false, false, hidden_extras(shown))],
    )
}

pub open spec fn pin_tree(p: Pin) -> Tree {
    node_tree(
        "pin"@,
        seq![
            Tree::Raw(pin_electrical_token(p.direction)),
            Tree::Raw(pin_shape_token(p.shape_style)),
            at_tree(p.position.x as int, p.position.y as int, Some(p.rotation as int)),
            node_tree("length"@, seq![num(p.length as int)]),
        ] + hidden_extras(p.visible) + seq![
            pin_label_tree("name"@, p.name@, p.name_visible),
            pin_label_tree("number"@, p.number@, p.number_visible),
        ],
    )
}

/// `(hide yes)` when something is hidden, nothing when it is shown.
fn hidden_items(shown: bool) -> (v: Vec<SExpr>)
    ensures
        trees(v@) == hidden_extras(shown),
{
    let mut v: Vec<SExpr> = Vec::new();
    if !shown {
        push_item(&mut v, hide_yes_node());
    }
    assert(trees(v@) =~= hidden_extras(shown));
    v
}

/// `(name|number "TEXT" (effects ... [(hide yes)]))`.
fn pin_label_node(keyword: &str, text: &str, shown: bool) -> (e: SExpr)
    ensures
        tree_of(e) == pin_label_tree(keyword@, text@, shown),
{
    let mut items: Vec<SExpr> = Vec::new();
    push_item(&mut items, atom(text));
    push_item(&mut items, effects_node(SCHEMATIC_TEXT_NM, None, false, false, hidden_items(shown)));
    assert(trees(items@) =~= seq![
        Tree::Quoted(text@),
        effects_tree(SCHEMATIC_TEXT_NM as int, None, false, false, hidden_extras(shown)),
    ]);
    node(keyword, items)
}

/// A library pin: electrical type, shape, placement, length, the hidden
/// flag, then its name and number with their own visibility.
pub fn lib_pin_node(pin: &Pin) -> (e: SExpr)
    ensures
        tree_of(e) == pin_tree(*pin),
{
    let mut items: Vec<SExpr> = Vec::new();
    push_item(&mut items, raw(pin_electrical_str(pin.direction)));
    push_item(&mut items, raw(pin_shape_str(pin.shape_style)));
    push_item(&mut items, at_coord(pin.position.x, pin.position.y, Some(pin.rotation)));
    push_item(&mut items, num_node("length", pin.length as i128));
    let ghost head = trees(items@);
    extend_items(&mut items, hidden_items(pin.visible));
    push_item(&mut items, pin_label_node("name", pin.name.as_str(), pin.name_visible));
    push_item(&mut items, pin_label_node("number", pin.number.as_str(), pin.number_visible));
    assert(trees(items@) =~= seq![
        Tree::Raw(pin_electrical_token(pin.direction)),
        Tree::Raw(pin_shape_token(pin.shape_style)),
        at_tree(pin.position.x as int, pin.position.y as int, Some(pin.rotation as int)),
        node_tree("length"@, seq![num(pin.length as int)]),
    ] + hidden_extras(pin.visible) + seq![
        pin_label_tree("name"@, pin.name@, pin.name_visible),
        pin_label_tree("number"@, pin.number@, pin.number_visible),
    ]);
    node("pin", items)
}


// ---------------------------------------------------------------------------
// Sub-symbols
// ---------------------------------------------------------------------------

/// The drawings of one unit and body style, in their order.
pub open spec fn graphics_for(gs: Seq<LibGraphic>, unit: u32, body: u32) -> Seq<Tree>
    decreases gs.len(),
{
    if gs.len() == 0 {
        Seq::empty()
    } else {
        let rest = graphics_for(gs.drop_last(), unit, body);
        if gs.last().unit == unit && gs.last().body_style == body {
            rest.push(graphic_tree(gs.last().graphic))
        } else {
            rest
        }
    }
}

/// The pins of one unit and body style, in their order.
pub open spec fn pins_for(ps: Seq<LibPin>, unit: u32, body: u32) -> Seq<Tree>
    decreases ps.len(),
{
    if ps.len() == 0 {
        Seq::empty()
    } else {
        let rest = pins_for(ps.drop_last(), unit, body);
        if ps.last().unit == unit && ps.last().body_style == body {
            rest.push(pin_tree(ps.last().pin))
        } else {
            rest
        }
    }
}

/// `BASE_UNIT_BODY`.
pub open spec fn sub_symbol_name(base: Seq<char>, unit: u32, body: u32) -> Seq<char> {
    base + seq!['_'] + decimal(unit as nat) + seq!['_'] + decimal(body as nat)
}

pub open spec fn sub_symbol_tree(base: Seq<char>, unit: u32, body: u32, lib: LibSymbol) -> Tree {
    node_tree(
        "symbol"@,
        seq![Tree::Quoted(sub_symbol_name(base, unit, body))] + graphics_for(lib.graphics@, unit, body)
            + pins_for(lib.pins@, unit, body),
    )
}

/// The name `BASE_UNIT_BODY` of a sub-symbol.
fn sub_symbol_name_text(base: &str, unit: u32, body: u32) -> (r: String)
    ensures
        r@ == sub_symbol_name(base@, unit, body),
{
    let mut v = chars_of(base);
    v.push('_');
    let u = u64_decimal(unit as u64);
    append_chars(&mut v, u.as_slice());
    v.push('_');
    let b = u64_decimal(body as u64);
    append_chars(&mut v, b.as_slice());
    string_from_chars(v.as_slice())
}

/// The nodes of the drawings of one unit and body style.
fn graphic_items(lib: &LibSymbol, unit: u32, body_style: u32) -> (v: Vec<SExpr>)
    ensures
        trees(v@) == graphics_for(lib.graphics@, unit, body_style),
{
    let mut items: Vec<SExpr> = Vec::new();
    let ghost gs = lib.graphics@;
    let mut i: usize = 0;
    while i < lib.graphics.len()
        invariant
            i <= gs.len(),
            gs == lib.graphics@,
            trees(items@) == graphics_for(gs.take(i as int), unit, body_style),
        decreases gs.len() - i,
    {
        assert(gs.take(i + 1).drop_last() =~= gs.take(i as int));
        if lib.graphics[i].unit == unit && lib.graphics[i].body_style == body_style {
            push_item(&mut items, lib_graphic_node(&lib.graphics[i].graphic));
        }
        i += 1;
    }
    assert(gs.take(gs.len() as int) =~= gs);
    items
}

/// The nodes of the pins of one unit and body style.
fn pin_items(lib: &LibSymbol, unit: u32, body_style: u32) -> (v: Vec<SExpr>)
    ensures
        trees(v@) == pins_for(lib.pins@, unit, body_style),
{
    let mut items: Vec<SExpr> = Vec::new();
    let ghost ps = lib.pins@;
    let mut j: usize = 0;
    while j < lib.pins.len()
        invariant
            j <= ps.len(),
            ps == lib.pins@,
            trees(items@) == pins_for(ps.take(j as int), unit, body_style),
        decreases ps.len() - j,
    {
        assert(ps.take(j + 1).drop_last() =~= ps.take(j as int));
        if lib.pins[j].unit == unit && lib.pins[j].body_style == body_style {
            push_item(&mut items, lib_pin_node(&lib.pins[j].pin));
        }
        j += 1;
    }
    assert(ps.take(ps.len() as int) =~= ps);
    items
}

/// One unit and body style of a library symbol: `(symbol "BASE_U_B" ...)`
/// with the drawings, then the pins, that belong to it.
pub fn lib_sub_symbol_node(base_name: &str, unit: u32, body_style: u32, lib: &LibSymbol) -> (e: SExpr)
    ensures
        tree_of(e) == sub_symbol_tree(base_name@, unit, body_style, *lib),
{
    let mut items: Vec<SExpr> = Vec::new();
    push_item(&mut items, atom(sub_symbol_name_text(base_name, unit, body_style)));
    let ghost name = trees(items@);
    assert(name =~= seq![Tree::Quoted(sub_symbol_name(base_name@, unit, body_style))]);
    let gv = graphic_items(lib, unit, body_style);
    let pv = pin_items(lib, unit, body_style);
    let ghost g = graphics_for(lib.graphics@, unit, body_style);
    let ghost p = pins_for(lib.pins@, unit, body_style);
    extend_items(&mut items, gv);
    extend_items(&mut items, pv);
    assert(trees(items@) == name + g + p);
    node("symbol", items)
}


// ---------------------------------------------------------------------------
// Library symbol
// ---------------------------------------------------------------------------

/// What follows the last `:` of a library id (the whole id when it has
/// none): `Device:R` gives `R`.
pub open spec fn base_name(id: Seq<char>) -> Seq<char>
    decreases id.len(),
{
    if id.len() == 0 {
        id
    } else if id.last() == ':' {
        Seq::empty()
    } else {
        base_name(id.drop_last()).push(id.last())
    }
}

/// The part of a library id after its last `:`.
pub fn lib_base_name(id: &str) -> (r: String)
    ensures
        r@ == base_name(id@),
{
    let cs = chars_of(id);
    let ghost s = cs@;
    let mut k: usize = cs.len();
    assert(s.take(k as int) =~= s);
    assert(base_name(s) =~= base_name(s.take(k as int)) + s.skip(k as int));
    while k > 0 && cs[k - 1] != ':'
        invariant
            k <= s.len(),
            s == cs@,
            base_name(s) == base_name(s.take(k as int)) + s.skip(k as int),
        decreases k,
    {
        assert(s.take(k as int).drop_last() =~= s.take(k - 1));
        assert(s.take(k as int).last() == s[k - 1]);
        assert(base_name(s.take(k - 1)).push(s[k - 1]) + s.skip(k as int) =~= base_name(s.take(k - 1)) + s.skip(
            k - 1,
        ));
        k -= 1;
    }
    if k > 0 {
        assert(s.take(k as int).last() == ':');
    }
    assert(base_name(s.take(k as int)) =~= Seq::<char>::empty());
    assert(s.skip(k as int) =~= s.subrange(k as int, s.len() as int));
    substring(&cs, k, cs.len())
}

/// A unit and body style, ordered by unit, then body style.
pub open spec fn key_lt(a: (u32, u32), b: (u32, u32)) -> bool {
    a.0 < b.0 || (a.0 == b.0 && a.1 < b.1)
}

pub open spec fn strictly_sorted(ks: Seq<(u32, u32)>) -> bool {
    forall|i: int, j: int| 0 <= i < j < ks.len() ==> key_lt(ks[i], ks[j])
}

/// Some drawing or pin of `lib` belongs to unit and body style `k`.
pub open spec fn used_key(lib: LibSymbol, k: (u32, u32)) -> bool {
    (exists|i: int| 0 <= i < lib.graphics@.len() && lib.graphics@[i].unit == k.0 && lib.graphics@[i].body_style == k.1)
        || (exists|i: int| 0 <= i < lib.pins@.len() && lib.pins@[i].unit == k.0 && lib.pins@[i].body_style == k.1)
}

/// `ks` lists, in ascending order and once each, the units and body styles
/// that the drawings and pins of `lib` use; a symbol with neither has the
/// one sub-symbol unit 0, body style 1.
pub open spec fn sub_symbol_keys(lib: LibSymbol, ks: Seq<(u32, u32)>) -> bool {
    &&& strictly_sorted(ks)
    &&& if lib.graphics@.len() == 0 && lib.pins@.len() == 0 {
        ks == seq![(0u32, 1u32)]
    } else {
        forall|k: (u32, u32)| ks.contains(k) <==> used_key(lib, k)
    }
}

/// Adds `k` to an ascending list of distinct keys, keeping it so.
fn insert_key(ks: &mut Vec<(u32, u32)>, k: (u32, u32))
    requires
        strictly_sorted(old(ks)@),
    ensures
        strictly_sorted(final(ks)@),
        forall|x: (u32, u32)| final(ks)@.contains(x) <==> (old(ks)@.contains(x) || x == k),
{
    let ghost s = ks@;
    let mut i: usize = 0;
    while i < ks.len() && (ks[i].0 < k.0 || (ks[i].0 == k.0 && ks[i].1 < k.1))
        invariant
            i <= s.len(),
            ks@ == s,
            forall|j: int| 0 <= j < i ==> key_lt(s[j], k),
        decreases s.len() - i,
    {
        i += 1;
    }
    if i < ks.len() && ks[i].0 == k.0 && ks[i].1 == k.1 {
        assert forall|x: (u32, u32)| ks@.contains(x) <==> (s.contains(x) || x == k) by {
            if x == k {
                assert(s[i as int] == k);
            }
        }
        return;
    }
    ks.insert(i, k);
    let ghost t = ks@;
    assert(t =~= s.insert(i as int, k));
    assert forall|a: int, b: int| 0 <= a < b < t.len() implies key_lt(t[a], t[b]) by {
        if b < i {
        } else if b == i {
        } else if a < i {
            assert(key_lt(s[a], k));
            assert(key_lt(k, s[b - 1]) || (i as int) < b - 1);
            if (i as int) < b - 1 {
                assert(key_lt(s[i as int], s[b - 1]));
            }
        } else if a == i {
            assert(key_lt(k, s[i as int]));
            if (i as int) < b - 1 {
                assert(key_lt(s[i as int], s[b - 1]));
            }
        } else {
            assert(key_lt(s[a - 1], s[b - 1]));
        }
    }
    assert forall|x: (u32, u32)| t.contains(x) <==> (s.contains(x) || x == k) by {
        if t.contains(x) {
            let w = choose|w: int| 0 <= w < t.len() && t[w] == x;
            if w < i {
                assert(s[w] == x);
            } else if w > i {
                assert(s[w - 1] == x);
            }
        }
        if s.contains(x) {
            let w = choose|w: int| 0 <= w < s.len() && s[w] == x;
            if w < i {
                assert(t[w] == x);
            } else {
                assert(t[w + 1] == x);
            }
        }
        if x == k {
            assert(t[i as int] == x);
        }
    }
}

/// The units and body styles of a library symbol's sub-symbols, in the
/// order they are written.
pub fn lib_sub_symbol_keys(lib: &LibSymbol) -> (ks: Vec<(u32, u32)>)
    ensures
        sub_symbol_keys(*lib, ks@),
{
    let mut ks: Vec<(u32, u32)> = Vec::new();
    let ghost gs = lib.graphics@;
    let ghost ps = lib.pins@;
    let mut i: usize = 0;
    while i < lib.graphics.len()
        invariant
            i <= gs.len(),
            gs == lib.graphics@,
            strictly_sorted(ks@),
            forall|x: (u32, u32)| ks@.contains(x) <==> (exists|w: int| 0 <= w < i && gs[w].unit == x.0 && gs[w].body_style == x.1),
        decreases gs.len() - i,
    {
        let k = (lib.graphics[i].unit, lib.graphics[i].body_style);
        let ghost before = ks@;
        insert_key(&mut ks, k);
        assert forall|x: (u32, u32)| ks@.contains(x) <==> (exists|w: int| 0 <= w < i + 1 && gs[w].unit == x.0 && gs[w].body_style == x.1) by {
            if exists|w: int| 0 <= w < i + 1 && gs[w].unit == x.0 && gs[w].body_style == x.1 {
                let w = choose|w: int| 0 <= w < i + 1 && gs[w].unit == x.0 && gs[w].body_style == x.1;
                if w == i {
                    assert(x == k);
                }
            }
        }
        i += 1;
    }
    let mut j: usize = 0;
    while j < lib.pins.len()
        invariant
            j <= ps.len(),
            gs == lib.graphics@,
            ps == lib.pins@,
            strictly_sorted(ks@),
            forall|x: (u32, u32)| ks@.contains(x) <==> ((exists|w: int| 0 <= w < gs.len() && gs[w].unit == x.0 && gs[w].body_style == x.1)
                || (exists|w: int| 0 <= w < j && ps[w].unit == x.0 && ps[w].body_style == x.1)),
        decreases ps.len() - j,
    {
        let k = (lib.pins[j].unit, lib.pins[j].body_style);
        insert_key(&mut ks, k);
        assert forall|x: (u32, u32)| ks@.contains(x) <==> ((exists|w: int| 0 <= w < gs.len() && gs[w].unit == x.0 && gs[w].body_style == x.1)
            || (exists|w: int| 0 <= w < j + 1 && ps[w].unit == x.0 && ps[w].body_style == x.1)) by {
            if exists|w: int| 0 <= w < j + 1 && ps[w].unit == x.0 && ps[w].body_style == x.1 {
                let w = choose|w: int| 0 <= w < j + 1 && ps[w].unit == x.0 && ps[w].body_style == x.1;
                if w == j {
                    assert(x == k);
                }
            }
        }
        j += 1;
    }
    if ks.len() == 0 {
        assert(lib.graphics@.len() == 0 && lib.pins@.len() == 0) by {
            if lib.graphics@.len() > 0 {
                assert(ks@.contains((gs[0].unit, gs[0].body_style)));
            }
            if lib.pins@.len() > 0 {
                assert(ks@.contains((ps[0].unit, ps[0].body_style)));
            }
        }
        ks.push((0, 1));
        assert(ks@ =~= seq![(0u32, 1u32)]);
    } else {
        assert(lib.graphics@.len() > 0 || lib.pins@.len() > 0) by {
            assert(ks@.contains(ks@[0]));
        }
    }
    ks
}


pub open spec fn flag_tree(keyword: Seq<char>, value: bool) -> Tree {
    node_tree(keyword, seq![Tree::Raw(if value { "yes"@ } else { "no"@ })])
}

/// The id, the four flags, `(pin_numbers hide)` when numbers are hidden
/// and `(pin_names (offset O) [hide])`.
pub open spec fn lib_head_trees(lib: LibSymbol) -> Seq<Tree> {
    seq![
        Tree::Quoted(lib.id@),
        flag_tree("in_bom"@, lib.in_bom),
        flag_tree("on_board"@, lib.on_board),
        flag_tree("in_pos_files"@, lib.in_pos_files),
        flag_tree("duplicate_pin_numbers_are_jumpers"@, lib.duplicate_pin_numbers_are_jumpers),
    ] + (if lib.show_pin_numbers {
        Seq::empty()
    } else {
        seq![node_tree("pin_numbers"@, seq![Tree::Raw("hide"@)])]
    }) + seq![
        node_tree(
            "pin_names"@,
            seq![node_tree("offset"@, seq![num(lib.pin_name_offset as int)])] + (if lib.show_pin_names {
                Seq::empty()
            } else {
                seq![Tree::Raw("hide"@)]
            }),
        ),
    ]
}

/// `value`, or `fallback` when `value` is empty.
pub open spec fn field_or(value: Seq<char>, fallback: Seq<char>) -> Seq<char> {
    if value.len() == 0 {
        fallback
    } else {
        value
    }
}

/// A property written only when its value is not empty.
pub open spec fn optional_property(key: Seq<char>, value: Seq<char>, id: u32) -> Seq<Tree> {
    if value.len() == 0 {
        Seq::empty()
    } else {
        seq![lib_symbol_property_tree(key, value, id)]
    }
}

/// Reference (`U` when empty), Value (the id's base name when empty),
/// Footprint and Datasheet, then Description, keywords and footprint
/// filters when they are set.
pub open spec fn lib_property_trees(lib: LibSymbol) -> Seq<Tree> {
    seq![
        lib_symbol_property_tree("Reference"@, field_or(lib.reference@, "U"@), 0),
        lib_symbol_property_tree("Value"@, field_or(lib.value@, base_name(lib.id@)), 1),
        lib_symbol_property_tree("Footprint"@, lib.footprint@, 2),
        lib_symbol_property_tree("Datasheet"@, lib.datasheet@, 3),
    ] + optional_property("Description"@, lib.description@, 4) + optional_property("ki_keywords"@, lib.keywords@, 5)
        + optional_property("ki_fp_filters"@, lib.fp_filters@, 6)
}

pub open spec fn sub_symbol_trees(lib: LibSymbol, ks: Seq<(u32, u32)>) -> Seq<Tree> {
    Seq::new(ks.len(), |i: int| sub_symbol_tree(base_name(lib.id@), ks[i].0, ks[i].1, lib))
}

pub open spec fn lib_symbol_tree(lib: LibSymbol, ks: Seq<(u32, u32)>) -> Tree {
    node_tree("symbol"@, lib_head_trees(lib) + lib_property_trees(lib) + sub_symbol_trees(lib, ks))
}

/// The node of a library symbol, with its one list of sub-symbol keys.
pub open spec fn lib_symbol_spec(lib: LibSymbol) -> Tree {
    lib_symbol_tree(lib, choose|ks: Seq<(u32, u32)>| sub_symbol_keys(lib, ks))
}

fn lib_symbol_head(lib: &LibSymbol) -> (v: Vec<SExpr>)
    ensures
        trees(v@) == lib_head_trees(*lib),
{
    let mut items: Vec<SExpr> = Vec::new();
    push_item(&mut items, atom(&lib.id));
    push_item(&mut items, yes_no_node("in_bom", lib.in_bom));
    push_item(&mut items, yes_no_node("on_board", lib.on_board));
    push_item(&mut items, yes_no_node("in_pos_files", lib.in_pos_files));
    push_item(&mut items, yes_no_node("duplicate_pin_numbers_are_jumpers", lib.duplicate_pin_numbers_are_jumpers));
    let ghost flags = trees(items@);
    assert(flags =~= seq![
        Tree::Quoted(lib.id@),
        flag_tree("in_bom"@, lib.in_bom),
        flag_tree("on_board"@, lib.on_board),
        flag_tree("in_pos_files"@, lib.in_pos_files),
        flag_tree("duplicate_pin_numbers_are_jumpers"@, lib.duplicate_pin_numbers_are_jumpers),
    ]);
    if !lib.show_pin_numbers {
        let mut h: Vec<SExpr> = Vec::new();
        push_item(&mut h, raw("hide"));
        assert(trees(h@) =~= seq![Tree::Raw("hide"@)]);
        push_item(&mut items, node("pin_numbers", h));
    }
    let ghost numbers = trees(items@);
    assert(numbers =~= flags + (if lib.show_pin_numbers {
        Seq::<Tree>::empty()
    } else {
        seq![node_tree("pin_numbers"@, seq![Tree::Raw("hide"@)])]
    }));
    let mut names: Vec<SExpr> = Vec::new();
    push_item(&mut names, num_node("offset", lib.pin_name_offset as i128));
    if !lib.show_pin_names {
        push_item(&mut names, raw("hide"));
    }
    assert(trees(names@) =~= seq![node_tree("offset"@, seq![num(lib.pin_name_offset as int)])] + (if lib.show_pin_names {
        Seq::<Tree>::empty()
    } else {
        seq![Tree::Raw("hide"@)]
    }));
    push_item(&mut items, node("pin_names", names));
    assert(trees(items@) =~= lib_head_trees(*lib));
    items
}

fn optional_property_items(key: &str, value: &String, id: u32) -> (v: Vec<SExpr>)
    ensures
        trees(v@) == optional_property(key@, value@, id),
{
    let mut v: Vec<SExpr> = Vec::new();
    if !value.as_str().is_empty() {
        push_item(&mut v, lib_symbol_property_node(key, value.as_str(), id));
    }
    assert(trees(v@) =~= optional_property(key@, value@, id));
    v
}

fn lib_symbol_properties(lib: &LibSymbol, base: &str) -> (v: Vec<SExpr>)
    requires
        base@ == base_name(lib.id@),
    ensures
        trees(v@) == lib_property_trees(*lib),
{
    let reference: &str = if lib.reference.as_str().is_empty() {
        "U"
    } else {
        lib.reference.as_str()
    };
    let value: &str = if lib.value.as_str().is_empty() {
        base
    } else {
        lib.value.as_str()
    };
    proof {
        reveal_strlit("U");
    }
    let mut items: Vec<SExpr> = Vec::new();
    push_item(&mut items, lib_symbol_property_node("Reference", reference, 0));
    push_item(&mut items, lib_symbol_property_node("Value", value, 1));
    push_item(&mut items, lib_symbol_property_node("Footprint", lib.footprint.as_str(), 2));
    push_item(&mut items, lib_symbol_property_node("Datasheet", lib.datasheet.as_str(), 3));
    let ghost four = trees(items@);
    assert(four =~= seq![
        lib_symbol_property_tree("Reference"@, field_or(lib.reference@, "U"@), 0),
        lib_symbol_property_tree("Value"@, field_or(lib.value@, base_name(lib.id@)), 1),
        lib_symbol_property_tree("Footprint"@, lib.footprint@, 2),
        lib_symbol_property_tree("Datasheet"@, lib.datasheet@, 3),
    ]);
    extend_items(&mut items, optional_property_items("Description", &lib.description, 4));
    extend_items(&mut items, optional_property_items("ki_keywords", &lib.keywords, 5));
    extend_items(&mut items, optional_property_items("ki_fp_filters", &lib.fp_filters, 6));
    items
}

fn sub_symbol_items(lib: &LibSymbol, base: &str, ks: &Vec<(u32, u32)>) -> (v: Vec<SExpr>)
    requires
        base@ == base_name(lib.id@),
    ensures
        trees(v@) == sub_symbol_trees(*lib, ks@),
{
    let mut items: Vec<SExpr> = Vec::new();
    let mut i: usize = 0;
    while i < ks.len()
        invariant
            i <= ks@.len(),
            base@ == base_name(lib.id@),
            trees(items@) == sub_symbol_trees(*lib, ks@.take(i as int)),
        decreases ks@.len() - i,
    {
        let (unit, body) = ks[i];
        push_item(&mut items, lib_sub_symbol_node(base, unit, body, lib));
        assert(sub_symbol_trees(*lib, ks@.take(i + 1)) =~= sub_symbol_trees(*lib, ks@.take(i as int)).push(
            sub_symbol_tree(base@, unit, body, *lib),
        ));
        i += 1;
    }
    assert(ks@.take(ks@.len() as int) =~= ks@);
    items
}

/// A library symbol as KiCad writes it under `lib_symbols`: its id and
/// flags, pin number and name display, its fields, then one sub-symbol per
/// unit and body style in use, in ascending order.
pub fn lib_symbol_node(lib: &LibSymbol) -> (e: SExpr)
    ensures
        exists|ks: Seq<(u32, u32)>| sub_symbol_keys(*lib, ks) && tree_of(e) == lib_symbol_tree(*lib, ks),
        tree_of(e) == lib_symbol_spec(*lib),
{
    let base = lib_base_name(lib.id.as_str());
    let ks = lib_sub_symbol_keys(lib);
    let mut items = lib_symbol_head(lib);
    extend_items(&mut items, lib_symbol_properties(lib, base.as_str()));
    extend_items(&mut items, sub_symbol_items(lib, base.as_str(), &ks));
    let e = node("symbol", items);
    assert(sub_symbol_keys(*lib, ks@) && tree_of(e) == lib_symbol_tree(*lib, ks@));
    proof {
        lemma_sub_symbol_keys_unique(*lib, ks@, choose|k: Seq<(u32, u32)>| sub_symbol_keys(*lib, k));
    }
    e
}


/// Each library symbol has one list of sub-symbol keys: the written
/// sub-symbols are fixed by the symbol alone.
pub proof fn lemma_sub_symbol_keys_unique(lib: LibSymbol, a: Seq<(u32, u32)>, b: Seq<(u32, u32)>)
    requires
        sub_symbol_keys(lib, a),
        sub_symbol_keys(lib, b),
    ensures
        a == b,
{
    if !(lib.graphics@.len() == 0 && lib.pins@.len() == 0) {
        let lt = |x: (u32, u32), y: (u32, u32)| key_lt(x, y);
        assert(sorted_by(a, lt) && sorted_by(b, lt));
        lemma_sorted_unique(a, b, lt);
    }
}

} // verus!
