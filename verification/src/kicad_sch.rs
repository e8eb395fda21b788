//! Writing a schematic sheet as a KiCad `.kicad_sch` S-expression: wiring,
//! labels, notes, drawings, child sheets, placed symbols and the sheet
//! itself.

use vstd::prelude::*;

use crate::coord::Vec2;
use crate::kicad_lib::{extend_items, flag_tree, lib_symbol_node, lib_symbol_spec, hide_tree, text_effects_node, text_effects_tree};
use crate::kicad_pcb::{
    at_coord, at_tree, count_node, num, point_node, pts_node, pts_tree, uuid_node, uuid_tree, xy_kids,
};
use crate::kicad_write::{
    effects_node, effects_tree, fill_tree, fill_type_node, fixed_atom, halign_str, halign_token,
    char_seqs, write_rendered_sexpr, key_order, key_positions, label_keyword, label_type_keyword, sheet_fill_node,
    sheet_fill_tree, sheet_instances_node, sheet_instances_spec, symbol_instances_node,
    symbol_instances_spec, usizes, valign_str, valign_token,
};
use crate::schematic::{
    Bus, BusEntry, ChildSheet, FillType, HAlign, Junction, Label, LibSymbol, NoConnect, SchDrawing, SheetInstance, SheetPin,
    SchematicProperty, SchematicSheet, StrokeColor, Symbol, TextNote, TextProp, VAlign, Wire, SCHEMATIC_TEXT_NM,
};
use crate::varmap::VarMap;
use crate::sexpr::{atom, node, node_tree, push_item, raw, render_tree, tree_of, trees, yes_no_node, SExpr, Tree};
use crate::text::{chars_of, decimal, str_eq, string_from_chars};

verus! {

broadcast use vstd::std_specs::vec::group_vec_axioms;

// ---------------------------------------------------------------------------
// Wiring
// ---------------------------------------------------------------------------

pub open spec fn zero_num() -> Tree {
    Tree::Raw("0"@)
}

/// `(color 0 0 0 0)`: no colour override.
pub open spec fn zero_color_tree() -> Tree {
    node_tree("color"@, seq![zero_num(), zero_num(), zero_num(), zero_num()])
}

/// `(width 0) (type default)`.
pub open spec fn plain_stroke_kids() -> Seq<Tree> {
    seq![node_tree("width"@, seq![zero_num()]), node_tree("type"@, seq![Tree::Raw("default"@)])]
}

pub open spec fn two_points_tree(a: Vec2, b: Vec2) -> Tree {
    node_tree("pts"@, seq![node_tree("xy"@, xy_kids(a)), node_tree("xy"@, xy_kids(b))])
}

pub open spec fn junction_tree(j: Junction) -> Tree {
    node_tree(
        "junction"@,
        seq![
            at_tree(j.position.x as int, j.position.y as int, None),
            node_tree("diameter"@, seq![zero_num()]),
            zero_color_tree(),
            uuid_tree(j.uuid),
        ],
    )
}

pub open spec fn marker_tree(keyword: Seq<char>, nc: NoConnect) -> Tree {
    node_tree(keyword, seq![at_tree(nc.position.x as int, nc.position.y as int, None), uuid_tree(nc.uuid)])
}

pub open spec fn bus_tree(b: Bus) -> Tree {
    node_tree(
        "bus"@,
        seq![
            two_points_tree(b.start, b.end),
            node_tree("stroke"@, plain_stroke_kids() + seq![zero_color_tree()]),
            uuid_tree(b.uuid),
        ],
    )
}

pub open spec fn bus_entry_tree(be: BusEntry) -> Tree {
    node_tree(
        "bus_entry"@,
        seq![
            at_tree(be.position.x as int, be.position.y as int, None),
            node_tree("size"@, seq![num(be.size.0 as int), num(be.size.1 as int)]),
            node_tree("stroke"@, plain_stroke_kids() + seq![zero_color_tree()]),
            uuid_tree(be.uuid),
        ],
    )
}

pub open spec fn wire_tree(w: Wire) -> Tree {
    node_tree(
        "wire"@,
        seq![two_points_tree(w.start, w.end), node_tree("stroke"@, plain_stroke_kids()), uuid_tree(w.uuid)],
    )
}

fn zero_items(n: usize) -> (v: Vec<SExpr>)
    ensures
        trees(v@) == Seq::new(n as nat, |i: int| zero_num()),
{
    let mut v: Vec<SExpr> = Vec::new();
    let mut i: usize = 0;
    while i < n
        invariant
            i <= n,
            trees(v@) == Seq::new(i as nat, |k: int| zero_num()),
        decreases n - i,
    {
        push_item(&mut v, raw("0"));
        assert(trees(v@) =~= Seq::new((i + 1) as nat, |k: int| zero_num()));
        i += 1;
    }
    v
}

fn zero_color_node() -> (e: SExpr)
    ensures
        tree_of(e) == zero_color_tree(),
{
    let v = zero_items(4);
    assert(trees(v@) =~= seq![zero_num(), zero_num(), zero_num(), zero_num()]);
    node("color", v)
}

fn plain_stroke_items() -> (v: Vec<SExpr>)
    ensures
        trees(v@) == plain_stroke_kids(),
{
    let z = zero_items(1);
    assert(trees(z@) =~= seq![zero_num()]);
    let mut v: Vec<SExpr> = Vec::new();
    push_item(&mut v, node("width", z));
    let mut t: Vec<SExpr> = Vec::new();
    push_item(&mut t, raw("default"));
    assert(trees(t@) =~= seq![Tree::Raw("default"@)]);
    push_item(&mut v, node("type", t));
    assert(trees(v@) =~= plain_stroke_kids());
    v
}

/// `(stroke (width 0) (type default) (color 0 0 0 0))`.
fn colourless_stroke_node() -> (e: SExpr)
    ensures
        tree_of(e) == node_tree("stroke"@, plain_stroke_kids() + seq![zero_color_tree()]),
{
    let mut v = plain_stroke_items();
    push_item(&mut v, zero_color_node());
    assert(trees(v@) =~= plain_stroke_kids() + seq![zero_color_tree()]);
    node("stroke", v)
}

fn two_points_node(a: Vec2, b: Vec2) -> (e: SExpr)
    ensures
        tree_of(e) == two_points_tree(a, b),
{
    let mut v: Vec<SExpr> = Vec::new();
    push_item(&mut v, point_node("xy", a.x as i128, a.y as i128));
    push_item(&mut v, point_node("xy", b.x as i128, b.y as i128));
    assert(trees(v@) =~= seq![node_tree("xy"@, xy_kids(a)), node_tree("xy"@, xy_kids(b))]);
    node("pts", v)
}

/// A junction dot: position, default diameter and colour, UUID.
pub fn junction_node(j: &Junction) -> (e: SExpr)
    ensures
        tree_of(e) == junction_tree(*j),
{
    let mut v: Vec<SExpr> = Vec::new();
    push_item(&mut v, at_coord(j.position.x, j.position.y, None));
    push_item(&mut v, node("diameter", zero_items(1)));
    push_item(&mut v, zero_color_node());
    push_item(&mut v, uuid_node(j.uuid));
    assert(Seq::new(1, |i: int| zero_num()) =~= seq![zero_num()]);
    assert(trees(v@) =~= seq![
        at_tree(j.position.x as int, j.position.y as int, None),
        node_tree("diameter"@, seq![zero_num()]),
        zero_color_tree(),
        uuid_tree(j.uuid),
    ]);
    node("junction", v)
}

/// A position marker with a UUID: `no_connect` flags and `no_erc`
/// directives.
pub fn marker_node(keyword: &str, nc: &NoConnect) -> (e: SExpr)
    ensures
        tree_of(e) == marker_tree(keyword@, *nc),
{
    let mut v: Vec<SExpr> = Vec::new();
    push_item(&mut v, at_coord(nc.position.x, nc.position.y, None));
    push_item(&mut v, uuid_node(nc.uuid));
    assert(trees(v@) =~= seq![at_tree(nc.position.x as int, nc.position.y as int, None), uuid_tree(nc.uuid)]);
    node(keyword, v)
}

/// A bus segment.
pub fn bus_node(b: &Bus) -> (e: SExpr)
    ensures
        tree_of(e) == bus_tree(*b),
{
    let mut v: Vec<SExpr> = Vec::new();
    push_item(&mut v, two_points_node(b.start, b.end));
    push_item(&mut v, colourless_stroke_node());
    push_item(&mut v, uuid_node(b.uuid));
    assert(trees(v@) =~= seq![
        two_points_tree(b.start, b.end),
        node_tree("stroke"@, plain_stroke_kids() + seq![zero_color_tree()]),
        uuid_tree(b.uuid),
    ]);
    node("bus", v)
}

/// A bus entry.
pub fn bus_entry_node(be: &BusEntry) -> (e: SExpr)
    ensures
        tree_of(e) == bus_entry_tree(*be),
{
    let mut v: Vec<SExpr> = Vec::new();
    push_item(&mut v, at_coord(be.position.x, be.position.y, None));
    push_item(&mut v, point_node("size", be.size.0 as i128, be.size.1 as i128));
    push_item(&mut v, colourless_stroke_node());
    push_item(&mut v, uuid_node(be.uuid));
    assert(trees(v@) =~= seq![
        at_tree(be.position.x as int, be.position.y as int, None),
        node_tree("size"@, seq![num(be.size.0 as int), num(be.size.1 as int)]),
        node_tree("stroke"@, plain_stroke_kids() + seq![zero_color_tree()]),
        uuid_tree(be.uuid),
    ]);
    node("bus_entry", v)
}

/// A wire, written with the default stroke.
pub fn wire_node(w: &Wire) -> (e: SExpr)
    ensures
        tree_of(e) == wire_tree(*w),
{
    let mut v: Vec<SExpr> = Vec::new();
    push_item(&mut v, two_points_node(w.start, w.end));
    push_item(&mut v, node("stroke", plain_stroke_items()));
    push_item(&mut v, uuid_node(w.uuid));
    assert(trees(v@) =~= seq![two_points_tree(w.start, w.end), node_tree("stroke"@, plain_stroke_kids()), uuid_tree(w.uuid)]);
    node("wire", v)
}


// ---------------------------------------------------------------------------
// Notes and labels
// ---------------------------------------------------------------------------

/// `s` with each line break written as the two characters `\n`.
pub open spec fn escape_newlines(s: Seq<char>) -> Seq<char>
    decreases s.len(),
{
    if s.len() == 0 {
        s
    } else {
        escape_newlines(s.drop_last()) + (if s.last() == '\n' {
            seq!['\\', 'n']
        } else {
            seq![s.last()]
        })
    }
}

/// The text of a note with its line breaks escaped.
pub fn escape_newlines_text(s: &str) -> (r: String)
    ensures
        r@ == escape_newlines(s@),
{
    let cs = chars_of(s);
    let mut out: Vec<char> = Vec::new();
    let mut i: usize = 0;
    while i < cs.len()
        invariant
            i <= cs@.len(),
            cs@ == s@,
            out@ == escape_newlines(cs@.take(i as int)),
        decreases cs.len() - i,
    {
        assert(cs@.take(i + 1).drop_last() =~= cs@.take(i as int));
        if cs[i] == '\n' {
            out.push('\\');
            out.push('n');
        } else {
            out.push(cs[i]);
        }
        assert(out@ =~= escape_newlines(cs@.take(i + 1)));
        i += 1;
    }
    assert(cs@.take(cs@.len() as int) =~= cs@);
    string_from_chars(out.as_slice())
}

pub open spec fn text_note_tree(n: TextNote) -> Tree {
    node_tree(
        "text"@,
        seq![
            Tree::Quoted(escape_newlines(n.text@)),
            flag_tree("exclude_from_sim"@, false),
            at_tree(n.position.x as int, n.position.y as int, Some(n.rotation as int)),
            effects_tree(n.font_size as int, None, false, false, Seq::empty()),
            uuid_tree(n.uuid),
        ],
    )
}

/// A free text note: escaped text, placement, font size and UUID.
pub fn text_note_node(note: &TextNote) -> (e: SExpr)
    ensures
        tree_of(e) == text_note_tree(*note),
{
    let mut v: Vec<SExpr> = Vec::new();
    push_item(&mut v, atom(escape_newlines_text(note.text.as_str())));
    push_item(&mut v, yes_no_node("exclude_from_sim", false));
    push_item(&mut v, at_coord(note.position.x, note.position.y, Some(note.rotation)));
    let none: Vec<SExpr> = Vec::new();
    assert(trees(none@) =~= Seq::<Tree>::empty());
    push_item(&mut v, effects_node(note.font_size, None, false, false, none));
    push_item(&mut v, uuid_node(note.uuid));
    assert(trees(v@) =~= seq![
        Tree::Quoted(escape_newlines(note.text@)),
        flag_tree("exclude_from_sim"@, false),
        at_tree(note.position.x as int, note.position.y as int, Some(note.rotation as int)),
        effects_tree(note.font_size as int, None, false, false, Seq::empty()),
        uuid_tree(note.uuid),
    ]);
    node("text", v)
}

/// `(justify bottom)` for the usual left-bottom label, else
/// `(justify H V)`.
pub open spec fn label_justify_tree(h: HAlign, v: VAlign) -> Tree {
    if h == HAlign::Left && v == VAlign::Bottom {
        node_tree("justify"@, seq![Tree::Raw("bottom"@)])
    } else {
        node_tree("justify"@, seq![Tree::Raw(halign_token(h)), Tree::Raw(valign_token(v))])
    }
}

pub open spec fn label_tree(l: Label) -> Tree {
    node_tree(
        label_keyword(l.label_type),
        seq![Tree::Quoted(l.text@)] + (if l.shape@.len() == 0 {
            Seq::empty()
        } else {
            seq![node_tree("shape"@, seq![Tree::Raw(l.shape@)])]
        }) + seq![
            at_tree(l.position.x as int, l.position.y as int, Some(l.rotation as int)),
            effects_tree(l.font_size as int, None, false, false, seq![label_justify_tree(l.justify, l.justify_v)]),
            uuid_tree(l.uuid),
        ],
    )
}

fn label_justify_node(h: HAlign, v: VAlign) -> (e: SExpr)
    ensures
        tree_of(e) == label_justify_tree(h, v),
{
    let mut t: Vec<SExpr> = Vec::new();
    if h == HAlign::Left && v == VAlign::Bottom {
        push_item(&mut t, raw("bottom"));
        assert(trees(t@) =~= seq![Tree::Raw("bottom"@)]);
    } else {
        push_item(&mut t, raw(halign_str(h)));
        push_item(&mut t, raw(valign_str(v)));
        assert(trees(t@) =~= seq![Tree::Raw(halign_token(h)), Tree::Raw(valign_token(v))]);
    }
    node("justify", t)
}

/// A net, global, hierarchical or power label.
pub fn label_node(l: &Label) -> (e: SExpr)
    ensures
        tree_of(e) == label_tree(*l),
{
    let mut v: Vec<SExpr> = Vec::new();
    push_item(&mut v, atom(&l.text));
    if !l.shape.as_str().is_empty() {
        let mut sh: Vec<SExpr> = Vec::new();
        push_item(&mut sh, raw(l.shape.as_str()));
        assert(trees(sh@) =~= seq![Tree::Raw(l.shape@)]);
        push_item(&mut v, node("shape", sh));
    }
    let ghost head = trees(v@);
    assert(head =~= seq![Tree::Quoted(l.text@)] + (if l.shape@.len() == 0 {
        Seq::<Tree>::empty()
    } else {
        seq![node_tree("shape"@, seq![Tree::Raw(l.shape@)])]
    }));
    push_item(&mut v, at_coord(l.position.x, l.position.y, Some(l.rotation)));
    let mut ex: Vec<SExpr> = Vec::new();
    push_item(&mut ex, label_justify_node(l.justify, l.justify_v));
    assert(trees(ex@) =~= seq![label_justify_tree(l.justify, l.justify_v)]);
    push_item(&mut v, effects_node(l.font_size, None, false, false, ex));
    push_item(&mut v, uuid_node(l.uuid));
    assert(trees(v@) =~= head + seq![
        at_tree(l.position.x as int, l.position.y as int, Some(l.rotation as int)),
        effects_tree(l.font_size as int, None, false, false, seq![label_justify_tree(l.justify, l.justify_v)]),
        uuid_tree(l.uuid),
    ]);
    node(label_type_keyword(l.label_type), v)
}


// ---------------------------------------------------------------------------
// Drawings
// ---------------------------------------------------------------------------

/// `alphas[a]` is how KiCad writes alpha byte `a`: the fraction `a / 255`
/// in the shortest decimal form that reads back as that float. Computing
/// it is floating-point formatting, which the caller supplies.
pub open spec fn alpha_table(alphas: Seq<String>) -> bool {
    alphas.len() == 256
}

pub open spec fn color_quad_tree(c: StrokeColor, alphas: Seq<String>) -> Tree {
    node_tree(
        "color"@,
        seq![
            Tree::Raw(decimal(c.r as nat)),
            Tree::Raw(decimal(c.g as nat)),
            Tree::Raw(decimal(c.b as nat)),
            Tree::Raw(alphas[c.a as int]@),
        ],
    )
}

pub open spec fn stroke_colored_tree(width: int, color: Option<StrokeColor>, alphas: Seq<String>) -> Tree {
    node_tree(
        "stroke"@,
        seq![node_tree("width"@, seq![num(width)]), node_tree("type"@, seq![Tree::Raw("default"@)])] + match color {
            Some(c) => seq![color_quad_tree(c, alphas)],
            None => Seq::empty(),
        },
    )
}

fn color_quad_node(c: StrokeColor, alphas: &Vec<String>) -> (e: SExpr)
    requires
        alpha_table(alphas@),
    ensures
        tree_of(e) == color_quad_tree(c, alphas@),
{
    let mut q: Vec<SExpr> = Vec::new();
    push_item(&mut q, atom(c.r));
    push_item(&mut q, atom(c.g));
    push_item(&mut q, atom(c.b));
    push_item(&mut q, raw(alphas[c.a as usize].as_str()));
    assert(trees(q@) =~= seq![
        Tree::Raw(decimal(c.r as nat)),
        Tree::Raw(decimal(c.g as nat)),
        Tree::Raw(decimal(c.b as nat)),
        Tree::Raw(alphas@[c.a as int]@),
    ]);
    node("color", q)
}

/// `(stroke (width W) (type default) [(color R G B A)])`.
pub fn stroke_colored_node(width: i64, color: Option<StrokeColor>, alphas: &Vec<String>) -> (e: SExpr)
    requires
        alpha_table(alphas@),
    ensures
        tree_of(e) == stroke_colored_tree(width as int, color, alphas@),
{
    let mut v: Vec<SExpr> = Vec::new();
    push_item(&mut v, crate::kicad_pcb::num_node("width", width as i128));
    push_item(&mut v, crate::kicad_pcb::token_node("type", "default"));
    let ghost head = trees(v@);
    assert(head =~= seq![node_tree("width"@, seq![num(width as int)]), node_tree("type"@, seq![Tree::Raw("default"@)])]);
    if let Some(c) = color {
        push_item(&mut v, color_quad_node(c, alphas));
    }
    assert(trees(v@) =~= head + match color {
        Some(c) => seq![color_quad_tree(c, alphas@)],
        None => Seq::<Tree>::empty(),
    });
    node("stroke", v)
}

pub open spec fn drawing_tree(d: SchDrawing, alphas: Seq<String>) -> Tree {
    match d {
        SchDrawing::Line { uuid, start, end, width, stroke_color } => node_tree(
            "polyline"@,
            seq![pts_tree(seq![start, end]), stroke_colored_tree(width as int, stroke_color, alphas), uuid_tree(uuid)],
        ),
        SchDrawing::Polyline { uuid, points, width, fill, stroke_color } => node_tree(
            "polyline"@,
            seq![
                pts_tree(points@),
                stroke_colored_tree(width as int, stroke_color, alphas),
                fill_tree(fill),
                uuid_tree(uuid),
            ],
        ),
        SchDrawing::Circle { uuid, center, radius, width, fill, stroke_color } => node_tree(
            "circle"@,
            seq![
                node_tree("center"@, xy_kids(center)),
                node_tree("radius"@, seq![num(radius as int)]),
                stroke_colored_tree(width as int, stroke_color, alphas),
                fill_tree(fill),
                uuid_tree(uuid),
            ],
        ),
        SchDrawing::Arc { uuid, start, mid, end, width, fill, stroke_color } => node_tree(
            "arc"@,
            seq![
                node_tree("start"@, xy_kids(start)),
                node_tree("mid"@, xy_kids(mid)),
                node_tree("end"@, xy_kids(end)),
                stroke_colored_tree(width as int, stroke_color, alphas),
                fill_tree(fill),
                uuid_tree(uuid),
            ],
        ),
        SchDrawing::Rect { uuid, start, end, width, fill, stroke_color } => node_tree(
            "rectangle"@,
            seq![
                node_tree("start"@, xy_kids(start)),
                node_tree("end"@, xy_kids(end)),
                stroke_colored_tree(width as int, stroke_color, alphas),
                fill_tree(fill),
                uuid_tree(uuid),
            ],
        ),
    }
}

/// `(keyword lead... (stroke ...) [(fill ...)] (uuid ...))`.
fn drawing_shape_node(
    keyword: &str,
    lead: Vec<SExpr>,
    width: i64,
    color: Option<StrokeColor>,
    fill: Option<FillType>,
    uuid: u128,
    alphas: &Vec<String>,
) -> (e: SExpr)
    requires
        alpha_table(alphas@),
    ensures
        tree_of(e) == node_tree(
            keyword@,
            trees(lead@) + seq![stroke_colored_tree(width as int, color, alphas@)] + match fill {
                Some(f) => seq![fill_tree(f)],
                None => Seq::empty(),
            } + seq![uuid_tree(uuid)],
        ),
{
    let mut v = lead;
    let ghost l = trees(v@);
    push_item(&mut v, stroke_colored_node(width, color, alphas));
    let ghost s = trees(v@);
    if let Some(f) = fill {
        push_item(&mut v, fill_type_node(f));
    }
    assert(trees(v@) =~= s + match fill {
        Some(f) => seq![fill_tree(f)],
        None => Seq::<Tree>::empty(),
    });
    push_item(&mut v, uuid_node(uuid));
    assert(trees(v@) =~= l + seq![stroke_colored_tree(width as int, color, alphas@)] + match fill {
        Some(f) => seq![fill_tree(f)],
        None => Seq::<Tree>::empty(),
    } + seq![uuid_tree(uuid)]);
    node(keyword, v)
}

fn line_drawing_node(uuid: u128, start: Vec2, end: Vec2, width: i64, color: Option<StrokeColor>, alphas: &Vec<String>) -> (e: SExpr)
    requires
        alpha_table(alphas@),
    ensures
        tree_of(e) == node_tree(
            "polyline"@,
            seq![pts_tree(seq![start, end]), stroke_colored_tree(width as int, color, alphas@), uuid_tree(uuid)],
        ),
{
    let mut pts: Vec<Vec2> = Vec::new();
    pts.push(start);
    pts.push(end);
    assert(pts@ =~= seq![start, end]);
    let mut lead: Vec<SExpr> = Vec::new();
    push_item(&mut lead, pts_node(pts.as_slice()));
    let ghost l = trees(lead@);
    let e = drawing_shape_node("polyline", lead, width, color, None, uuid, alphas);
    assert(l + seq![stroke_colored_tree(width as int, color, alphas@)] + Seq::<Tree>::empty() + seq![uuid_tree(uuid)]
        =~= seq![pts_tree(seq![start, end]), stroke_colored_tree(width as int, color, alphas@), uuid_tree(uuid)]);
    e
}

fn polyline_drawing_node(
    uuid: u128,
    points: &Vec<Vec2>,
    width: i64,
    fill: FillType,
    color: Option<StrokeColor>,
    alphas: &Vec<String>,
) -> (e: SExpr)
    requires
        alpha_table(alphas@),
    ensures
        tree_of(e) == node_tree(
            "polyline"@,
            seq![pts_tree(points@), stroke_colored_tree(width as int, color, alphas@), fill_tree(fill), uuid_tree(uuid)],
        ),
{
    let mut lead: Vec<SExpr> = Vec::new();
    push_item(&mut lead, pts_node(points.as_slice()));
    let ghost l = trees(lead@);
    let e = drawing_shape_node("polyline", lead, width, color, Some(fill), uuid, alphas);
    assert(l + seq![stroke_colored_tree(width as int, color, alphas@)] + seq![fill_tree(fill)] + seq![uuid_tree(uuid)]
        =~= seq![pts_tree(points@), stroke_colored_tree(width as int, color, alphas@), fill_tree(fill), uuid_tree(uuid)]);
    e
}

fn circle_drawing_node(
    uuid: u128,
    center: Vec2,
    radius: i64,
    width: i64,
    fill: FillType,
    color: Option<StrokeColor>,
    alphas: &Vec<String>,
) -> (e: SExpr)
    requires
        alpha_table(alphas@),
    ensures
        tree_of(e) == node_tree(
            "circle"@,
            seq![
                node_tree("center"@, xy_kids(center)),
                node_tree("radius"@, seq![num(radius as int)]),
                stroke_colored_tree(width as int, color, alphas@),
                fill_tree(fill),
                uuid_tree(uuid),
            ],
        ),
{
    let mut lead: Vec<SExpr> = Vec::new();
    push_item(&mut lead, point_node("center", center.x as i128, center.y as i128));
    push_item(&mut lead, crate::kicad_pcb::num_node("radius", radius as i128));
    let ghost l = trees(lead@);
    let e = drawing_shape_node("circle", lead, width, color, Some(fill), uuid, alphas);
    assert(l + seq![stroke_colored_tree(width as int, color, alphas@)] + seq![fill_tree(fill)] + seq![uuid_tree(uuid)]
        =~= seq![
        node_tree("center"@, xy_kids(center)),
        node_tree("radius"@, seq![num(radius as int)]),
        stroke_colored_tree(width as int, color, alphas@),
        fill_tree(fill),
        uuid_tree(uuid),
    ]);
    e
}

fn arc_drawing_node(
    uuid: u128,
    start: Vec2,
    mid: Vec2,
    end: Vec2,
    width: i64,
    fill: FillType,
    color: Option<StrokeColor>,
    alphas: &Vec<String>,
) -> (e: SExpr)
    requires
        alpha_table(alphas@),
    ensures
        tree_of(e) == node_tree(
            "arc"@,
            seq![
                node_tree("start"@, xy_kids(start)),
                node_tree("mid"@, xy_kids(mid)),
                node_tree("end"@, xy_kids(end)),
                stroke_colored_tree(width as int, color, alphas@),
                fill_tree(fill),
                uuid_tree(uuid),
            ],
        ),
{
    let mut lead: Vec<SExpr> = Vec::new();
    push_item(&mut lead, point_node("start", start.x as i128, start.y as i128));
    push_item(&mut lead, point_node("mid", mid.x as i128, mid.y as i128));
    push_item(&mut lead, point_node("end", end.x as i128, end.y as i128));
    let ghost l = trees(lead@);
    let e = drawing_shape_node("arc", lead, width, color, Some(fill), uuid, alphas);
    assert(l + seq![stroke_colored_tree(width as int, color, alphas@)] + seq![fill_tree(fill)] + seq![uuid_tree(uuid)]
        =~= seq![
        node_tree("start"@, xy_kids(start)),
        node_tree("mid"@, xy_kids(mid)),
        node_tree("end"@, xy_kids(end)),
        stroke_colored_tree(width as int, color, alphas@),
        fill_tree(fill),
        uuid_tree(uuid),
    ]);
    e
}

fn rect_drawing_node(
    uuid: u128,
    start: Vec2,
    end: Vec2,
    width: i64,
    fill: FillType,
    color: Option<StrokeColor>,
    alphas: &Vec<String>,
) -> (e: SExpr)
    requires
        alpha_table(alphas@),
    ensures
        tree_of(e) == node_tree(
            "rectangle"@,
            seq![
                node_tree("start"@, xy_kids(start)),
                node_tree("end"@, xy_kids(end)),
                stroke_colored_tree(width as int, color, alphas@),
                fill_tree(fill),
                uuid_tree(uuid),
            ],
        ),
{
    let mut lead: Vec<SExpr> = Vec::new();
    push_item(&mut lead, point_node("start", start.x as i128, start.y as i128));
    push_item(&mut lead, point_node("end", end.x as i128, end.y as i128));
    let ghost l = trees(lead@);
    let e = drawing_shape_node("rectangle", lead, width, color, Some(fill), uuid, alphas);
    assert(l + seq![stroke_colored_tree(width as int, color, alphas@)] + seq![fill_tree(fill)] + seq![uuid_tree(uuid)]
        =~= seq![
        node_tree("start"@, xy_kids(start)),
        node_tree("end"@, xy_kids(end)),
        stroke_colored_tree(width as int, color, alphas@),
        fill_tree(fill),
        uuid_tree(uuid),
    ]);
    e
}

/// A free drawing of the sheet with its stroke (and its colour, when it
/// has one), fill and UUID; a line is written as a two-point polyline.
pub fn drawing_node(d: &SchDrawing, alphas: &Vec<String>) -> (e: SExpr)
    requires
        alpha_table(alphas@),
    ensures
        tree_of(e) == drawing_tree(*d, alphas@),
{
    match d {
        SchDrawing::Line { uuid, start, end, width, stroke_color } => {
            line_drawing_node(*uuid, *start, *end, *width, *stroke_color, alphas)
        },
        SchDrawing::Polyline { uuid, points, width, fill, stroke_color } => {
            polyline_drawing_node(*uuid, points, *width, *fill, *stroke_color, alphas)
        },
        SchDrawing::Circle { uuid, center, radius, width, fill, stroke_color } => {
            circle_drawing_node(*uuid, *center, *radius, *width, *fill, *stroke_color, alphas)
        },
        SchDrawing::Arc { uuid, start, mid, end, width, fill, stroke_color } => {
            arc_drawing_node(*uuid, *start, *mid, *end, *width, *fill, *stroke_color, alphas)
        },
        SchDrawing::Rect { uuid, start, end, width, fill, stroke_color } => {
            rect_drawing_node(*uuid, *start, *end, *width, *fill, *stroke_color, alphas)
        },
    }
}


// ---------------------------------------------------------------------------
// Child sheets
// ---------------------------------------------------------------------------

/// The alpha text of a fill colour (none without a colour).
pub open spec fn fill_alpha(color: Option<StrokeColor>, alphas: Seq<String>) -> Seq<char> {
    match color {
        Some(c) => alphas[c.a as int]@,
        None => Seq::empty(),
    }
}

pub open spec fn sheet_property_tree(
    key: Seq<char>,
    value: Seq<char>,
    id: u32,
    x: int,
    y: int,
    h: Seq<char>,
    v: Seq<char>,
) -> Tree {
    node_tree(
        "property"@,
        seq![
            Tree::Quoted(key),
            Tree::Quoted(value),
            node_tree("id"@, seq![Tree::Raw(decimal(id as nat))]),
            at_tree(x, y, Some(0)),
            flag_tree("show_name"@, false),
            flag_tree("do_not_autoplace"@, false),
            effects_tree(
                SCHEMATIC_TEXT_NM as int,
                None,
                false,
                false,
                seq![node_tree("justify"@, seq![Tree::Raw(h), Tree::Raw(v)])],
            ),
        ],
    )
}

pub open spec fn sheet_pin_tree(p: SheetPin) -> Tree {
    node_tree(
        "pin"@,
        seq![
            Tree::Quoted(p.name@),
            Tree::Raw(p.direction@),
            at_tree(p.position.x as int, p.position.y as int, Some(p.rotation as int)),
            effects_tree(SCHEMATIC_TEXT_NM as int, None, false, false, seq![node_tree("justify"@, seq![Tree::Raw("left"@)])]),
            uuid_tree(p.uuid),
        ],
    )
}

/// Frame, size, the autoplaced flag, stroke, fill and UUID.
pub open spec fn child_sheet_head_kids(cs: ChildSheet, alphas: Seq<String>) -> Seq<Tree> {
    seq![
        at_tree(cs.position.x as int, cs.position.y as int, None),
        node_tree("size"@, seq![num(cs.size.0 as int), num(cs.size.1 as int)]),
    ] + (if cs.fields_autoplaced {
        seq![node_tree("fields_autoplaced"@, Seq::empty())]
    } else {
        Seq::empty()
    }) + seq![
        stroke_colored_tree(cs.stroke_width as int, cs.stroke_color, alphas),
        sheet_fill_tree(cs.fill, cs.fill_color, fill_alpha(cs.fill_color, alphas)),
        uuid_tree(cs.uuid),
    ]
}

/// The name property 1 mm above the frame, the file property 1 mm below.
pub open spec fn child_sheet_property_kids(cs: ChildSheet) -> Seq<Tree> {
    seq![
        sheet_property_tree("Sheet name"@, cs.name@, 0, cs.position.x as int, cs.position.y - 1_000_000, "left"@, "bottom"@),
        sheet_property_tree(
            "Sheet file"@,
            cs.filename@,
            1,
            cs.position.x as int,
            cs.position.y + cs.size.1 + 1_000_000,
            "left"@,
            "top"@,
        ),
    ]
}

pub open spec fn sheet_pin_trees(pins: Seq<SheetPin>) -> Seq<Tree> {
    Seq::new(pins.len(), |k: int| sheet_pin_tree(pins[k]))
}

pub open spec fn sheet_instance_kids(v: Seq<SheetInstance>) -> Seq<Tree> {
    if v.len() == 0 {
        Seq::empty()
    } else {
        seq![sheet_instances_spec(v)]
    }
}

pub open spec fn child_sheet_tree(cs: ChildSheet, alphas: Seq<String>) -> Tree {
    node_tree(
        "sheet"@,
        child_sheet_head_kids(cs, alphas) + child_sheet_property_kids(cs) + sheet_pin_trees(cs.pins@)
            + sheet_instance_kids(cs.instances@),
    )
}

/// `(at X Y ROT)` for wide values.
fn at_wide(x: i128, y: i128, rotation: i128) -> (e: SExpr)
    ensures
        tree_of(e) == at_tree(x as int, y as int, Some(rotation as int)),
{
    let mut v: Vec<SExpr> = Vec::new();
    push_item(&mut v, fixed_atom(x));
    push_item(&mut v, fixed_atom(y));
    push_item(&mut v, fixed_atom(rotation));
    assert(trees(v@) =~= seq![num(x as int), num(y as int)] + seq![num(rotation as int)]);
    node("at", v)
}

/// `(justify A [B])`.
fn justify_node(a: &str, b: Option<&str>) -> (e: SExpr)
    ensures
        tree_of(e) == node_tree("justify"@, seq![Tree::Raw(a@)] + match b {
            Some(t) => seq![Tree::Raw(t@)],
            None => Seq::empty(),
        }),
{
    let mut v: Vec<SExpr> = Vec::new();
    push_item(&mut v, raw(a));
    if let Some(t) = b {
        push_item(&mut v, raw(t));
    }
    assert(trees(v@) =~= seq![Tree::Raw(a@)] + match b {
        Some(t) => seq![Tree::Raw(t@)],
        None => Seq::<Tree>::empty(),
    });
    node("justify", v)
}

fn sheet_property_node(key: &str, value: &str, id: u32, x: i128, y: i128, h: &str, v: &str) -> (e: SExpr)
    ensures
        tree_of(e) == sheet_property_tree(key@, value@, id, x as int, y as int, h@, v@),
{
    let mut ex: Vec<SExpr> = Vec::new();
    assert(seq![Tree::Raw(h@)] + seq![Tree::Raw(v@)] =~= seq![Tree::Raw(h@), Tree::Raw(v@)]);
    let j = justify_node(h, Some(v));
    assert(tree_of(j) == node_tree("justify"@, seq![Tree::Raw(h@), Tree::Raw(v@)]));
    push_item(&mut ex, j);
    assert(trees(ex@) =~= seq![node_tree("justify"@, seq![Tree::Raw(h@), Tree::Raw(v@)])]);
    let mut items: Vec<SExpr> = Vec::new();
    push_item(&mut items, atom(key));
    push_item(&mut items, atom(value));
    push_item(&mut items, count_node("id", id));
    push_item(&mut items, at_wide(x, y, 0));
    push_item(&mut items, yes_no_node("show_name", false));
    push_item(&mut items, yes_no_node("do_not_autoplace", false));
    push_item(&mut items, effects_node(SCHEMATIC_TEXT_NM, None, false, false, ex));
    assert(trees(items@) =~= seq![
        Tree::Quoted(key@),
        Tree::Quoted(value@),
        node_tree("id"@, seq![Tree::Raw(decimal(id as nat))]),
        at_tree(x as int, y as int, Some(0)),
        flag_tree("show_name"@, false),
        flag_tree("do_not_autoplace"@, false),
        effects_tree(SCHEMATIC_TEXT_NM as int, None, false, false, seq![node_tree("justify"@, seq![Tree::Raw(h@), Tree::Raw(v@)])]),
    ]);
    node("property", items)
}

/// A hierarchical pin on a child sheet.
pub fn sheet_pin_node(p: &SheetPin) -> (e: SExpr)
    ensures
        tree_of(e) == sheet_pin_tree(*p),
{
    let mut ex: Vec<SExpr> = Vec::new();
    push_item(&mut ex, justify_node("left", None));
    assert(trees(ex@) =~= seq![node_tree("justify"@, seq![Tree::Raw("left"@)])]);
    assert(seq![Tree::Raw("left"@)] + Seq::<Tree>::empty() =~= seq![Tree::Raw("left"@)]);
    let mut items: Vec<SExpr> = Vec::new();
    push_item(&mut items, atom(&p.name));
    push_item(&mut items, raw(p.direction.as_str()));
    push_item(&mut items, at_coord(p.position.x, p.position.y, Some(p.rotation)));
    push_item(&mut items, effects_node(SCHEMATIC_TEXT_NM, None, false, false, ex));
    push_item(&mut items, uuid_node(p.uuid));
    assert(trees(items@) =~= seq![
        Tree::Quoted(p.name@),
        Tree::Raw(p.direction@),
        at_tree(p.position.x as int, p.position.y as int, Some(p.rotation as int)),
        effects_tree(SCHEMATIC_TEXT_NM as int, None, false, false, seq![node_tree("justify"@, seq![Tree::Raw("left"@)])]),
        uuid_tree(p.uuid),
    ]);
    node("pin", items)
}

fn child_sheet_head(cs: &ChildSheet, alphas: &Vec<String>) -> (v: Vec<SExpr>)
    requires
        alpha_table(alphas@),
    ensures
        trees(v@) == child_sheet_head_kids(*cs, alphas@),
{
    let mut v: Vec<SExpr> = Vec::new();
    push_item(&mut v, at_coord(cs.position.x, cs.position.y, None));
    push_item(&mut v, point_node("size", cs.size.0 as i128, cs.size.1 as i128));
    let ghost two = trees(v@);
    if cs.fields_autoplaced {
        let none: Vec<SExpr> = Vec::new();
        assert(trees(none@) =~= Seq::<Tree>::empty());
        push_item(&mut v, node("fields_autoplaced", none));
    }
    let ghost three = trees(v@);
    assert(three =~= two + (if cs.fields_autoplaced {
        seq![node_tree("fields_autoplaced"@, Seq::<Tree>::empty())]
    } else {
        Seq::<Tree>::empty()
    }));
    push_item(&mut v, stroke_colored_node(cs.stroke_width, cs.stroke_color, alphas));
    let alpha: &str = match cs.fill_color {
        Some(c) => alphas[c.a as usize].as_str(),
        None => "",
    };
    proof {
        reveal_strlit("");
    }
    assert(alpha@ == fill_alpha(cs.fill_color, alphas@));
    push_item(&mut v, sheet_fill_node(cs.fill, cs.fill_color, alpha));
    push_item(&mut v, uuid_node(cs.uuid));
    assert(trees(v@) =~= three + seq![
        stroke_colored_tree(cs.stroke_width as int, cs.stroke_color, alphas@),
        sheet_fill_tree(cs.fill, cs.fill_color, fill_alpha(cs.fill_color, alphas@)),
        uuid_tree(cs.uuid),
    ]);
    v
}

fn child_sheet_property_items(cs: &ChildSheet) -> (v: Vec<SExpr>)
    ensures
        trees(v@) == child_sheet_property_kids(*cs),
{
    let x = cs.position.x as i128;
    let y = cs.position.y as i128;
    let mut items: Vec<SExpr> = Vec::new();
    push_item(&mut items, sheet_property_node("Sheet name", cs.name.as_str(), 0, x, y - 1_000_000, "left", "bottom"));
    push_item(&mut items, sheet_property_node("Sheet file", cs.filename.as_str(), 1, x, y + cs.size.1 as i128 + 1_000_000, "left", "top"));
    assert(trees(items@) =~= child_sheet_property_kids(*cs));
    items
}

fn sheet_pin_items(pins: &Vec<SheetPin>) -> (v: Vec<SExpr>)
    ensures
        trees(v@) == sheet_pin_trees(pins@),
{
    let mut items: Vec<SExpr> = Vec::new();
    let mut i: usize = 0;
    while i < pins.len()
        invariant
            i <= pins@.len(),
            trees(items@) == Seq::new(i as nat, |k: int| sheet_pin_tree(pins@[k])),
        decreases pins@.len() - i,
    {
        push_item(&mut items, sheet_pin_node(&pins[i]));
        assert(trees(items@) =~= Seq::new((i + 1) as nat, |k: int| sheet_pin_tree(pins@[k])));
        i += 1;
    }
    items
}

fn sheet_instance_items(instances: &Vec<SheetInstance>) -> (v: Vec<SExpr>)
    ensures
        trees(v@) == sheet_instance_kids(instances@),
{
    let mut items: Vec<SExpr> = Vec::new();
    if let Some(inst) = sheet_instances_node(instances.as_slice()) {
        push_item(&mut items, inst);
    }
    assert(trees(items@) =~= (if instances@.len() == 0 {
        Seq::<Tree>::empty()
    } else {
        seq![sheet_instances_spec(instances@)]
    }));
    items
}

/// A child sheet: frame, stroke and fill, its name and file properties
/// (above and below the frame), its pins and its instances.
pub fn child_sheet_node(cs: &ChildSheet, alphas: &Vec<String>) -> (e: SExpr)
    requires
        alpha_table(alphas@),
    ensures
        tree_of(e) == child_sheet_tree(*cs, alphas@),
{
    let mut items = child_sheet_head(cs, alphas);
    let ghost head = trees(items@);
    extend_items(&mut items, child_sheet_property_items(cs));
    let ghost props = trees(items@);
    let pv = sheet_pin_items(&cs.pins);
    let iv = sheet_instance_items(&cs.instances);
    let ghost p = trees(pv@);
    let ghost q = trees(iv@);
    extend_items(&mut items, pv);
    extend_items(&mut items, iv);
    assert(trees(items@) == props + p + q);
    node("sheet", items)
}


// ---------------------------------------------------------------------------
// Symbol properties
// ---------------------------------------------------------------------------

/// Text of a symbol field with no placement of its own: at the symbol,
/// upright, default size, centred.
pub open spec fn default_text(position: Vec2, hidden: bool) -> TextProp {
    TextProp {
        position,
        rotation: 0,
        font_size: SCHEMATIC_TEXT_NM,
        justify_h: HAlign::Center,
        justify_v: VAlign::Center,
        hidden,
    }
}

/// The default text of a symbol field.
pub fn default_symbol_property_text(position: Vec2, hidden: bool) -> (t: TextProp)
    ensures
        t == default_text(position, hidden),
{
    TextProp {
        position,
        rotation: 0,
        font_size: SCHEMATIC_TEXT_NM,
        justify_h: HAlign::Center,
        justify_v: VAlign::Center,
        hidden,
    }
}

pub open spec fn property_kids(
    key: Seq<char>,
    value: Seq<char>,
    t: TextProp,
    show_name: bool,
    do_not_autoplace: bool,
    id: Option<u32>,
) -> Seq<Tree> {
    seq![
        Tree::Quoted(key),
        Tree::Quoted(value),
        at_tree(t.position.x as int, t.position.y as int, Some(t.rotation as int)),
        flag_tree("show_name"@, show_name),
        flag_tree("do_not_autoplace"@, do_not_autoplace),
    ] + match id {
        Some(n) => seq![node_tree("id"@, seq![Tree::Raw(decimal(n as nat))])],
        None => Seq::empty(),
    } + (if t.hidden {
        seq![hide_tree()]
    } else {
        Seq::empty()
    }) + seq![text_effects_tree(t.font_size as int, false, false, t.justify_h, t.justify_v)]
}

#[verifier::spinoff_prover]
fn property_items(
    key: &str,
    value: &str,
    t: &TextProp,
    show_name: bool,
    do_not_autoplace: bool,
    id: Option<u32>,
) -> (v: Vec<SExpr>)
    ensures
        trees(v@) == property_kids(key@, value@, *t, show_name, do_not_autoplace, id),
{
    let mut items: Vec<SExpr> = Vec::new();
    push_item(&mut items, atom(key));
    push_item(&mut items, atom(value));
    push_item(&mut items, at_coord(t.position.x, t.position.y, Some(t.rotation)));
    push_item(&mut items, yes_no_node("show_name", show_name));
    push_item(&mut items, yes_no_node("do_not_autoplace", do_not_autoplace));
    let ghost five = trees(items@);
    if let Some(n) = id {
        push_item(&mut items, count_node("id", n));
    }
    let ghost six = trees(items@);
    assert(six =~= five + match id {
        Some(n) => seq![node_tree("id"@, seq![Tree::Raw(decimal(n as nat))])],
        None => Seq::<Tree>::empty(),
    });
    if t.hidden {
        push_item(&mut items, crate::sexpr::hide_yes_node());
    }
    let ghost seven = trees(items@);
    assert(seven =~= six + (if t.hidden {
        seq![hide_tree()]
    } else {
        Seq::<Tree>::empty()
    }));
    push_item(&mut items, text_effects_node(t.font_size, false, false, t.justify_h, t.justify_v));
    assert(trees(items@) =~= seven + seq![text_effects_tree(t.font_size as int, false, false, t.justify_h, t.justify_v)]);
    assert(five =~= seq![
        Tree::Quoted(key@),
        Tree::Quoted(value@),
        at_tree(t.position.x as int, t.position.y as int, Some(t.rotation as int)),
        flag_tree("show_name"@, show_name),
        flag_tree("do_not_autoplace"@, do_not_autoplace),
    ]);
    items
}

/// A symbol property: key and value, placement, name display and
/// autoplacement flags, its id when it has one, the hidden flag and the
/// text effects.
pub fn schematic_property_node(
    key: &str,
    value: &str,
    text: &TextProp,
    show_name: bool,
    do_not_autoplace: bool,
    id: Option<u32>,
) -> (e: SExpr)
    ensures
        tree_of(e) == node_tree("property"@, property_kids(key@, value@, *text, show_name, do_not_autoplace, id)),
{
    node("property", property_items(key, value, text, show_name, do_not_autoplace, id))
}

pub open spec fn all_kept(n: nat) -> Seq<bool> {
    Seq::new(n, |i: int| true)
}

pub open spec fn pair_names(es: Seq<(Seq<char>, Seq<char>)>) -> Seq<Seq<char>> {
    es.map_values(|e: (Seq<char>, Seq<char>)| e.0)
}

/// `(variants (variant "NAME" "VALUE")...)` in name order, when there are
/// any.
pub open spec fn variant_kids(es: Seq<(Seq<char>, Seq<char>)>) -> Seq<Tree> {
    if es.len() == 0 {
        Seq::empty()
    } else {
        let ord = key_order(pair_names(es), all_kept(es.len()));
        seq![
            node_tree(
                "variants"@,
                Seq::new(ord.len(), |m: int| node_tree("variant"@, seq![Tree::Quoted(es[ord[m]].0), Tree::Quoted(es[ord[m]].1)])),
            ),
        ]
    }
}

pub open spec fn option_or_false(b: Option<bool>) -> bool {
    match b {
        Some(v) => v,
        None => false,
    }
}

pub open spec fn custom_property_tree(p: SchematicProperty, fallback: Vec2) -> Tree {
    node_tree(
        "property"@,
        property_kids(
            p.key@,
            p.value@,
            match p.text {
                Some(t) => t,
                None => default_text(fallback, true),
            },
            option_or_false(p.show_name),
            option_or_false(p.do_not_autoplace),
            p.id,
        ) + variant_kids(p.variant_overrides.entries_view()),
    )
}

/// The names of `v`'s pairs, as character vectors.
fn pair_keys<V>(v: &Vec<(String, V)>) -> (r: Vec<Vec<char>>)
    ensures
        char_seqs(r@) == v@.map_values(|e: (String, V)| e.0@),
{
    let mut r: Vec<Vec<char>> = Vec::new();
    let mut i: usize = 0;
    while i < v.len()
        invariant
            i <= v@.len(),
            char_seqs(r@) == v@.map_values(|e: (String, V)| e.0@).take(i as int),
        decreases v.len() - i,
    {
        let ghost before = r@;
        r.push(chars_of(v[i].0.as_str()));
        assert(char_seqs(r@) =~= char_seqs(before).push(v@[i as int].0@));
        assert(v@.map_values(|e: (String, V)| e.0@).take(i + 1) =~= v@.map_values(|e: (String, V)| e.0@).take(
            i as int,
        ).push(v@[i as int].0@));
        i += 1;
    }
    assert(v@.map_values(|e: (String, V)| e.0@).take(i as int) =~= v@.map_values(|e: (String, V)| e.0@));
    r
}

fn keep_all(n: usize) -> (r: Vec<bool>)
    ensures
        r@ == all_kept(n as nat),
{
    let mut r: Vec<bool> = Vec::new();
    let mut i: usize = 0;
    while i < n
        invariant
            i <= n,
            r@ == all_kept(i as nat),
        decreases n - i,
    {
        r.push(true);
        assert(r@ =~= all_kept((i + 1) as nat));
        i += 1;
    }
    r
}

fn variant_items(m: &VarMap) -> (v: Vec<SExpr>)
    ensures
        trees(v@) == variant_kids(m.entries_view()),
{
    let entries = m.entries();
    let ghost es = m.entries_view();
    let mut out: Vec<SExpr> = Vec::new();
    if entries.len() == 0 {
        assert(trees(out@) =~= variant_kids(es));
        return out;
    }
    let keys = pair_keys(entries);
    assert(char_seqs(keys@) =~= pair_names(es));
    let keep = keep_all(entries.len());
    let idx = key_positions(&keys, &keep);
    let ghost ord = key_order(pair_names(es), all_kept(es.len()));
    let mut kids: Vec<SExpr> = Vec::new();
    let mut k: usize = 0;
    while k < idx.len()
        invariant
            k <= idx@.len(),
            es == m.entries_view(),
            es == entries@.map_values(|e: (String, String)| (e.0@, e.1@)),
            usizes(idx@) == ord,
            forall|j: int| 0 <= j < idx@.len() ==> #[trigger] idx@[j] < entries@.len(),
            trees(kids@) == Seq::new(k as nat, |j: int| node_tree("variant"@, seq![Tree::Quoted(es[ord[j]].0), Tree::Quoted(es[ord[j]].1)])),
        decreases idx.len() - k,
    {
        let pos = idx[k];
        assert(ord[k as int] == pos as int);
        let mut pair: Vec<SExpr> = Vec::new();
        push_item(&mut pair, atom(&entries[pos].0));
        push_item(&mut pair, atom(&entries[pos].1));
        assert(trees(pair@) =~= seq![Tree::Quoted(es[ord[k as int]].0), Tree::Quoted(es[ord[k as int]].1)]);
        push_item(&mut kids, node("variant", pair));
        assert(trees(kids@) =~= Seq::new((k + 1) as nat, |j: int| node_tree("variant"@, seq![Tree::Quoted(es[ord[j]].0), Tree::Quoted(es[ord[j]].1)])));
        k += 1;
    }
    push_item(&mut out, node("variants", kids));
    assert(trees(out@) =~= variant_kids(es));
    out
}

/// A custom symbol property: its own text placement or, without one, a
/// hidden default at `fallback`; then its variant values, if any.
pub fn custom_property_node(property: &SchematicProperty, fallback: Vec2) -> (e: SExpr)
    ensures
        tree_of(e) == custom_property_tree(*property, fallback),
{
    let text = match property.text {
        Some(t) => t,
        None => default_symbol_property_text(fallback, true),
    };
    let show_name = match property.show_name {
        Some(b) => b,
        None => false,
    };
    let dna = match property.do_not_autoplace {
        Some(b) => b,
        None => false,
    };
    let mut items = property_items(property.key.as_str(), property.value.as_str(), &text, show_name, dna, property.id);
    extend_items(&mut items, variant_items(&property.variant_overrides));
    node("property", items)
}


// ---------------------------------------------------------------------------
// Placed symbols
// ---------------------------------------------------------------------------

pub open spec fn symbol_head_kids(s: Symbol) -> Seq<Tree> {
    seq![
        node_tree("lib_id"@, seq![Tree::Quoted(s.lib_id@)]),
        at_tree(s.position.x as int, s.position.y as int, Some(s.rotation as int)),
    ] + (if s.mirror_x {
        seq![node_tree("mirror"@, seq![Tree::Raw("x"@)])]
    } else {
        Seq::empty()
    }) + (if s.mirror_y {
        seq![node_tree("mirror"@, seq![Tree::Raw("y"@)])]
    } else {
        Seq::empty()
    }) + seq![node_tree("unit"@, seq![Tree::Raw(decimal(s.unit as nat))])] + (if s.locked {
        seq![node_tree("locked"@, Seq::empty())]
    } else {
        Seq::empty()
    }) + seq![
        flag_tree("exclude_from_sim"@, s.exclude_from_sim),
        flag_tree("in_bom"@, s.in_bom),
        flag_tree("on_board"@, s.on_board),
        flag_tree("dnp"@, s.dnp),
    ] + (if s.fields_autoplaced {
        seq![node_tree("fields_autoplaced"@, Seq::empty())]
    } else {
        Seq::empty()
    }) + seq![uuid_tree(s.uuid)]
}

/// Reference and Value (their own text, else a default that hides the
/// reference and shows the value), then hidden Footprint and Datasheet.
pub open spec fn symbol_field_kids(s: Symbol) -> Seq<Tree> {
    seq![
        node_tree(
            "property"@,
            property_kids(
                "Reference"@,
                s.reference@,
                match s.ref_text {
                    Some(t) => t,
                    None => default_text(s.position, true),
                },
                false,
                false,
                None,
            ),
        ),
        node_tree(
            "property"@,
            property_kids(
                "Value"@,
                s.value@,
                match s.val_text {
                    Some(t) => t,
                    None => default_text(s.position, false),
                },
                false,
                false,
                None,
            ),
        ),
        node_tree("property"@, property_kids("Footprint"@, s.footprint@, default_text(s.position, true), false, false, None)),
        node_tree("property"@, property_kids("Datasheet"@, s.datasheet@, default_text(s.position, true), false, false, None)),
    ]
}

pub open spec fn custom_keys(s: Symbol) -> Seq<Seq<char>> {
    s.custom_properties@.map_values(|p: SchematicProperty| p.key@)
}

/// The custom properties, by key (stable among equal keys).
pub open spec fn symbol_custom_kids(s: Symbol) -> Seq<Tree> {
    let ord = key_order(custom_keys(s), all_kept(s.custom_properties@.len()));
    Seq::new(ord.len(), |m: int| custom_property_tree(s.custom_properties@[ord[m]], s.position))
}

/// Which further fields are written: those no custom property names.
pub open spec fn extra_field_keep(s: Symbol) -> Seq<bool> {
    let names = pair_names(s.fields.entries_view());
    Seq::new(names.len(), |i: int| !custom_keys(s).contains(names[i]))
}

/// The further fields that no custom property names, by name, as hidden
/// properties at the symbol.
pub open spec fn symbol_extra_field_kids(s: Symbol) -> Seq<Tree> {
    let es = s.fields.entries_view();
    let ord = key_order(pair_names(es), extra_field_keep(s));
    Seq::new(
        ord.len(),
        |m: int|
            node_tree(
                "property"@,
                property_kids(es[ord[m]].0, es[ord[m]].1, default_text(s.position, true), false, false, None),
            ),
    )
}

pub open spec fn pin_numbers(v: Seq<(String, u128)>) -> Seq<Seq<char>> {
    v.map_values(|e: (String, u128)| e.0@)
}

/// `(pin "NUMBER" (uuid "..."))` for each pin, by number.
pub open spec fn symbol_pin_kids(s: Symbol) -> Seq<Tree> {
    let v = s.pin_uuids@;
    let ord = key_order(pin_numbers(v), all_kept(v.len()));
    Seq::new(ord.len(), |m: int| node_tree("pin"@, seq![Tree::Quoted(v[ord[m]].0@), uuid_tree(v[ord[m]].1)]))
}

pub open spec fn symbol_instance_kids(v: Seq<crate::schematic::SymbolInstance>) -> Seq<Tree> {
    if v.len() == 0 {
        Seq::empty()
    } else {
        seq![symbol_instances_spec(v)]
    }
}

pub open spec fn symbol_tree(s: Symbol) -> Tree {
    node_tree(
        "symbol"@,
        symbol_head_kids(s) + symbol_field_kids(s) + symbol_custom_kids(s) + symbol_extra_field_kids(s)
            + symbol_pin_kids(s) + symbol_instance_kids(s.instances@),
    )
}

fn flag_items(sym: &Symbol) -> (v: Vec<SExpr>)
    ensures
        trees(v@) == seq![
            flag_tree("exclude_from_sim"@, sym.exclude_from_sim),
            flag_tree("in_bom"@, sym.in_bom),
            flag_tree("on_board"@, sym.on_board),
            flag_tree("dnp"@, sym.dnp),
        ],
{
    let mut v: Vec<SExpr> = Vec::new();
    push_item(&mut v, yes_no_node("exclude_from_sim", sym.exclude_from_sim));
    push_item(&mut v, yes_no_node("in_bom", sym.in_bom));
    push_item(&mut v, yes_no_node("on_board", sym.on_board));
    push_item(&mut v, yes_no_node("dnp", sym.dnp));
    assert(trees(v@) =~= seq![
        flag_tree("exclude_from_sim"@, sym.exclude_from_sim),
        flag_tree("in_bom"@, sym.in_bom),
        flag_tree("on_board"@, sym.on_board),
        flag_tree("dnp"@, sym.dnp),
    ]);
    v
}

/// `(keyword)` when `set`, nothing otherwise.
fn bare_flag_items(keyword: &str, set: bool) -> (v: Vec<SExpr>)
    ensures
        trees(v@) == (if set {
            seq![node_tree(keyword@, Seq::empty())]
        } else {
            Seq::<Tree>::empty()
        }),
{
    let mut v: Vec<SExpr> = Vec::new();
    if set {
        let none: Vec<SExpr> = Vec::new();
        assert(trees(none@) =~= Seq::<Tree>::empty());
        push_item(&mut v, node(keyword, none));
    }
    assert(trees(v@) =~= (if set {
        seq![node_tree(keyword@, Seq::empty())]
    } else {
        Seq::<Tree>::empty()
    }));
    v
}

/// `(mirror AXIS)` when `set`, nothing otherwise.
fn mirror_items(axis: &str, set: bool) -> (v: Vec<SExpr>)
    ensures
        trees(v@) == (if set {
            seq![node_tree("mirror"@, seq![Tree::Raw(axis@)])]
        } else {
            Seq::<Tree>::empty()
        }),
{
    let mut v: Vec<SExpr> = Vec::new();
    if set {
        let mut a: Vec<SExpr> = Vec::new();
        push_item(&mut a, raw(axis));
        assert(trees(a@) =~= seq![Tree::Raw(axis@)]);
        push_item(&mut v, node("mirror", a));
    }
    assert(trees(v@) =~= (if set {
        seq![node_tree("mirror"@, seq![Tree::Raw(axis@)])]
    } else {
        Seq::<Tree>::empty()
    }));
    v
}

fn symbol_head_items(sym: &Symbol) -> (v: Vec<SExpr>)
    ensures
        trees(v@) == symbol_head_kids(*sym),
{
    let mut v: Vec<SExpr> = Vec::new();
    let mut lib: Vec<SExpr> = Vec::new();
    push_item(&mut lib, atom(&sym.lib_id));
    assert(trees(lib@) =~= seq![Tree::Quoted(sym.lib_id@)]);
    push_item(&mut v, node("lib_id", lib));
    push_item(&mut v, at_coord(sym.position.x, sym.position.y, Some(sym.rotation)));
    let ghost a = trees(v@);
    let mx = mirror_items("x", sym.mirror_x);
    let my = mirror_items("y", sym.mirror_y);
    proof {
        reveal_strlit("x");
        reveal_strlit("y");
    }
    let ghost (b, c) = (trees(mx@), trees(my@));
    extend_items(&mut v, mx);
    extend_items(&mut v, my);
    let mut unit: Vec<SExpr> = Vec::new();
    push_item(&mut unit, count_node("unit", sym.unit));
    let ghost d = trees(unit@);
    extend_items(&mut v, unit);
    let lk = bare_flag_items("locked", sym.locked);
    let ghost e = trees(lk@);
    extend_items(&mut v, lk);
    let fl = flag_items(sym);
    let ghost f = trees(fl@);
    extend_items(&mut v, fl);
    let fa = bare_flag_items("fields_autoplaced", sym.fields_autoplaced);
    let ghost g = trees(fa@);
    extend_items(&mut v, fa);
    push_item(&mut v, uuid_node(sym.uuid));
    assert(trees(v@) =~= a + b + c + d + e + f + g + seq![uuid_tree(sym.uuid)]);
    assert(trees(v@) =~= symbol_head_kids(*sym));
    v
}

fn symbol_field_items(sym: &Symbol) -> (v: Vec<SExpr>)
    ensures
        trees(v@) == symbol_field_kids(*sym),
{
    let ref_text = match sym.ref_text {
        Some(t) => t,
        None => default_symbol_property_text(sym.position, true),
    };
    let val_text = match sym.val_text {
        Some(t) => t,
        None => default_symbol_property_text(sym.position, false),
    };
    let hidden = default_symbol_property_text(sym.position, true);
    let mut v: Vec<SExpr> = Vec::new();
    push_item(&mut v, schematic_property_node("Reference", sym.reference.as_str(), &ref_text, false, false, None));
    push_item(&mut v, schematic_property_node("Value", sym.value.as_str(), &val_text, false, false, None));
    push_item(&mut v, schematic_property_node("Footprint", sym.footprint.as_str(), &hidden, false, false, None));
    push_item(&mut v, schematic_property_node("Datasheet", sym.datasheet.as_str(), &hidden, false, false, None));
    assert(trees(v@) =~= symbol_field_kids(*sym));
    v
}

fn symbol_custom_items(sym: &Symbol) -> (v: Vec<SExpr>)
    ensures
        trees(v@) == symbol_custom_kids(*sym),
{
    let props = &sym.custom_properties;
    let mut keys: Vec<Vec<char>> = Vec::new();
    let mut i: usize = 0;
    while i < props.len()
        invariant
            i <= props@.len(),
            props@ == sym.custom_properties@,
            char_seqs(keys@) == custom_keys(*sym).take(i as int),
        decreases props.len() - i,
    {
        let ghost before = keys@;
        keys.push(chars_of(props[i].key.as_str()));
        assert(char_seqs(keys@) =~= char_seqs(before).push(props@[i as int].key@));
        assert(custom_keys(*sym).take(i + 1) =~= custom_keys(*sym).take(i as int).push(props@[i as int].key@));
        i += 1;
    }
    assert(custom_keys(*sym).take(i as int) =~= custom_keys(*sym));
    let keep = keep_all(props.len());
    let idx = key_positions(&keys, &keep);
    let ghost ord = key_order(custom_keys(*sym), all_kept(props@.len()));
    let mut v: Vec<SExpr> = Vec::new();
    let mut k: usize = 0;
    while k < idx.len()
        invariant
            k <= idx@.len(),
            props@ == sym.custom_properties@,
            usizes(idx@) == ord,
            forall|j: int| 0 <= j < idx@.len() ==> #[trigger] idx@[j] < props@.len(),
            trees(v@) == Seq::new(k as nat, |m: int| custom_property_tree(props@[ord[m]], sym.position)),
        decreases idx.len() - k,
    {
        assert(ord[k as int] == idx@[k as int] as int);
        push_item(&mut v, custom_property_node(&props[idx[k]], sym.position));
        assert(trees(v@) =~= Seq::new((k + 1) as nat, |m: int| custom_property_tree(props@[ord[m]], sym.position)));
        k += 1;
    }
    v
}

/// Whether some custom property of `sym` has key `key`.
fn has_custom_key(sym: &Symbol, key: &str) -> (b: bool)
    ensures
        b == custom_keys(*sym).contains(key@),
{
    let mut i: usize = 0;
    while i < sym.custom_properties.len()
        invariant
            i <= sym.custom_properties@.len(),
            forall|j: int| 0 <= j < i ==> custom_keys(*sym)[j] != key@,
        decreases sym.custom_properties@.len() - i,
    {
        if str_eq(sym.custom_properties[i].key.as_str(), key) {
            assert(custom_keys(*sym)[i as int] == key@);
            return true;
        }
        i += 1;
    }
    false
}

fn symbol_extra_field_items(sym: &Symbol) -> (v: Vec<SExpr>)
    ensures
        trees(v@) == symbol_extra_field_kids(*sym),
{
    let entries = sym.fields.entries();
    let ghost es = sym.fields.entries_view();
    let keys = pair_keys(entries);
    assert(char_seqs(keys@) =~= pair_names(es));
    let mut keep: Vec<bool> = Vec::new();
    let mut i: usize = 0;
    while i < entries.len()
        invariant
            i <= entries@.len(),
            es == entries@.map_values(|e: (String, String)| (e.0@, e.1@)),
            es == sym.fields.entries_view(),
            keep@ == extra_field_keep(*sym).take(i as int),
        decreases entries.len() - i,
    {
        let custom = has_custom_key(sym, entries[i].0.as_str());
        assert(pair_names(es)[i as int] == entries@[i as int].0@);
        keep.push(!custom);
        assert(keep@ =~= extra_field_keep(*sym).take(i + 1));
        i += 1;
    }
    assert(keep@ =~= extra_field_keep(*sym));
    let idx = key_positions(&keys, &keep);
    let ghost ord = key_order(pair_names(es), extra_field_keep(*sym));
    let hidden = default_symbol_property_text(sym.position, true);
    let mut v: Vec<SExpr> = Vec::new();
    let mut k: usize = 0;
    while k < idx.len()
        invariant
            k <= idx@.len(),
            es == entries@.map_values(|e: (String, String)| (e.0@, e.1@)),
            hidden == default_text(sym.position, true),
            usizes(idx@) == ord,
            forall|j: int| 0 <= j < idx@.len() ==> #[trigger] idx@[j] < entries@.len(),
            trees(v@) == Seq::new(
                k as nat,
                |m: int|
                    node_tree(
                        "property"@,
                        property_kids(es[ord[m]].0, es[ord[m]].1, default_text(sym.position, true), false, false, None),
                    ),
            ),
        decreases idx.len() - k,
    {
        let pos = idx[k];
        assert(ord[k as int] == pos as int);
        push_item(&mut v, schematic_property_node(entries[pos].0.as_str(), entries[pos].1.as_str(), &hidden, false, false, None));
        assert(trees(v@) =~= Seq::new(
            (k + 1) as nat,
            |m: int|
                node_tree(
                    "property"@,
                    property_kids(es[ord[m]].0, es[ord[m]].1, default_text(sym.position, true), false, false, None),
                ),
        ));
        k += 1;
    }
    v
}

fn symbol_pin_items(sym: &Symbol) -> (v: Vec<SExpr>)
    ensures
        trees(v@) == symbol_pin_kids(*sym),
{
    let pins = &sym.pin_uuids;
    let keys = pair_keys(pins);
    assert(char_seqs(keys@) =~= pin_numbers(pins@));
    let keep = keep_all(pins.len());
    let idx = key_positions(&keys, &keep);
    let ghost ord = key_order(pin_numbers(pins@), all_kept(pins@.len()));
    let mut v: Vec<SExpr> = Vec::new();
    let mut k: usize = 0;
    while k < idx.len()
        invariant
            k <= idx@.len(),
            pins@ == sym.pin_uuids@,
            usizes(idx@) == ord,
            forall|j: int| 0 <= j < idx@.len() ==> #[trigger] idx@[j] < pins@.len(),
            trees(v@) == Seq::new(k as nat, |m: int| node_tree("pin"@, seq![Tree::Quoted(pins@[ord[m]].0@), uuid_tree(pins@[ord[m]].1)])),
        decreases idx.len() - k,
    {
        let pos = idx[k];
        assert(ord[k as int] == pos as int);
        let mut kids: Vec<SExpr> = Vec::new();
        push_item(&mut kids, atom(&pins[pos].0));
        push_item(&mut kids, uuid_node(pins[pos].1));
        assert(trees(kids@) =~= seq![Tree::Quoted(pins@[pos as int].0@), uuid_tree(pins@[pos as int].1)]);
        push_item(&mut v, node("pin", kids));
        assert(trees(v@) =~= Seq::new((k + 1) as nat, |m: int| node_tree("pin"@, seq![Tree::Quoted(pins@[ord[m]].0@), uuid_tree(pins@[ord[m]].1)])));
        k += 1;
    }
    v
}

fn symbol_instance_items(instances: &Vec<crate::schematic::SymbolInstance>) -> (v: Vec<SExpr>)
    ensures
        trees(v@) == symbol_instance_kids(instances@),
{
    let mut items: Vec<SExpr> = Vec::new();
    if let Some(inst) = symbol_instances_node(instances.as_slice()) {
        push_item(&mut items, inst);
    }
    assert(trees(items@) =~= symbol_instance_kids(instances@));
    items
}

/// A placed symbol: library id, placement and mirroring, unit and flags,
/// UUID, its four standard fields, its custom properties by key, its other
/// fields by name, its pins by number and its instances.
pub fn symbol_node(sym: &Symbol) -> (e: SExpr)
    ensures
        tree_of(e) == symbol_tree(*sym),
{
    let mut items = symbol_head_items(sym);
    let ghost a = trees(items@);
    let fv = symbol_field_items(sym);
    let cv = symbol_custom_items(sym);
    let xv = symbol_extra_field_items(sym);
    let pv = symbol_pin_items(sym);
    let iv = symbol_instance_items(&sym.instances);
    let ghost (b, c, d, f, g) = (trees(fv@), trees(cv@), trees(xv@), trees(pv@), trees(iv@));
    extend_items(&mut items, fv);
    extend_items(&mut items, cv);
    extend_items(&mut items, xv);
    extend_items(&mut items, pv);
    extend_items(&mut items, iv);
    assert(trees(items@) == a + b + c + d + f + g);
    node("symbol", items)
}


// ---------------------------------------------------------------------------
// Title block and library symbols
// ---------------------------------------------------------------------------

/// `(keyword "VALUE")` when the title block has `key`.
pub open spec fn title_entry(m: Map<Seq<char>, Seq<char>>, key: Seq<char>) -> Seq<Tree> {
    if m.dom().contains(key) {
        seq![node_tree(key, seq![Tree::Quoted(m[key])])]
    } else {
        Seq::empty()
    }
}

pub open spec fn comment_key(i: nat) -> Seq<char> {
    "comment_"@ + decimal(i)
}

/// `(comment N "TEXT")` for each numbered comment from `i` to 9.
pub open spec fn comments_from(m: Map<Seq<char>, Seq<char>>, i: nat) -> Seq<Tree>
    decreases 10 - i,
{
    if i > 9 {
        Seq::empty()
    } else {
        (if m.dom().contains(comment_key(i)) {
            seq![node_tree("comment"@, seq![Tree::Raw(decimal(i)), Tree::Quoted(m[comment_key(i)])])]
        } else {
            Seq::empty()
        }) + comments_from(m, i + 1)
    }
}

/// The title block, when the sheet has one: title, date, revision and
/// company, then comments 1 to 9, each when set.
pub open spec fn title_block_kids(m: Map<Seq<char>, Seq<char>>) -> Seq<Tree> {
    if m.dom() == Set::<Seq<char>>::empty() {
        Seq::empty()
    } else {
        seq![
            node_tree(
                "title_block"@,
                title_entry(m, "title"@) + title_entry(m, "date"@) + title_entry(m, "rev"@) + title_entry(m, "company"@)
                    + comments_from(m, 1),
            ),
        ]
    }
}

fn title_entry_items(m: &VarMap, key: &str) -> (v: Vec<SExpr>)
    ensures
        trees(v@) == title_entry(m@, key@),
{
    let mut v: Vec<SExpr> = Vec::new();
    if let Some(value) = m.get(key) {
        let mut t: Vec<SExpr> = Vec::new();
        push_item(&mut t, atom(value));
        assert(trees(t@) =~= seq![Tree::Quoted(m@[key@])]);
        push_item(&mut v, node(key, t));
    }
    assert(trees(v@) =~= title_entry(m@, key@));
    v
}

fn comment_items(m: &VarMap) -> (v: Vec<SExpr>)
    ensures
        trees(v@) == comments_from(m@, 1),
{
    let mut v: Vec<SExpr> = Vec::new();
    let mut i: u64 = 9;
    assert(comments_from(m@, 10) =~= Seq::<Tree>::empty());
    let mut rest: Vec<SExpr> = Vec::new();
    while i >= 1
        invariant
            0 <= i <= 9,
            trees(rest@) == comments_from(m@, (i + 1) as nat),
        decreases i,
    {
        let digits = crate::text::u64_decimal(i);
        let key = crate::text::concat_str("comment_", digits.as_slice());
        proof {
            reveal_strlit("comment_");
        }
        assert(key@ == comment_key(i as nat));
        let mut next: Vec<SExpr> = Vec::new();
        if let Some(value) = m.get(key.as_str()) {
            let mut t: Vec<SExpr> = Vec::new();
            push_item(&mut t, atom(i));
            push_item(&mut t, atom(value));
            assert(trees(t@) =~= seq![Tree::Raw(decimal(i as nat)), Tree::Quoted(m@[comment_key(i as nat)])]);
            push_item(&mut next, node("comment", t));
        }
        let ghost r = trees(rest@);
        extend_items(&mut next, rest);
        assert(trees(next@) =~= comments_from(m@, i as nat));
        rest = next;
        i -= 1;
    }
    v = rest;
    v
}

fn title_block_items(m: &VarMap) -> (v: Vec<SExpr>)
    ensures
        trees(v@) == title_block_kids(m@),
{
    let mut v: Vec<SExpr> = Vec::new();
    let entries = m.entries();
    if entries.len() == 0 {
        assert(m@.dom() =~= Set::<Seq<char>>::empty()) by {
            assert forall|k: Seq<char>| !m@.dom().contains(k) by {
                if m@.dom().contains(k) {
                    let i = choose|i: int| 0 <= i < m.entries_view().len() && #[trigger] m.entries_view()[i].0 == k;
                }
            }
        }
        assert(trees(v@) =~= title_block_kids(m@));
        return v;
    }
    assert(m@.dom() != Set::<Seq<char>>::empty()) by {
        assert(m@.dom().contains(m.entries_view()[0].0));
    }
    let mut kids = title_entry_items(m, "title");
    extend_items(&mut kids, title_entry_items(m, "date"));
    extend_items(&mut kids, title_entry_items(m, "rev"));
    extend_items(&mut kids, title_entry_items(m, "company"));
    extend_items(&mut kids, comment_items(m));
    push_item(&mut v, node("title_block", kids));
    assert(trees(v@) =~= title_block_kids(m@));
    v
}

pub open spec fn lib_ids(v: Seq<(String, LibSymbol)>) -> Seq<Seq<char>> {
    v.map_values(|e: (String, LibSymbol)| e.0@)
}

/// `(lib_symbols ...)` with each library symbol, by id, when there are
/// any.
pub open spec fn lib_symbols_kids(v: Seq<(String, LibSymbol)>) -> Seq<Tree> {
    if v.len() == 0 {
        Seq::empty()
    } else {
        let ord = key_order(lib_ids(v), all_kept(v.len()));
        seq![node_tree("lib_symbols"@, Seq::new(ord.len(), |m: int| lib_symbol_spec(v[ord[m]].1)))]
    }
}

fn lib_symbols_items(libs: &Vec<(String, LibSymbol)>) -> (v: Vec<SExpr>)
    ensures
        trees(v@) == lib_symbols_kids(libs@),
{
    let mut v: Vec<SExpr> = Vec::new();
    if libs.len() == 0 {
        assert(trees(v@) =~= lib_symbols_kids(libs@));
        return v;
    }
    let keys = pair_keys(libs);
    assert(char_seqs(keys@) =~= lib_ids(libs@));
    let keep = keep_all(libs.len());
    let idx = key_positions(&keys, &keep);
    let ghost ord = key_order(lib_ids(libs@), all_kept(libs@.len()));
    let mut kids: Vec<SExpr> = Vec::new();
    let mut k: usize = 0;
    while k < idx.len()
        invariant
            k <= idx@.len(),
            usizes(idx@) == ord,
            forall|j: int| 0 <= j < idx@.len() ==> #[trigger] idx@[j] < libs@.len(),
            trees(kids@) == Seq::new(k as nat, |m: int| lib_symbol_spec(libs@[ord[m]].1)),
        decreases idx.len() - k,
    {
        assert(ord[k as int] == idx@[k as int] as int);
        push_item(&mut kids, lib_symbol_node(&libs[idx[k]].1));
        assert(trees(kids@) =~= Seq::new((k + 1) as nat, |m: int| lib_symbol_spec(libs@[ord[m]].1)));
        k += 1;
    }
    push_item(&mut v, node("lib_symbols", kids));
    assert(trees(v@) =~= lib_symbols_kids(libs@));
    v
}

// ---------------------------------------------------------------------------
// The sheet
// ---------------------------------------------------------------------------

pub open spec fn junction_trees(v: Seq<Junction>) -> Seq<Tree> {
    Seq::new(v.len(), |k: int| junction_tree(v[k]))
}

fn push_junctions(items: &mut Vec<SExpr>, v: &Vec<Junction>)
    ensures
        trees(final(items)@) == trees(old(items)@) + junction_trees(v@),
{
    let ghost start = trees(items@);
    let mut i: usize = 0;
    while i < v.len()
        invariant
            i <= v@.len(),
            trees(items@) == start + Seq::new(i as nat, |k: int| junction_tree(v@[k])),
        decreases v@.len() - i,
    {
        push_item(items, junction_node(&v[i]));
        assert(trees(items@) =~= start + Seq::new((i + 1) as nat, |k: int| junction_tree(v@[k])));
        i += 1;
    }
    assert(Seq::new(i as nat, |k: int| junction_tree(v@[k])) =~= junction_trees(v@));
}

pub open spec fn bus_trees(v: Seq<Bus>) -> Seq<Tree> {
    Seq::new(v.len(), |k: int| bus_tree(v[k]))
}

fn push_buss(items: &mut Vec<SExpr>, v: &Vec<Bus>)
    ensures
        trees(final(items)@) == trees(old(items)@) + bus_trees(v@),
{
    let ghost start = trees(items@);
    let mut i: usize = 0;
    while i < v.len()
        invariant
            i <= v@.len(),
            trees(items@) == start + Seq::new(i as nat, |k: int| bus_tree(v@[k])),
        decreases v@.len() - i,
    {
        push_item(items, bus_node(&v[i]));
        assert(trees(items@) =~= start + Seq::new((i + 1) as nat, |k: int| bus_tree(v@[k])));
        i += 1;
    }
    assert(Seq::new(i as nat, |k: int| bus_tree(v@[k])) =~= bus_trees(v@));
}

pub open spec fn bus_entry_trees(v: Seq<BusEntry>) -> Seq<Tree> {
    Seq::new(v.len(), |k: int| bus_entry_tree(v[k]))
}

fn push_bus_entrys(items: &mut Vec<SExpr>, v: &Vec<BusEntry>)
    ensures
        trees(final(items)@) == trees(old(items)@) + bus_entry_trees(v@),
{
    let ghost start = trees(items@);
    let mut i: usize = 0;
    while i < v.len()
        invariant
            i <= v@.len(),
            trees(items@) == start + Seq::new(i as nat, |k: int| bus_entry_tree(v@[k])),
        decreases v@.len() - i,
    {
        push_item(items, bus_entry_node(&v[i]));
        assert(trees(items@) =~= start + Seq::new((i + 1) as nat, |k: int| bus_entry_tree(v@[k])));
        i += 1;
    }
    assert(Seq::new(i as nat, |k: int| bus_entry_tree(v@[k])) =~= bus_entry_trees(v@));
}

pub open spec fn wire_trees(v: Seq<Wire>) -> Seq<Tree> {
    Seq::new(v.len(), |k: int| wire_tree(v[k]))
}

fn push_wires(items: &mut Vec<SExpr>, v: &Vec<Wire>)
    ensures
        trees(final(items)@) == trees(old(items)@) + wire_trees(v@),
{
    let ghost start = trees(items@);
    let mut i: usize = 0;
    while i < v.len()
        invariant
            i <= v@.len(),
            trees(items@) == start + Seq::new(i as nat, |k: int| wire_tree(v@[k])),
        decreases v@.len() - i,
    {
        push_item(items, wire_node(&v[i]));
        assert(trees(items@) =~= start + Seq::new((i + 1) as nat, |k: int| wire_tree(v@[k])));
        i += 1;
    }
    assert(Seq::new(i as nat, |k: int| wire_tree(v@[k])) =~= wire_trees(v@));
}

pub open spec fn label_trees(v: Seq<Label>) -> Seq<Tree> {
    Seq::new(v.len(), |k: int| label_tree(v[k]))
}

fn push_labels(items: &mut Vec<SExpr>, v: &Vec<Label>)
    ensures
        trees(final(items)@) == trees(old(items)@) + label_trees(v@),
{
    let ghost start = trees(items@);
    let mut i: usize = 0;
    while i < v.len()
        invariant
            i <= v@.len(),
            trees(items@) == start + Seq::new(i as nat, |k: int| label_tree(v@[k])),
        decreases v@.len() - i,
    {
        push_item(items, label_node(&v[i]));
        assert(trees(items@) =~= start + Seq::new((i + 1) as nat, |k: int| label_tree(v@[k])));
        i += 1;
    }
    assert(Seq::new(i as nat, |k: int| label_tree(v@[k])) =~= label_trees(v@));
}

pub open spec fn symbol_trees(v: Seq<Symbol>) -> Seq<Tree> {
    Seq::new(v.len(), |k: int| symbol_tree(v[k]))
}

fn push_symbols(items: &mut Vec<SExpr>, v: &Vec<Symbol>)
    ensures
        trees(final(items)@) == trees(old(items)@) + symbol_trees(v@),
{
    let ghost start = trees(items@);
    let mut i: usize = 0;
    while i < v.len()
        invariant
            i <= v@.len(),
            trees(items@) == start + Seq::new(i as nat, |k: int| symbol_tree(v@[k])),
        decreases v@.len() - i,
    {
        push_item(items, symbol_node(&v[i]));
        assert(trees(items@) =~= start + Seq::new((i + 1) as nat, |k: int| symbol_tree(v@[k])));
        i += 1;
    }
    assert(Seq::new(i as nat, |k: int| symbol_tree(v@[k])) =~= symbol_trees(v@));
}

pub open spec fn note_trees(v: Seq<TextNote>) -> Seq<Tree> {
    Seq::new(v.len(), |k: int| text_note_tree(v[k]))
}

fn push_notes(items: &mut Vec<SExpr>, v: &Vec<TextNote>)
    ensures
        trees(final(items)@) == trees(old(items)@) + note_trees(v@),
{
    let ghost start = trees(items@);
    let mut i: usize = 0;
    while i < v.len()
        invariant
            i <= v@.len(),
            trees(items@) == start + Seq::new(i as nat, |k: int| text_note_tree(v@[k])),
        decreases v@.len() - i,
    {
        push_item(items, text_note_node(&v[i]));
        assert(trees(items@) =~= start + Seq::new((i + 1) as nat, |k: int| text_note_tree(v@[k])));
        i += 1;
    }
    assert(Seq::new(i as nat, |k: int| text_note_tree(v@[k])) =~= note_trees(v@));
}

pub open spec fn marker_trees(keyword: Seq<char>, v: Seq<NoConnect>) -> Seq<Tree> {
    Seq::new(v.len(), |k: int| marker_tree(keyword, v[k]))
}

fn push_markers(items: &mut Vec<SExpr>, keyword: &str, v: &Vec<NoConnect>)
    ensures
        trees(final(items)@) == trees(old(items)@) + marker_trees(keyword@, v@),
{
    let ghost start = trees(items@);
    let mut i: usize = 0;
    while i < v.len()
        invariant
            i <= v@.len(),
            trees(items@) == start + Seq::new(i as nat, |k: int| marker_tree(keyword@, v@[k])),
        decreases v@.len() - i,
    {
        push_item(items, marker_node(keyword, &v[i]));
        assert(trees(items@) =~= start + Seq::new((i + 1) as nat, |k: int| marker_tree(keyword@, v@[k])));
        i += 1;
    }
    assert(Seq::new(i as nat, |k: int| marker_tree(keyword@, v@[k])) =~= marker_trees(keyword@, v@));
}

pub open spec fn drawing_trees(v: Seq<SchDrawing>, alphas: Seq<String>) -> Seq<Tree> {
    Seq::new(v.len(), |k: int| drawing_tree(v[k], alphas))
}

fn push_drawings(items: &mut Vec<SExpr>, v: &Vec<SchDrawing>, alphas: &Vec<String>)
    requires
        alpha_table(alphas@),
    ensures
        trees(final(items)@) == trees(old(items)@) + drawing_trees(v@, alphas@),
{
    let ghost start = trees(items@);
    let mut i: usize = 0;
    while i < v.len()
        invariant
            i <= v@.len(),
            alpha_table(alphas@),
            trees(items@) == start + Seq::new(i as nat, |k: int| drawing_tree(v@[k], alphas@)),
        decreases v@.len() - i,
    {
        push_item(items, drawing_node(&v[i], alphas));
        assert(trees(items@) =~= start + Seq::new((i + 1) as nat, |k: int| drawing_tree(v@[k], alphas@)));
        i += 1;
    }
    assert(Seq::new(i as nat, |k: int| drawing_tree(v@[k], alphas@)) =~= drawing_trees(v@, alphas@));
}

pub open spec fn child_sheet_trees(v: Seq<ChildSheet>, alphas: Seq<String>) -> Seq<Tree> {
    Seq::new(v.len(), |k: int| child_sheet_tree(v[k], alphas))
}

fn push_child_sheets(items: &mut Vec<SExpr>, v: &Vec<ChildSheet>, alphas: &Vec<String>)
    requires
        alpha_table(alphas@),
    ensures
        trees(final(items)@) == trees(old(items)@) + child_sheet_trees(v@, alphas@),
{
    let ghost start = trees(items@);
    let mut i: usize = 0;
    while i < v.len()
        invariant
            i <= v@.len(),
            alpha_table(alphas@),
            trees(items@) == start + Seq::new(i as nat, |k: int| child_sheet_tree(v@[k], alphas@)),
        decreases v@.len() - i,
    {
        push_item(items, child_sheet_node(&v[i], alphas));
        assert(trees(items@) =~= start + Seq::new((i + 1) as nat, |k: int| child_sheet_tree(v@[k], alphas@)));
        i += 1;
    }
    assert(Seq::new(i as nat, |k: int| child_sheet_tree(v@[k], alphas@)) =~= child_sheet_trees(v@, alphas@));
}

pub open spec fn sheet_head_kids(sh: SchematicSheet) -> Seq<Tree> {
    seq![
        node_tree("version"@, seq![Tree::Raw(decimal(sh.version as nat))]),
        node_tree("generator"@, seq![Tree::Quoted("signex"@)]),
        node_tree("generator_version"@, seq![Tree::Quoted("0.1"@)]),
        uuid_tree(sh.uuid),
        node_tree("paper"@, seq![Tree::Quoted(sh.paper_size@)]),
    ] + title_block_kids(sh.title_block@) + lib_symbols_kids(sh.lib_symbols@)
}

/// `(sheet_instances (path "/" (page "N")))` for the root sheet.
pub open spec fn root_instances_tree(page: Seq<char>) -> Tree {
    node_tree("sheet_instances"@, seq![node_tree("path"@, seq![Tree::Quoted("/"@), node_tree("page"@, seq![Tree::Quoted(page)])])])
}

pub open spec fn sheet_kids(sh: SchematicSheet, alphas: Seq<String>) -> Seq<Tree> {
    sheet_head_kids(sh) + junction_trees(sh.junctions@) + marker_trees("no_connect"@, sh.no_connects@) + bus_trees(
        sh.buses@,
    ) + bus_entry_trees(sh.bus_entries@) + wire_trees(sh.wires@) + label_trees(sh.labels@) + symbol_trees(
        sh.symbols@,
    ) + marker_trees("no_erc"@, sh.no_erc_directives@) + note_trees(sh.text_notes@) + drawing_trees(
        sh.drawings@,
        alphas,
    ) + child_sheet_trees(sh.child_sheets@, alphas) + seq![root_instances_tree(sh.root_sheet_page@)]
}

pub open spec fn schematic_tree(sh: SchematicSheet, alphas: Seq<String>) -> Tree {
    node_tree("kicad_sch"@, sheet_kids(sh, alphas))
}

fn sheet_head_items(sh: &SchematicSheet) -> (v: Vec<SExpr>)
    ensures
        trees(v@) == sheet_head_kids(*sh),
{
    let mut v: Vec<SExpr> = Vec::new();
    push_item(&mut v, count_node("version", sh.version));
    push_item(&mut v, crate::kicad_pcb::text_node("generator", "signex"));
    push_item(&mut v, crate::kicad_pcb::text_node("generator_version", "0.1"));
    push_item(&mut v, uuid_node(sh.uuid));
    push_item(&mut v, crate::kicad_pcb::text_node("paper", sh.paper_size.as_str()));
    let ghost five = trees(v@);
    assert(five =~= seq![
        node_tree("version"@, seq![Tree::Raw(decimal(sh.version as nat))]),
        node_tree("generator"@, seq![Tree::Quoted("signex"@)]),
        node_tree("generator_version"@, seq![Tree::Quoted("0.1"@)]),
        uuid_tree(sh.uuid),
        node_tree("paper"@, seq![Tree::Quoted(sh.paper_size@)]),
    ]);
    extend_items(&mut v, title_block_items(&sh.title_block));
    extend_items(&mut v, lib_symbols_items(&sh.lib_symbols));
    v
}

fn root_instances_node(page: &str) -> (e: SExpr)
    ensures
        tree_of(e) == root_instances_tree(page@),
{
    let mut path: Vec<SExpr> = Vec::new();
    push_item(&mut path, atom("/"));
    push_item(&mut path, crate::kicad_pcb::text_node("page", page));
    assert(trees(path@) =~= seq![Tree::Quoted("/"@), node_tree("page"@, seq![Tree::Quoted(page@)])]);
    let mut v: Vec<SExpr> = Vec::new();
    push_item(&mut v, node("path", path));
    assert(trees(v@) =~= seq![node_tree("path"@, seq![Tree::Quoted("/"@), node_tree("page"@, seq![Tree::Quoted(page@)])])]);
    node("sheet_instances", v)
}

/// The whole sheet as one `(kicad_sch ...)` expression: header, title
/// block, library symbols by id, then the wiring, labels, symbols, notes,
/// drawings and child sheets in their order, and the root sheet's page.
/// `alphas` gives the text of each colour alpha byte (see `alpha_table`).
pub fn kicad_sch_root_node(sheet: &SchematicSheet, alphas: &Vec<String>) -> (e: SExpr)
    requires
        alpha_table(alphas@),
    ensures
        tree_of(e) == schematic_tree(*sheet, alphas@),
{
    let mut items = sheet_head_items(sheet);
    push_junctions(&mut items, &sheet.junctions);
    push_markers(&mut items, "no_connect", &sheet.no_connects);
    push_buss(&mut items, &sheet.buses);
    push_bus_entrys(&mut items, &sheet.bus_entries);
    push_wires(&mut items, &sheet.wires);
    push_labels(&mut items, &sheet.labels);
    push_symbols(&mut items, &sheet.symbols);
    push_markers(&mut items, "no_erc", &sheet.no_erc_directives);
    push_notes(&mut items, &sheet.text_notes);
    push_drawings(&mut items, &sheet.drawings, alphas);
    push_child_sheets(&mut items, &sheet.child_sheets, alphas);
    push_item(&mut items, root_instances_node(sheet.root_sheet_page.as_str()));
    assert(trees(items@) =~= sheet_kids(*sheet, alphas@));
    node("kicad_sch", items)
}

/// The sheet as a KiCad `.kicad_sch` file: its expression on one line,
/// then a newline.
pub fn write_schematic(sheet: &SchematicSheet, alphas: &Vec<String>) -> (r: String)
    requires
        alpha_table(alphas@),
    ensures
        r@ == render_tree(schematic_tree(*sheet, alphas@)) + seq!['\n'],
{
    let sch = kicad_sch_root_node(sheet, alphas);
    proof {
        crate::sexpr::lemma_render_tree(sch);
    }
    let mut out = String::new();
    write_rendered_sexpr(&mut out, 0, sch);
    assert(crate::kicad_write::spaces(0) =~= Seq::<char>::empty());
    assert(out@ =~= render_tree(schematic_tree(*sheet, alphas@)) + seq!['\n']);
    out
}

} // verus!
