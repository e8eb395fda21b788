//! Writing a board as a KiCad `.kicad_pcb` S-expression.

use vstd::prelude::*;
use vstd::arithmetic::power::pow;

use crate::coord::Vec2;
use crate::kicad_write::{effects_node, effects_tree, fixed_atom, fixed_text_spec, write_rendered_sexpr};
use crate::pcb::{
    BoardGraphic, BoardText, DrillDef, FpGraphic, Footprint, LayerDef, NetDef, Pad, PadNet,
    PadShape, PadType, PcbBoard, PcbProperty, PcbSetup, Segment, Via, ViaType, Zone,
    PCB_DEFAULT_TEXT_SIZE, PCB_FP_TEXT_OFFSET, PCB_TEXT_THICKNESS,
};
use crate::sexpr::{
    atom, hide_yes_node, node, node_tree, push_item, raw, render_tree, tree_of, trees, SExpr, Tree,
};
use crate::text::{decimal, digit_char, str_eq};

verus! {

broadcast use vstd::std_specs::vec::group_vec_axioms;

// ---------------------------------------------------------------------------
// UUIDs
// ---------------------------------------------------------------------------

pub open spec fn hex_char(d: int) -> char {
    if d < 10 {
        digit_char(d)
    } else if d == 10 {
        'a'
    } else if d == 11 {
        'b'
    } else if d == 12 {
        'c'
    } else if d == 13 {
        'd'
    } else if d == 14 {
        'e'
    } else {
        'f'
    }
}

/// The 32 lowercase hexadecimal digits of `v`, most significant first.
pub open spec fn hex32(v: int) -> Seq<char> {
    Seq::new(32, |k: int| hex_char((v / pow(16, (31 - k) as nat)) % 16))
}

/// A UUID in its hyphenated form: 8-4-4-4-12 hexadecimal digits.
pub open spec fn uuid_hyphenated(v: int) -> Seq<char> {
    let h = hex32(v);
    h.subrange(0, 8) + seq!['-'] + h.subrange(8, 12) + seq!['-'] + h.subrange(12, 16) + seq!['-']
        + h.subrange(16, 20) + seq!['-'] + h.subrange(20, 32)
}

/// `uuid::Uuid::from_u128(bits).to_string()`: the UUID whose big-endian
/// value is `bits`, written as lowercase hyphenated hexadecimal (the
/// crate's `Display` is its hyphenated lowercase form), which
/// `Uuid::parse_str` reads back as the same value.
#[verifier::external_body]
pub(crate) fn uuid_text(bits: u128) -> (r: String)
    ensures
        r@ == uuid_hyphenated(bits as int),
        crate::kicad_parse::uuid_text_value(r@) == Some(bits),
{
    uuid::Uuid::from_u128(bits).to_string()
}

// ---------------------------------------------------------------------------
// Token vocabularies
// ---------------------------------------------------------------------------

pub open spec fn pad_type_token(t: PadType) -> Seq<char> {
    match t {
        PadType::Thru => "thru_hole"@,
        PadType::Smd => "smd"@,
        PadType::Connect => "connect"@,
        PadType::NpThru => "np_thru_hole"@,
    }
}

/// KiCad's token for a pad type.
pub fn pad_type_str(t: PadType) -> (r: &'static str)
    ensures
        r@ == pad_type_token(t),
{
    match t {
        PadType::Thru => "thru_hole",
        PadType::Smd => "smd",
        PadType::Connect => "connect",
        PadType::NpThru => "np_thru_hole",
    }
}

pub open spec fn pad_shape_token(s: PadShape) -> Seq<char> {
    match s {
        PadShape::Circle => "circle"@,
        PadShape::Rect => "rect"@,
        PadShape::Oval => "oval"@,
        PadShape::Trapezoid => "trapezoid"@,
        PadShape::RoundRect => "roundrect"@,
        PadShape::Custom => "custom"@,
    }
}

/// KiCad's token for a pad shape.
pub fn pad_shape_str(s: PadShape) -> (r: &'static str)
    ensures
        r@ == pad_shape_token(s),
{
    match s {
        PadShape::Circle => "circle",
        PadShape::Rect => "rect",
        PadShape::Oval => "oval",
        PadShape::Trapezoid => "trapezoid",
        PadShape::RoundRect => "roundrect",
        PadShape::Custom => "custom",
    }
}

pub open spec fn via_type_token(v: ViaType) -> Seq<char> {
    match v {
        ViaType::Through => "via"@,
        ViaType::Blind => "via_blind"@,
        ViaType::Micro => "via_micro"@,
    }
}

/// The keyword a via of each type is written under.
pub fn via_type_str(v: ViaType) -> (r: &'static str)
    ensures
        r@ == via_type_token(v),
{
    match v {
        ViaType::Through => "via",
        ViaType::Blind => "via_blind",
        ViaType::Micro => "via_micro",
    }
}

/// KiCad's pad-type token is the library's own pad-type word, with `_hole`
/// after it for the two drilled kinds (plated and unplated through-hole),
/// and that word reads back as the same pad type; pad shapes are written
/// under the library's own shape word.
pub proof fn lemma_pad_tokens_read_back(t: PadType, s: PadShape)
    ensures
        pad_type_token(t) == (if t is Thru || t is NpThru {
            crate::snx::pad_type_text(t) + "_hole"@
        } else {
            crate::snx::pad_type_text(t)
        }),
        crate::snx::parse_pad_type_spec(crate::snx::pad_type_text(t)) == t,
        pad_shape_token(s) == crate::snx::pad_shape_text(s),
        crate::snx::parse_pad_shape_spec(pad_shape_token(s)) == s,
{
    crate::snx::lemma_enum_cells_round_trip(
        crate::schematic::LabelType::Net,
        crate::schematic::HAlign::Left,
        crate::schematic::VAlign::Top,
        t,
        s,
        ViaType::Through,
    );
    reveal_strlit("thru_hole");
    reveal_strlit("np_thru_hole");
    reveal_strlit("thru");
    reveal_strlit("np_thru");
    reveal_strlit("_hole");
    assert("thru_hole"@ =~= "thru"@ + "_hole"@);
    assert("np_thru_hole"@ =~= "np_thru"@ + "_hole"@);
}

/// Different pad types are written under different KiCad tokens, so the
/// token alone tells a reader which kind of pad it is.
pub proof fn lemma_pad_type_tokens_distinct(a: PadType, b: PadType)
    ensures
        pad_type_token(a) == pad_type_token(b) ==> a == b,
{
    reveal_strlit("thru_hole");
    reveal_strlit("smd");
    reveal_strlit("connect");
    reveal_strlit("np_thru_hole");
    assert("thru_hole"@.len() == 9);
    assert("smd"@.len() == 3);
    assert("connect"@.len() == 7);
    assert("np_thru_hole"@.len() == 12);
}

// ---------------------------------------------------------------------------
// Small nodes
// ---------------------------------------------------------------------------

/// A numeral for a value in millionths.
pub open spec fn num(v: int) -> Tree {
    Tree::Raw(fixed_text_spec(v))
}

/// A rotation, written only when it is not zero.
pub open spec fn rotation_opt(r: i64) -> Option<int> {
    if r != 0 {
        Some(r as int)
    } else {
        None
    }
}

pub open spec fn at_tree(x: int, y: int, rot: Option<int>) -> Tree {
    node_tree("at"@, seq![num(x), num(y)] + match rot {
        Some(r) => seq![num(r)],
        None => Seq::empty(),
    })
}

/// `(at X Y [ROT])`.
pub(crate) fn at_coord(x: i64, y: i64, rotation: Option<i64>) -> (e: SExpr)
    ensures
        tree_of(e) == at_tree(x as int, y as int, match rotation {
            Some(r) => Some(r as int),
            None => None,
        }),
{
    let mut items: Vec<SExpr> = Vec::new();
    push_item(&mut items, fixed_atom(x as i128));
    push_item(&mut items, fixed_atom(y as i128));
    if let Some(r) = rotation {
        push_item(&mut items, fixed_atom(r as i128));
        assert(trees(items@) =~= seq![num(x as int), num(y as int)] + seq![num(r as int)]);
    } else {
        assert(trees(items@) =~= seq![num(x as int), num(y as int)] + Seq::<Tree>::empty());
    }
    node("at", items)
}

fn rotation_if_nonzero(r: i64) -> (o: Option<i64>)
    ensures
        match o {
            Some(v) => Some(v as int),
            None => None,
        } == rotation_opt(r),
{
    if r != 0 {
        Some(r)
    } else {
        None
    }
}

pub open spec fn uuid_tree(u: u128) -> Tree {
    node_tree("uuid"@, seq![Tree::Quoted(uuid_hyphenated(u as int))])
}

/// `(uuid "…")`.
pub(crate) fn uuid_node(u: u128) -> (e: SExpr)
    ensures
        tree_of(e) == uuid_tree(u),
{
    let mut items: Vec<SExpr> = Vec::new();
    push_item(&mut items, atom(uuid_text(u)));
    assert(trees(items@) =~= seq![Tree::Quoted(uuid_hyphenated(u as int))]);
    node("uuid", items)
}

pub open spec fn layer_tree(l: Seq<char>) -> Tree {
    node_tree("layer"@, seq![Tree::Quoted(l)])
}

/// `(layer "NAME")`.
pub fn layer_node(l: &str) -> (e: SExpr)
    ensures
        tree_of(e) == layer_tree(l@),
{
    let mut items: Vec<SExpr> = Vec::new();
    push_item(&mut items, atom(l));
    assert(trees(items@) =~= seq![Tree::Quoted(l@)]);
    node("layer", items)
}

/// `(keyword N)` for a value in millionths.
pub(crate) fn num_node(keyword: &str, v: i128) -> (e: SExpr)
    ensures
        tree_of(e) == node_tree(keyword@, seq![num(v as int)]),
{
    let mut items: Vec<SExpr> = Vec::new();
    push_item(&mut items, fixed_atom(v));
    assert(trees(items@) =~= seq![num(v as int)]);
    node(keyword, items)
}

pub open spec fn xy_kids(p: Vec2) -> Seq<Tree> {
    seq![num(p.x as int), num(p.y as int)]
}

/// `(keyword X Y)`.
pub(crate) fn point_node(keyword: &str, x: i128, y: i128) -> (e: SExpr)
    ensures
        tree_of(e) == node_tree(keyword@, seq![num(x as int), num(y as int)]),
{
    let mut items: Vec<SExpr> = Vec::new();
    push_item(&mut items, fixed_atom(x));
    push_item(&mut items, fixed_atom(y));
    assert(trees(items@) =~= seq![num(x as int), num(y as int)]);
    node(keyword, items)
}

/// `(keyword TOKEN)` with a bare token.
pub(crate) fn token_node(keyword: &str, token: &str) -> (e: SExpr)
    ensures
        tree_of(e) == node_tree(keyword@, seq![Tree::Raw(token@)]),
{
    let mut items: Vec<SExpr> = Vec::new();
    push_item(&mut items, raw(token));
    assert(trees(items@) =~= seq![Tree::Raw(token@)]);
    node(keyword, items)
}

/// `(keyword "TEXT")`.
pub(crate) fn text_node(keyword: &str, text: &str) -> (e: SExpr)
    ensures
        tree_of(e) == node_tree(keyword@, seq![Tree::Quoted(text@)]),
{
    let mut items: Vec<SExpr> = Vec::new();
    push_item(&mut items, atom(text));
    assert(trees(items@) =~= seq![Tree::Quoted(text@)]);
    node(keyword, items)
}

/// `(keyword N)` for an integer.
pub(crate) fn count_node(keyword: &str, n: u32) -> (e: SExpr)
    ensures
        tree_of(e) == node_tree(keyword@, seq![Tree::Raw(decimal(n as nat))]),
{
    let mut items: Vec<SExpr> = Vec::new();
    push_item(&mut items, atom(n));
    assert(trees(items@) =~= seq![Tree::Raw(decimal(n as nat))]);
    node(keyword, items)
}

pub open spec fn stroke_tree(width: int) -> Tree {
    node_tree("stroke"@, seq![node_tree("width"@, seq![num(width)]), node_tree("type"@, seq![Tree::Raw("default"@)])])
}

/// `(stroke (width W) (type default))`.
pub(crate) fn stroke_node(width: i64) -> (e: SExpr)
    ensures
        tree_of(e) == stroke_tree(width as int),
{
    let mut items: Vec<SExpr> = Vec::new();
    push_item(&mut items, num_node("width", width as i128));
    push_item(&mut items, token_node("type", "default"));
    assert(trees(items@) =~= seq![node_tree("width"@, seq![num(width as int)]), node_tree("type"@, seq![Tree::Raw("default"@)])]);
    node("stroke", items)
}

pub open spec fn pts_tree(points: Seq<Vec2>) -> Tree {
    node_tree("pts"@, Seq::new(points.len(), |i: int| node_tree("xy"@, xy_kids(points[i]))))
}

/// `(pts (xy X Y) ...)`.
pub(crate) fn pts_node(points: &[Vec2]) -> (e: SExpr)
    ensures
        tree_of(e) == pts_tree(points@),
{
    let mut items: Vec<SExpr> = Vec::new();
    let mut i: usize = 0;
    while i < points.len()
        invariant
            i <= points@.len(),
            trees(items@) == Seq::new(i as nat, |j: int| node_tree("xy"@, xy_kids(points@[j]))),
        decreases points.len() - i,
    {
        push_item(&mut items, point_node("xy", points[i].x as i128, points[i].y as i128));
        assert(trees(items@) =~= Seq::new((i + 1) as nat, |j: int| node_tree("xy"@, xy_kids(points@[j]))));
        i += 1;
    }
    node("pts", items)
}

pub open spec fn pcb_text_effects_tree(font_size: int) -> Tree {
    effects_tree(font_size, Some(PCB_TEXT_THICKNESS as int), false, false, Seq::empty())
}

/// Board text effects: the font size and the standard stroke.
fn pcb_text_effects_node(font_size: i64) -> (e: SExpr)
    ensures
        tree_of(e) == pcb_text_effects_tree(font_size as int),
{
    let none: Vec<SExpr> = Vec::new();
    assert(trees(none@) =~= Seq::<Tree>::empty());
    effects_node(font_size, Some(PCB_TEXT_THICKNESS), false, false, none)
}

// ---------------------------------------------------------------------------
// Properties and texts
// ---------------------------------------------------------------------------

/// What a footprint property is, as a value.
pub struct PropView {
    pub key: Seq<char>,
    pub value: Seq<char>,
    pub position: Option<Vec2>,
    pub rotation: i64,
    pub layer: Option<Seq<char>>,
    pub font_size: Option<i64>,
    pub hidden: bool,
}

pub open spec fn prop_view(p: PcbProperty) -> PropView {
    PropView {
        key: p.key@,
        value: p.value@,
        position: p.position,
        rotation: p.rotation,
        layer: match p.layer {
            Some(l) => Some(l@),
            None => None,
        },
        font_size: p.font_size,
        hidden: p.hidden,
    }
}

pub open spec fn pcb_property_tree(p: PropView) -> Tree {
    let pos = match p.position {
        Some(q) => q,
        None => Vec2 { x: 0, y: 0 },
    };
    node_tree(
        "property"@,
        seq![Tree::Quoted(p.key), Tree::Quoted(p.value), at_tree(pos.x as int, pos.y as int, rotation_opt(p.rotation))]
            + match p.layer {
            Some(l) => seq![layer_tree(l)],
            None => Seq::empty(),
        } + (if p.hidden {
            seq![node_tree("hide"@, seq![Tree::Raw("yes"@)])]
        } else {
            Seq::empty()
        }) + seq![
            pcb_text_effects_tree(
                match p.font_size {
                    Some(f) => f as int,
                    None => PCB_DEFAULT_TEXT_SIZE as int,
                },
            ),
        ],
    )
}

/// A footprint `(property "KEY" "VALUE" (at ..) [(layer ..)] [(hide yes)]
/// (effects ..))`.
pub fn pcb_property_node(property: &PcbProperty) -> (e: SExpr)
    ensures
        tree_of(e) == pcb_property_tree(prop_view(*property)),
{
    let pos = match property.position {
        Some(q) => q,
        None => Vec2 { x: 0, y: 0 },
    };
    let ghost pv = prop_view(*property);
    let mut items: Vec<SExpr> = Vec::new();
    push_item(&mut items, atom(&property.key));
    push_item(&mut items, atom(&property.value));
    push_item(&mut items, at_coord(pos.x, pos.y, rotation_if_nonzero(property.rotation)));
    let ghost mut kids = seq![
        Tree::Quoted(pv.key),
        Tree::Quoted(pv.value),
        at_tree(pos.x as int, pos.y as int, rotation_opt(property.rotation)),
    ];
    assert(trees(items@) =~= kids);
    match &property.layer {
        Some(l) => {
            push_item(&mut items, layer_node(l.as_str()));
            proof {
                kids = kids + seq![layer_tree(l@)];
            }
        },
        None => {
            assert(kids =~= kids + Seq::<Tree>::empty());
        },
    }
    assert(trees(items@) =~= kids);
    if property.hidden {
        push_item(&mut items, hide_yes_node());
        proof {
            kids = kids + seq![node_tree("hide"@, seq![Tree::Raw("yes"@)])];
        }
    } else {
        assert(kids =~= kids + Seq::<Tree>::empty());
    }
    assert(trees(items@) =~= kids);
    let fs = match property.font_size {
        Some(f) => f,
        None => PCB_DEFAULT_TEXT_SIZE,
    };
    push_item(&mut items, pcb_text_effects_node(fs));
    proof {
        kids = kids + seq![pcb_text_effects_tree(fs as int)];
    }
    assert(trees(items@) =~= kids);
    node("property", items)
}

pub open spec fn board_text_kids(t: BoardText) -> Seq<Tree> {
    seq![
        Tree::Quoted(t.text@),
        at_tree(t.position.x as int, t.position.y as int, rotation_opt(t.rotation)),
        layer_tree(t.layer@),
        pcb_text_effects_tree(t.font_size as int),
        uuid_tree(t.uuid),
    ]
}

pub open spec fn board_text_tree(t: BoardText) -> Tree {
    node_tree("gr_text"@, board_text_kids(t))
}

/// `(gr_text "TEXT" (at ..) (layer ..) (effects ..) (uuid ..))`.
pub fn board_text_node(text: &BoardText) -> (e: SExpr)
    ensures
        tree_of(e) == board_text_tree(*text),
{
    let mut items: Vec<SExpr> = Vec::new();
    push_item(&mut items, atom(&text.text));
    push_item(&mut items, at_coord(text.position.x, text.position.y, rotation_if_nonzero(text.rotation)));
    push_item(&mut items, layer_node(text.layer.as_str()));
    push_item(&mut items, pcb_text_effects_node(text.font_size));
    push_item(&mut items, uuid_node(text.uuid));
    assert(trees(items@) =~= board_text_kids(*text));
    node("gr_text", items)
}

// ---------------------------------------------------------------------------
// Sections
// ---------------------------------------------------------------------------

pub open spec fn general_tree(b: PcbBoard) -> Tree {
    node_tree("general"@, seq![node_tree("thickness"@, seq![num(b.thickness as int)]), uuid_tree(b.uuid)])
}

/// `(general (thickness T) (uuid ..))`.
fn build_general(board: &PcbBoard) -> (e: SExpr)
    ensures
        tree_of(e) == general_tree(*board),
{
    let mut items: Vec<SExpr> = Vec::new();
    push_item(&mut items, num_node("thickness", board.thickness as i128));
    push_item(&mut items, uuid_node(board.uuid));
    assert(trees(items@) =~= seq![node_tree("thickness"@, seq![num(board.thickness as int)]), uuid_tree(board.uuid)]);
    node("general", items)
}

pub open spec fn layer_def_tree(l: LayerDef) -> Tree {
    Tree::List(seq![Tree::Raw(decimal(l.id as nat)), Tree::Quoted(l.name@), Tree::Raw(l.layer_type@)])
}

/// `(ID "NAME" TYPE)`.
fn build_layer(l: &LayerDef) -> (e: SExpr)
    ensures
        tree_of(e) == layer_def_tree(*l),
{
    let mut items: Vec<SExpr> = Vec::new();
    push_item(&mut items, atom(l.id as u32));
    push_item(&mut items, atom(&l.name));
    push_item(&mut items, raw(l.layer_type.as_str()));
    proof {
        crate::sexpr::lemma_tree_of_list(items);
    }
    assert(trees(items@) =~= seq![Tree::Raw(decimal(l.id as nat)), Tree::Quoted(l.name@), Tree::Raw(l.layer_type@)]);
    SExpr::List(items)
}

pub open spec fn layers_tree(ls: Seq<LayerDef>) -> Tree {
    node_tree("layers"@, Seq::new(ls.len(), |i: int| layer_def_tree(ls[i])))
}

/// `(layers (ID "NAME" TYPE) ...)`.
fn build_layers(layers: &[LayerDef]) -> (e: SExpr)
    ensures
        tree_of(e) == layers_tree(layers@),
{
    let mut items: Vec<SExpr> = Vec::new();
    let mut i: usize = 0;
    while i < layers.len()
        invariant
            i <= layers@.len(),
            trees(items@) == Seq::new(i as nat, |j: int| layer_def_tree(layers@[j])),
        decreases layers.len() - i,
    {
        push_item(&mut items, build_layer(&layers[i]));
        assert(trees(items@) =~= Seq::new((i + 1) as nat, |j: int| layer_def_tree(layers@[j])));
        i += 1;
    }
    node("layers", items)
}

pub open spec fn plot_params_kids() -> Seq<Tree> {
    seq![
        node_tree("layerselection"@, seq![Tree::Raw("0x00010fc_ffffffff"@)]),
        node_tree("plot_on_all_layers_selection"@, seq![Tree::Raw("0x0000000_00000000"@)]),
    ]
}

pub open spec fn setup_kids() -> Seq<Tree> {
    seq![
        node_tree("pad_to_mask_clearance"@, seq![Tree::Raw("0"@)]),
        node_tree("pcbplotparams"@, plot_params_kids()),
    ]
}

pub open spec fn setup_tree() -> Tree {
    node_tree("setup"@, setup_kids())
}

/// The fixed `(setup ...)` block: zero mask clearance and the standard
/// plot layer selection.
fn build_setup(_setup: &PcbSetup) -> (e: SExpr)
    ensures
        tree_of(e) == setup_tree(),
{
    let mut plot: Vec<SExpr> = Vec::new();
    push_item(&mut plot, token_node("layerselection", "0x00010fc_ffffffff"));
    push_item(&mut plot, token_node("plot_on_all_layers_selection", "0x0000000_00000000"));
    assert(trees(plot@) =~= plot_params_kids());
    let mut items: Vec<SExpr> = Vec::new();
    push_item(&mut items, token_node("pad_to_mask_clearance", "0"));
    push_item(&mut items, node("pcbplotparams", plot));
    assert(trees(items@) =~= setup_kids());
    node("setup", items)
}

pub open spec fn net_class_rules(s: PcbSetup) -> Seq<Tree> {
    seq![
        node_tree("clearance"@, seq![num(s.clearance as int)]),
        node_tree("trace_width"@, seq![num(s.trace_width as int)]),
        node_tree("via_dia"@, seq![num(s.via_diameter as int)]),
        node_tree("via_drill"@, seq![num(s.via_drill as int)]),
        node_tree("uvia_dia"@, seq![num(s.via_min_diameter as int)]),
        node_tree("uvia_drill"@, seq![num(s.via_min_drill as int)]),
    ]
}

pub open spec fn net_class_tree(s: PcbSetup) -> Tree {
    node_tree("net_class"@, seq![Tree::Quoted("Default"@), Tree::Quoted(""@)] + net_class_rules(s))
}

/// The default net class with the board's design rules.
fn build_net_class(setup: &PcbSetup) -> (e: SExpr)
    ensures
        tree_of(e) == net_class_tree(*setup),
{
    let mut rules: Vec<SExpr> = Vec::new();
    push_item(&mut rules, num_node("clearance", setup.clearance as i128));
    push_item(&mut rules, num_node("trace_width", setup.trace_width as i128));
    push_item(&mut rules, num_node("via_dia", setup.via_diameter as i128));
    push_item(&mut rules, num_node("via_drill", setup.via_drill as i128));
    push_item(&mut rules, num_node("uvia_dia", setup.via_min_diameter as i128));
    push_item(&mut rules, num_node("uvia_drill", setup.via_min_drill as i128));
    assert(trees(rules@) =~= net_class_rules(*setup));
    let mut items: Vec<SExpr> = Vec::new();
    push_item(&mut items, atom("Default"));
    push_item(&mut items, atom(""));
    let ghost head = items@;
    assert(trees(head) =~= seq![Tree::Quoted("Default"@), Tree::Quoted(""@)]);
    let ghost rv = rules@;
    items.append(&mut rules);
    assert(items@ =~= head + rv);
    assert(trees(items@) =~= trees(head) + trees(rv));
    node("net_class", items)
}

pub open spec fn net_tree(n: NetDef) -> Tree {
    Tree::List(seq![Tree::Raw("net"@), Tree::Raw(decimal(n.number as nat)), Tree::Quoted(n.name@)])
}

/// `(net N "NAME")`.
fn build_net(net: &NetDef) -> (e: SExpr)
    ensures
        tree_of(e) == net_tree(*net),
{
    let mut items: Vec<SExpr> = Vec::new();
    push_item(&mut items, raw("net"));
    push_item(&mut items, atom(net.number));
    push_item(&mut items, atom(&net.name));
    proof {
        crate::sexpr::lemma_tree_of_list(items);
    }
    assert(trees(items@) =~= seq![Tree::Raw("net"@), Tree::Raw(decimal(net.number as nat)), Tree::Quoted(net.name@)]);
    SExpr::List(items)
}

pub open spec fn segment_kids(s: Segment) -> Seq<Tree> {
    seq![
        node_tree("start"@, xy_kids(s.start)),
        node_tree("end"@, xy_kids(s.end)),
        node_tree("width"@, seq![num(s.width as int)]),
        layer_tree(s.layer@),
        node_tree("net"@, seq![Tree::Raw(decimal(s.net as nat))]),
        uuid_tree(s.uuid),
    ]
}

pub open spec fn segment_tree(s: Segment) -> Tree {
    node_tree("segment"@, segment_kids(s))
}

/// A track `(segment (start ..) (end ..) (width ..) (layer ..) (net N) (uuid ..))`.
fn build_segment(s: &Segment) -> (e: SExpr)
    ensures
        tree_of(e) == segment_tree(*s),
{
    let mut items: Vec<SExpr> = Vec::new();
    push_item(&mut items, point_node("start", s.start.x as i128, s.start.y as i128));
    push_item(&mut items, point_node("end", s.end.x as i128, s.end.y as i128));
    push_item(&mut items, num_node("width", s.width as i128));
    push_item(&mut items, layer_node(s.layer.as_str()));
    push_item(&mut items, count_node("net", s.net));
    push_item(&mut items, uuid_node(s.uuid));
    assert(trees(items@) =~= segment_kids(*s));
    node("segment", items)
}

pub open spec fn via_tree(v: Via) -> Tree {
    node_tree(
        via_type_token(v.via_type),
        seq![
            at_tree(v.position.x as int, v.position.y as int, None),
            node_tree("size"@, seq![num(v.diameter as int)]),
            node_tree("drill"@, seq![num(v.drill as int)]),
        ] + (if v.layers@.len() >= 2 {
            seq![node_tree("layers"@, seq![Tree::Quoted(v.layers@[0]@), Tree::Quoted(v.layers@[1]@)])]
        } else {
            Seq::empty()
        }) + seq![node_tree("net"@, seq![Tree::Raw(decimal(v.net as nat))]), uuid_tree(v.uuid)],
    )
}

/// A via, under the keyword of its type, with its two end layers when
/// it names at least two.
fn build_via(v: &Via) -> (e: SExpr)
    ensures
        tree_of(e) == via_tree(*v),
{
    let mut items: Vec<SExpr> = Vec::new();
    push_item(&mut items, at_coord(v.position.x, v.position.y, None));
    push_item(&mut items, num_node("size", v.diameter as i128));
    push_item(&mut items, num_node("drill", v.drill as i128));
    let ghost mut kids = seq![
        at_tree(v.position.x as int, v.position.y as int, None),
        node_tree("size"@, seq![num(v.diameter as int)]),
        node_tree("drill"@, seq![num(v.drill as int)]),
    ];
    assert(trees(items@) =~= kids);
    if v.layers.len() >= 2 {
        let mut ls: Vec<SExpr> = Vec::new();
        push_item(&mut ls, atom(&v.layers[0]));
        push_item(&mut ls, atom(&v.layers[1]));
        assert(trees(ls@) =~= seq![Tree::Quoted(v.layers@[0]@), Tree::Quoted(v.layers@[1]@)]);
        push_item(&mut items, node("layers", ls));
        proof {
            kids = kids + seq![node_tree("layers"@, seq![Tree::Quoted(v.layers@[0]@), Tree::Quoted(v.layers@[1]@)])];
        }
    } else {
        assert(kids =~= kids + Seq::<Tree>::empty());
    }
    assert(trees(items@) =~= kids);
    push_item(&mut items, count_node("net", v.net));
    push_item(&mut items, uuid_node(v.uuid));
    proof {
        kids = kids + seq![node_tree("net"@, seq![Tree::Raw(decimal(v.net as nat))]), uuid_tree(v.uuid)];
    }
    assert(trees(items@) =~= kids);
    node(via_type_str(v.via_type), items)
}

pub open spec fn zone_tree(z: Zone) -> Tree {
    node_tree(
        "zone"@,
        seq![
            node_tree("net"@, seq![Tree::Raw(decimal(z.net as nat))]),
            node_tree("net_name"@, seq![Tree::Quoted(z.net_name@)]),
            layer_tree(z.layer@),
            uuid_tree(z.uuid),
        ] + (if z.priority > 0 {
            seq![node_tree("priority"@, seq![Tree::Raw(decimal(z.priority as nat))])]
        } else {
            Seq::empty()
        }) + seq![
            node_tree(
                "fill"@,
                if z.thermal_relief {
                    seq![
                        node_tree("thermal_relief"@, Seq::empty()),
                        node_tree("thermal_gap"@, seq![num(z.thermal_gap as int)]),
                        node_tree("thermal_bridge_width"@, seq![num(z.thermal_width as int)]),
                    ]
                } else {
                    Seq::empty()
                },
            ),
            node_tree("min_thickness"@, seq![num(z.min_thickness as int)]),
        ] + (if z.clearance > 0 {
            seq![node_tree("clearance"@, seq![num(z.clearance as int)])]
        } else {
            Seq::empty()
        }) + (if z.outline@.len() > 0 {
            seq![node_tree("polygon"@, seq![pts_tree(z.outline@)])]
        } else {
            Seq::empty()
        }),
    )
}

/// A copper zone with its net, priority, thermal relief, minimum
/// thickness, clearance and outline.
fn build_zone(z: &Zone) -> (e: SExpr)
    ensures
        tree_of(e) == zone_tree(*z),
{
    let mut items: Vec<SExpr> = Vec::new();
    push_item(&mut items, count_node("net", z.net));
    push_item(&mut items, text_node("net_name", z.net_name.as_str()));
    push_item(&mut items, layer_node(z.layer.as_str()));
    push_item(&mut items, uuid_node(z.uuid));
    let ghost mut kids = seq![
        node_tree("net"@, seq![Tree::Raw(decimal(z.net as nat))]),
        node_tree("net_name"@, seq![Tree::Quoted(z.net_name@)]),
        layer_tree(z.layer@),
        uuid_tree(z.uuid),
    ];
    assert(trees(items@) =~= kids);
    if z.priority > 0 {
        push_item(&mut items, count_node("priority", z.priority));
        proof {
            kids = kids + seq![node_tree("priority"@, seq![Tree::Raw(decimal(z.priority as nat))])];
        }
    } else {
        assert(kids =~= kids + Seq::<Tree>::empty());
    }
    assert(trees(items@) =~= kids);
    let mut fill: Vec<SExpr> = Vec::new();
    if z.thermal_relief {
        let none: Vec<SExpr> = Vec::new();
        assert(trees(none@) =~= Seq::<Tree>::empty());
        push_item(&mut fill, node("thermal_relief", none));
        push_item(&mut fill, num_node("thermal_gap", z.thermal_gap as i128));
        push_item(&mut fill, num_node("thermal_bridge_width", z.thermal_width as i128));
        assert(trees(fill@) =~= seq![
            node_tree("thermal_relief"@, Seq::empty()),
            node_tree("thermal_gap"@, seq![num(z.thermal_gap as int)]),
            node_tree("thermal_bridge_width"@, seq![num(z.thermal_width as int)]),
        ]);
    } else {
        assert(trees(fill@) =~= Seq::<Tree>::empty());
    }
    let ghost fill_kids = trees(fill@);
    push_item(&mut items, node("fill", fill));
    push_item(&mut items, num_node("min_thickness", z.min_thickness as i128));
    proof {
        kids = kids + seq![
            node_tree("fill"@, fill_kids),
            node_tree("min_thickness"@, seq![num(z.min_thickness as int)]),
        ];
    }
    assert(trees(items@) =~= kids);
    if z.clearance > 0 {
        push_item(&mut items, num_node("clearance", z.clearance as i128));
        proof {
            kids = kids + seq![node_tree("clearance"@, seq![num(z.clearance as int)])];
        }
    } else {
        assert(kids =~= kids + Seq::<Tree>::empty());
    }
    assert(trees(items@) =~= kids);
    if z.outline.len() > 0 {
        let mut poly: Vec<SExpr> = Vec::new();
        push_item(&mut poly, pts_node(z.outline.as_slice()));
        assert(trees(poly@) =~= seq![pts_tree(z.outline@)]);
        push_item(&mut items, node("polygon", poly));
        proof {
            kids = kids + seq![node_tree("polygon"@, seq![pts_tree(z.outline@)])];
        }
    } else {
        assert(kids =~= kids + Seq::<Tree>::empty());
    }
    assert(trees(items@) =~= kids);
    node("zone", items)
}

// ---------------------------------------------------------------------------
// Graphics
// ---------------------------------------------------------------------------

pub open spec fn two_point_tree(keyword: Seq<char>, s: Vec2, e: Vec2, width: int, layer: Seq<char>) -> Tree {
    node_tree(
        keyword,
        seq![node_tree("start"@, xy_kids(s)), node_tree("end"@, xy_kids(e)), stroke_tree(width), layer_tree(layer)],
    )
}

fn two_point_node(keyword: &str, s: Vec2, e: Vec2, width: i64, layer: &str) -> (r: SExpr)
    ensures
        tree_of(r) == two_point_tree(keyword@, s, e, width as int, layer@),
{
    let mut items: Vec<SExpr> = Vec::new();
    push_item(&mut items, point_node("start", s.x as i128, s.y as i128));
    push_item(&mut items, point_node("end", e.x as i128, e.y as i128));
    push_item(&mut items, stroke_node(width));
    push_item(&mut items, layer_node(layer));
    assert(trees(items@) =~= seq![
        node_tree("start"@, xy_kids(s)),
        node_tree("end"@, xy_kids(e)),
        stroke_tree(width as int),
        layer_tree(layer@),
    ]);
    node(keyword, items)
}

/// The point a circle's radius reaches to the right of its centre.
pub open spec fn circle_end_kids(c: Vec2, radius: i64) -> Seq<Tree> {
    seq![num(c.x + radius), num(c.y as int)]
}

pub open spec fn board_graphic_tree(g: BoardGraphic) -> Option<Tree> {
    let t = g.graphic_type@;
    if t == "line"@ || t == "rect"@ || t == "arc"@ {
        match (g.start, g.end) {
            (Some(s), Some(e)) => Some(
                two_point_tree(
                    if t == "line"@ {
                        "gr_line"@
                    } else if t == "rect"@ {
                        "gr_rect"@
                    } else {
                        "gr_arc"@
                    },
                    s,
                    e,
                    g.width as int,
                    g.layer@,
                ),
            ),
            _ => None,
        }
    } else if t == "circle"@ {
        match g.center {
            Some(c) => Some(
                node_tree(
                    "gr_circle"@,
                    seq![
                        node_tree("center"@, xy_kids(c)),
                        node_tree("end"@, circle_end_kids(c, g.radius)),
                        stroke_tree(g.width as int),
                        layer_tree(g.layer@),
                    ],
                ),
            ),
            None => None,
        }
    } else {
        None
    }
}

/// A board drawing (`gr_line`, `gr_rect`, `gr_circle`, `gr_arc`); `None`
/// for another kind or when a point the kind needs is missing.
pub fn build_board_graphic(g: &BoardGraphic) -> (r: Option<SExpr>)
    ensures
        match r {
            Some(e) => board_graphic_tree(*g) == Some(tree_of(e)),
            None => board_graphic_tree(*g) is None,
        },
{
    let t = g.graphic_type.as_str();
    let is_line = str_eq(t, "line");
    let is_rect = str_eq(t, "rect");
    let is_arc = str_eq(t, "arc");
    if is_line || is_rect || is_arc {
        match (g.start, g.end) {
            (Some(s), Some(e)) => {
                let kw = if is_line {
                    "gr_line"
                } else if is_rect {
                    "gr_rect"
                } else {
                    "gr_arc"
                };
                Some(two_point_node(kw, s, e, g.width, g.layer.as_str()))
            },
            _ => None,
        }
    } else if str_eq(t, "circle") {
        match g.center {
            Some(c) => {
                let mut items: Vec<SExpr> = Vec::new();
                push_item(&mut items, point_node("center", c.x as i128, c.y as i128));
                push_item(&mut items, point_node("end", c.x as i128 + g.radius as i128, c.y as i128));
                push_item(&mut items, stroke_node(g.width));
                push_item(&mut items, layer_node(g.layer.as_str()));
                assert(trees(items@) =~= seq![
                    node_tree("center"@, xy_kids(c)),
                    node_tree("end"@, circle_end_kids(c, g.radius)),
                    stroke_tree(g.width as int),
                    layer_tree(g.layer@),
                ]);
                Some(node("gr_circle", items))
            },
            None => None,
        }
    } else {
        None
    }
}

pub open spec fn solid_fill(fill: Seq<char>) -> Seq<Tree> {
    if fill == "solid"@ {
        seq![node_tree("fill"@, seq![Tree::Raw("solid"@)])]
    } else {
        Seq::empty()
    }
}

/// The text size of a footprint text: its own, or the default when zero.
pub open spec fn fp_text_size(g: FpGraphic) -> int {
    if g.font_size != 0 {
        g.font_size as int
    } else {
        PCB_DEFAULT_TEXT_SIZE as int
    }
}

pub open spec fn fp_graphic_tree(g: FpGraphic) -> Option<Tree> {
    let t = g.graphic_type@;
    if t == "line"@ {
        match (g.start, g.end) {
            (Some(s), Some(e)) => Some(two_point_tree("fp_line"@, s, e, g.width as int, g.layer@)),
            _ => None,
        }
    } else if t == "rect"@ {
        match (g.start, g.end) {
            (Some(s), Some(e)) => Some(
                node_tree(
                    "fp_rect"@,
                    seq![node_tree("start"@, xy_kids(s)), node_tree("end"@, xy_kids(e)), stroke_tree(g.width as int)]
                        + solid_fill(g.fill@) + seq![layer_tree(g.layer@)],
                ),
            ),
            _ => None,
        }
    } else if t == "circle"@ {
        match g.center {
            Some(c) => Some(
                node_tree(
                    "fp_circle"@,
                    seq![
                        node_tree("center"@, xy_kids(c)),
                        node_tree("end"@, circle_end_kids(c, g.radius)),
                        stroke_tree(g.width as int),
                    ] + solid_fill(g.fill@) + seq![layer_tree(g.layer@)],
                ),
            ),
            None => None,
        }
    } else if t == "arc"@ {
        match (g.start, g.mid, g.end) {
            (Some(s), Some(m), Some(e)) => Some(
                node_tree(
                    "fp_arc"@,
                    seq![
                        node_tree("start"@, xy_kids(s)),
                        node_tree("mid"@, xy_kids(m)),
                        node_tree("end"@, xy_kids(e)),
                        stroke_tree(g.width as int),
                        layer_tree(g.layer@),
                    ],
                ),
            ),
            _ => None,
        }
    } else if t == "poly"@ {
        if g.points@.len() < 2 {
            None
        } else {
            Some(
                node_tree(
                    "fp_poly"@,
                    seq![pts_tree(g.points@), stroke_tree(g.width as int)] + solid_fill(g.fill@) + seq![
                        layer_tree(g.layer@),
                    ],
                ),
            )
        }
    } else if t == "text"@ {
        match g.position {
            Some(pos) => Some(
                node_tree(
                    "fp_text"@,
                    seq![
                        Tree::Raw("user"@),
                        Tree::Quoted(g.text@),
                        at_tree(pos.x as int, pos.y as int, rotation_opt(g.rotation)),
                        layer_tree(g.layer@),
                        pcb_text_effects_tree(fp_text_size(g)),
                    ],
                ),
            ),
            None => None,
        }
    } else {
        None
    }
}

fn push_solid_fill(items: &mut Vec<SExpr>, fill: &str)
    ensures
        trees(final(items)@) == trees(old(items)@) + solid_fill(fill@),
{
    if str_eq(fill, "solid") {
        push_item(items, token_node("fill", "solid"));
    } else {
        assert(trees(items@) =~= trees(items@) + Seq::<Tree>::empty());
    }
}

fn fp_rect_node(s: Vec2, e: Vec2, g: &FpGraphic) -> (r: SExpr)
    ensures
        tree_of(r) == node_tree(
            "fp_rect"@,
            seq![node_tree("start"@, xy_kids(s)), node_tree("end"@, xy_kids(e)), stroke_tree(g.width as int)]
                + solid_fill(g.fill@) + seq![layer_tree(g.layer@)],
        ),
{
    let mut items: Vec<SExpr> = Vec::new();
    push_item(&mut items, point_node("start", s.x as i128, s.y as i128));
    push_item(&mut items, point_node("end", e.x as i128, e.y as i128));
    push_item(&mut items, stroke_node(g.width));
    let ghost head = seq![
        node_tree("start"@, xy_kids(s)),
        node_tree("end"@, xy_kids(e)),
        stroke_tree(g.width as int),
    ];
    assert(trees(items@) =~= head);
    push_solid_fill(&mut items, g.fill.as_str());
    push_item(&mut items, layer_node(g.layer.as_str()));
    assert(trees(items@) =~= head + solid_fill(g.fill@) + seq![layer_tree(g.layer@)]);
    node("fp_rect", items)
}

fn fp_circle_node(c: Vec2, g: &FpGraphic) -> (r: SExpr)
    ensures
        tree_of(r) == node_tree(
            "fp_circle"@,
            seq![
                node_tree("center"@, xy_kids(c)),
                node_tree("end"@, circle_end_kids(c, g.radius)),
                stroke_tree(g.width as int),
            ] + solid_fill(g.fill@) + seq![layer_tree(g.layer@)],
        ),
{
    let mut items: Vec<SExpr> = Vec::new();
    push_item(&mut items, point_node("center", c.x as i128, c.y as i128));
    push_item(&mut items, point_node("end", c.x as i128 + g.radius as i128, c.y as i128));
    push_item(&mut items, stroke_node(g.width));
    let ghost head = seq![
        node_tree("center"@, xy_kids(c)),
        node_tree("end"@, circle_end_kids(c, g.radius)),
        stroke_tree(g.width as int),
    ];
    assert(trees(items@) =~= head);
    push_solid_fill(&mut items, g.fill.as_str());
    push_item(&mut items, layer_node(g.layer.as_str()));
    assert(trees(items@) =~= head + solid_fill(g.fill@) + seq![layer_tree(g.layer@)]);
    node("fp_circle", items)
}

fn fp_arc_node(s: Vec2, m: Vec2, e: Vec2, g: &FpGraphic) -> (r: SExpr)
    ensures
        tree_of(r) == node_tree(
            "fp_arc"@,
            seq![
                node_tree("start"@, xy_kids(s)),
                node_tree("mid"@, xy_kids(m)),
                node_tree("end"@, xy_kids(e)),
                stroke_tree(g.width as int),
                layer_tree(g.layer@),
            ],
        ),
{
    let mut items: Vec<SExpr> = Vec::new();
    push_item(&mut items, point_node("start", s.x as i128, s.y as i128));
    push_item(&mut items, point_node("mid", m.x as i128, m.y as i128));
    push_item(&mut items, point_node("end", e.x as i128, e.y as i128));
    push_item(&mut items, stroke_node(g.width));
    push_item(&mut items, layer_node(g.layer.as_str()));
    assert(trees(items@) =~= seq![
        node_tree("start"@, xy_kids(s)),
        node_tree("mid"@, xy_kids(m)),
        node_tree("end"@, xy_kids(e)),
        stroke_tree(g.width as int),
        layer_tree(g.layer@),
    ]);
    node("fp_arc", items)
}

fn fp_poly_node(g: &FpGraphic) -> (r: SExpr)
    ensures
        tree_of(r) == node_tree(
            "fp_poly"@,
            seq![pts_tree(g.points@), stroke_tree(g.width as int)] + solid_fill(g.fill@) + seq![layer_tree(g.layer@)],
        ),
{
    let mut items: Vec<SExpr> = Vec::new();
    push_item(&mut items, pts_node(g.points.as_slice()));
    push_item(&mut items, stroke_node(g.width));
    let ghost head = seq![pts_tree(g.points@), stroke_tree(g.width as int)];
    assert(trees(items@) =~= head);
    push_solid_fill(&mut items, g.fill.as_str());
    push_item(&mut items, layer_node(g.layer.as_str()));
    assert(trees(items@) =~= head + solid_fill(g.fill@) + seq![layer_tree(g.layer@)]);
    node("fp_poly", items)
}

fn fp_text_node(pos: Vec2, g: &FpGraphic) -> (r: SExpr)
    ensures
        tree_of(r) == node_tree(
            "fp_text"@,
            seq![
                Tree::Raw("user"@),
                Tree::Quoted(g.text@),
                at_tree(pos.x as int, pos.y as int, rotation_opt(g.rotation)),
                layer_tree(g.layer@),
                pcb_text_effects_tree(fp_text_size(*g)),
            ],
        ),
{
    let fs = if g.font_size != 0 {
        g.font_size
    } else {
        PCB_DEFAULT_TEXT_SIZE
    };
    let mut items: Vec<SExpr> = Vec::new();
    push_item(&mut items, raw("user"));
    push_item(&mut items, atom(&g.text));
    push_item(&mut items, at_coord(pos.x, pos.y, rotation_if_nonzero(g.rotation)));
    push_item(&mut items, layer_node(g.layer.as_str()));
    push_item(&mut items, pcb_text_effects_node(fs));
    assert(trees(items@) =~= seq![
        Tree::Raw("user"@),
        Tree::Quoted(g.text@),
        at_tree(pos.x as int, pos.y as int, rotation_opt(g.rotation)),
        layer_tree(g.layer@),
        pcb_text_effects_tree(fp_text_size(*g)),
    ]);
    node("fp_text", items)
}

/// A footprint drawing (`fp_line`, `fp_rect`, `fp_circle`, `fp_arc`,
/// `fp_poly`, `fp_text`); `None` for another kind, when a point the kind
/// needs is missing, or for a polygon of fewer than two points.
pub fn build_fp_graphic(g: &FpGraphic) -> (r: Option<SExpr>)
    ensures
        match r {
            Some(e) => fp_graphic_tree(*g) == Some(tree_of(e)),
            None => fp_graphic_tree(*g) is None,
        },
{
    let t = g.graphic_type.as_str();
    if str_eq(t, "line") {
        match (g.start, g.end) {
            (Some(s), Some(e)) => Some(two_point_node("fp_line", s, e, g.width, g.layer.as_str())),
            _ => None,
        }
    } else if str_eq(t, "rect") {
        match (g.start, g.end) {
            (Some(s), Some(e)) => Some(fp_rect_node(s, e, g)),
            _ => None,
        }
    } else if str_eq(t, "circle") {
        match g.center {
            Some(c) => Some(fp_circle_node(c, g)),
            None => None,
        }
    } else if str_eq(t, "arc") {
        match (g.start, g.mid, g.end) {
            (Some(s), Some(m), Some(e)) => Some(fp_arc_node(s, m, e, g)),
            _ => None,
        }
    } else if str_eq(t, "poly") {
        if g.points.len() < 2 {
            None
        } else {
            Some(fp_poly_node(g))
        }
    } else if str_eq(t, "text") {
        match g.position {
            Some(pos) => Some(fp_text_node(pos, g)),
            None => None,
        }
    } else {
        None
    }
}

// ---------------------------------------------------------------------------
// Pads
// ---------------------------------------------------------------------------

pub open spec fn drill_kids(d: Option<DrillDef>) -> Seq<Tree> {
    match d {
        Some(dr) => if dr.shape@.len() > 0 {
            seq![node_tree("drill"@, seq![Tree::Raw(dr.shape@), num(dr.diameter as int)])]
        } else {
            seq![node_tree("drill"@, seq![num(dr.diameter as int)])]
        },
        None => Seq::empty(),
    }
}

pub open spec fn quoted_list(v: Seq<String>) -> Seq<Tree> {
    Seq::new(v.len(), |i: int| Tree::Quoted(v[i]@))
}

pub open spec fn pad_kids(p: Pad) -> Seq<Tree> {
    seq![
        Tree::Quoted(p.number@),
        Tree::Raw(pad_type_token(p.pad_type)),
        Tree::Raw(pad_shape_token(p.shape)),
        at_tree(p.position.x as int, p.position.y as int, None),
        node_tree("size"@, xy_kids(p.size)),
    ] + drill_kids(p.drill) + seq![node_tree("layers"@, quoted_list(p.layers@))] + (if p.roundrect_ratio != 0 {
        seq![node_tree("roundrect_rratio"@, seq![num(p.roundrect_ratio as int)])]
    } else {
        Seq::empty()
    }) + match p.net {
        Some(n) => seq![node_tree("net"@, seq![Tree::Raw(decimal(n.number as nat)), Tree::Quoted(n.name@)])],
        None => Seq::empty(),
    } + seq![uuid_tree(p.uuid)]
}

pub open spec fn pad_tree(p: Pad) -> Tree {
    node_tree("pad"@, pad_kids(p))
}

fn quoted_items(v: &Vec<String>) -> (r: Vec<SExpr>)
    ensures
        trees(r@) == quoted_list(v@),
{
    let mut items: Vec<SExpr> = Vec::new();
    let mut i: usize = 0;
    while i < v.len()
        invariant
            i <= v@.len(),
            trees(items@) == quoted_list(v@.take(i as int)),
        decreases v.len() - i,
    {
        push_item(&mut items, atom(&v[i]));
        assert(quoted_list(v@.take(i + 1)) =~= quoted_list(v@.take(i as int)).push(Tree::Quoted(v@[i as int]@)));
        i += 1;
    }
    assert(v@.take(i as int) =~= v@);
    items
}

fn push_drill(items: &mut Vec<SExpr>, drill: &Option<DrillDef>)
    ensures
        trees(final(items)@) == trees(old(items)@) + drill_kids(*drill),
{
    match drill {
        Some(d) => {
            if !d.shape.as_str().is_empty() {
                let mut dk: Vec<SExpr> = Vec::new();
                push_item(&mut dk, raw(d.shape.as_str()));
                push_item(&mut dk, fixed_atom(d.diameter as i128));
                assert(trees(dk@) =~= seq![Tree::Raw(d.shape@), num(d.diameter as int)]);
                push_item(items, node("drill", dk));
            } else {
                push_item(items, num_node("drill", d.diameter as i128));
            }
            assert(trees(items@) =~= trees(old(items)@) + drill_kids(*drill));
        },
        None => {
            assert(trees(items@) =~= trees(items@) + Seq::<Tree>::empty());
        },
    }
}

pub open spec fn pad_net_kids(n: Option<PadNet>) -> Seq<Tree> {
    match n {
        Some(n) => seq![node_tree("net"@, seq![Tree::Raw(decimal(n.number as nat)), Tree::Quoted(n.name@)])],
        None => Seq::empty(),
    }
}

fn push_pad_net(items: &mut Vec<SExpr>, net: &Option<PadNet>)
    ensures
        trees(final(items)@) == trees(old(items)@) + pad_net_kids(*net),
{
    match net {
        Some(n) => {
            let mut nk: Vec<SExpr> = Vec::new();
            push_item(&mut nk, atom(n.number));
            push_item(&mut nk, atom(&n.name));
            assert(trees(nk@) =~= seq![Tree::Raw(decimal(n.number as nat)), Tree::Quoted(n.name@)]);
            push_item(items, node("net", nk));
            assert(trees(items@) =~= trees(old(items)@) + pad_net_kids(*net));
        },
        None => {
            assert(trees(items@) =~= trees(items@) + Seq::<Tree>::empty());
        },
    }
}

pub open spec fn ratio_kids(r: i64) -> Seq<Tree> {
    if r != 0 {
        seq![node_tree("roundrect_rratio"@, seq![num(r as int)])]
    } else {
        Seq::empty()
    }
}

/// A footprint pad: number, type, shape, position, size, drill, layers,
/// corner ratio, net and UUID.
pub fn build_fp_pad(p: &Pad) -> (e: SExpr)
    ensures
        tree_of(e) == pad_tree(*p),
{
    let mut items: Vec<SExpr> = Vec::new();
    push_item(&mut items, atom(&p.number));
    push_item(&mut items, raw(pad_type_str(p.pad_type)));
    push_item(&mut items, raw(pad_shape_str(p.shape)));
    push_item(&mut items, at_coord(p.position.x, p.position.y, None));
    push_item(&mut items, point_node("size", p.size.x as i128, p.size.y as i128));
    let ghost head = seq![
        Tree::Quoted(p.number@),
        Tree::Raw(pad_type_token(p.pad_type)),
        Tree::Raw(pad_shape_token(p.shape)),
        at_tree(p.position.x as int, p.position.y as int, None),
        node_tree("size"@, xy_kids(p.size)),
    ];
    assert(trees(items@) =~= head);
    push_drill(&mut items, &p.drill);
    let layer_items = quoted_items(&p.layers);
    push_item(&mut items, node("layers", layer_items));
    if p.roundrect_ratio != 0 {
        push_item(&mut items, num_node("roundrect_rratio", p.roundrect_ratio as i128));
    }
    let ghost mid = trees(items@);
    assert(mid == head + drill_kids(p.drill) + seq![node_tree("layers"@, quoted_list(p.layers@))] + ratio_kids(p.roundrect_ratio)) by {
        if p.roundrect_ratio == 0 {
            assert(ratio_kids(p.roundrect_ratio) =~= Seq::<Tree>::empty());
        }
        assert(mid =~= head + drill_kids(p.drill) + seq![node_tree("layers"@, quoted_list(p.layers@))] + ratio_kids(p.roundrect_ratio));
    }
    push_pad_net(&mut items, &p.net);
    push_item(&mut items, uuid_node(p.uuid));
    assert(trees(items@) =~= pad_kids(*p));
    node("pad", items)
}

// ---------------------------------------------------------------------------
// Footprints
// ---------------------------------------------------------------------------

fn copy_property(p: &PcbProperty) -> (r: PcbProperty)
    ensures
        prop_view(r) == prop_view(*p),
{
    PcbProperty {
        key: p.key.clone(),
        value: p.value.clone(),
        position: p.position,
        rotation: p.rotation,
        layer: match &p.layer {
            Some(l) => Some(l.clone()),
            None => None,
        },
        font_size: p.font_size,
        hidden: p.hidden,
    }
}

pub open spec fn default_ref_view(fp: Footprint) -> PropView {
    PropView {
        key: "Reference"@,
        value: fp.reference@,
        position: Some(Vec2 { x: 0, y: (-PCB_FP_TEXT_OFFSET) as i64 }),
        rotation: 0,
        layer: Some("F.SilkS"@),
        font_size: Some(PCB_DEFAULT_TEXT_SIZE),
        hidden: false,
    }
}

pub open spec fn default_value_view(fp: Footprint) -> PropView {
    PropView {
        key: "Value"@,
        value: fp.value@,
        position: Some(Vec2 { x: 0, y: PCB_FP_TEXT_OFFSET }),
        rotation: 0,
        layer: Some("F.Fab"@),
        font_size: Some(PCB_DEFAULT_TEXT_SIZE),
        hidden: false,
    }
}

fn default_reference_property(fp: &Footprint) -> (r: PcbProperty)
    ensures
        prop_view(r) == default_ref_view(*fp),
{
    PcbProperty {
        key: "Reference".to_owned(),
        value: fp.reference.clone(),
        position: Some(Vec2 { x: 0, y: -PCB_FP_TEXT_OFFSET }),
        rotation: 0,
        layer: Some("F.SilkS".to_owned()),
        font_size: Some(PCB_DEFAULT_TEXT_SIZE),
        hidden: false,
    }
}

fn default_value_property(fp: &Footprint) -> (r: PcbProperty)
    ensures
        prop_view(r) == default_value_view(*fp),
{
    PcbProperty {
        key: "Value".to_owned(),
        value: fp.value.clone(),
        position: Some(Vec2 { x: 0, y: PCB_FP_TEXT_OFFSET }),
        rotation: 0,
        layer: Some("F.Fab".to_owned()),
        font_size: Some(PCB_DEFAULT_TEXT_SIZE),
        hidden: false,
    }
}

/// A property with its value taken from the footprint when it is the
/// reference or the value.
pub open spec fn refresh_view(p: PropView, fp: Footprint) -> PropView {
    if p.key == "Reference"@ {
        PropView { value: fp.reference@, ..p }
    } else if p.key == "Value"@ {
        PropView { value: fp.value@, ..p }
    } else {
        p
    }
}

pub open spec fn has_key(ps: Seq<PropView>, k: Seq<char>) -> bool {
    exists|i: int| 0 <= i < ps.len() && #[trigger] ps[i].key == k
}

pub open spec fn props_view(v: Seq<PcbProperty>) -> Seq<PropView> {
    v.map_values(|p: PcbProperty| prop_view(p))
}

/// The properties a footprint is written with: a default reference and
/// value when it has none; else its own, with the reference and value
/// taken from the footprint, a default reference put first when missing
/// and a default value put last when missing.
pub open spec fn effective_props_spec(fp: Footprint) -> Seq<PropView> {
    if fp.properties@.len() == 0 {
        seq![default_ref_view(fp), default_value_view(fp)]
    } else {
        let ps = Seq::new(fp.properties@.len(), |i: int| refresh_view(prop_view(fp.properties@[i]), fp));
        let ps2 = if has_key(ps, "Reference"@) {
            ps
        } else {
            seq![default_ref_view(fp)] + ps
        };
        if has_key(ps2, "Value"@) {
            ps2
        } else {
            ps2.push(default_value_view(fp))
        }
    }
}

fn props_have_key(props: &Vec<PcbProperty>, key: &str) -> (b: bool)
    ensures
        b == has_key(props_view(props@), key@),
{
    let ghost pv = props_view(props@);
    let mut i: usize = 0;
    while i < props.len()
        invariant
            i <= props@.len(),
            pv == props_view(props@),
            forall|j: int| 0 <= j < i ==> #[trigger] pv[j].key != key@,
        decreases props.len() - i,
    {
        assert(pv[i as int].key == props@[i as int].key@);
        if str_eq(props[i].key.as_str(), key) {
            return true;
        }
        i += 1;
    }
    false
}

/// The properties a footprint is written with (see
/// `effective_props_spec`).
pub fn effective_footprint_properties(fp: &Footprint) -> (r: Vec<PcbProperty>)
    ensures
        props_view(r@) == effective_props_spec(*fp),
{
    if fp.properties.len() == 0 {
        let mut r: Vec<PcbProperty> = Vec::new();
        r.push(default_reference_property(fp));
        r.push(default_value_property(fp));
        assert(props_view(r@) =~= seq![default_ref_view(*fp), default_value_view(*fp)]);
        return r;
    }
    let ghost ps = Seq::new(fp.properties@.len(), |i: int| refresh_view(prop_view(fp.properties@[i]), *fp));
    let mut props: Vec<PcbProperty> = Vec::new();
    let mut i: usize = 0;
    while i < fp.properties.len()
        invariant
            i <= fp.properties@.len(),
            ps == Seq::new(fp.properties@.len(), |i: int| refresh_view(prop_view(fp.properties@[i]), *fp)),
            props_view(props@) == ps.take(i as int),
        decreases fp.properties.len() - i,
    {
        let p = &fp.properties[i];
        let mut q = copy_property(p);
        if str_eq(q.key.as_str(), "Reference") {
            q.value = fp.reference.clone();
        } else if str_eq(q.key.as_str(), "Value") {
            q.value = fp.value.clone();
        }
        assert(prop_view(q) == refresh_view(prop_view(*p), *fp));
        let ghost before = props@;
        props.push(q);
        assert(props_view(props@) =~= props_view(before).push(prop_view(q)));
        assert(ps.take(i + 1) =~= ps.take(i as int).push(ps[i as int]));
        i += 1;
    }
    assert(ps.take(i as int) =~= ps);
    if !props_have_key(&props, "Reference") {
        let ghost before = props@;
        props.insert(0, default_reference_property(fp));
        assert(props_view(props@) =~= seq![default_ref_view(*fp)] + props_view(before));
    }
    if !props_have_key(&props, "Value") {
        let ghost before = props@;
        props.push(default_value_property(fp));
        assert(props_view(props@) =~= props_view(before).push(default_value_view(*fp)));
    }
    props
}

/// What a property displays as text: `%R` and `%V` for the reference and
/// value, else its value.
pub open spec fn display_text(p: PropView) -> Seq<char> {
    if p.key == "Reference"@ {
        "%R"@
    } else if p.key == "Value"@ {
        "%V"@
    } else {
        p.value
    }
}

/// Visible property `p` draws exactly the text `g`: same layer, text,
/// rotation, size and position.
pub open spec fn backs(p: PropView, g: FpGraphic) -> bool {
    &&& !p.hidden
    &&& p.position is Some
    &&& p.layer matches Some(l) && g.layer@ == l
    &&& g.text@ == display_text(p)
    &&& g.rotation == p.rotation
    &&& g.font_size == match p.font_size {
        Some(f) => f,
        None => PCB_DEFAULT_TEXT_SIZE,
    }
    &&& g.position == p.position
}

/// A text drawing that a property already draws, so it is not written a
/// second time.
pub open spec fn is_backed_spec(g: FpGraphic, ps: Seq<PropView>) -> bool {
    &&& g.graphic_type@ == "text"@
    &&& g.position is Some
    &&& exists|i: int| 0 <= i < ps.len() && backs(#[trigger] ps[i], g)
}

fn property_backs(p: &PcbProperty, g: &FpGraphic) -> (b: bool)
    ensures
        b == backs(prop_view(*p), *g),
{
    if p.hidden {
        return false;
    }
    let pos = match p.position {
        Some(q) => q,
        None => {
            return false;
        },
    };
    let layer = match &p.layer {
        Some(l) => l,
        None => {
            return false;
        },
    };
    let display = if str_eq(p.key.as_str(), "Reference") {
        "%R"
    } else if str_eq(p.key.as_str(), "Value") {
        "%V"
    } else {
        p.value.as_str()
    };
    let fs = match p.font_size {
        Some(f) => f,
        None => PCB_DEFAULT_TEXT_SIZE,
    };
    let same_pos = match g.position {
        Some(gp) => gp.x == pos.x && gp.y == pos.y,
        None => false,
    };
    str_eq(g.layer.as_str(), layer.as_str()) && str_eq(g.text.as_str(), display) && g.rotation
        == p.rotation && g.font_size == fs && same_pos
}

/// Whether text drawing `g` repeats one of `properties`.
pub fn is_property_backed_text_graphic(g: &FpGraphic, properties: &Vec<PcbProperty>) -> (b: bool)
    ensures
        b == is_backed_spec(*g, props_view(properties@)),
{
    if !str_eq(g.graphic_type.as_str(), "text") {
        return false;
    }
    if g.position.is_none() {
        return false;
    }
    let ghost pv = props_view(properties@);
    let mut i: usize = 0;
    while i < properties.len()
        invariant
            i <= properties@.len(),
            pv == props_view(properties@),
            g.graphic_type@ == "text"@,
            g.position is Some,
            forall|j: int| 0 <= j < i ==> !backs(#[trigger] pv[j], *g),
        decreases properties.len() - i,
    {
        assert(pv[i as int] == prop_view(properties@[i as int]));
        if property_backs(&properties[i], g) {
            assert(backs(pv[i as int], *g));
            return true;
        }
        i += 1;
    }
    false
}

/// The drawings of the first `n` graphics that are written: those not
/// repeating a property, of a kind that can be written.
pub open spec fn fp_graphics_upto(gs: Seq<FpGraphic>, ps: Seq<PropView>, n: int) -> Seq<Tree>
    decreases n,
{
    if n <= 0 || n > gs.len() {
        Seq::empty()
    } else {
        fp_graphics_upto(gs, ps, n - 1) + (if !is_backed_spec(gs[n - 1], ps) && fp_graphic_tree(gs[n - 1]) is Some {
            seq![fp_graphic_tree(gs[n - 1])->0]
        } else {
            Seq::empty()
        })
    }
}

pub open spec fn footprint_kids(fp: Footprint) -> Seq<Tree> {
    let ps = effective_props_spec(fp);
    seq![Tree::Quoted(fp.footprint_id@)] + (if fp.locked {
        seq![node_tree("locked"@, seq![Tree::Raw("yes"@)])]
    } else {
        Seq::empty()
    }) + seq![
        layer_tree(fp.layer@),
        at_tree(fp.position.x as int, fp.position.y as int, rotation_opt(fp.rotation)),
        uuid_tree(fp.uuid),
    ] + Seq::new(ps.len(), |i: int| pcb_property_tree(ps[i])) + fp_graphics_upto(
        fp.graphics@,
        ps,
        fp.graphics@.len() as int,
    ) + Seq::new(fp.pads@.len(), |i: int| pad_tree(fp.pads@[i]))
}

pub open spec fn footprint_tree(fp: Footprint) -> Tree {
    node_tree("footprint"@, footprint_kids(fp))
}

fn push_properties(items: &mut Vec<SExpr>, v: &Vec<PcbProperty>)
    ensures
        trees(final(items)@) == trees(old(items)@) + Seq::new(v@.len(), |i: int| pcb_property_tree(prop_view(v@[i]))),
{
    let ghost start = trees(items@);
    let mut i: usize = 0;
    assert(start =~= start + Seq::new(0, |j: int| pcb_property_tree(prop_view(v@[j]))));
    while i < v.len()
        invariant
            i <= v@.len(),
            trees(items@) == start + Seq::new(i as nat, |j: int| pcb_property_tree(prop_view(v@[j]))),
        decreases v.len() - i,
    {
        push_item(items, pcb_property_node(&v[i]));
        assert(trees(items@) =~= start + Seq::new((i + 1) as nat, |j: int| pcb_property_tree(prop_view(v@[j]))));
        i += 1;
    }
}

fn push_fp_graphics(items: &mut Vec<SExpr>, gs: &Vec<FpGraphic>, props: &Vec<PcbProperty>)
    ensures
        trees(final(items)@) == trees(old(items)@) + fp_graphics_upto(gs@, props_view(props@), gs@.len() as int),
{
    let ghost start = trees(items@);
    let ghost pv = props_view(props@);
    let mut i: usize = 0;
    assert(start =~= start + fp_graphics_upto(gs@, pv, 0));
    while i < gs.len()
        invariant
            i <= gs@.len(),
            pv == props_view(props@),
            trees(items@) == start + fp_graphics_upto(gs@, pv, i as int),
        decreases gs.len() - i,
    {
        let g = &gs[i];
        if !is_property_backed_text_graphic(g, props) {
            match build_fp_graphic(g) {
                Some(e) => {
                    push_item(items, e);
                },
                None => {},
            }
        }
        assert(trees(items@) =~= start + fp_graphics_upto(gs@, pv, i + 1));
        i += 1;
    }
}


fn push_pads(items: &mut Vec<SExpr>, v: &Vec<Pad>)
    ensures
        trees(final(items)@) == trees(old(items)@) + Seq::new(v@.len(), |i: int| pad_tree(v@[i])),
{
    let ghost start = trees(items@);
    let mut i: usize = 0;
    assert(start =~= start + Seq::new(0, |j: int| pad_tree(v@[j])));
    while i < v.len()
        invariant
            i <= v@.len(),
            trees(items@) == start + Seq::new(i as nat, |j: int| pad_tree(v@[j])),
        decreases v.len() - i,
    {
        push_item(items, build_fp_pad(&v[i]));
        assert(trees(items@) =~= start + Seq::new((i + 1) as nat, |j: int| pad_tree(v@[j])));
        i += 1;
    }
}

/// A footprint: its id, lock, layer, placement, UUID, properties, the
/// drawings that do not repeat a property, and its pads.
pub fn build_footprint(fp: &Footprint) -> (e: SExpr)
    ensures
        tree_of(e) == footprint_tree(*fp),
{
    let mut items: Vec<SExpr> = Vec::new();
    push_item(&mut items, atom(&fp.footprint_id));
    if fp.locked {
        push_item(&mut items, token_node("locked", "yes"));
    }
    push_item(&mut items, layer_node(fp.layer.as_str()));
    push_item(&mut items, at_coord(fp.position.x, fp.position.y, rotation_if_nonzero(fp.rotation)));
    push_item(&mut items, uuid_node(fp.uuid));
    let ghost head = seq![Tree::Quoted(fp.footprint_id@)] + (if fp.locked {
        seq![node_tree("locked"@, seq![Tree::Raw("yes"@)])]
    } else {
        Seq::empty()
    }) + seq![
        layer_tree(fp.layer@),
        at_tree(fp.position.x as int, fp.position.y as int, rotation_opt(fp.rotation)),
        uuid_tree(fp.uuid),
    ];
    assert(trees(items@) =~= head);
    let properties = effective_footprint_properties(fp);
    let ghost ps = effective_props_spec(*fp);
    push_properties(&mut items, &properties);
    assert(Seq::new(properties@.len(), |i: int| pcb_property_tree(prop_view(properties@[i]))) =~= Seq::new(
        ps.len(),
        |i: int| pcb_property_tree(ps[i]),
    ));
    push_fp_graphics(&mut items, &fp.graphics, &properties);
    push_pads(&mut items, &fp.pads);
    assert(trees(items@) =~= footprint_kids(*fp));
    node("footprint", items)
}

// ---------------------------------------------------------------------------
// The board
// ---------------------------------------------------------------------------

/// The drawings of the first `n` board graphics that can be written.
pub open spec fn board_graphics_upto(gs: Seq<BoardGraphic>, n: int) -> Seq<Tree>
    decreases n,
{
    if n <= 0 || n > gs.len() {
        Seq::empty()
    } else {
        board_graphics_upto(gs, n - 1) + match board_graphic_tree(gs[n - 1]) {
            Some(t) => seq![t],
            None => Seq::empty(),
        }
    }
}

fn push_board_graphics(items: &mut Vec<SExpr>, gs: &Vec<BoardGraphic>)
    ensures
        trees(final(items)@) == trees(old(items)@) + board_graphics_upto(gs@, gs@.len() as int),
{
    let ghost start = trees(items@);
    let mut i: usize = 0;
    assert(start =~= start + board_graphics_upto(gs@, 0));
    while i < gs.len()
        invariant
            i <= gs@.len(),
            trees(items@) == start + board_graphics_upto(gs@, i as int),
        decreases gs.len() - i,
    {
        match build_board_graphic(&gs[i]) {
            Some(e) => {
                push_item(items, e);
            },
            None => {},
        }
        assert(trees(items@) =~= start + board_graphics_upto(gs@, i + 1));
        i += 1;
    }
}


fn push_nets(items: &mut Vec<SExpr>, v: &Vec<NetDef>)
    ensures
        trees(final(items)@) == trees(old(items)@) + Seq::new(v@.len(), |i: int| net_tree(v@[i])),
{
    let ghost start = trees(items@);
    let mut i: usize = 0;
    assert(start =~= start + Seq::new(0, |j: int| net_tree(v@[j])));
    while i < v.len()
        invariant
            i <= v@.len(),
            trees(items@) == start + Seq::new(i as nat, |j: int| net_tree(v@[j])),
        decreases v.len() - i,
    {
        push_item(items, build_net(&v[i]));
        assert(trees(items@) =~= start + Seq::new((i + 1) as nat, |j: int| net_tree(v@[j])));
        i += 1;
    }
}


fn push_footprints(items: &mut Vec<SExpr>, v: &Vec<Footprint>)
    ensures
        trees(final(items)@) == trees(old(items)@) + Seq::new(v@.len(), |i: int| footprint_tree(v@[i])),
{
    let ghost start = trees(items@);
    let mut i: usize = 0;
    assert(start =~= start + Seq::new(0, |j: int| footprint_tree(v@[j])));
    while i < v.len()
        invariant
            i <= v@.len(),
            trees(items@) == start + Seq::new(i as nat, |j: int| footprint_tree(v@[j])),
        decreases v.len() - i,
    {
        push_item(items, build_footprint(&v[i]));
        assert(trees(items@) =~= start + Seq::new((i + 1) as nat, |j: int| footprint_tree(v@[j])));
        i += 1;
    }
}


fn push_texts(items: &mut Vec<SExpr>, v: &Vec<BoardText>)
    ensures
        trees(final(items)@) == trees(old(items)@) + Seq::new(v@.len(), |i: int| board_text_tree(v@[i])),
{
    let ghost start = trees(items@);
    let mut i: usize = 0;
    assert(start =~= start + Seq::new(0, |j: int| board_text_tree(v@[j])));
    while i < v.len()
        invariant
            i <= v@.len(),
            trees(items@) == start + Seq::new(i as nat, |j: int| board_text_tree(v@[j])),
        decreases v.len() - i,
    {
        push_item(items, board_text_node(&v[i]));
        assert(trees(items@) =~= start + Seq::new((i + 1) as nat, |j: int| board_text_tree(v@[j])));
        i += 1;
    }
}


fn push_segments(items: &mut Vec<SExpr>, v: &Vec<Segment>)
    ensures
        trees(final(items)@) == trees(old(items)@) + Seq::new(v@.len(), |i: int| segment_tree(v@[i])),
{
    let ghost start = trees(items@);
    let mut i: usize = 0;
    assert(start =~= start + Seq::new(0, |j: int| segment_tree(v@[j])));
    while i < v.len()
        invariant
            i <= v@.len(),
            trees(items@) == start + Seq::new(i as nat, |j: int| segment_tree(v@[j])),
        decreases v.len() - i,
    {
        push_item(items, build_segment(&v[i]));
        assert(trees(items@) =~= start + Seq::new((i + 1) as nat, |j: int| segment_tree(v@[j])));
        i += 1;
    }
}


fn push_vias(items: &mut Vec<SExpr>, v: &Vec<Via>)
    ensures
        trees(final(items)@) == trees(old(items)@) + Seq::new(v@.len(), |i: int| via_tree(v@[i])),
{
    let ghost start = trees(items@);
    let mut i: usize = 0;
    assert(start =~= start + Seq::new(0, |j: int| via_tree(v@[j])));
    while i < v.len()
        invariant
            i <= v@.len(),
            trees(items@) == start + Seq::new(i as nat, |j: int| via_tree(v@[j])),
        decreases v.len() - i,
    {
        push_item(items, build_via(&v[i]));
        assert(trees(items@) =~= start + Seq::new((i + 1) as nat, |j: int| via_tree(v@[j])));
        i += 1;
    }
}


fn push_zones(items: &mut Vec<SExpr>, v: &Vec<Zone>)
    ensures
        trees(final(items)@) == trees(old(items)@) + Seq::new(v@.len(), |i: int| zone_tree(v@[i])),
{
    let ghost start = trees(items@);
    let mut i: usize = 0;
    assert(start =~= start + Seq::new(0, |j: int| zone_tree(v@[j])));
    while i < v.len()
        invariant
            i <= v@.len(),
            trees(items@) == start + Seq::new(i as nat, |j: int| zone_tree(v@[j])),
        decreases v.len() - i,
    {
        push_item(items, build_zone(&v[i]));
        assert(trees(items@) =~= start + Seq::new((i + 1) as nat, |j: int| zone_tree(v@[j])));
        i += 1;
    }
}

pub open spec fn pcb_head(b: PcbBoard) -> Seq<Tree> {
    seq![
        node_tree("version"@, seq![Tree::Raw(decimal(b.version as nat))]),
        node_tree("generator"@, seq![Tree::Quoted("signex"@)]),
        node_tree("generator_version"@, seq![Tree::Quoted("0.1"@)]),
        general_tree(b),
        node_tree("paper"@, seq![Tree::Quoted("A4"@)]),
        layers_tree(b.layers@),
    ] + match b.setup {
        Some(s) => seq![setup_tree(), net_class_tree(s)],
        None => Seq::empty(),
    }
}

/// The sections of a board file, in order: header, general, paper,
/// layers, setup and net class when there are rules, then nets,
/// footprints, drawings, texts, tracks, vias and zones.
pub open spec fn pcb_kids(b: PcbBoard) -> Seq<Tree> {
    pcb_head(b) + Seq::new(b.nets@.len(), |i: int| net_tree(b.nets@[i])) + Seq::new(
        b.footprints@.len(),
        |i: int| footprint_tree(b.footprints@[i]),
    ) + board_graphics_upto(b.graphics@, b.graphics@.len() as int) + Seq::new(
        b.texts@.len(),
        |i: int| board_text_tree(b.texts@[i]),
    ) + Seq::new(b.segments@.len(), |i: int| segment_tree(b.segments@[i])) + Seq::new(
        b.vias@.len(),
        |i: int| via_tree(b.vias@[i]),
    ) + Seq::new(b.zones@.len(), |i: int| zone_tree(b.zones@[i]))
}

pub open spec fn pcb_tree(b: PcbBoard) -> Tree {
    node_tree("kicad_pcb"@, pcb_kids(b))
}

fn pcb_head_items(board: &PcbBoard) -> (items: Vec<SExpr>)
    ensures
        trees(items@) == pcb_head(*board),
{
    let mut items: Vec<SExpr> = Vec::new();
    push_item(&mut items, count_node("version", board.version));
    push_item(&mut items, text_node("generator", "signex"));
    push_item(&mut items, text_node("generator_version", "0.1"));
    push_item(&mut items, build_general(board));
    push_item(&mut items, text_node("paper", "A4"));
    push_item(&mut items, build_layers(board.layers.as_slice()));
    let ghost head = seq![
        node_tree("version"@, seq![Tree::Raw(decimal(board.version as nat))]),
        node_tree("generator"@, seq![Tree::Quoted("signex"@)]),
        node_tree("generator_version"@, seq![Tree::Quoted("0.1"@)]),
        general_tree(*board),
        node_tree("paper"@, seq![Tree::Quoted("A4"@)]),
        layers_tree(board.layers@),
    ];
    assert(trees(items@) =~= head);
    match &board.setup {
        Some(setup) => {
            push_item(&mut items, build_setup(setup));
            push_item(&mut items, build_net_class(setup));
            assert(trees(items@) =~= head + seq![setup_tree(), net_class_tree(*setup)]);
        },
        None => {
            assert(trees(items@) =~= head + Seq::<Tree>::empty());
        },
    }
    items
}

/// The board as a KiCad `.kicad_pcb` file (the S-expression on one line,
/// then a newline).
pub fn write_pcb(board: &PcbBoard) -> (r: String)
    ensures
        r@ == render_tree(pcb_tree(*board)) + seq!['\n'],
{
    let mut items = pcb_head_items(board);
    push_nets(&mut items, &board.nets);
    push_footprints(&mut items, &board.footprints);
    push_board_graphics(&mut items, &board.graphics);
    push_texts(&mut items, &board.texts);
    push_segments(&mut items, &board.segments);
    push_vias(&mut items, &board.vias);
    push_zones(&mut items, &board.zones);
    assert(trees(items@) =~= pcb_kids(*board));
    let pcb = node("kicad_pcb", items);
    proof {
        crate::sexpr::lemma_render_tree(pcb);
    }
    let mut out = String::new();
    write_rendered_sexpr(&mut out, 0, pcb);
    assert(crate::kicad_write::spaces(0) =~= Seq::<char>::empty());
    assert(out@ =~= render_tree(pcb_tree(*board)) + seq!['\n']);
    out
}

} // verus!
