//! Reading a KiCad schematic sheet from its S-expression tree: wiring,
//! labels, notes, drawings, child sheets, placed symbols and the sheet.
//! Elements that name no readable UUID draw a fresh one, in file order.

use vstd::prelude::*;

use crate::coord::Vec2;
use crate::fresh_id::FreshUuids;
use crate::kicad_lib_read::points_of;
use crate::kicad_parse::{
    arg_millionths, arg_num, at_of, child_num, child_point, font_size_of, num_or, parse_at,
    parse_child_num, parse_child_point, parse_font_size, parse_stroke_color, parse_stroke_width,
    find_property, fill_color_of, parse_fill_color, parse_schematic_property, parse_text_prop,
    parse_uuid, parse_yes_flag, property_read, property_value, stroke_color_of, stroke_width_of,
    text_prop_of, uuid_of, yes_flag,
};
use crate::kicad_lib_read::{flag_or, lib_symbol_read, parse_lib_symbol, property_or_empty};
use crate::kicad_read::{
    arg_or, child_arg, child_arg_or, child_first_arg, fill_type_spec, halign_of, owned_or,
    parse_fill_type, parse_root_sheet_page, parse_symbol_instances, parse_title_block, parse_u32,
    parse_u32_spec, root_sheet_page_spec, title_block_spec,
    symbol_instances_spec as symbol_instances_read, symbol_instances_view,
    parse_halign, parse_sheet_instances, parse_valign, sheet_instances_spec as sheet_instances_read,
    sheet_instances_view, valign_of,
};
use crate::schematic::{
    Bus, BusEntry, ChildSheet, HAlign, Junction, Label, LabelType, NoConnect, SchDrawing, SchDrawingView,
    LibSymbol, SchematicProperty, SchematicSheet, SheetPin, Symbol, TextNote, TextProp, SCHEMATIC_TEXT_NM,
    VAlign, Wire, GRID_NM,
};
use crate::sexpr::{
    arg_spec, children_spec, find_all_spec, find_spec, keyword_spec, opt_ref_view, refs_view, SExpr,
};
use crate::kicad_write::label_keyword;
use crate::error::ParseError;
use crate::text::{chars_ci_eq, chars_eq, chars_of, ci_eq, concat_str, slice_chars, str_eq};
use crate::varmap::VarMap;

verus! {

broadcast use vstd::std_specs::vec::group_vec_axioms;

pub open spec fn origin() -> Vec2 {
    Vec2 { x: 0, y: 0 }
}

/// The points of a node's `(pts ...)`, none without one.
pub open spec fn pts_of(node: SExpr) -> Seq<Vec2> {
    match find_spec(node, "pts"@) {
        Some(p) => points_of(p),
        None => Seq::empty(),
    }
}

fn parse_pts(node: &SExpr) -> (r: Vec<Vec2>)
    ensures
        r@ == pts_of(*node),
{
    match node.find("pts") {
        Some(p) => crate::kicad_lib_read::parse_points(p),
        None => Vec::new(),
    }
}

/// A wire: its first two points (the end defaulting to the start), its
/// stroke width and UUID.
pub open spec fn wire_of(node: SExpr, ids: FreshUuids) -> (Wire, FreshUuids) {
    let pts = pts_of(node);
    let start = if pts.len() > 0 {
        pts[0]
    } else {
        origin()
    };
    let end = if pts.len() > 1 {
        pts[1]
    } else {
        start
    };
    let (u, next) = uuid_of(node, ids);
    (Wire { uuid: u, start, end, stroke_width: stroke_width_of(node) as i64 }, next)
}

pub fn parse_wire(node: &SExpr, ids: &mut FreshUuids) -> (w: Wire)
    ensures
        (w, *final(ids)) == wire_of(*node, *old(ids)),
{
    let pts = parse_pts(node);
    let start = if pts.len() > 0 {
        pts[0]
    } else {
        Vec2 { x: 0, y: 0 }
    };
    let end = if pts.len() > 1 {
        pts[1]
    } else {
        start
    };
    let stroke_width = parse_stroke_width(node);
    let uuid = parse_uuid(node, ids);
    Wire { uuid, start, end, stroke_width }
}

pub open spec fn junction_of(node: SExpr, ids: FreshUuids) -> (Junction, FreshUuids) {
    let (u, next) = uuid_of(node, ids);
    (Junction { uuid: u, position: at_of(node).0, diameter: num_or(child_num(node, "diameter"@), 0) as i64 }, next)
}

pub fn parse_junction(node: &SExpr, ids: &mut FreshUuids) -> (j: Junction)
    ensures
        (j, *final(ids)) == junction_of(*node, *old(ids)),
{
    let uuid = parse_uuid(node, ids);
    let diameter = match parse_child_num(node, "diameter") {
        Some(v) => v,
        None => 0,
    };
    Junction { uuid, position: parse_at(node).0, diameter }
}

pub open spec fn marker_of(node: SExpr, ids: FreshUuids) -> (NoConnect, FreshUuids) {
    let (u, next) = uuid_of(node, ids);
    (NoConnect { uuid: u, position: at_of(node).0 }, next)
}

/// A `no_connect` flag or `no_erc` directive.
pub fn parse_marker(node: &SExpr, ids: &mut FreshUuids) -> (m: NoConnect)
    ensures
        (m, *final(ids)) == marker_of(*node, *old(ids)),
{
    let uuid = parse_uuid(node, ids);
    NoConnect { uuid, position: parse_at(node).0 }
}

/// A bus: its first two points, each the origin where missing.
pub open spec fn bus_of(node: SExpr, ids: FreshUuids) -> (Bus, FreshUuids) {
    let pts = pts_of(node);
    let (u, next) = uuid_of(node, ids);
    (
        Bus {
            uuid: u,
            start: if pts.len() > 0 {
                pts[0]
            } else {
                origin()
            },
            end: if pts.len() > 1 {
                pts[1]
            } else {
                origin()
            },
        },
        next,
    )
}

pub fn parse_bus(node: &SExpr, ids: &mut FreshUuids) -> (b: Bus)
    ensures
        (b, *final(ids)) == bus_of(*node, *old(ids)),
{
    let pts = parse_pts(node);
    let uuid = parse_uuid(node, ids);
    Bus {
        uuid,
        start: if pts.len() > 0 {
            pts[0]
        } else {
            Vec2 { x: 0, y: 0 }
        },
        end: if pts.len() > 1 {
            pts[1]
        } else {
            Vec2 { x: 0, y: 0 }
        },
    }
}

/// A bus entry: position and size, each size component one grid step
/// where missing.
pub open spec fn bus_entry_of(node: SExpr, ids: FreshUuids) -> (BusEntry, FreshUuids) {
    let size = match find_spec(node, "size"@) {
        Some(s) => (num_or(arg_num(s, 0), GRID_NM as int) as i64, num_or(arg_num(s, 1), GRID_NM as int) as i64),
        None => (GRID_NM, GRID_NM),
    };
    let (u, next) = uuid_of(node, ids);
    (BusEntry { uuid: u, position: at_of(node).0, size }, next)
}

pub fn parse_bus_entry(node: &SExpr, ids: &mut FreshUuids) -> (b: BusEntry)
    ensures
        (b, *final(ids)) == bus_entry_of(*node, *old(ids)),
{
    let (position, _) = parse_at(node);
    let size = match node.find("size") {
        Some(s) => (
            match arg_millionths(s, 0) {
                Some(v) => v,
                None => GRID_NM,
            },
            match arg_millionths(s, 1) {
                Some(v) => v,
                None => GRID_NM,
            },
        ),
        None => (GRID_NM, GRID_NM),
    };
    let uuid = parse_uuid(node, ids);
    BusEntry { uuid, position, size }
}

// ---------------------------------------------------------------------------
// Lists of simple elements
// ---------------------------------------------------------------------------

/// The session after reading `nodes` in order, each drawing a fresh UUID
/// when it names none.
pub open spec fn ids_fold(nodes: Seq<SExpr>, ids: FreshUuids) -> FreshUuids
    decreases nodes.len(),
{
    if nodes.len() == 0 {
        ids
    } else {
        uuid_of(nodes.last(), ids_fold(nodes.drop_last(), ids)).1
    }
}

/// The wires `nodes` read as, in order, from session `ids`.
pub open spec fn wires_of(nodes: Seq<SExpr>, ids: FreshUuids) -> Seq<Wire> {
    Seq::new(nodes.len(), |i: int| wire_of(nodes[i], ids_fold(nodes.take(i), ids)).0)
}

fn parse_wires(parent: &SExpr, keyword: &str, ids: &mut FreshUuids) -> (r: Vec<Wire>)
    ensures
        r@ == wires_of(find_all_spec(*parent, keyword@), *old(ids)),
        *final(ids) == ids_fold(find_all_spec(*parent, keyword@), *old(ids)),
{
    let nodes = parent.find_all(keyword);
    let ghost v = refs_view(nodes@);
    let ghost start = *ids;
    let mut out: Vec<Wire> = Vec::new();
    let mut i: usize = 0;
    while i < nodes.len()
        invariant
            i <= nodes@.len(),
            v == refs_view(nodes@),
            v == find_all_spec(*parent, keyword@),
            *ids == ids_fold(v.take(i as int), start),
            out@ == Seq::new(i as nat, |k: int| wire_of(v[k], ids_fold(v.take(k), start)).0),
        decreases nodes.len() - i,
    {
        assert(v.take(i + 1).drop_last() =~= v.take(i as int));
        assert(v[i as int] == *nodes@[i as int]);
        out.push(parse_wire(nodes[i], ids));
        assert(out@ =~= Seq::new((i + 1) as nat, |k: int| wire_of(v[k], ids_fold(v.take(k), start)).0));
        i += 1;
    }
    assert(v.take(i as int) =~= v);
    out
}

/// The junctions `nodes` read as, in order, from session `ids`.
pub open spec fn junctions_of(nodes: Seq<SExpr>, ids: FreshUuids) -> Seq<Junction> {
    Seq::new(nodes.len(), |i: int| junction_of(nodes[i], ids_fold(nodes.take(i), ids)).0)
}

fn parse_junctions(parent: &SExpr, keyword: &str, ids: &mut FreshUuids) -> (r: Vec<Junction>)
    ensures
        r@ == junctions_of(find_all_spec(*parent, keyword@), *old(ids)),
        *final(ids) == ids_fold(find_all_spec(*parent, keyword@), *old(ids)),
{
    let nodes = parent.find_all(keyword);
    let ghost v = refs_view(nodes@);
    let ghost start = *ids;
    let mut out: Vec<Junction> = Vec::new();
    let mut i: usize = 0;
    while i < nodes.len()
        invariant
            i <= nodes@.len(),
            v == refs_view(nodes@),
            v == find_all_spec(*parent, keyword@),
            *ids == ids_fold(v.take(i as int), start),
            out@ == Seq::new(i as nat, |k: int| junction_of(v[k], ids_fold(v.take(k), start)).0),
        decreases nodes.len() - i,
    {
        assert(v.take(i + 1).drop_last() =~= v.take(i as int));
        assert(v[i as int] == *nodes@[i as int]);
        out.push(parse_junction(nodes[i], ids));
        assert(out@ =~= Seq::new((i + 1) as nat, |k: int| junction_of(v[k], ids_fold(v.take(k), start)).0));
        i += 1;
    }
    assert(v.take(i as int) =~= v);
    out
}

/// The markers `nodes` read as, in order, from session `ids`.
pub open spec fn markers_of(nodes: Seq<SExpr>, ids: FreshUuids) -> Seq<NoConnect> {
    Seq::new(nodes.len(), |i: int| marker_of(nodes[i], ids_fold(nodes.take(i), ids)).0)
}

fn parse_markers(parent: &SExpr, keyword: &str, ids: &mut FreshUuids) -> (r: Vec<NoConnect>)
    ensures
        r@ == markers_of(find_all_spec(*parent, keyword@), *old(ids)),
        *final(ids) == ids_fold(find_all_spec(*parent, keyword@), *old(ids)),
{
    let nodes = parent.find_all(keyword);
    let ghost v = refs_view(nodes@);
    let ghost start = *ids;
    let mut out: Vec<NoConnect> = Vec::new();
    let mut i: usize = 0;
    while i < nodes.len()
        invariant
            i <= nodes@.len(),
            v == refs_view(nodes@),
            v == find_all_spec(*parent, keyword@),
            *ids == ids_fold(v.take(i as int), start),
            out@ == Seq::new(i as nat, |k: int| marker_of(v[k], ids_fold(v.take(k), start)).0),
        decreases nodes.len() - i,
    {
        assert(v.take(i + 1).drop_last() =~= v.take(i as int));
        assert(v[i as int] == *nodes@[i as int]);
        out.push(parse_marker(nodes[i], ids));
        assert(out@ =~= Seq::new((i + 1) as nat, |k: int| marker_of(v[k], ids_fold(v.take(k), start)).0));
        i += 1;
    }
    assert(v.take(i as int) =~= v);
    out
}

/// The buss `nodes` read as, in order, from session `ids`.
pub open spec fn buss_of(nodes: Seq<SExpr>, ids: FreshUuids) -> Seq<Bus> {
    Seq::new(nodes.len(), |i: int| bus_of(nodes[i], ids_fold(nodes.take(i), ids)).0)
}

fn parse_buss(parent: &SExpr, keyword: &str, ids: &mut FreshUuids) -> (r: Vec<Bus>)
    ensures
        r@ == buss_of(find_all_spec(*parent, keyword@), *old(ids)),
        *final(ids) == ids_fold(find_all_spec(*parent, keyword@), *old(ids)),
{
    let nodes = parent.find_all(keyword);
    let ghost v = refs_view(nodes@);
    let ghost start = *ids;
    let mut out: Vec<Bus> = Vec::new();
    let mut i: usize = 0;
    while i < nodes.len()
        invariant
            i <= nodes@.len(),
            v == refs_view(nodes@),
            v == find_all_spec(*parent, keyword@),
            *ids == ids_fold(v.take(i as int), start),
            out@ == Seq::new(i as nat, |k: int| bus_of(v[k], ids_fold(v.take(k), start)).0),
        decreases nodes.len() - i,
    {
        assert(v.take(i + 1).drop_last() =~= v.take(i as int));
        assert(v[i as int] == *nodes@[i as int]);
        out.push(parse_bus(nodes[i], ids));
        assert(out@ =~= Seq::new((i + 1) as nat, |k: int| bus_of(v[k], ids_fold(v.take(k), start)).0));
        i += 1;
    }
    assert(v.take(i as int) =~= v);
    out
}

/// The bus_entrys `nodes` read as, in order, from session `ids`.
pub open spec fn bus_entrys_of(nodes: Seq<SExpr>, ids: FreshUuids) -> Seq<BusEntry> {
    Seq::new(nodes.len(), |i: int| bus_entry_of(nodes[i], ids_fold(nodes.take(i), ids)).0)
}

fn parse_bus_entrys(parent: &SExpr, keyword: &str, ids: &mut FreshUuids) -> (r: Vec<BusEntry>)
    ensures
        r@ == bus_entrys_of(find_all_spec(*parent, keyword@), *old(ids)),
        *final(ids) == ids_fold(find_all_spec(*parent, keyword@), *old(ids)),
{
    let nodes = parent.find_all(keyword);
    let ghost v = refs_view(nodes@);
    let ghost start = *ids;
    let mut out: Vec<BusEntry> = Vec::new();
    let mut i: usize = 0;
    while i < nodes.len()
        invariant
            i <= nodes@.len(),
            v == refs_view(nodes@),
            v == find_all_spec(*parent, keyword@),
            *ids == ids_fold(v.take(i as int), start),
            out@ == Seq::new(i as nat, |k: int| bus_entry_of(v[k], ids_fold(v.take(k), start)).0),
        decreases nodes.len() - i,
    {
        assert(v.take(i + 1).drop_last() =~= v.take(i as int));
        assert(v[i as int] == *nodes@[i as int]);
        out.push(parse_bus_entry(nodes[i], ids));
        assert(out@ =~= Seq::new((i + 1) as nat, |k: int| bus_entry_of(v[k], ids_fold(v.take(k), start)).0));
        i += 1;
    }
    assert(v.take(i as int) =~= v);
    out
}


// ---------------------------------------------------------------------------
// Labels and notes
// ---------------------------------------------------------------------------

pub open spec fn label_justify_step(st: (HAlign, VAlign), e: SExpr) -> (HAlign, VAlign) {
    match e {
        SExpr::Atom(a) => {
            let t = a.text();
            if t == "left"@ {
                (HAlign::Left, st.1)
            } else if t == "right"@ {
                (HAlign::Right, st.1)
            } else if t == "center"@ {
                (HAlign::Center, st.1)
            } else if t == "top"@ {
                (st.0, VAlign::Top)
            } else if t == "bottom"@ {
                (st.0, VAlign::Bottom)
            } else {
                st
            }
        },
        SExpr::List(_) => st,
    }
}

/// A label's justification tokens, in any order, from left-bottom.
pub open spec fn label_justify_fold(items: Seq<SExpr>) -> (HAlign, VAlign)
    decreases items.len(),
{
    if items.len() == 0 {
        (HAlign::Left, VAlign::Bottom)
    } else {
        label_justify_step(label_justify_fold(items.drop_last()), items.last())
    }
}

pub open spec fn label_justify_of(node: SExpr) -> (HAlign, VAlign) {
    match find_spec(node, "effects"@) {
        Some(e) => match find_spec(e, "justify"@) {
            Some(j) => label_justify_fold(children_spec(j)),
            None => (HAlign::Left, VAlign::Bottom),
        },
        None => (HAlign::Left, VAlign::Bottom),
    }
}

fn parse_label_justify(node: &SExpr) -> (r: (HAlign, VAlign))
    ensures
        r == label_justify_of(*node),
{
    let mut st = (HAlign::Left, VAlign::Bottom);
    let j = match node.find("effects") {
        Some(e) => match e.find("justify") {
            Some(j) => j,
            None => {
                return st;
            },
        },
        None => {
            return st;
        },
    };
    let items = j.children();
    let mut i: usize = 0;
    while i < items.len()
        invariant
            i <= items@.len(),
            items@ == children_spec(*j),
            st == label_justify_fold(items@.take(i as int)),
        decreases items.len() - i,
    {
        assert(items@.take(i + 1).drop_last() =~= items@.take(i as int));
        if let SExpr::Atom(a) = &items[i] {
            let t = a.as_str();
            if str_eq(t, "left") {
                st = (HAlign::Left, st.1);
            } else if str_eq(t, "right") {
                st = (HAlign::Right, st.1);
            } else if str_eq(t, "center") {
                st = (HAlign::Center, st.1);
            } else if str_eq(t, "top") {
                st = (st.0, VAlign::Top);
            } else if str_eq(t, "bottom") {
                st = (st.0, VAlign::Bottom);
            }
        }
        i += 1;
    }
    assert(items@.take(i as int) =~= items@);
    st
}

/// `l` is what a label node of kind `kind` reads as from session `ids`:
/// text, placement, shape, font size and justification.
pub open spec fn label_read(l: Label, node: SExpr, kind: LabelType, ids: FreshUuids) -> bool {
    &&& l.uuid == uuid_of(node, ids).0
    &&& l.text@ == arg_or(node, 0, Seq::empty())
    &&& l.position == at_of(node).0
    &&& l.rotation == at_of(node).1
    &&& l.label_type == kind
    &&& l.shape@ == child_arg_or(node, "shape"@, Seq::empty())
    &&& l.font_size == font_size_of(find_spec(node, "effects"@)) as i64
    &&& (l.justify, l.justify_v) == label_justify_of(node)
}

pub fn parse_label(node: &SExpr, kind: LabelType, ids: &mut FreshUuids) -> (l: Label)
    ensures
        label_read(l, *node, kind, *old(ids)),
        *final(ids) == uuid_of(*node, *old(ids)).1,
{
    proof {
        reveal_strlit("");
    }
    let (position, rotation) = parse_at(node);
    let shape = owned_or(child_first_arg(node, "shape"), "");
    let font_size = parse_font_size(node.find("effects"));
    let (justify, justify_v) = parse_label_justify(node);
    let ghost ids0 = *ids;
    let uuid = parse_uuid(node, ids);
    let text = owned_or(node.first_arg(), "");
    assert(uuid == uuid_of(*node, ids0).0);
    assert(text@ == arg_or(*node, 0, Seq::empty()));
    assert(shape@ == child_arg_or(*node, "shape"@, Seq::empty()));
    assert(font_size == font_size_of(find_spec(*node, "effects"@)) as i64);
    Label { uuid, text, position, rotation, label_type: kind, shape, font_size, justify, justify_v }
}

/// The labels `nodes` of kind `kind` read as: each satisfies
/// `label_read` at its session.
#[verifier::opaque]
pub open spec fn labels_read(v: Seq<Label>, nodes: Seq<SExpr>, kind: LabelType, ids: FreshUuids) -> bool {
    &&& v.len() == nodes.len()
    &&& forall|i: int| 0 <= i < v.len() ==> label_read(#[trigger] v[i], nodes[i], kind, ids_fold(nodes.take(i), ids))
}

fn push_labels(out: &mut Vec<Label>, parent: &SExpr, keyword: &str, kind: LabelType, ids: &mut FreshUuids)
    ensures
        final(out)@.take(old(out)@.len() as int) == old(out)@,
        labels_read(final(out)@.skip(old(out)@.len() as int), find_all_spec(*parent, keyword@), kind, *old(ids)),
        *final(ids) == ids_fold(find_all_spec(*parent, keyword@), *old(ids)),
{
    proof {
        reveal(labels_read);
    }
    let nodes = parent.find_all(keyword);
    let ghost v = refs_view(nodes@);
    let ghost start = *ids;
    let ghost before = out@;
    let mut i: usize = 0;
    while i < nodes.len()
        invariant
            i <= nodes@.len(),
            v == refs_view(nodes@),
            v == find_all_spec(*parent, keyword@),
            *ids == ids_fold(v.take(i as int), start),
            out@.len() == before.len() + i,
            out@.take(before.len() as int) == before,
            forall|k: int| 0 <= k < i ==> label_read(#[trigger] out@[before.len() + k], v[k], kind, ids_fold(v.take(k), start)),
        decreases nodes.len() - i,
    {
        assert(v.take(i + 1).drop_last() =~= v.take(i as int));
        assert(v[i as int] == *nodes@[i as int]);
        let ghost o = out@;
        let l = parse_label(nodes[i], kind, ids);
        out.push(l);
        assert(out@.take(before.len() as int) =~= o.take(before.len() as int));
        i += 1;
    }
    assert(v.take(i as int) =~= v);
    assert forall|k: int| 0 <= k < out@.skip(before.len() as int).len() implies label_read(
        #[trigger] out@.skip(before.len() as int)[k],
        v[k],
        kind,
        ids_fold(v.take(k), start),
    ) by {
        assert(out@.skip(before.len() as int)[k] == out@[before.len() + k]);
    }
}

/// `n` is what a `(text "..." ...)` note reads as from session `ids`: its
/// text, placement, font size and justification (left and centred where
/// missing).
pub open spec fn note_read(n: TextNote, node: SExpr, ids: FreshUuids) -> bool {
    let j = match find_spec(node, "effects"@) {
        Some(e) => find_spec(e, "justify"@),
        None => None,
    };
    &&& n.uuid == uuid_of(node, ids).0
    &&& n.text@ == arg_or(node, 0, Seq::empty())
    &&& n.position == at_of(node).0
    &&& n.rotation == at_of(node).1
    &&& n.font_size == font_size_of(find_spec(node, "effects"@)) as i64
    &&& n.justify_h == match j {
        Some(jn) => match arg_spec(jn, 0) {
            Some(t) => halign_of(t),
            None => HAlign::Left,
        },
        None => HAlign::Left,
    }
    &&& n.justify_v == match j {
        Some(jn) => match arg_spec(jn, 1) {
            Some(t) => valign_of(t),
            None => VAlign::Center,
        },
        None => VAlign::Center,
    }
}

pub fn parse_text_note(node: &SExpr, ids: &mut FreshUuids) -> (n: TextNote)
    ensures
        note_read(n, *node, *old(ids)),
        *final(ids) == uuid_of(*node, *old(ids)).1,
{
    proof {
        reveal_strlit("");
    }
    let (position, rotation) = parse_at(node);
    let effects = node.find("effects");
    let font_size = parse_font_size(effects);
    let j = match effects {
        Some(e) => e.find("justify"),
        None => None,
    };
    let justify_h = match j {
        Some(jn) => match jn.first_arg() {
            Some(t) => parse_halign(t),
            None => HAlign::Left,
        },
        None => HAlign::Left,
    };
    let justify_v = match j {
        Some(jn) => match jn.arg(1) {
            Some(t) => parse_valign(t),
            None => VAlign::Center,
        },
        None => VAlign::Center,
    };
    let ghost ids0 = *ids;
    let uuid = parse_uuid(node, ids);
    let text = owned_or(node.first_arg(), "");
    assert(uuid == uuid_of(*node, ids0).0);
    assert(text@ == arg_or(*node, 0, Seq::empty()));
    assert(font_size == font_size_of(find_spec(*node, "effects"@)) as i64);
    TextNote { uuid, text, position, rotation, font_size, justify_h, justify_v }
}

#[verifier::opaque]
pub open spec fn notes_read(v: Seq<TextNote>, nodes: Seq<SExpr>, ids: FreshUuids) -> bool {
    &&& v.len() == nodes.len()
    &&& forall|i: int| 0 <= i < v.len() ==> note_read(#[trigger] v[i], nodes[i], ids_fold(nodes.take(i), ids))
}

fn parse_text_notes(parent: &SExpr, ids: &mut FreshUuids) -> (r: Vec<TextNote>)
    ensures
        notes_read(r@, find_all_spec(*parent, "text"@), *old(ids)),
        *final(ids) == ids_fold(find_all_spec(*parent, "text"@), *old(ids)),
{
    proof {
        reveal(notes_read);
    }
    let nodes = parent.find_all("text");
    let ghost v = refs_view(nodes@);
    let ghost start = *ids;
    let mut out: Vec<TextNote> = Vec::new();
    let mut i: usize = 0;
    while i < nodes.len()
        invariant
            i <= nodes@.len(),
            v == refs_view(nodes@),
            v == find_all_spec(*parent, "text"@),
            *ids == ids_fold(v.take(i as int), start),
            out@.len() == i,
            forall|k: int| 0 <= k < i ==> note_read(#[trigger] out@[k], v[k], ids_fold(v.take(k), start)),
        decreases nodes.len() - i,
    {
        assert(v.take(i + 1).drop_last() =~= v.take(i as int));
        assert(v[i as int] == *nodes@[i as int]);
        out.push(parse_text_note(nodes[i], ids));
        i += 1;
    }
    assert(v.take(i as int) =~= v);
    out
}


// ---------------------------------------------------------------------------
// Drawings
// ---------------------------------------------------------------------------

/// A polyline of the sheet: with two points a line, with more a polyline,
/// with fewer nothing (and no UUID drawn).
pub open spec fn polyline_drawing(node: SExpr, ids: FreshUuids) -> Option<(SchDrawingView, FreshUuids)> {
    let pts = pts_of(node);
    let width = stroke_width_of(node) as i64;
    let stroke_color = stroke_color_of(node);
    let (u, next) = uuid_of(node, ids);
    if pts.len() == 2 {
        Some((SchDrawingView::Line { uuid: u, start: pts[0], end: pts[1], width, stroke_color }, next))
    } else if pts.len() > 2 {
        Some((SchDrawingView::Polyline { uuid: u, points: pts, width, fill: fill_type_spec(node), stroke_color }, next))
    } else {
        None
    }
}

pub open spec fn polylines_fold(nodes: Seq<SExpr>, ids: FreshUuids) -> (Seq<SchDrawingView>, FreshUuids)
    decreases nodes.len(),
{
    if nodes.len() == 0 {
        (Seq::empty(), ids)
    } else {
        let (v, i1) = polylines_fold(nodes.drop_last(), ids);
        match polyline_drawing(nodes.last(), i1) {
            Some((d, i2)) => (v.push(d), i2),
            None => (v, i1),
        }
    }
}

/// An arc, circle (radius 1 mm where missing) or rectangle of the sheet.
pub open spec fn shape_drawing(node: SExpr, keyword: Seq<char>, ids: FreshUuids) -> (SchDrawingView, FreshUuids) {
    let width = stroke_width_of(node) as i64;
    let fill = fill_type_spec(node);
    let stroke_color = stroke_color_of(node);
    let (u, next) = uuid_of(node, ids);
    if keyword == "arc"@ {
        (
            SchDrawingView::Arc {
                uuid: u,
                start: child_point(node, "start"@),
                mid: child_point(node, "mid"@),
                end: child_point(node, "end"@),
                width,
                fill,
                stroke_color,
            },
            next,
        )
    } else if keyword == "circle"@ {
        (
            SchDrawingView::Circle {
                uuid: u,
                center: child_point(node, "center"@),
                radius: num_or(child_num(node, "radius"@), 1_000_000) as i64,
                width,
                fill,
                stroke_color,
            },
            next,
        )
    } else {
        (
            SchDrawingView::Rect {
                uuid: u,
                start: child_point(node, "start"@),
                end: child_point(node, "end"@),
                width,
                fill,
                stroke_color,
            },
            next,
        )
    }
}

pub open spec fn shapes_fold(nodes: Seq<SExpr>, keyword: Seq<char>, ids: FreshUuids) -> (Seq<SchDrawingView>, FreshUuids)
    decreases nodes.len(),
{
    if nodes.len() == 0 {
        (Seq::empty(), ids)
    } else {
        let (v, i1) = shapes_fold(nodes.drop_last(), keyword, ids);
        let (d, i2) = shape_drawing(nodes.last(), keyword, i1);
        (v.push(d), i2)
    }
}

/// The sheet's drawings: its polylines, then arcs, circles and rectangles,
/// each kind in file order.
pub open spec fn drawings_of(root: SExpr, ids: FreshUuids) -> (Seq<SchDrawingView>, FreshUuids) {
    let (p, i1) = polylines_fold(find_all_spec(root, "polyline"@), ids);
    let (a, i2) = shapes_fold(find_all_spec(root, "arc"@), "arc"@, i1);
    let (c, i3) = shapes_fold(find_all_spec(root, "circle"@), "circle"@, i2);
    let (r, i4) = shapes_fold(find_all_spec(root, "rectangle"@), "rectangle"@, i3);
    (p + a + c + r, i4)
}

pub open spec fn drawing_views(v: Seq<SchDrawing>) -> Seq<SchDrawingView> {
    v.map_values(|d: SchDrawing| d@)
}

fn parse_polyline_drawing(node: &SExpr, ids: &mut FreshUuids) -> (r: Option<SchDrawing>)
    ensures
        match polyline_drawing(*node, *old(ids)) {
            Some((d, n)) => r matches Some(x) && x@ == d && *final(ids) == n,
            None => r is None && *final(ids) == *old(ids),
        },
{
    let pts = parse_pts(node);
    let width = parse_stroke_width(node);
    let fill = parse_fill_type(node);
    let stroke_color = parse_stroke_color(node);
    if pts.len() == 2 {
        let uuid = parse_uuid(node, ids);
        Some(SchDrawing::Line { uuid, start: pts[0], end: pts[1], width, stroke_color })
    } else if pts.len() > 2 {
        let uuid = parse_uuid(node, ids);
        Some(SchDrawing::Polyline { uuid, points: pts, width, fill, stroke_color })
    } else {
        None
    }
}

fn parse_shape_drawing(node: &SExpr, keyword: &str, ids: &mut FreshUuids) -> (d: SchDrawing)
    ensures
        (d@, *final(ids)) == shape_drawing(*node, keyword@, *old(ids)),
{
    let width = parse_stroke_width(node);
    let fill = parse_fill_type(node);
    let stroke_color = parse_stroke_color(node);
    let uuid = parse_uuid(node, ids);
    if str_eq(keyword, "arc") {
        SchDrawing::Arc {
            uuid,
            start: parse_child_point(node, "start"),
            mid: parse_child_point(node, "mid"),
            end: parse_child_point(node, "end"),
            width,
            fill,
            stroke_color,
        }
    } else if str_eq(keyword, "circle") {
        let radius = match parse_child_num(node, "radius") {
            Some(v) => v,
            None => 1_000_000,
        };
        SchDrawing::Circle { uuid, center: parse_child_point(node, "center"), radius, width, fill, stroke_color }
    } else {
        SchDrawing::Rect {
            uuid,
            start: parse_child_point(node, "start"),
            end: parse_child_point(node, "end"),
            width,
            fill,
            stroke_color,
        }
    }
}

fn push_polylines(out: &mut Vec<SchDrawing>, root: &SExpr, ids: &mut FreshUuids)
    ensures
        (drawing_views(final(out)@), *final(ids)) == ({
            let (v, n) = polylines_fold(find_all_spec(*root, "polyline"@), *old(ids));
            (drawing_views(old(out)@) + v, n)
        }),
{
    let nodes = root.find_all("polyline");
    let ghost v = refs_view(nodes@);
    let ghost start = *ids;
    let ghost before = drawing_views(out@);
    let mut i: usize = 0;
    while i < nodes.len()
        invariant
            i <= nodes@.len(),
            v == refs_view(nodes@),
            v == find_all_spec(*root, "polyline"@),
            (drawing_views(out@), *ids) == ({
                let (w, n) = polylines_fold(v.take(i as int), start);
                (before + w, n)
            }),
        decreases nodes.len() - i,
    {
        assert(v.take(i + 1).drop_last() =~= v.take(i as int));
        assert(v[i as int] == *nodes@[i as int]);
        let ghost o = out@;
        if let Some(d) = parse_polyline_drawing(nodes[i], ids) {
            out.push(d);
            assert(drawing_views(out@) =~= drawing_views(o).push(d@));
        }
        i += 1;
    }
    assert(v.take(i as int) =~= v);
}

fn push_shapes(out: &mut Vec<SchDrawing>, root: &SExpr, keyword: &str, ids: &mut FreshUuids)
    ensures
        (drawing_views(final(out)@), *final(ids)) == ({
            let (v, n) = shapes_fold(find_all_spec(*root, keyword@), keyword@, *old(ids));
            (drawing_views(old(out)@) + v, n)
        }),
{
    let nodes = root.find_all(keyword);
    let ghost v = refs_view(nodes@);
    let ghost start = *ids;
    let ghost before = drawing_views(out@);
    let mut i: usize = 0;
    while i < nodes.len()
        invariant
            i <= nodes@.len(),
            v == refs_view(nodes@),
            v == find_all_spec(*root, keyword@),
            (drawing_views(out@), *ids) == ({
                let (w, n) = shapes_fold(v.take(i as int), keyword@, start);
                (before + w, n)
            }),
        decreases nodes.len() - i,
    {
        assert(v.take(i + 1).drop_last() =~= v.take(i as int));
        assert(v[i as int] == *nodes@[i as int]);
        let ghost o = out@;
        let d = parse_shape_drawing(nodes[i], keyword, ids);
        out.push(d);
        assert(drawing_views(out@) =~= drawing_views(o).push(d@));
        i += 1;
    }
    assert(v.take(i as int) =~= v);
}

/// Reads the sheet's drawings.
pub fn parse_drawings(root: &SExpr, ids: &mut FreshUuids) -> (r: Vec<SchDrawing>)
    ensures
        (drawing_views(r@), *final(ids)) == drawings_of(*root, *old(ids)),
{
    let mut out: Vec<SchDrawing> = Vec::new();
    assert(drawing_views(out@) =~= Seq::<SchDrawingView>::empty());
    push_polylines(&mut out, root, ids);
    push_shapes(&mut out, root, "arc", ids);
    push_shapes(&mut out, root, "circle", ids);
    push_shapes(&mut out, root, "rectangle", ids);
    out
}


// ---------------------------------------------------------------------------
// Child sheets
// ---------------------------------------------------------------------------

/// `(fields_autoplaced)` or `(fields_autoplaced yes)`.
pub open spec fn autoplaced_flag(node: SExpr) -> bool {
    match find_spec(node, "fields_autoplaced"@) {
        Some(f) => match arg_spec(f, 0) {
            Some(v) => v == "yes"@,
            None => true,
        },
        None => false,
    }
}

fn parse_autoplaced_flag(node: &SExpr) -> (b: bool)
    ensures
        b == autoplaced_flag(*node),
{
    match node.find("fields_autoplaced") {
        Some(f) => match f.first_arg() {
            Some(v) => str_eq(v, "yes"),
            None => true,
        },
        None => false,
    }
}

/// A sheet pin `(pin "NAME" DIRECTION (at ..) (uuid ..))`; the direction
/// is bidirectional where missing.
pub open spec fn sheet_pin_read(p: SheetPin, node: SExpr, ids: FreshUuids) -> bool {
    &&& p.uuid == uuid_of(node, ids).0
    &&& p.name@ == arg_or(node, 0, Seq::empty())
    &&& p.direction@ == arg_or(node, 1, "bidirectional"@)
    &&& p.position == at_of(node).0
    &&& p.rotation == at_of(node).1
    &&& !p.auto_generated
    &&& !p.user_moved
}

pub fn parse_sheet_pin(node: &SExpr, ids: &mut FreshUuids) -> (p: SheetPin)
    ensures
        sheet_pin_read(p, *node, *old(ids)),
        *final(ids) == uuid_of(*node, *old(ids)).1,
{
    proof {
        reveal_strlit("");
    }
    let name = owned_or(node.first_arg(), "");
    let direction = owned_or(node.arg(1), "bidirectional");
    let (position, rotation) = parse_at(node);
    let ghost ids0 = *ids;
    let uuid = parse_uuid(node, ids);
    assert(uuid == uuid_of(*node, ids0).0);
    assert(name@ == arg_or(*node, 0, Seq::empty()));
    assert(direction@ == arg_or(*node, 1, "bidirectional"@));
    SheetPin { uuid, name, direction, position, rotation, auto_generated: false, user_moved: false }
}

/// A property value, else the legacy spelling's, else `default`.
pub open spec fn property_either(node: SExpr, name: Seq<char>, legacy: Seq<char>, default: Seq<char>) -> Seq<char> {
    match property_value(node, name) {
        Some(v) => v,
        None => match property_value(node, legacy) {
            Some(v) => v,
            None => default,
        },
    }
}

fn property_either_text(node: &SExpr, name: &str, legacy: &str, default: &str) -> (r: String)
    ensures
        r@ == property_either(*node, name@, legacy@, default@),
{
    match find_property(node, name) {
        Some(v) => v.to_owned(),
        None => match find_property(node, legacy) {
            Some(v) => v.to_owned(),
            None => default.to_owned(),
        },
    }
}

/// `cs` is what a `(sheet ...)` node reads as from session `ids`: its pins
/// first (each drawing a UUID as needed), then its own UUID; name and
/// file from their properties (legacy spellings accepted; "Unnamed" and
/// empty where missing); frame, size (20 by 15 mm where missing), stroke,
/// fill, colours, the autoplaced flag and its instances.
pub open spec fn child_sheet_read(cs: ChildSheet, node: SExpr, ids: FreshUuids) -> bool {
    let pins = find_all_spec(node, "pin"@);
    let after_pins = ids_fold(pins, ids);
    &&& cs.pins@.len() == pins.len()
    &&& forall|i: int| 0 <= i < pins.len() ==> sheet_pin_read(#[trigger] cs.pins@[i], pins[i], ids_fold(pins.take(i), ids))
    &&& cs.uuid == uuid_of(node, after_pins).0
    &&& cs.name@ == property_either(node, "Sheet name"@, "Sheetname"@, "Unnamed"@)
    &&& cs.filename@ == property_either(node, "Sheet file"@, "Sheetfile"@, Seq::empty())
    &&& cs.position == at_of(node).0
    &&& cs.size == match find_spec(node, "size"@) {
        Some(sz) => (num_or(arg_num(sz, 0), 20_000_000) as i64, num_or(arg_num(sz, 1), 15_000_000) as i64),
        None => (20_000_000i64, 15_000_000i64),
    }
    &&& cs.stroke_width == stroke_width_of(node) as i64
    &&& cs.fill == fill_type_spec(node)
    &&& cs.stroke_color == stroke_color_of(node)
    &&& cs.fill_color == fill_color_of(node)
    &&& cs.fields_autoplaced == autoplaced_flag(node)
    &&& sheet_instances_view(cs.instances@) == sheet_instances_read(node)
}

/// The session after reading a child sheet: its pins, then itself.
pub open spec fn child_sheet_ids(node: SExpr, ids: FreshUuids) -> FreshUuids {
    uuid_of(node, ids_fold(find_all_spec(node, "pin"@), ids)).1
}

pub fn parse_child_sheet(node: &SExpr, ids: &mut FreshUuids) -> (cs: ChildSheet)
    ensures
        child_sheet_read(cs, *node, *old(ids)),
        *final(ids) == child_sheet_ids(*node, *old(ids)),
{
    proof {
        reveal_strlit("");
    }
    let (position, _) = parse_at(node);
    let size = match node.find("size") {
        Some(sz) => (
            match arg_millionths(sz, 0) {
                Some(v) => v,
                None => 20_000_000,
            },
            match arg_millionths(sz, 1) {
                Some(v) => v,
                None => 15_000_000,
            },
        ),
        None => (20_000_000, 15_000_000),
    };
    let fields_autoplaced = parse_autoplaced_flag(node);
    let nodes = node.find_all("pin");
    let ghost v = refs_view(nodes@);
    let ghost start = *ids;
    let mut pins: Vec<SheetPin> = Vec::new();
    let mut i: usize = 0;
    while i < nodes.len()
        invariant
            i <= nodes@.len(),
            v == refs_view(nodes@),
            v == find_all_spec(*node, "pin"@),
            *ids == ids_fold(v.take(i as int), start),
            pins@.len() == i,
            forall|k: int| 0 <= k < i ==> sheet_pin_read(#[trigger] pins@[k], v[k], ids_fold(v.take(k), start)),
        decreases nodes.len() - i,
    {
        assert(v.take(i + 1).drop_last() =~= v.take(i as int));
        assert(v[i as int] == *nodes@[i as int]);
        pins.push(parse_sheet_pin(nodes[i], ids));
        i += 1;
    }
    assert(v.take(i as int) =~= v);
    let ghost after_pins = *ids;
    let uuid = parse_uuid(node, ids);
    let name = property_either_text(node, "Sheet name", "Sheetname", "Unnamed");
    let filename = property_either_text(node, "Sheet file", "Sheetfile", "");
    let stroke_width = parse_stroke_width(node);
    let fill = parse_fill_type(node);
    let stroke_color = parse_stroke_color(node);
    let fill_color = parse_fill_color(node);
    let instances = parse_sheet_instances(node);
    assert(uuid == uuid_of(*node, after_pins).0);
    assert(after_pins == ids_fold(find_all_spec(*node, "pin"@), start));
    assert(filename@ == property_either(*node, "Sheet file"@, "Sheetfile"@, Seq::empty()));
    assert(size == match find_spec(*node, "size"@) {
        Some(sz) => (num_or(arg_num(sz, 0), 20_000_000) as i64, num_or(arg_num(sz, 1), 15_000_000) as i64),
        None => (20_000_000i64, 15_000_000i64),
    });
    ChildSheet {
        uuid,
        name,
        filename,
        position,
        size,
        stroke_width,
        fill,
        stroke_color,
        fill_color,
        fields_autoplaced,
        pins,
        instances,
    }
}

pub open spec fn sheets_ids_fold(nodes: Seq<SExpr>, ids: FreshUuids) -> FreshUuids
    decreases nodes.len(),
{
    if nodes.len() == 0 {
        ids
    } else {
        child_sheet_ids(nodes.last(), sheets_ids_fold(nodes.drop_last(), ids))
    }
}

#[verifier::opaque]
pub open spec fn child_sheets_read(v: Seq<ChildSheet>, nodes: Seq<SExpr>, ids: FreshUuids) -> bool {
    &&& v.len() == nodes.len()
    &&& forall|i: int| 0 <= i < v.len() ==> child_sheet_read(#[trigger] v[i], nodes[i], sheets_ids_fold(nodes.take(i), ids))
}

fn parse_child_sheets(root: &SExpr, ids: &mut FreshUuids) -> (r: Vec<ChildSheet>)
    ensures
        child_sheets_read(r@, find_all_spec(*root, "sheet"@), *old(ids)),
        *final(ids) == sheets_ids_fold(find_all_spec(*root, "sheet"@), *old(ids)),
{
    proof {
        reveal(child_sheets_read);
    }
    let nodes = root.find_all("sheet");
    let ghost v = refs_view(nodes@);
    let ghost start = *ids;
    let mut out: Vec<ChildSheet> = Vec::new();
    let mut i: usize = 0;
    while i < nodes.len()
        invariant
            i <= nodes@.len(),
            v == refs_view(nodes@),
            v == find_all_spec(*root, "sheet"@),
            *ids == sheets_ids_fold(v.take(i as int), start),
            out@.len() == i,
            forall|k: int| 0 <= k < i ==> child_sheet_read(#[trigger] out@[k], v[k], sheets_ids_fold(v.take(k), start)),
        decreases nodes.len() - i,
    {
        assert(v.take(i + 1).drop_last() =~= v.take(i as int));
        assert(v[i as int] == *nodes@[i as int]);
        out.push(parse_child_sheet(nodes[i], ids));
        i += 1;
    }
    assert(v.take(i as int) =~= v);
    out
}


// ---------------------------------------------------------------------------
// Placed symbols
// ---------------------------------------------------------------------------

/// The pins of a placed symbol that carry a number.
pub open spec fn numbered_pins(pins: Seq<SExpr>) -> Seq<SExpr>
    decreases pins.len(),
{
    if pins.len() == 0 {
        Seq::empty()
    } else {
        let r = numbered_pins(pins.drop_last());
        if arg_spec(pins.last(), 0) is Some {
            r.push(pins.last())
        } else {
            r
        }
    }
}

/// Pin number to UUID, a later pin of a number replacing an earlier one.
pub open spec fn pin_uuid_map(pins: Seq<SExpr>, ids: FreshUuids) -> Map<Seq<char>, u128>
    decreases pins.len(),
{
    if pins.len() == 0 {
        Map::empty()
    } else {
        pin_uuid_map(pins.drop_last(), ids).insert(
            arg_or(pins.last(), 0, Seq::empty()),
            uuid_of(pins.last(), ids_fold(pins.drop_last(), ids)).0,
        )
    }
}

/// `v` lists each key of `m` once, with its value.
pub open spec fn lists_map(v: Seq<(String, u128)>, m: Map<Seq<char>, u128>) -> bool {
    &&& forall|i: int, j: int| 0 <= i < j < v.len() ==> #[trigger] v[i].0@ != #[trigger] v[j].0@
    &&& forall|i: int| 0 <= i < v.len() ==> m.dom().contains(#[trigger] v[i].0@) && m[v[i].0@] == v[i].1
    &&& forall|k: Seq<char>| m.dom().contains(k) ==> exists|i: int| 0 <= i < v.len() && #[trigger] v[i].0@ == k
}

/// Sets `key` to `value` in a list of distinct keys.
fn set_pin_uuid(v: &mut Vec<(String, u128)>, key: &str, value: u128, m: Ghost<Map<Seq<char>, u128>>)
    requires
        lists_map(old(v)@, m@),
    ensures
        lists_map(final(v)@, m@.insert(key@, value)),
{
    let ghost m0 = m@;
    let ghost m1 = m0.insert(key@, value);
    let mut i: usize = 0;
    while i < v.len()
        invariant
            i <= v@.len(),
            m0 == m@,
            m1 == m0.insert(key@, value),
            lists_map(v@, m0),
            forall|j: int| 0 <= j < i ==> v@[j].0@ != key@,
        decreases v.len() - i,
    {
        if str_eq(v[i].0.as_str(), key) {
            let ghost before = v@;
            let k = key.to_owned();
            v.set(i, (k, value));
            assert(lists_map(v@, m1)) by {
                assert forall|a: int, b: int| 0 <= a < b < v@.len() implies #[trigger] v@[a].0@ != #[trigger] v@[b].0@ by {
                    assert(before[a].0@ != before[b].0@);
                }
                assert forall|k2: Seq<char>| m1.dom().contains(k2) implies exists|w: int|
                    0 <= w < v@.len() && #[trigger] v@[w].0@ == k2 by {
                    if k2 != key@ {
                        assert(m0.dom().contains(k2));
                        let w = choose|w: int| 0 <= w < before.len() && #[trigger] before[w].0@ == k2;
                        assert(w != i);
                        assert(v@[w].0@ == k2);
                    } else {
                        assert(v@[i as int].0@ == k2);
                    }
                }
            }
            return;
        }
        i += 1;
    }
    let ghost before = v@;
    v.push((key.to_owned(), value));
    assert(lists_map(v@, m1)) by {
        assert forall|k2: Seq<char>| m1.dom().contains(k2) implies exists|w: int|
            0 <= w < v@.len() && #[trigger] v@[w].0@ == k2 by {
            if k2 != key@ {
                assert(m0.dom().contains(k2));
                let w = choose|w: int| 0 <= w < before.len() && #[trigger] before[w].0@ == k2;
                assert(v@[w].0@ == k2);
            } else {
                assert(v@[before.len() as int].0@ == k2);
            }
        }
    }
}


/// The first `(property "NAME" ...)` child from `k` on.
pub open spec fn property_node_from(items: Seq<SExpr>, k: int, name: Seq<char>) -> Option<SExpr>
    decreases items.len() - k,
{
    if k < 0 || k >= items.len() {
        None
    } else if keyword_spec(items[k]) == Some("property"@) && arg_spec(items[k], 0) == Some(name) {
        Some(items[k])
    } else {
        property_node_from(items, k + 1, name)
    }
}

pub open spec fn property_node(node: SExpr, name: Seq<char>) -> Option<SExpr> {
    property_node_from(children_spec(node), 0, name)
}

fn find_property_node<'a>(node: &'a SExpr, name: &str) -> (r: Option<&'a SExpr>)
    ensures
        opt_ref_view(r) == property_node(*node, name@),
{
    let items = node.children();
    let mut k: usize = 0;
    while k < items.len()
        invariant
            k <= items@.len(),
            items@ == children_spec(*node),
            property_node_from(items@, k as int, name@) == property_node_from(items@, 0, name@),
        decreases items.len() - k,
    {
        let is_prop = match items[k].keyword() {
            Some(kw) => str_eq(kw, "property"),
            None => false,
        };
        if is_prop {
            if let Some(a) = items[k].first_arg() {
                if str_eq(a, name) {
                    return Some(&items[k]);
                }
            }
        }
        k += 1;
    }
    None
}

pub open spec fn standard_key(k: Seq<char>) -> bool {
    k == "Reference"@ || k == "Value"@ || k == "Footprint"@ || k == "Datasheet"@
}

/// The properties other than the four standard fields (those with a key).
pub open spec fn custom_nodes(props: Seq<SExpr>) -> Seq<SExpr>
    decreases props.len(),
{
    if props.len() == 0 {
        Seq::empty()
    } else {
        let r = custom_nodes(props.drop_last());
        match arg_spec(props.last(), 0) {
            Some(k) => if standard_key(k) {
                r
            } else {
                r.push(props.last())
            },
            None => r,
        }
    }
}

/// Key to value of the custom properties that have a value, a later key
/// replacing an earlier one.
pub open spec fn fields_fold(props: Seq<SExpr>) -> Map<Seq<char>, Seq<char>>
    decreases props.len(),
{
    if props.len() == 0 {
        Map::empty()
    } else {
        let m = fields_fold(props.drop_last());
        match (arg_spec(props.last(), 0), arg_spec(props.last(), 1)) {
            (Some(k), Some(v)) => m.insert(k, v),
            _ => m,
        }
    }
}

/// Text of a field a symbol gives no property for: at the symbol, shown.
pub open spec fn default_field_text(position: Vec2) -> TextProp {
    TextProp {
        position,
        rotation: 0,
        font_size: SCHEMATIC_TEXT_NM,
        justify_h: HAlign::Center,
        justify_v: VAlign::Center,
        hidden: false,
    }
}

pub open spec fn mirror_axis(node: SExpr, axis: Seq<char>) -> bool {
    let m = child_arg(node, "mirror"@);
    m == Some(axis) || m == Some("xy"@)
}

/// `s` is what a placed `(symbol (lib_id ..) ...)` reads as from session
/// `ids`: its numbered pins first (each drawing a UUID as needed), then
/// its own UUID; library id, fields (reference `?` where missing), placement,
/// mirroring, unit (1 where missing or unreadable), flags, the text of
/// reference and value, further fields and custom properties, and its
/// instances.
pub open spec fn symbol_read(s: Symbol, node: SExpr, ids: FreshUuids) -> bool {
    let pins = numbered_pins(find_all_spec(node, "pin"@));
    let after = ids_fold(pins, ids);
    let lib_id = child_arg_or(node, "lib_id"@, Seq::empty());
    let customs = custom_nodes(find_all_spec(node, "property"@));
    &&& s.uuid == uuid_of(node, after).0
    &&& s.lib_id@ == lib_id
    &&& s.reference@ == match property_value(node, "Reference"@) {
        Some(v) => v,
        None => "?"@,
    }
    &&& s.value@ == property_or_empty(node, "Value"@)
    &&& s.footprint@ == property_or_empty(node, "Footprint"@)
    &&& s.datasheet@ == property_or_empty(node, "Datasheet"@)
    &&& s.position == at_of(node).0
    &&& s.rotation == at_of(node).1
    &&& s.mirror_x == mirror_axis(node, "x"@)
    &&& s.mirror_y == mirror_axis(node, "y"@)
    &&& s.unit == match child_arg(node, "unit"@) {
        Some(t) => match parse_u32_spec(t) {
            Some(n) => n as u32,
            None => 1u32,
        },
        None => 1u32,
    }
    &&& s.is_power == (lib_id.len() >= 6 && lib_id.take(6) == "power:"@)
    &&& s.ref_text == Some(match property_node(node, "Reference"@) {
        Some(p) => text_prop_of(p),
        None => default_field_text(at_of(node).0),
    })
    &&& s.val_text == Some(match property_node(node, "Value"@) {
        Some(p) => text_prop_of(p),
        None => default_field_text(at_of(node).0),
    })
    &&& s.fields_autoplaced == autoplaced_flag(node)
    &&& s.fields_user_placed == !autoplaced_flag(node)
    &&& s.dnp == flag_or(yes_flag(node, "dnp"@), false)
    &&& s.in_bom == flag_or(yes_flag(node, "in_bom"@), true)
    &&& s.on_board == flag_or(yes_flag(node, "on_board"@), true)
    &&& s.exclude_from_sim == flag_or(yes_flag(node, "exclude_from_sim"@), false)
    &&& s.locked == find_spec(node, "locked"@) is Some
    &&& s.fields@ == fields_fold(customs)
    &&& s.custom_properties@.len() == customs.len()
    &&& forall|i: int| 0 <= i < customs.len() ==> property_read(#[trigger] s.custom_properties@[i], customs[i])
    &&& lists_map(s.pin_uuids@, pin_uuid_map(pins, ids))
    &&& symbol_instances_view(s.instances@) == symbol_instances_read(node)
}

/// The session after reading a placed symbol: its numbered pins, then
/// itself.
pub open spec fn symbol_ids(node: SExpr, ids: FreshUuids) -> FreshUuids {
    uuid_of(node, ids_fold(numbered_pins(find_all_spec(node, "pin"@)), ids)).1
}

fn parse_pin_uuids(node: &SExpr, ids: &mut FreshUuids) -> (r: Vec<(String, u128)>)
    ensures
        lists_map(r@, pin_uuid_map(numbered_pins(find_all_spec(*node, "pin"@)), *old(ids))),
        *final(ids) == ids_fold(numbered_pins(find_all_spec(*node, "pin"@)), *old(ids)),
{
    let pins = node.find_all("pin");
    let ghost all = refs_view(pins@);
    let ghost start = *ids;
    let mut out: Vec<(String, u128)> = Vec::new();
    let mut i: usize = 0;
    assert(lists_map(out@, pin_uuid_map(numbered_pins(all.take(0)), start)));
    while i < pins.len()
        invariant
            i <= pins@.len(),
            all == refs_view(pins@),
            all == find_all_spec(*node, "pin"@),
            *ids == ids_fold(numbered_pins(all.take(i as int)), start),
            lists_map(out@, pin_uuid_map(numbered_pins(all.take(i as int)), start)),
        decreases pins.len() - i,
    {
        assert(all.take(i + 1).drop_last() =~= all.take(i as int));
        assert(all[i as int] == *pins@[i as int]);
        let ghost np = numbered_pins(all.take(i as int));
        if let Some(number) = pins[i].first_arg() {
            assert(numbered_pins(all.take(i + 1)) == np.push(all[i as int]));
            assert(numbered_pins(all.take(i + 1)).drop_last() =~= np);
            let ghost m = pin_uuid_map(np, start);
            let u = parse_uuid(pins[i], ids);
            set_pin_uuid(&mut out, number, u, Ghost(m));
        }
        i += 1;
    }
    assert(all.take(i as int) =~= all);
    out
}

fn parse_custom_fields(node: &SExpr) -> (r: (VarMap, Vec<SchematicProperty>))
    ensures
        r.0@ == fields_fold(custom_nodes(find_all_spec(*node, "property"@))),
        r.1@.len() == custom_nodes(find_all_spec(*node, "property"@)).len(),
        forall|i: int|
            0 <= i < r.1@.len() ==> property_read(#[trigger] r.1@[i], custom_nodes(find_all_spec(*node, "property"@))[i]),
{
    let props = node.find_all("property");
    let ghost all = refs_view(props@);
    let mut fields = VarMap::new();
    let mut customs: Vec<SchematicProperty> = Vec::new();
    let mut i: usize = 0;
    assert(fields@ =~= fields_fold(custom_nodes(all.take(0))));
    while i < props.len()
        invariant
            i <= props@.len(),
            all == refs_view(props@),
            all == find_all_spec(*node, "property"@),
            fields@ == fields_fold(custom_nodes(all.take(i as int))),
            customs@.len() == custom_nodes(all.take(i as int)).len(),
            forall|k: int|
                0 <= k < customs@.len() ==> property_read(#[trigger] customs@[k], custom_nodes(all.take(i as int))[k]),
        decreases props.len() - i,
    {
        assert(all.take(i + 1).drop_last() =~= all.take(i as int));
        assert(all[i as int] == *props@[i as int]);
        let p = props[i];
        let ghost c0 = custom_nodes(all.take(i as int));
        if let Some(key) = p.first_arg() {
            let standard = str_eq(key, "Reference") || str_eq(key, "Value") || str_eq(key, "Footprint") || str_eq(
                key,
                "Datasheet",
            );
            if !standard {
                assert(custom_nodes(all.take(i + 1)) == c0.push(*p));
                assert(custom_nodes(all.take(i + 1)).drop_last() =~= c0);
                if let Some(val) = p.arg(1) {
                    fields.insert(key.to_owned(), val.to_owned());
                }
                customs.push(parse_schematic_property(p));
            }
        }
        i += 1;
    }
    assert(all.take(i as int) =~= all);
    (fields, customs)
}

fn starts_with_power(s: &str) -> (b: bool)
    ensures
        b == (s@.len() >= 6 && s@.take(6) == "power:"@),
{
    let cs = chars_of(s);
    let p = chars_of("power:");
    proof {
        reveal_strlit("power:");
    }
    if cs.len() < 6 {
        return false;
    }
    let head = slice_chars(cs.as_slice(), 0, 6);
    assert(head@ =~= s@.take(6));
    chars_eq(head.as_slice(), p.as_slice())
}

fn field_text(node: &SExpr, name: &str, position: Vec2) -> (t: TextProp)
    ensures
        t == match property_node(*node, name@) {
            Some(p) => text_prop_of(p),
            None => default_field_text(position),
        },
{
    match find_property_node(node, name) {
        Some(p) => parse_text_prop(p),
        None => TextProp {
            position,
            rotation: 0,
            font_size: SCHEMATIC_TEXT_NM,
            justify_h: HAlign::Center,
            justify_v: VAlign::Center,
            hidden: false,
        },
    }
}

fn flag_or_default(node: &SExpr, keyword: &str, default: bool) -> (b: bool)
    ensures
        b == flag_or(yes_flag(*node, keyword@), default),
{
    match parse_yes_flag(node, keyword) {
        Some(v) => v,
        None => default,
    }
}

/// Reads a placed symbol.
pub fn parse_symbol_instance(node: &SExpr, ids: &mut FreshUuids) -> (s: Symbol)
    ensures
        symbol_read(s, *node, *old(ids)),
        *final(ids) == symbol_ids(*node, *old(ids)),
{
    proof {
        reveal_strlit("");
        reveal_strlit("?");
    }
    let ghost ids0 = *ids;
    let (position, rotation) = parse_at(node);
    let lib_id = owned_or(child_first_arg(node, "lib_id"), "");
    let reference = owned_or(find_property(node, "Reference"), "?");
    let value = owned_or(find_property(node, "Value"), "");
    let footprint = owned_or(find_property(node, "Footprint"), "");
    let datasheet = owned_or(find_property(node, "Datasheet"), "");
    let unit = match child_first_arg(node, "unit") {
        Some(t) => match parse_u32(t) {
            Some(n) => n,
            None => 1,
        },
        None => 1,
    };
    let is_power = starts_with_power(lib_id.as_str());
    let mirror = child_first_arg(node, "mirror");
    let mirror_x = match mirror {
        Some(v) => str_eq(v, "x") || str_eq(v, "xy"),
        None => false,
    };
    let mirror_y = match mirror {
        Some(v) => str_eq(v, "y") || str_eq(v, "xy"),
        None => false,
    };
    let fields_autoplaced = parse_autoplaced_flag(node);
    let pin_uuids = parse_pin_uuids(node, ids);
    let instances = parse_symbol_instances(node);
    let dnp = flag_or_default(node, "dnp", false);
    let in_bom = flag_or_default(node, "in_bom", true);
    let on_board = flag_or_default(node, "on_board", true);
    let exclude_from_sim = flag_or_default(node, "exclude_from_sim", false);
    let locked = node.find("locked").is_some();
    let ref_text = field_text(node, "Reference", position);
    let val_text = field_text(node, "Value", position);
    let (fields, custom_properties) = parse_custom_fields(node);
    let ghost after = *ids;
    let uuid = parse_uuid(node, ids);
    assert(uuid == uuid_of(*node, after).0);
    assert(lib_id@ == child_arg_or(*node, "lib_id"@, Seq::empty()));
    assert(reference@ == match property_value(*node, "Reference"@) {
        Some(v) => v,
        None => "?"@,
    });
    assert(value@ == property_or_empty(*node, "Value"@));
    assert(footprint@ == property_or_empty(*node, "Footprint"@));
    assert(datasheet@ == property_or_empty(*node, "Datasheet"@));
    assert(mirror_x == mirror_axis(*node, "x"@));
    assert(mirror_y == mirror_axis(*node, "y"@));
    Symbol {
        uuid,
        lib_id,
        reference,
        value,
        footprint,
        datasheet,
        position,
        rotation,
        mirror_x,
        mirror_y,
        unit,
        is_power,
        ref_text: Some(ref_text),
        val_text: Some(val_text),
        fields_autoplaced,
        fields_user_placed: !fields_autoplaced,
        dnp,
        in_bom,
        on_board,
        exclude_from_sim,
        locked,
        fields,
        custom_properties,
        pin_uuids,
        instances,
    }
}


pub open spec fn symbols_ids_fold(nodes: Seq<SExpr>, ids: FreshUuids) -> FreshUuids
    decreases nodes.len(),
{
    if nodes.len() == 0 {
        ids
    } else {
        symbol_ids(nodes.last(), symbols_ids_fold(nodes.drop_last(), ids))
    }
}

#[verifier::opaque]
pub open spec fn symbols_read(v: Seq<Symbol>, nodes: Seq<SExpr>, ids: FreshUuids) -> bool {
    &&& v.len() == nodes.len()
    &&& forall|i: int| 0 <= i < v.len() ==> symbol_read(#[trigger] v[i], nodes[i], symbols_ids_fold(nodes.take(i), ids))
}

/// The `symbol` children that are placed symbols: those with a `lib_id`.
pub open spec fn placed_symbols(nodes: Seq<SExpr>) -> Seq<SExpr>
    decreases nodes.len(),
{
    if nodes.len() == 0 {
        Seq::empty()
    } else {
        let r = placed_symbols(nodes.drop_last());
        if find_spec(nodes.last(), "lib_id"@) is Some {
            r.push(nodes.last())
        } else {
            r
        }
    }
}

fn parse_placed_symbols(root: &SExpr, ids: &mut FreshUuids) -> (r: Vec<Symbol>)
    ensures
        symbols_read(r@, placed_symbols(find_all_spec(*root, "symbol"@)), *old(ids)),
        *final(ids) == symbols_ids_fold(placed_symbols(find_all_spec(*root, "symbol"@)), *old(ids)),
{
    proof {
        reveal(symbols_read);
    }
    let nodes = root.find_all("symbol");
    let ghost all = refs_view(nodes@);
    let ghost start = *ids;
    let mut out: Vec<Symbol> = Vec::new();
    let mut i: usize = 0;
    while i < nodes.len()
        invariant
            i <= nodes@.len(),
            all == refs_view(nodes@),
            all == find_all_spec(*root, "symbol"@),
            *ids == symbols_ids_fold(placed_symbols(all.take(i as int)), start),
            symbols_read(out@, placed_symbols(all.take(i as int)), start),
        decreases nodes.len() - i,
    {
        proof {
            reveal(symbols_read);
        }
        assert(all.take(i + 1).drop_last() =~= all.take(i as int));
        assert(all[i as int] == *nodes@[i as int]);
        let ghost ps = placed_symbols(all.take(i as int));
        if nodes[i].find("lib_id").is_some() {
            assert(placed_symbols(all.take(i + 1)) == ps.push(all[i as int]));
            assert(placed_symbols(all.take(i + 1)).drop_last() =~= ps);
            let ghost o = out@;
            let s = parse_symbol_instance(nodes[i], ids);
            out.push(s);
            assert forall|k: int| 0 <= k < out@.len() implies symbol_read(
                #[trigger] out@[k],
                placed_symbols(all.take(i + 1))[k],
                symbols_ids_fold(placed_symbols(all.take(i + 1)).take(k), start),
            ) by {
                assert(placed_symbols(all.take(i + 1)).take(k) =~= if k < ps.len() {
                    ps.take(k)
                } else {
                    ps
                });
                if k < o.len() {
                    assert(out@[k] == o[k]);
                }
            }
        }
        i += 1;
    }
    assert(all.take(i as int) =~= all);
    out
}

/// Library id to library node, a later node of an id replacing an earlier
/// one.
pub open spec fn lib_node_map(nodes: Seq<SExpr>) -> Map<Seq<char>, SExpr>
    decreases nodes.len(),
{
    if nodes.len() == 0 {
        Map::empty()
    } else {
        lib_node_map(nodes.drop_last()).insert(arg_or(nodes.last(), 0, Seq::empty()), nodes.last())
    }
}

/// `v` holds each library id of `m` once, with the symbol its node reads
/// as.
#[verifier::opaque]
pub open spec fn lib_entries_read(v: Seq<(String, LibSymbol)>, m: Map<Seq<char>, SExpr>) -> bool {
    &&& forall|i: int, j: int| 0 <= i < j < v.len() ==> #[trigger] v[i].0@ != #[trigger] v[j].0@
    &&& forall|i: int|
        0 <= i < v.len() ==> m.dom().contains(#[trigger] v[i].0@) && lib_symbol_read(v[i].1, m[v[i].0@])
    &&& forall|k: Seq<char>| m.dom().contains(k) ==> exists|i: int| 0 <= i < v.len() && #[trigger] v[i].0@ == k
}

fn set_lib_symbol(v: &mut Vec<(String, LibSymbol)>, lib: LibSymbol, node: Ghost<SExpr>, m: Ghost<Map<Seq<char>, SExpr>>)
    requires
        lib_entries_read(old(v)@, m@),
        lib_symbol_read(lib, node@),
    ensures
        lib_entries_read(final(v)@, m@.insert(arg_or(node@, 0, Seq::empty()), node@)),
{
    proof {
        reveal(lib_entries_read);
    }
    let ghost m0 = m@;
    let ghost key = arg_or(node@, 0, Seq::empty());
    let ghost m1 = m0.insert(key, node@);
    assert(lib.id@ == key);
    let mut i: usize = 0;
    while i < v.len()
        invariant
            i <= v@.len(),
            m0 == m@,
            key == lib.id@,
            m1 == m0.insert(key, node@),
            lib_symbol_read(lib, node@),
            lib_entries_read(v@, m0),
            forall|j: int| 0 <= j < i ==> v@[j].0@ != key,
        decreases v.len() - i,
    {
        proof {
            reveal(lib_entries_read);
        }
        if str_eq(v[i].0.as_str(), lib.id.as_str()) {
            let ghost before = v@;
            let k = lib.id.clone();
            v.set(i, (k, lib));
            assert(lib_entries_read(v@, m1)) by {
                assert forall|a: int, b: int| 0 <= a < b < v@.len() implies #[trigger] v@[a].0@ != #[trigger] v@[b].0@ by {
                    assert(before[a].0@ != before[b].0@);
                }
                assert forall|k2: Seq<char>| m1.dom().contains(k2) implies exists|w: int|
                    0 <= w < v@.len() && #[trigger] v@[w].0@ == k2 by {
                    if k2 != key {
                        assert(m0.dom().contains(k2));
                        let w = choose|w: int| 0 <= w < before.len() && #[trigger] before[w].0@ == k2;
                        assert(w != i);
                        assert(v@[w].0@ == k2);
                    } else {
                        assert(v@[i as int].0@ == k2);
                    }
                }
            }
            return;
        }
        i += 1;
    }
    let ghost before = v@;
    let k = lib.id.clone();
    v.push((k, lib));
    assert(lib_entries_read(v@, m1)) by {
        assert forall|k2: Seq<char>| m1.dom().contains(k2) implies exists|w: int|
            0 <= w < v@.len() && #[trigger] v@[w].0@ == k2 by {
            if k2 != key {
                assert(m0.dom().contains(k2));
                let w = choose|w: int| 0 <= w < before.len() && #[trigger] before[w].0@ == k2;
                assert(v@[w].0@ == k2);
            } else {
                assert(v@[before.len() as int].0@ == k2);
            }
        }
    }
}

/// The library symbols under `(lib_symbols ...)`.
pub open spec fn lib_symbol_nodes(root: SExpr) -> Seq<SExpr> {
    match find_spec(root, "lib_symbols"@) {
        Some(l) => find_all_spec(l, "symbol"@),
        None => Seq::empty(),
    }
}

fn parse_lib_symbols(root: &SExpr) -> (r: Vec<(String, LibSymbol)>)
    ensures
        lib_entries_read(r@, lib_node_map(lib_symbol_nodes(*root))),
{
    proof {
        reveal(lib_entries_read);
    }
    let mut out: Vec<(String, LibSymbol)> = Vec::new();
    let ln = match root.find("lib_symbols") {
        Some(l) => l,
        None => {
            assert(lib_node_map(Seq::<SExpr>::empty()) =~= Map::empty());
            return out;
        },
    };
    let nodes = ln.find_all("symbol");
    let ghost all = refs_view(nodes@);
    let mut i: usize = 0;
    assert(lib_node_map(all.take(0)) =~= Map::empty());
    while i < nodes.len()
        invariant
            i <= nodes@.len(),
            all == refs_view(nodes@),
            all == find_all_spec(*ln, "symbol"@),
            lib_entries_read(out@, lib_node_map(all.take(i as int))),
        decreases nodes.len() - i,
    {
        assert(all.take(i + 1).drop_last() =~= all.take(i as int));
        assert(all[i as int] == *nodes@[i as int]);
        let lib = parse_lib_symbol(nodes[i]);
        set_lib_symbol(&mut out, lib, Ghost(all[i as int]), Ghost(lib_node_map(all.take(i as int))));
        i += 1;
    }
    assert(all.take(i as int) =~= all);
    out
}


// ---------------------------------------------------------------------------
// The sheet
// ---------------------------------------------------------------------------

/// The paper: its size (A4 where missing), with ` portrait` or
/// ` landscape` when the orientation names one, in any case.
pub open spec fn paper_of(root: SExpr) -> Seq<char> {
    match find_spec(root, "paper"@) {
        Some(p) => {
            let size = arg_or(p, 0, "A4"@);
            let o = arg_or(p, 1, Seq::empty());
            if ci_eq(o, "portrait"@) {
                size + " portrait"@
            } else if ci_eq(o, "landscape"@) {
                size + " landscape"@
            } else {
                size
            }
        },
        None => "A4"@,
    }
}

fn parse_paper(root: &SExpr) -> (r: String)
    ensures
        r@ == paper_of(*root),
{
    proof {
        reveal_strlit("");
    }
    match root.find("paper") {
        Some(p) => {
            let size = match p.first_arg() {
                Some(t) => t,
                None => "A4",
            };
            let o = match p.arg(1) {
                Some(t) => chars_of(t),
                None => Vec::new(),
            };
            assert(o@ == arg_or(*p, 1, Seq::empty()));
            let portrait = chars_of("portrait");
            let landscape = chars_of("landscape");
            if chars_ci_eq(o.as_slice(), portrait.as_slice()) {
                let suffix = chars_of(" portrait");
                concat_str(size, suffix.as_slice())
            } else if chars_ci_eq(o.as_slice(), landscape.as_slice()) {
                let suffix = chars_of(" landscape");
                concat_str(size, suffix.as_slice())
            } else {
                size.to_owned()
            }
        },
        None => "A4".to_owned(),
    }
}

/// The sessions after each stage of reading a sheet. The wiring is read
/// from `s`, the session after the sheet's own UUID: placed symbols,
/// wires, junctions, then net, global and hierarchical labels.
pub open spec fn after_uuid(root: SExpr, ids: FreshUuids) -> FreshUuids {
    uuid_of(root, ids).1
}

pub open spec fn after_symbols(root: SExpr, s: FreshUuids) -> FreshUuids {
    symbols_ids_fold(placed_symbols(find_all_spec(root, "symbol"@)), s)
}

pub open spec fn after_wires(root: SExpr, s: FreshUuids) -> FreshUuids {
    ids_fold(find_all_spec(root, "wire"@), after_symbols(root, s))
}

pub open spec fn after_junctions(root: SExpr, s: FreshUuids) -> FreshUuids {
    ids_fold(find_all_spec(root, "junction"@), after_wires(root, s))
}

pub open spec fn after_net_labels(root: SExpr, s: FreshUuids) -> FreshUuids {
    ids_fold(find_all_spec(root, "label"@), after_junctions(root, s))
}

pub open spec fn after_global_labels(root: SExpr, s: FreshUuids) -> FreshUuids {
    ids_fold(find_all_spec(root, "global_label"@), after_net_labels(root, s))
}

/// The session after the wiring.
pub open spec fn after_wiring(root: SExpr, s: FreshUuids) -> FreshUuids {
    ids_fold(find_all_spec(root, "hierarchical_label"@), after_global_labels(root, s))
}

/// The annotations are read from `t`, the session after the wiring:
/// no-connect flags, buses, bus entries, drawings, child sheets, notes,
/// then no-ERC directives.
pub open spec fn after_no_connects(root: SExpr, t: FreshUuids) -> FreshUuids {
    ids_fold(find_all_spec(root, "no_connect"@), t)
}

pub open spec fn after_buses(root: SExpr, t: FreshUuids) -> FreshUuids {
    ids_fold(find_all_spec(root, "bus"@), after_no_connects(root, t))
}

pub open spec fn after_bus_entries(root: SExpr, t: FreshUuids) -> FreshUuids {
    ids_fold(find_all_spec(root, "bus_entry"@), after_buses(root, t))
}

pub open spec fn after_drawings(root: SExpr, t: FreshUuids) -> FreshUuids {
    drawings_of(root, after_bus_entries(root, t)).1
}

pub open spec fn after_sheets(root: SExpr, t: FreshUuids) -> FreshUuids {
    sheets_ids_fold(find_all_spec(root, "sheet"@), after_drawings(root, t))
}

pub open spec fn after_notes(root: SExpr, t: FreshUuids) -> FreshUuids {
    ids_fold(find_all_spec(root, "text"@), after_sheets(root, t))
}

/// The session after the annotations.
pub open spec fn after_annotations(root: SExpr, t: FreshUuids) -> FreshUuids {
    ids_fold(find_all_spec(root, "no_erc"@), after_notes(root, t))
}

/// The session after reading the whole sheet.
pub open spec fn sheet_ids(root: SExpr, ids: FreshUuids) -> FreshUuids {
    after_annotations(root, after_wiring(root, after_uuid(root, ids)))
}

/// The wiring of a sheet read from session `s`, each kind in file order.
#[verifier::opaque]
pub open spec fn wiring_read(
    symbols: Seq<Symbol>,
    wires: Seq<Wire>,
    junctions: Seq<Junction>,
    labels: Seq<Label>,
    root: SExpr,
    s: FreshUuids,
) -> bool {
    let l1 = find_all_spec(root, "label"@);
    let l2 = find_all_spec(root, "global_label"@);
    let l3 = find_all_spec(root, "hierarchical_label"@);
    let (n1, n2) = (l1.len() as int, l2.len() as int);
    &&& symbols_read(symbols, placed_symbols(find_all_spec(root, "symbol"@)), s)
    &&& wires == wires_of(find_all_spec(root, "wire"@), after_symbols(root, s))
    &&& junctions == junctions_of(find_all_spec(root, "junction"@), after_wires(root, s))
    &&& labels.len() == n1 + n2 + l3.len()
    &&& labels_read(labels.subrange(0, n1), l1, LabelType::Net, after_junctions(root, s))
    &&& labels_read(labels.subrange(n1, n1 + n2), l2, LabelType::Global, after_net_labels(root, s))
    &&& labels_read(labels.skip(n1 + n2), l3, LabelType::Hierarchical, after_global_labels(root, s))
}

/// The annotations of a sheet read from session `t`, each kind in file
/// order.
#[verifier::opaque]
pub open spec fn annotations_read(
    no_connects: Seq<NoConnect>,
    buses: Seq<Bus>,
    bus_entries: Seq<BusEntry>,
    drawings: Seq<SchDrawing>,
    child_sheets: Seq<ChildSheet>,
    notes: Seq<TextNote>,
    no_ercs: Seq<NoConnect>,
    root: SExpr,
    t: FreshUuids,
) -> bool {
    &&& no_connects == markers_of(find_all_spec(root, "no_connect"@), t)
    &&& buses == buss_of(find_all_spec(root, "bus"@), after_no_connects(root, t))
    &&& bus_entries == bus_entrys_of(find_all_spec(root, "bus_entry"@), after_buses(root, t))
    &&& drawing_views(drawings) == drawings_of(root, after_bus_entries(root, t)).0
    &&& child_sheets_read(child_sheets, find_all_spec(root, "sheet"@), after_drawings(root, t))
    &&& notes_read(notes, find_all_spec(root, "text"@), after_sheets(root, t))
    &&& no_ercs == markers_of(find_all_spec(root, "no_erc"@), after_notes(root, t))
}

/// The header of a sheet: its format version (0 where missing or not a
/// number), generator (`unknown` where missing) and generator version,
/// paper, root page and title block.
#[verifier::opaque]
pub open spec fn header_read(
    version: u32,
    generator: Seq<char>,
    generator_version: Seq<char>,
    paper: Seq<char>,
    root_page: Seq<char>,
    title_block: Map<Seq<char>, Seq<char>>,
    root: SExpr,
) -> bool {
    &&& version == match child_arg(root, "version"@) {
        Some(t) => match parse_u32_spec(t) {
            Some(n) => n as u32,
            None => 0u32,
        },
        None => 0u32,
    }
    &&& generator == child_arg_or(root, "generator"@, "unknown"@)
    &&& generator_version == child_arg_or(root, "generator_version"@, Seq::empty())
    &&& paper == paper_of(root)
    &&& root_page == root_sheet_page_spec(root)
    &&& title_block == title_block_spec(root)
}

/// `sh` is what a `(kicad_sch ...)` tree reads as from session `ids`: the
/// sheet's UUID first, then its wiring and its annotations, drawing fresh
/// UUIDs in that order; plus its header and library symbols.
pub open spec fn sheet_read(sh: SchematicSheet, root: SExpr, ids: FreshUuids) -> bool {
    let s = after_uuid(root, ids);
    &&& sh.uuid == uuid_of(root, ids).0
    &&& header_read(
        sh.version,
        sh.generator@,
        sh.generator_version@,
        sh.paper_size@,
        sh.root_sheet_page@,
        sh.title_block@,
        root,
    )
    &&& lib_entries_read(sh.lib_symbols@, lib_node_map(lib_symbol_nodes(root)))
    &&& wiring_read(sh.symbols@, sh.wires@, sh.junctions@, sh.labels@, root, s)
    &&& annotations_read(
        sh.no_connects@,
        sh.buses@,
        sh.bus_entries@,
        sh.drawings@,
        sh.child_sheets@,
        sh.text_notes@,
        sh.no_erc_directives@,
        root,
        after_wiring(root, s),
    )
}

fn parse_label_list(root: &SExpr, keyword: &str, kind: LabelType, ids: &mut FreshUuids) -> (r: Vec<Label>)
    ensures
        r@.len() == find_all_spec(*root, keyword@).len(),
        labels_read(r@, find_all_spec(*root, keyword@), kind, *old(ids)),
        *final(ids) == ids_fold(find_all_spec(*root, keyword@), *old(ids)),
{
    proof {
        reveal(labels_read);
    }
    let mut out: Vec<Label> = Vec::new();
    push_labels(&mut out, root, keyword, kind, ids);
    assert(out@.skip(0) =~= out@);
    out
}

#[verifier::spinoff_prover]
fn parse_all_labels(root: &SExpr, ids: &mut FreshUuids) -> (r: Vec<Label>)
    ensures
        r@.len() == find_all_spec(*root, "label"@).len() + find_all_spec(*root, "global_label"@).len()
            + find_all_spec(*root, "hierarchical_label"@).len(),
        labels_read(r@.subrange(0, find_all_spec(*root, "label"@).len() as int), find_all_spec(*root, "label"@), LabelType::Net, *old(ids)),
        labels_read(
            r@.subrange(
                find_all_spec(*root, "label"@).len() as int,
                (find_all_spec(*root, "label"@).len() + find_all_spec(*root, "global_label"@).len()) as int,
            ),
            find_all_spec(*root, "global_label"@),
            LabelType::Global,
            ids_fold(find_all_spec(*root, "label"@), *old(ids)),
        ),
        labels_read(
            r@.skip((find_all_spec(*root, "label"@).len() + find_all_spec(*root, "global_label"@).len()) as int),
            find_all_spec(*root, "hierarchical_label"@),
            LabelType::Hierarchical,
            ids_fold(find_all_spec(*root, "global_label"@), ids_fold(find_all_spec(*root, "label"@), *old(ids))),
        ),
        *final(ids) == ids_fold(
            find_all_spec(*root, "hierarchical_label"@),
            ids_fold(find_all_spec(*root, "global_label"@), ids_fold(find_all_spec(*root, "label"@), *old(ids))),
        ),
{
    let mut a = parse_label_list(root, "label", LabelType::Net, ids);
    let mut b = parse_label_list(root, "global_label", LabelType::Global, ids);
    let mut c = parse_label_list(root, "hierarchical_label", LabelType::Hierarchical, ids);
    let ghost (va, vb, vc) = (a@, b@, c@);
    a.append(&mut b);
    a.append(&mut c);
    assert(a@ == va + vb + vc);
    assert(a@.subrange(0, va.len() as int) =~= va);
    assert(a@.subrange(va.len() as int, (va.len() + vb.len()) as int) =~= vb);
    assert(a@.skip((va.len() + vb.len()) as int) =~= vc);
    a
}

fn read_header(root: &SExpr) -> (r: (u32, String, String, String, String, VarMap))
    ensures
        header_read(r.0, r.1@, r.2@, r.3@, r.4@, r.5@, *root),
{
    proof {
        reveal(header_read);
    }
    let version = match child_first_arg(root, "version") {
        Some(t) => match parse_u32(t) {
            Some(n) => n,
            None => 0,
        },
        None => 0,
    };
    let generator = owned_or(child_first_arg(root, "generator"), "unknown");
    let generator_version = owned_or(child_first_arg(root, "generator_version"), "");
    let paper_size = parse_paper(root);
    let root_sheet_page = parse_root_sheet_page(root);
    let title_block = parse_title_block(root);
    proof {
        reveal_strlit("");
    }
    assert(version == match child_arg(*root, "version"@) {
        Some(t) => match parse_u32_spec(t) {
            Some(n) => n as u32,
            None => 0u32,
        },
        None => 0u32,
    });
    assert(generator@ == child_arg_or(*root, "generator"@, "unknown"@));
    assert(generator_version@ == child_arg_or(*root, "generator_version"@, Seq::empty()));
    (version, generator, generator_version, paper_size, root_sheet_page, title_block)
}

fn read_wiring(root: &SExpr, ids: &mut FreshUuids) -> (r: (Vec<Symbol>, Vec<Wire>, Vec<Junction>, Vec<Label>))
    ensures
        wiring_read(r.0@, r.1@, r.2@, r.3@, *root, *old(ids)),
        *final(ids) == after_wiring(*root, *old(ids)),
{
    proof {
        reveal(wiring_read);
    }
    let symbols = parse_placed_symbols(root, ids);
    let wires = parse_wires(root, "wire", ids);
    let junctions = parse_junctions(root, "junction", ids);
    let labels = parse_all_labels(root, ids);
    (symbols, wires, junctions, labels)
}

fn read_annotations(root: &SExpr, ids: &mut FreshUuids) -> (r: (
    Vec<NoConnect>,
    Vec<Bus>,
    Vec<BusEntry>,
    Vec<SchDrawing>,
    Vec<ChildSheet>,
    Vec<TextNote>,
    Vec<NoConnect>,
))
    ensures
        annotations_read(r.0@, r.1@, r.2@, r.3@, r.4@, r.5@, r.6@, *root, *old(ids)),
        *final(ids) == after_annotations(*root, *old(ids)),
{
    proof {
        reveal(annotations_read);
    }
    let no_connects = parse_markers(root, "no_connect", ids);
    let buses = parse_buss(root, "bus", ids);
    let bus_entries = parse_bus_entrys(root, "bus_entry", ids);
    let drawings = parse_drawings(root, ids);
    let child_sheets = parse_child_sheets(root, ids);
    let text_notes = parse_text_notes(root, ids);
    let no_ercs = parse_markers(root, "no_erc", ids);
    (no_connects, buses, bus_entries, drawings, child_sheets, text_notes, no_ercs)
}

/// Reads a schematic sheet from its `(kicad_sch ...)` tree, drawing fresh
/// UUIDs from `ids` for elements that name none; a tree of another kind
/// is no schematic.
#[verifier::spinoff_prover]
pub fn parse_schematic(root: &SExpr, ids: &mut FreshUuids) -> (r: Result<SchematicSheet, ParseError>)
    ensures
        match r {
            Ok(sh) => keyword_spec(*root) == Some("kicad_sch"@) && sheet_read(sh, *root, *old(ids)) && *final(ids)
                == sheet_ids(*root, *old(ids)),
            Err(e) => keyword_spec(*root) != Some("kicad_sch"@) && (e matches ParseError::InvalidSExpr(m) && m@
                == "Not a KiCad schematic file"@) && *final(ids) == *old(ids),
        },
{
    proof {
        reveal_strlit("");
    }
    let is_sch = match root.keyword() {
        Some(k) => str_eq(k, "kicad_sch"),
        None => false,
    };
    if !is_sch {
        return Err(ParseError::InvalidSExpr("Not a KiCad schematic file".to_owned()));
    }
    let (version, generator, generator_version, paper_size, root_sheet_page, title_block) = read_header(root);
    let uuid = parse_uuid(root, ids);
    let lib_symbols = parse_lib_symbols(root);
    let (symbols, wires, junctions, labels) = read_wiring(root, ids);
    let (no_connects, buses, bus_entries, drawings, child_sheets, text_notes, no_erc_directives) =
        read_annotations(root, ids);
    Ok(SchematicSheet {
        uuid,
        version,
        generator,
        generator_version,
        paper_size,
        root_sheet_page,
        symbols,
        wires,
        junctions,
        labels,
        child_sheets,
        no_connects,
        text_notes,
        buses,
        bus_entries,
        drawings,
        no_erc_directives,
        title_block,
        lib_symbols,
    })
}

// ---------------------------------------------------------------------------
// Laws of the sheet reader
// ---------------------------------------------------------------------------

/// A read junction sits where its `(at X Y)` node says: its x is the
/// first argument of `at` and its y the second (in millionths), the
/// origin when the node has no `at`.
pub proof fn lemma_junction_at(sh: SchematicSheet, root: SExpr, ids: FreshUuids)
    requires
        sheet_read(sh, root, ids),
    ensures
        sh.junctions@.len() == find_all_spec(root, "junction"@).len(),
        forall|i: int|
            0 <= i < sh.junctions@.len() ==> (#[trigger] sh.junctions@[i]).position == match find_spec(
                find_all_spec(root, "junction"@)[i],
                "at"@,
            ) {
                Some(at) => Vec2 { x: num_or(arg_num(at, 0), 0) as i64, y: num_or(arg_num(at, 1), 0) as i64 },
                None => Vec2 { x: 0, y: 0 },
            },
{
    reveal(wiring_read);
    let nodes = find_all_spec(root, "junction"@);
    assert forall|i: int|
        0 <= i < sh.junctions@.len() implies (#[trigger] sh.junctions@[i]).position == match find_spec(
            nodes[i],
            "at"@,
        ) {
            Some(at) => Vec2 { x: num_or(arg_num(at, 0), 0) as i64, y: num_or(arg_num(at, 1), 0) as i64 },
            None => Vec2 { x: 0, y: 0 },
        } by {
        assert(sh.junctions@[i] == junction_of(nodes[i], ids_fold(nodes.take(i), after_wires(root, after_uuid(root, ids)))).0);
    }
}

/// Labels read back under the kind they were written as: the nodes under
/// the keyword the writer uses for net, global and hierarchical labels are
/// the ones the reader reads as net, global and hierarchical labels.
pub proof fn lemma_label_keyword_read_back(
    symbols: Seq<Symbol>,
    wires: Seq<Wire>,
    junctions: Seq<Junction>,
    labels: Seq<Label>,
    root: SExpr,
    s: FreshUuids,
)
    requires
        wiring_read(symbols, wires, junctions, labels, root, s),
    ensures
        ({
            let l1 = find_all_spec(root, label_keyword(LabelType::Net));
            let l2 = find_all_spec(root, label_keyword(LabelType::Global));
            let l3 = find_all_spec(root, label_keyword(LabelType::Hierarchical));
            let (n1, n2) = (l1.len() as int, l2.len() as int);
            &&& labels.len() == n1 + n2 + l3.len()
            &&& labels_read(labels.subrange(0, n1), l1, LabelType::Net, after_junctions(root, s))
            &&& labels_read(labels.subrange(n1, n1 + n2), l2, LabelType::Global, after_net_labels(root, s))
            &&& labels_read(labels.skip(n1 + n2), l3, LabelType::Hierarchical, after_global_labels(root, s))
        }),
{
    reveal(wiring_read);
}

/// Distinct label kinds are written under distinct keywords, but for
/// power labels, which are written as net labels.
pub proof fn lemma_label_keywords_distinct(a: LabelType, b: LabelType)
    ensures
        label_keyword(a) == label_keyword(b) ==> a == b || ((a is Net || a is Power) && (b is Net || b is Power)),
{
    reveal_strlit("label");
    reveal_strlit("global_label");
    reveal_strlit("hierarchical_label");
    assert("label"@.len() != "global_label"@.len());
    assert("label"@.len() != "hierarchical_label"@.len());
    assert("global_label"@.len() != "hierarchical_label"@.len());
}

} // verus!
