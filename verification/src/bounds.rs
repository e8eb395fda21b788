//! Axis-aligned bounding boxes and the extent of a schematic sheet's
//! content.

use vstd::prelude::*;

use crate::schematic::{Bus, ChildSheet, SchematicSheet, Wire};

verus! {

broadcast use vstd::std_specs::vec::group_vec_axioms;

/// The margin around a sheet's content: 10 mm, in nanometres.
pub const CONTENT_MARGIN_NM: i128 = 10_000_000;

/// An axis-aligned box in nanometres. Its corners are 128-bit: a corner
/// may lie a sheet size or a margin beyond a 64-bit coordinate.
#[derive(Debug, Clone, Copy, PartialEq, Eq, Structural)]
pub struct Aabb {
    pub min_x: i128,
    pub min_y: i128,
    pub max_x: i128,
    pub max_y: i128,
}

pub open spec fn min_i(a: i128, b: i128) -> i128 {
    if a <= b {
        a
    } else {
        b
    }
}

pub open spec fn max_i(a: i128, b: i128) -> i128 {
    if a >= b {
        a
    } else {
        b
    }
}

fn min128(a: i128, b: i128) -> (r: i128)
    ensures
        r == min_i(a, b),
{
    if a <= b {
        a
    } else {
        b
    }
}

fn max128(a: i128, b: i128) -> (r: i128)
    ensures
        r == max_i(a, b),
{
    if a >= b {
        a
    } else {
        b
    }
}

impl Aabb {
    /// The box with corners `(x1, y1)` and `(x2, y2)`, in either order.
    pub fn new(x1: i128, y1: i128, x2: i128, y2: i128) -> (r: Aabb)
        ensures
            r == (Aabb { min_x: min_i(x1, x2), min_y: min_i(y1, y2), max_x: max_i(x1, x2), max_y: max_i(y1, y2) }),
    {
        Aabb { min_x: min128(x1, x2), min_y: min128(y1, y2), max_x: max128(x1, x2), max_y: max128(y1, y2) }
    }

    pub open spec fn holds(self, x: int, y: int) -> bool {
        self.min_x <= x <= self.max_x && self.min_y <= y <= self.max_y
    }

    /// Whether `(x, y)` lies in the box, edges included.
    pub fn contains(&self, x: i128, y: i128) -> (r: bool)
        ensures
            r == self.holds(x as int, y as int),
    {
        x >= self.min_x && x <= self.max_x && y >= self.min_y && y <= self.max_y
    }

    pub open spec fn expanded(self, margin: int) -> Aabb {
        Aabb {
            min_x: (self.min_x - margin) as i128,
            min_y: (self.min_y - margin) as i128,
            max_x: (self.max_x + margin) as i128,
            max_y: (self.max_y + margin) as i128,
        }
    }

    pub open spec fn can_expand(self, margin: int) -> bool {
        &&& i128::MIN <= self.min_x - margin <= i128::MAX
        &&& i128::MIN <= self.min_y - margin <= i128::MAX
        &&& i128::MIN <= self.max_x + margin <= i128::MAX
        &&& i128::MIN <= self.max_y + margin <= i128::MAX
    }

    /// The box grown by `margin` on every side.
    pub fn expand(&self, margin: i128) -> (r: Aabb)
        requires
            self.can_expand(margin as int),
        ensures
            r == self.expanded(margin as int),
    {
        Aabb {
            min_x: self.min_x - margin,
            min_y: self.min_y - margin,
            max_x: self.max_x + margin,
            max_y: self.max_y + margin,
        }
    }

    /// The smallest box holding both.
    pub fn union(&self, other: &Aabb) -> (r: Aabb)
        ensures
            r == (Aabb {
                min_x: min_i(self.min_x, other.min_x),
                min_y: min_i(self.min_y, other.min_y),
                max_x: max_i(self.max_x, other.max_x),
                max_y: max_i(self.max_y, other.max_y),
            }),
    {
        Aabb {
            min_x: min128(self.min_x, other.min_x),
            min_y: min128(self.min_y, other.min_y),
            max_x: max128(self.max_x, other.max_x),
            max_y: max128(self.max_y, other.max_y),
        }
    }

    pub fn width(&self) -> (r: i128)
        requires
            i128::MIN <= self.max_x - self.min_x <= i128::MAX,
        ensures
            r == self.max_x - self.min_x,
    {
        self.max_x - self.min_x
    }

    pub fn height(&self) -> (r: i128)
        requires
            i128::MIN <= self.max_y - self.min_y <= i128::MAX,
        ensures
            r == self.max_y - self.min_y,
    {
        self.max_y - self.min_y
    }
}

/// `a` grown to hold `p`; the point alone where there is no box yet.
pub open spec fn grow(a: Option<Aabb>, p: (i128, i128)) -> Aabb {
    match a {
        Some(b) => Aabb {
            min_x: min_i(b.min_x, p.0),
            min_y: min_i(b.min_y, p.1),
            max_x: max_i(b.max_x, p.0),
            max_y: max_i(b.max_y, p.1),
        },
        None => Aabb { min_x: p.0, min_y: p.1, max_x: p.0, max_y: p.1 },
    }
}

/// The smallest box holding every point of `pts`; none for no points.
pub open spec fn bounds_of(pts: Seq<(i128, i128)>) -> Option<Aabb>
    decreases pts.len(),
{
    if pts.len() == 0 {
        None
    } else {
        Some(grow(bounds_of(pts.drop_last()), pts.last()))
    }
}

pub open spec fn point_of(p: crate::coord::Vec2) -> (i128, i128) {
    (p.x as i128, p.y as i128)
}

pub open spec fn wire_points(ws: Seq<Wire>) -> Seq<(i128, i128)>
    decreases ws.len(),
{
    if ws.len() == 0 {
        Seq::empty()
    } else {
        wire_points(ws.drop_last()) + seq![point_of(ws.last().start), point_of(ws.last().end)]
    }
}

pub open spec fn bus_points(bs: Seq<Bus>) -> Seq<(i128, i128)>
    decreases bs.len(),
{
    if bs.len() == 0 {
        Seq::empty()
    } else {
        bus_points(bs.drop_last()) + seq![point_of(bs.last().start), point_of(bs.last().end)]
    }
}

/// A child sheet's two corners: its position and the far corner.
pub open spec fn sheet_points(cs: Seq<ChildSheet>) -> Seq<(i128, i128)>
    decreases cs.len(),
{
    if cs.len() == 0 {
        Seq::empty()
    } else {
        let c = cs.last();
        sheet_points(cs.drop_last()) + seq![
            point_of(c.position),
            ((c.position.x + c.size.0) as i128, (c.position.y + c.size.1) as i128),
        ]
    }
}

/// The points that a sheet's content covers: symbol positions, wire and
/// bus ends, junctions, labels, no-connect flags, notes and child-sheet
/// corners.
pub open spec fn content_points(sh: SchematicSheet) -> Seq<(i128, i128)> {
    sh.symbols@.map_values(|s: crate::schematic::Symbol| point_of(s.position)) + wire_points(sh.wires@) + bus_points(
        sh.buses@,
    ) + sh.junctions@.map_values(|j: crate::schematic::Junction| point_of(j.position)) + sh.labels@.map_values(
        |l: crate::schematic::Label| point_of(l.position),
    ) + sh.no_connects@.map_values(|n: crate::schematic::NoConnect| point_of(n.position)) + sh.text_notes@.map_values(
        |t: crate::schematic::TextNote| point_of(t.position),
    ) + sheet_points(sh.child_sheets@)
}

fn grow_box(a: Option<Aabb>, p: (i128, i128)) -> (r: Aabb)
    ensures
        r == grow(a, p),
{
    match a {
        Some(b) => Aabb {
            min_x: min128(b.min_x, p.0),
            min_y: min128(b.min_y, p.1),
            max_x: max128(b.max_x, p.0),
            max_y: max128(b.max_y, p.1),
        },
        None => Aabb { min_x: p.0, min_y: p.1, max_x: p.0, max_y: p.1 },
    }
}

fn push_symbol_points(pts: &mut Vec<(i128, i128)>, v: &Vec<crate::schematic::Symbol>)
    ensures
        final(pts)@ == old(pts)@ + v@.map_values(|e: crate::schematic::Symbol| point_of(e.position)),
{
    let ghost start = pts@;
    let mut i: usize = 0;
    while i < v.len()
        invariant
            i <= v@.len(),
            pts@ == start + v@.take(i as int).map_values(|e: crate::schematic::Symbol| point_of(e.position)),
        decreases v.len() - i,
    {
        pts.push((v[i].position.x as i128, v[i].position.y as i128));
        assert(v@.take(i + 1).map_values(|e: crate::schematic::Symbol| point_of(e.position)) =~= v@.take(i as int).map_values(
            |e: crate::schematic::Symbol| point_of(e.position),
        ).push(point_of(v@[i as int].position)));
        i += 1;
    }
    assert(v@.take(i as int) =~= v@);
}

fn push_junction_points(pts: &mut Vec<(i128, i128)>, v: &Vec<crate::schematic::Junction>)
    ensures
        final(pts)@ == old(pts)@ + v@.map_values(|e: crate::schematic::Junction| point_of(e.position)),
{
    let ghost start = pts@;
    let mut i: usize = 0;
    while i < v.len()
        invariant
            i <= v@.len(),
            pts@ == start + v@.take(i as int).map_values(|e: crate::schematic::Junction| point_of(e.position)),
        decreases v.len() - i,
    {
        pts.push((v[i].position.x as i128, v[i].position.y as i128));
        assert(v@.take(i + 1).map_values(|e: crate::schematic::Junction| point_of(e.position)) =~= v@.take(i as int).map_values(
            |e: crate::schematic::Junction| point_of(e.position),
        ).push(point_of(v@[i as int].position)));
        i += 1;
    }
    assert(v@.take(i as int) =~= v@);
}

fn push_label_points(pts: &mut Vec<(i128, i128)>, v: &Vec<crate::schematic::Label>)
    ensures
        final(pts)@ == old(pts)@ + v@.map_values(|e: crate::schematic::Label| point_of(e.position)),
{
    let ghost start = pts@;
    let mut i: usize = 0;
    while i < v.len()
        invariant
            i <= v@.len(),
            pts@ == start + v@.take(i as int).map_values(|e: crate::schematic::Label| point_of(e.position)),
        decreases v.len() - i,
    {
        pts.push((v[i].position.x as i128, v[i].position.y as i128));
        assert(v@.take(i + 1).map_values(|e: crate::schematic::Label| point_of(e.position)) =~= v@.take(i as int).map_values(
            |e: crate::schematic::Label| point_of(e.position),
        ).push(point_of(v@[i as int].position)));
        i += 1;
    }
    assert(v@.take(i as int) =~= v@);
}

fn push_no_connect_points(pts: &mut Vec<(i128, i128)>, v: &Vec<crate::schematic::NoConnect>)
    ensures
        final(pts)@ == old(pts)@ + v@.map_values(|e: crate::schematic::NoConnect| point_of(e.position)),
{
    let ghost start = pts@;
    let mut i: usize = 0;
    while i < v.len()
        invariant
            i <= v@.len(),
            pts@ == start + v@.take(i as int).map_values(|e: crate::schematic::NoConnect| point_of(e.position)),
        decreases v.len() - i,
    {
        pts.push((v[i].position.x as i128, v[i].position.y as i128));
        assert(v@.take(i + 1).map_values(|e: crate::schematic::NoConnect| point_of(e.position)) =~= v@.take(i as int).map_values(
            |e: crate::schematic::NoConnect| point_of(e.position),
        ).push(point_of(v@[i as int].position)));
        i += 1;
    }
    assert(v@.take(i as int) =~= v@);
}

fn push_note_points(pts: &mut Vec<(i128, i128)>, v: &Vec<crate::schematic::TextNote>)
    ensures
        final(pts)@ == old(pts)@ + v@.map_values(|e: crate::schematic::TextNote| point_of(e.position)),
{
    let ghost start = pts@;
    let mut i: usize = 0;
    while i < v.len()
        invariant
            i <= v@.len(),
            pts@ == start + v@.take(i as int).map_values(|e: crate::schematic::TextNote| point_of(e.position)),
        decreases v.len() - i,
    {
        pts.push((v[i].position.x as i128, v[i].position.y as i128));
        assert(v@.take(i + 1).map_values(|e: crate::schematic::TextNote| point_of(e.position)) =~= v@.take(i as int).map_values(
            |e: crate::schematic::TextNote| point_of(e.position),
        ).push(point_of(v@[i as int].position)));
        i += 1;
    }
    assert(v@.take(i as int) =~= v@);
}

fn push_wire_points(pts: &mut Vec<(i128, i128)>, v: &Vec<Wire>)
    ensures
        final(pts)@ == old(pts)@ + wire_points(v@),
{
    let ghost start = pts@;
    let mut i: usize = 0;
    while i < v.len()
        invariant
            i <= v@.len(),
            pts@ == start + wire_points(v@.take(i as int)),
        decreases v.len() - i,
    {
        assert(v@.take(i + 1).drop_last() =~= v@.take(i as int));
        pts.push((v[i].start.x as i128, v[i].start.y as i128));
        pts.push((v[i].end.x as i128, v[i].end.y as i128));
        i += 1;
    }
    assert(v@.take(i as int) =~= v@);
}

fn push_bus_points(pts: &mut Vec<(i128, i128)>, v: &Vec<Bus>)
    ensures
        final(pts)@ == old(pts)@ + bus_points(v@),
{
    let ghost start = pts@;
    let mut i: usize = 0;
    while i < v.len()
        invariant
            i <= v@.len(),
            pts@ == start + bus_points(v@.take(i as int)),
        decreases v.len() - i,
    {
        assert(v@.take(i + 1).drop_last() =~= v@.take(i as int));
        pts.push((v[i].start.x as i128, v[i].start.y as i128));
        pts.push((v[i].end.x as i128, v[i].end.y as i128));
        i += 1;
    }
    assert(v@.take(i as int) =~= v@);
}

fn push_sheet_points(pts: &mut Vec<(i128, i128)>, v: &Vec<ChildSheet>)
    ensures
        final(pts)@ == old(pts)@ + sheet_points(v@),
{
    let ghost start = pts@;
    let mut i: usize = 0;
    while i < v.len()
        invariant
            i <= v@.len(),
            pts@ == start + sheet_points(v@.take(i as int)),
        decreases v.len() - i,
    {
        assert(v@.take(i + 1).drop_last() =~= v@.take(i as int));
        pts.push((v[i].position.x as i128, v[i].position.y as i128));
        pts.push((v[i].position.x as i128 + v[i].size.0 as i128, v[i].position.y as i128 + v[i].size.1 as i128));
        i += 1;
    }
    assert(v@.take(i as int) =~= v@);
}

fn content_point_list(sh: &SchematicSheet) -> (r: Vec<(i128, i128)>)
    ensures
        r@ == content_points(*sh),
{
    let mut pts: Vec<(i128, i128)> = Vec::new();
    push_symbol_points(&mut pts, &sh.symbols);
    push_wire_points(&mut pts, &sh.wires);
    push_bus_points(&mut pts, &sh.buses);
    push_junction_points(&mut pts, &sh.junctions);
    push_label_points(&mut pts, &sh.labels);
    push_no_connect_points(&mut pts, &sh.no_connects);
    push_note_points(&mut pts, &sh.text_notes);
    push_sheet_points(&mut pts, &sh.child_sheets);
    assert(pts@ =~= content_points(*sh));
    pts
}

fn bounds_of_points(pts: &Vec<(i128, i128)>) -> (r: Option<Aabb>)
    ensures
        r == bounds_of(pts@),
{
    let mut acc: Option<Aabb> = None;
    let mut i: usize = 0;
    while i < pts.len()
        invariant
            i <= pts@.len(),
            acc == bounds_of(pts@.take(i as int)),
        decreases pts.len() - i,
    {
        assert(pts@.take(i + 1).drop_last() =~= pts@.take(i as int));
        acc = Some(grow_box(acc, pts[i]));
        i += 1;
    }
    assert(pts@.take(i as int) =~= pts@);
    acc
}

/// The box of `pts` holds every point, and each of its edges passes
/// through one; there is a box exactly when there are points.
pub proof fn lemma_bounds_tight(pts: Seq<(i128, i128)>)
    ensures
        bounds_of(pts) is None <==> pts.len() == 0,
        bounds_of(pts) matches Some(a) ==> {
            &&& forall|i: int| 0 <= i < pts.len() ==> a.holds(#[trigger] pts[i].0 as int, pts[i].1 as int)
            &&& exists|i: int| 0 <= i < pts.len() && #[trigger] pts[i].0 == a.min_x
            &&& exists|i: int| 0 <= i < pts.len() && #[trigger] pts[i].1 == a.min_y
            &&& exists|i: int| 0 <= i < pts.len() && #[trigger] pts[i].0 == a.max_x
            &&& exists|i: int| 0 <= i < pts.len() && #[trigger] pts[i].1 == a.max_y
        },
    decreases pts.len(),
{
    if pts.len() > 0 {
        let q = pts.drop_last();
        lemma_bounds_tight(q);
        assert forall|i: int| 0 <= i < pts.len() - 1 implies pts[i] == #[trigger] q[i] by {}
        let n = pts.len() - 1;
        let a = bounds_of(pts)->0;
        if let Some(b) = bounds_of(q) {
            if a.min_x != pts[n].0 {
                let w = choose|i: int| 0 <= i < q.len() && #[trigger] q[i].0 == b.min_x;
                assert(pts[w].0 == a.min_x);
            }
            if a.min_y != pts[n].1 {
                let w = choose|i: int| 0 <= i < q.len() && #[trigger] q[i].1 == b.min_y;
                assert(pts[w].1 == a.min_y);
            }
            if a.max_x != pts[n].0 {
                let w = choose|i: int| 0 <= i < q.len() && #[trigger] q[i].0 == b.max_x;
                assert(pts[w].0 == a.max_x);
            }
            if a.max_y != pts[n].1 {
                let w = choose|i: int| 0 <= i < q.len() && #[trigger] q[i].1 == b.max_y;
                assert(pts[w].1 == a.max_y);
            }
            assert forall|i: int| 0 <= i < pts.len() implies a.holds(#[trigger] pts[i].0 as int, pts[i].1 as int) by {
                if i < n {
                    assert(b.holds(q[i].0 as int, q[i].1 as int));
                }
            }
        }
        assert(pts[n].0 == pts[n].0);
        assert(pts[n].1 == pts[n].1);
    }
}

/// Every point of a sheet's content lies within its content bounds, at
/// least the margin inside each edge, and a sheet has bounds exactly when
/// it has content.
pub proof fn lemma_content_within_bounds(sh: SchematicSheet)
    ensures
        bounds_of(content_points(sh)) is None <==> content_points(sh).len() == 0,
        bounds_of(content_points(sh)) matches Some(a) ==> forall|i: int|
            0 <= i < content_points(sh).len() ==> {
                let p = #[trigger] content_points(sh)[i];
                &&& a.expanded(CONTENT_MARGIN_NM as int).min_x + CONTENT_MARGIN_NM <= p.0
                &&& p.0 + CONTENT_MARGIN_NM <= a.expanded(CONTENT_MARGIN_NM as int).max_x
                &&& a.expanded(CONTENT_MARGIN_NM as int).min_y + CONTENT_MARGIN_NM <= p.1
                &&& p.1 + CONTENT_MARGIN_NM <= a.expanded(CONTENT_MARGIN_NM as int).max_y
            },
{
    let pts = content_points(sh);
    lemma_bounds_tight(pts);
    lemma_points_small(sh);
    lemma_bounds_corners(pts);
    if let Some(a) = bounds_of(pts) {
        assert forall|i: int| 0 <= i < pts.len() implies {
            let p = #[trigger] pts[i];
            &&& a.expanded(CONTENT_MARGIN_NM as int).min_x + CONTENT_MARGIN_NM <= p.0
            &&& p.0 + CONTENT_MARGIN_NM <= a.expanded(CONTENT_MARGIN_NM as int).max_x
            &&& a.expanded(CONTENT_MARGIN_NM as int).min_y + CONTENT_MARGIN_NM <= p.1
            &&& p.1 + CONTENT_MARGIN_NM <= a.expanded(CONTENT_MARGIN_NM as int).max_y
        } by {
            assert(a.holds(pts[i].0 as int, pts[i].1 as int));
        }
    }
}

pub open spec fn small(p: (i128, i128)) -> bool {
    -0x1_0000_0000_0000_0000 <= p.0 <= 0x1_0000_0000_0000_0000 && -0x1_0000_0000_0000_0000 <= p.1
        <= 0x1_0000_0000_0000_0000
}

pub open spec fn all_small(pts: Seq<(i128, i128)>) -> bool {
    forall|i: int| 0 <= i < pts.len() ==> small(#[trigger] pts[i])
}

proof fn lemma_concat_small(a: Seq<(i128, i128)>, b: Seq<(i128, i128)>)
    requires
        all_small(a),
        all_small(b),
    ensures
        all_small(a + b),
{
    assert forall|i: int| 0 <= i < (a + b).len() implies small(#[trigger] (a + b)[i]) by {
        if i < a.len() {
            assert((a + b)[i] == a[i]);
        } else {
            assert((a + b)[i] == b[i - a.len()]);
        }
    }
}

proof fn lemma_wire_points_small(ws: Seq<Wire>)
    ensures
        all_small(wire_points(ws)),
    decreases ws.len(),
{
    if ws.len() > 0 {
        lemma_wire_points_small(ws.drop_last());
        lemma_concat_small(wire_points(ws.drop_last()), seq![point_of(ws.last().start), point_of(ws.last().end)]);
    }
}

proof fn lemma_bus_points_small(bs: Seq<Bus>)
    ensures
        all_small(bus_points(bs)),
    decreases bs.len(),
{
    if bs.len() > 0 {
        lemma_bus_points_small(bs.drop_last());
        lemma_concat_small(bus_points(bs.drop_last()), seq![point_of(bs.last().start), point_of(bs.last().end)]);
    }
}

proof fn lemma_sheet_points_small(cs: Seq<ChildSheet>)
    ensures
        all_small(sheet_points(cs)),
    decreases cs.len(),
{
    if cs.len() > 0 {
        let c = cs.last();
        lemma_sheet_points_small(cs.drop_last());
        lemma_concat_small(
            sheet_points(cs.drop_last()),
            seq![
                point_of(c.position),
                ((c.position.x + c.size.0) as i128, (c.position.y + c.size.1) as i128),
            ],
        );
    }
}

/// Content of 64-bit coordinates keeps a 128-bit box clear of overflow.
proof fn lemma_points_small(sh: SchematicSheet)
    ensures
        all_small(content_points(sh)),
{
    let s1 = sh.symbols@.map_values(|s: crate::schematic::Symbol| point_of(s.position));
    let s4 = sh.junctions@.map_values(|j: crate::schematic::Junction| point_of(j.position));
    let s5 = sh.labels@.map_values(|l: crate::schematic::Label| point_of(l.position));
    let s6 = sh.no_connects@.map_values(|n: crate::schematic::NoConnect| point_of(n.position));
    let s7 = sh.text_notes@.map_values(|t: crate::schematic::TextNote| point_of(t.position));
    assert(all_small(s1));
    assert(all_small(s4));
    assert(all_small(s5));
    assert(all_small(s6));
    assert(all_small(s7));
    lemma_wire_points_small(sh.wires@);
    lemma_bus_points_small(sh.buses@);
    lemma_sheet_points_small(sh.child_sheets@);
    lemma_concat_small(s1, wire_points(sh.wires@));
    lemma_concat_small(s1 + wire_points(sh.wires@), bus_points(sh.buses@));
    lemma_concat_small(s1 + wire_points(sh.wires@) + bus_points(sh.buses@), s4);
    lemma_concat_small(s1 + wire_points(sh.wires@) + bus_points(sh.buses@) + s4, s5);
    lemma_concat_small(s1 + wire_points(sh.wires@) + bus_points(sh.buses@) + s4 + s5, s6);
    lemma_concat_small(s1 + wire_points(sh.wires@) + bus_points(sh.buses@) + s4 + s5 + s6, s7);
    lemma_concat_small(
        s1 + wire_points(sh.wires@) + bus_points(sh.buses@) + s4 + s5 + s6 + s7,
        sheet_points(sh.child_sheets@),
    );
}

/// The corners of the box of small points are small.
proof fn lemma_bounds_corners(pts: Seq<(i128, i128)>)
    requires
        all_small(pts),
    ensures
        bounds_of(pts) matches Some(a) ==> small((a.min_x, a.min_y)) && small((a.max_x, a.max_y)),
    decreases pts.len(),
{
    if pts.len() > 0 {
        assert(all_small(pts.drop_last())) by {
            assert forall|i: int| 0 <= i < pts.len() - 1 implies small(#[trigger] pts.drop_last()[i]) by {
                assert(pts.drop_last()[i] == pts[i]);
            }
        }
        lemma_bounds_corners(pts.drop_last());
        assert(small(pts[pts.len() - 1]));
    }
}

impl SchematicSheet {
    /// The box holding all of the sheet's content with a margin of 10 mm
    /// around it; none for a sheet with no content.
    pub fn content_bounds(&self) -> (r: Option<Aabb>)
        ensures
            r == match bounds_of(content_points(*self)) {
                Some(a) => Some(a.expanded(CONTENT_MARGIN_NM as int)),
                None => None,
            },
    {
        let pts = content_point_list(self);
        match bounds_of_points(&pts) {
            Some(a) => {
                proof {
                    lemma_points_small(*self);
                    lemma_bounds_corners(content_points(*self));
                }
                Some(a.expand(CONTENT_MARGIN_NM))
            },
            None => None,
        }
    }
}

} // verus!
