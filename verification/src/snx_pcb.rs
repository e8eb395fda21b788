//! The native board file's envelope and the per-footprint and per-pad
//! fields that its tables do not carry.

use vstd::prelude::*;

use crate::coord::Vec2;
use crate::kicad_pcb::{prop_view, props_view, uuid_hyphenated, uuid_text};
use crate::pcb::{FpGraphic, Footprint, Pad, PcbBoard, PcbProperty};
use crate::snx::SNXPCB_FORMAT_V1;

verus! {

broadcast use vstd::std_specs::vec::group_vec_axioms;

/// A board ready to be written as `.snxpcb`, with the format version it
/// is written under.
#[derive(Debug, Clone)]
pub struct SnxPcb {
    pub format: String,
    pub board: PcbBoard,
}

impl SnxPcb {
    /// Wraps a board for writing as the current format version.
    pub fn new(board: PcbBoard) -> (r: SnxPcb)
        ensures
            r.format@ == SNXPCB_FORMAT_V1@,
            r.board == board,
    {
        SnxPcb { format: SNXPCB_FORMAT_V1.to_owned(), board }
    }
}

/// Two drawings agree field by field.
pub open spec fn same_graphic(a: FpGraphic, b: FpGraphic) -> bool {
    &&& a.graphic_type@ == b.graphic_type@
    &&& a.layer@ == b.layer@
    &&& a.width == b.width
    &&& a.start == b.start
    &&& a.end == b.end
    &&& a.center == b.center
    &&& a.mid == b.mid
    &&& a.radius == b.radius
    &&& a.points@ == b.points@
    &&& a.text@ == b.text@
    &&& a.font_size == b.font_size
    &&& a.position == b.position
    &&& a.rotation == b.rotation
    &&& a.fill@ == b.fill@
}

fn copy_points(v: &Vec<Vec2>) -> (r: Vec<Vec2>)
    ensures
        r@ == v@,
{
    let mut r: Vec<Vec2> = Vec::new();
    let mut i: usize = 0;
    while i < v.len()
        invariant
            i <= v@.len(),
            r@ == v@.take(i as int),
        decreases v.len() - i,
    {
        r.push(v[i]);
        assert(v@.take(i + 1) =~= v@.take(i as int).push(v@[i as int]));
        i += 1;
    }
    assert(v@.take(i as int) =~= v@);
    r
}

fn copy_graphic(g: &FpGraphic) -> (r: FpGraphic)
    ensures
        same_graphic(r, *g),
{
    FpGraphic {
        graphic_type: g.graphic_type.clone(),
        layer: g.layer.clone(),
        width: g.width,
        start: g.start,
        end: g.end,
        center: g.center,
        mid: g.mid,
        radius: g.radius,
        points: copy_points(&g.points),
        text: g.text.clone(),
        font_size: g.font_size,
        position: g.position,
        rotation: g.rotation,
        fill: g.fill.clone(),
    }
}

fn copy_property(p: &PcbProperty) -> (r: PcbProperty)
    ensures
        prop_view(r) == prop_view(*p),
{
    PcbProperty {
        key: p.key.clone(),
        value: p.value.clone(),
        position: p.position,
        rotation: p.rotation,
        layer: match &p.layer {
            Some(l) => Some(l.clone()),
            None => None,
        },
        font_size: p.font_size,
        hidden: p.hidden,
    }
}

/// What a footprint keeps beyond its table row: library id, lock,
/// drawings and properties.
#[derive(Debug, Clone)]
pub struct FootprintExtras {
    pub footprint_id: String,
    pub locked: bool,
    pub graphics: Vec<FpGraphic>,
    pub properties: Vec<PcbProperty>,
}

impl FootprintExtras {
    /// Nothing to keep: no id, not locked, no drawing, no property.
    pub fn is_default(&self) -> (b: bool)
        ensures
            b == (self.footprint_id@.len() == 0 && !self.locked && self.graphics@.len() == 0
                && self.properties@.len() == 0),
    {
        self.footprint_id.as_str().is_empty() && !self.locked && self.graphics.len() == 0
            && self.properties.len() == 0
    }

    /// The extra fields of `fp`.
    pub fn from_footprint(fp: &Footprint) -> (e: FootprintExtras)
        ensures
            e.footprint_id@ == fp.footprint_id@,
            e.locked == fp.locked,
            e.graphics@.len() == fp.graphics@.len(),
            forall|i: int| 0 <= i < fp.graphics@.len() ==> same_graphic(#[trigger] e.graphics@[i], fp.graphics@[i]),
            props_view(e.properties@) == props_view(fp.properties@),
    {
        let mut graphics: Vec<FpGraphic> = Vec::new();
        let mut i: usize = 0;
        while i < fp.graphics.len()
            invariant
                i <= fp.graphics@.len(),
                graphics@.len() == i,
                forall|j: int| 0 <= j < i ==> same_graphic(#[trigger] graphics@[j], fp.graphics@[j]),
            decreases fp.graphics.len() - i,
        {
            graphics.push(copy_graphic(&fp.graphics[i]));
            i += 1;
        }
        let mut properties: Vec<PcbProperty> = Vec::new();
        let mut k: usize = 0;
        while k < fp.properties.len()
            invariant
                k <= fp.properties@.len(),
                props_view(properties@) == props_view(fp.properties@.take(k as int)),
            decreases fp.properties.len() - k,
        {
            let ghost before = properties@;
            properties.push(copy_property(&fp.properties[k]));
            assert(props_view(properties@) =~= props_view(before).push(prop_view(fp.properties@[k as int])));
            assert(props_view(fp.properties@.take(k + 1)) =~= props_view(fp.properties@.take(k as int)).push(
                prop_view(fp.properties@[k as int]),
            ));
            k += 1;
        }
        assert(fp.properties@.take(k as int) =~= fp.properties@);
        FootprintExtras {
            footprint_id: fp.footprint_id.clone(),
            locked: fp.locked,
            graphics,
            properties,
        }
    }
}

/// What a pad keeps beyond its table row: the drill's shape.
#[derive(Debug, Clone, PartialEq, Eq)]
pub struct PadExtras {
    pub drill_shape: String,
}

impl PadExtras {
    /// Nothing to keep: a round drill or none.
    pub fn is_default(&self) -> (b: bool)
        ensures
            b == (self.drill_shape@.len() == 0),
    {
        self.drill_shape.as_str().is_empty()
    }

    /// The drill shape of `pad`, empty when it has no drill.
    pub fn from_pad(pad: &Pad) -> (e: PadExtras)
        ensures
            e.drill_shape@ == match pad.drill {
                Some(d) => d.shape@,
                None => Seq::empty(),
            },
    {
        match &pad.drill {
            Some(d) => PadExtras { drill_shape: d.shape.clone() },
            None => PadExtras { drill_shape: String::new() },
        }
    }
}

// ---------------------------------------------------------------------------
// A board's extras
// ---------------------------------------------------------------------------

/// A footprint has nothing beyond its row.
pub open spec fn footprint_plain(fp: Footprint) -> bool {
    fp.footprint_id@.len() == 0 && !fp.locked && fp.graphics@.len() == 0 && fp.properties@.len() == 0
}

/// A pad has nothing beyond its row: no drill, or a drill of no shape.
pub open spec fn pad_plain(p: Pad) -> bool {
    match p.drill {
        Some(d) => d.shape@.len() == 0,
        None => true,
    }
}

/// The footprints that keep something beyond their rows, in board order.
pub open spec fn fps_with_extras(fps: Seq<Footprint>) -> Seq<Footprint>
    decreases fps.len(),
{
    if fps.len() == 0 {
        Seq::empty()
    } else {
        let r = fps_with_extras(fps.drop_last());
        if footprint_plain(fps.last()) {
            r
        } else {
            r.push(fps.last())
        }
    }
}

/// The pads of `pads` that keep something beyond their rows, in order.
pub open spec fn pads_with_extras(pads: Seq<Pad>) -> Seq<Pad>
    decreases pads.len(),
{
    if pads.len() == 0 {
        Seq::empty()
    } else {
        let r = pads_with_extras(pads.drop_last());
        if pad_plain(pads.last()) {
            r
        } else {
            r.push(pads.last())
        }
    }
}

/// Every pad of a board's footprints, footprint by footprint.
pub open spec fn board_pads(fps: Seq<Footprint>) -> Seq<Pad>
    decreases fps.len(),
{
    if fps.len() == 0 {
        Seq::empty()
    } else {
        board_pads(fps.drop_last()) + fps.last().pads@
    }
}

/// `e` holds what `fp` keeps beyond its row.
pub open spec fn footprint_extras_of(e: FootprintExtras, fp: Footprint) -> bool {
    &&& e.footprint_id@ == fp.footprint_id@
    &&& e.locked == fp.locked
    &&& e.graphics@.len() == fp.graphics@.len()
    &&& forall|i: int| 0 <= i < fp.graphics@.len() ==> same_graphic(#[trigger] e.graphics@[i], fp.graphics@[i])
    &&& props_view(e.properties@) == props_view(fp.properties@)
}

/// No key occurs twice.
pub open spec fn keys_distinct<T>(v: Seq<(String, T)>) -> bool {
    forall|i: int, j: int| 0 <= i < j < v.len() ==> #[trigger] v[i].0@ != #[trigger] v[j].0@
}

/// Some entry has key `k`.
pub open spec fn has_entry<T>(v: Seq<(String, T)>, k: Seq<char>) -> bool {
    exists|i: int| 0 <= i < v.len() && (#[trigger] v[i]).0@ == k
}

/// The last footprint of `fs` whose UUID text is `k`.
pub open spec fn last_keyed_fp(fs: Seq<Footprint>, k: Seq<char>) -> Option<Footprint>
    decreases fs.len(),
{
    if fs.len() == 0 {
        None
    } else if uuid_hyphenated(fs.last().uuid as int) == k {
        Some(fs.last())
    } else {
        last_keyed_fp(fs.drop_last(), k)
    }
}

/// The last pad of `ps` whose UUID text is `k`.
pub open spec fn last_keyed_pad(ps: Seq<Pad>, k: Seq<char>) -> Option<Pad>
    decreases ps.len(),
{
    if ps.len() == 0 {
        None
    } else if uuid_hyphenated(ps.last().uuid as int) == k {
        Some(ps.last())
    } else {
        last_keyed_pad(ps.drop_last(), k)
    }
}

/// `e` holds what pad `p` keeps beyond its row: the drill's shape.
pub open spec fn pad_extras_of(e: PadExtras, p: Pad) -> bool {
    e.drill_shape@ == match p.drill {
        Some(d) => d.shape@,
        None => Seq::empty(),
    }
}

/// The footprint entries of `v` stand for the footprints `fs`, keyed by
/// UUID text: no key twice, every footprint's key present, and each entry
/// the extras of the last footprint of its key (a later one replaces an
/// earlier one, as in a map).
pub open spec fn fp_entries(v: Seq<(String, FootprintExtras)>, fs: Seq<Footprint>) -> bool {
    &&& keys_distinct(v)
    &&& forall|k: int| 0 <= k < v.len() ==> (last_keyed_fp(fs, (#[trigger] v[k]).0@) matches Some(f)
        && footprint_extras_of(v[k].1, f))
    &&& forall|i: int| 0 <= i < fs.len() ==> has_entry(v, uuid_hyphenated((#[trigger] fs[i]).uuid as int))
}

/// The pad entries of `v` stand for the pads `ps`, in the same way.
pub open spec fn pad_entries(v: Seq<(String, PadExtras)>, ps: Seq<Pad>) -> bool {
    &&& keys_distinct(v)
    &&& forall|k: int| 0 <= k < v.len() ==> (last_keyed_pad(ps, (#[trigger] v[k]).0@) matches Some(p)
        && pad_extras_of(v[k].1, p))
    &&& forall|i: int| 0 <= i < ps.len() ==> has_entry(v, uuid_hyphenated((#[trigger] ps[i]).uuid as int))
}

/// Where key `key` stands in `v`, if anywhere.
fn find_key<T>(v: &Vec<(String, T)>, key: &str) -> (r: Option<usize>)
    ensures
        match r {
            Some(p) => p < v@.len() && v@[p as int].0@ == key@,
            None => !has_entry(v@, key@),
        },
{
    let mut i: usize = 0;
    while i < v.len()
        invariant
            i <= v@.len(),
            forall|j: int| 0 <= j < i ==> (#[trigger] v@[j]).0@ != key@,
        decreases v.len() - i,
    {
        if crate::text::str_eq(v[i].0.as_str(), key) {
            return Some(i);
        }
        i += 1;
    }
    None
}

/// Puts `val` under `key`: replaces the value of an entry with that key,
/// or appends a new entry.
fn put_entry<T>(v: &mut Vec<(String, T)>, key: String, val: T)
    requires
        keys_distinct(old(v)@),
    ensures
        keys_distinct(final(v)@),
        has_entry(final(v)@, key@),
        forall|q: int| 0 <= q < final(v)@.len() ==> (#[trigger] final(v)@[q]).0@ == key@ ==> final(v)@[q].1 == val,
        forall|q: int|
            0 <= q < final(v)@.len() && (#[trigger] final(v)@[q]).0@ != key@ ==> exists|p: int|
                0 <= p < old(v)@.len() && old(v)@[p] == final(v)@[q],
        forall|p: int| 0 <= p < old(v)@.len() ==> has_entry(final(v)@, (#[trigger] old(v)@[p]).0@),
{
    match find_key(v, key.as_str()) {
        Some(p) => {
            let ghost before = v@;
            v.set(p, (key, val));
            assert forall|q: int| 0 <= q < v@.len() && (#[trigger] v@[q]).0@ != key@ implies exists|p2: int|
                0 <= p2 < before.len() && before[p2] == v@[q] by {
                assert(before[q] == v@[q]);
            }
            assert forall|p2: int| 0 <= p2 < before.len() implies has_entry(v@, (#[trigger] before[p2]).0@) by {
                assert(v@[p2].0@ == before[p2].0@);
            }
            assert(v@[p as int].0@ == key@);
        },
        None => {
            let ghost before = v@;
            v.push((key, val));
            assert forall|q: int| 0 <= q < v@.len() && (#[trigger] v@[q]).0@ != key@ implies exists|p2: int|
                0 <= p2 < before.len() && before[p2] == v@[q] by {
                assert(before[q] == v@[q]);
            }
            assert forall|p2: int| 0 <= p2 < before.len() implies has_entry(v@, (#[trigger] before[p2]).0@) by {
                assert(v@[p2] == before[p2]);
            }
            assert(v@[before.len() as int].0@ == key@);
        },
    }
}

proof fn lemma_fp_entries_put(old_v: Seq<(String, FootprintExtras)>, new_v: Seq<(String, FootprintExtras)>, fs: Seq<Footprint>, f: Footprint, e: FootprintExtras)
    requires
        fp_entries(old_v, fs),
        footprint_extras_of(e, f),
        keys_distinct(new_v),
        has_entry(new_v, uuid_hyphenated(f.uuid as int)),
        forall|q: int| 0 <= q < new_v.len() ==> (#[trigger] new_v[q]).0@ == uuid_hyphenated(f.uuid as int) ==> new_v[q].1 == e,
        forall|q: int|
            0 <= q < new_v.len() && (#[trigger] new_v[q]).0@ != uuid_hyphenated(f.uuid as int) ==> exists|p: int|
                0 <= p < old_v.len() && old_v[p] == new_v[q],
        forall|p: int| 0 <= p < old_v.len() ==> has_entry(new_v, (#[trigger] old_v[p]).0@),
    ensures
        fp_entries(new_v, fs.push(f)),
{
    let fs2 = fs.push(f);
    assert(fs2.drop_last() =~= fs);
    assert forall|k: int| 0 <= k < new_v.len() implies (last_keyed_fp(fs2, (#[trigger] new_v[k]).0@) matches Some(g)
        && footprint_extras_of(new_v[k].1, g)) by {
        if new_v[k].0@ != uuid_hyphenated(f.uuid as int) {
            let p = choose|p: int| 0 <= p < old_v.len() && old_v[p] == new_v[k];
            assert(last_keyed_fp(fs, old_v[p].0@) matches Some(g) && footprint_extras_of(old_v[p].1, g));
        }
    }
    assert forall|i: int| 0 <= i < fs2.len() implies has_entry(new_v, uuid_hyphenated((#[trigger] fs2[i]).uuid as int)) by {
        if i < fs.len() {
            assert(fs2[i] == fs[i]);
            assert(has_entry(old_v, uuid_hyphenated(fs[i].uuid as int)));
            let p = choose|p: int| 0 <= p < old_v.len() && (#[trigger] old_v[p]).0@ == uuid_hyphenated(fs[i].uuid as int);
            assert(has_entry(new_v, old_v[p].0@));
        }
    }
}

proof fn lemma_pad_entries_put(old_v: Seq<(String, PadExtras)>, new_v: Seq<(String, PadExtras)>, ps: Seq<Pad>, p0: Pad, e: PadExtras)
    requires
        pad_entries(old_v, ps),
        pad_extras_of(e, p0),
        keys_distinct(new_v),
        has_entry(new_v, uuid_hyphenated(p0.uuid as int)),
        forall|q: int| 0 <= q < new_v.len() ==> (#[trigger] new_v[q]).0@ == uuid_hyphenated(p0.uuid as int) ==> new_v[q].1 == e,
        forall|q: int|
            0 <= q < new_v.len() && (#[trigger] new_v[q]).0@ != uuid_hyphenated(p0.uuid as int) ==> exists|p: int|
                0 <= p < old_v.len() && old_v[p] == new_v[q],
        forall|p: int| 0 <= p < old_v.len() ==> has_entry(new_v, (#[trigger] old_v[p]).0@),
    ensures
        pad_entries(new_v, ps.push(p0)),
{
    let ps2 = ps.push(p0);
    assert(ps2.drop_last() =~= ps);
    assert forall|k: int| 0 <= k < new_v.len() implies (last_keyed_pad(ps2, (#[trigger] new_v[k]).0@) matches Some(g)
        && pad_extras_of(new_v[k].1, g)) by {
        if new_v[k].0@ != uuid_hyphenated(p0.uuid as int) {
            let p = choose|p: int| 0 <= p < old_v.len() && old_v[p] == new_v[k];
            assert(last_keyed_pad(ps, old_v[p].0@) matches Some(g) && pad_extras_of(old_v[p].1, g));
        }
    }
    assert forall|i: int| 0 <= i < ps2.len() implies has_entry(new_v, uuid_hyphenated((#[trigger] ps2[i]).uuid as int)) by {
        if i < ps.len() {
            assert(ps2[i] == ps[i]);
            assert(has_entry(old_v, uuid_hyphenated(ps[i].uuid as int)));
            let p = choose|p: int| 0 <= p < old_v.len() && (#[trigger] old_v[p]).0@ == uuid_hyphenated(ps[i].uuid as int);
            assert(has_entry(new_v, old_v[p].0@));
        }
    }
}

/// What a board keeps beyond its tables, keyed by UUID text: the extras
/// of each footprint and each pad that has any, one entry per key (the
/// last footprint or pad of a key wins), in the order keys first occur.
pub struct PcbExtras {
    pub footprints: Vec<(String, FootprintExtras)>,
    pub pads: Vec<(String, PadExtras)>,
}

impl PcbExtras {
    pub fn from_board(board: &PcbBoard) -> (r: PcbExtras)
        ensures
            fp_entries(r.footprints@, fps_with_extras(board.footprints@)),
            pad_entries(r.pads@, pads_with_extras(board_pads(board.footprints@))),
    {
        let fps = &board.footprints;
        let mut footprints: Vec<(String, FootprintExtras)> = Vec::new();
        let mut pads: Vec<(String, PadExtras)> = Vec::new();
        let mut i: usize = 0;
        while i < fps.len()
            invariant
                i <= fps@.len(),
                *fps == board.footprints,
                fp_entries(footprints@, fps_with_extras(fps@.take(i as int))),
                pad_entries(pads@, pads_with_extras(board_pads(fps@.take(i as int)))),
            decreases fps.len() - i,
        {
            let fp = &fps[i];
            assert(fps@.take(i + 1).drop_last() =~= fps@.take(i as int));
            let fpe = FootprintExtras::from_footprint(fp);
            assert(fps@.take(i + 1).last() == *fp);
            assert(fpe.properties@.len() == fp.properties@.len()) by {
                assert(props_view(fpe.properties@).len() == props_view(fp.properties@).len());
            }
            assert(fps_with_extras(fps@.take(i + 1)) == if footprint_plain(*fp) {
                fps_with_extras(fps@.take(i as int))
            } else {
                fps_with_extras(fps@.take(i as int)).push(*fp)
            });
            if !fpe.is_default() {
                let ghost before = footprints@;
                let ghost e = fpe;
                put_entry(&mut footprints, uuid_text(fp.uuid), fpe);
                proof {
                    lemma_fp_entries_put(before, footprints@, fps_with_extras(fps@.take(i as int)), *fp, e);
                }
            }
            let ghost pstart = board_pads(fps@.take(i as int));
            assert(board_pads(fps@.take(i + 1)) == pstart + fp.pads@);
            let mut j: usize = 0;
            while j < fp.pads.len()
                invariant
                    j <= fp.pads@.len(),
                    *fp == fps@[i as int],
                    pad_entries(pads@, pads_with_extras(pstart + fp.pads@.take(j as int))),
                decreases fp.pads.len() - j,
            {
                let pad = &fp.pads[j];
                assert((pstart + fp.pads@.take(j + 1)).drop_last() =~= pstart + fp.pads@.take(j as int));
                let pe = PadExtras::from_pad(pad);
                assert((pstart + fp.pads@.take(j + 1)).last() == *pad);
                if !pe.is_default() {
                    let ghost before = pads@;
                    let ghost e = pe;
                    put_entry(&mut pads, uuid_text(pad.uuid), pe);
                    proof {
                        lemma_pad_entries_put(before, pads@, pads_with_extras(pstart + fp.pads@.take(j as int)), *pad, e);
                    }
                }
                j += 1;
            }
            assert(fp.pads@.take(j as int) =~= fp.pads@);
            i += 1;
        }
        assert(fps@.take(i as int) =~= fps@);
        PcbExtras { footprints, pads }
    }
}

} // verus!
