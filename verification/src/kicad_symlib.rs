//! Reading a `(kicad_symbol_lib ...)` tree: its own symbols (not the
//! per-unit sub-symbols), derived symbols inheriting the drawings and pins
//! of the symbol they extend, keyed by id.

use vstd::prelude::*;

use crate::error::ParseError;
use crate::kicad_lib_read::{
    after_last, before_last, flag_or, graphics_over, lib_symbol_read, ordered_subs, parse_lib_symbol,
    pin_text_shown, pins_over, property_or_empty, split_last,
};
use crate::kicad_parse::{child_num, num_or, yes_flag};
use crate::kicad_read::{arg_or, owned_or, parse_u32, parse_u32_spec};
use crate::schematic::{
    Graphic, GraphicView, LibGraphic, LibPin, LibSymbol, Pin, PinView, PIN_NAME_OFFSET_NM,
};
use crate::sexpr::{arg_spec, find_all_spec, find_spec, keyword_spec, opt_str_view, refs_view, SExpr};
use crate::text::{chars_eq, chars_of, str_eq, string_from_chars};

verus! {

broadcast use vstd::std_specs::vec::group_vec_axioms;

// ---------------------------------------------------------------------------
// Which symbols stand for themselves
// ---------------------------------------------------------------------------

/// The ids the library's top-level symbols name.
pub open spec fn named_ids(nodes: Seq<SExpr>) -> Set<Seq<char>> {
    Set::new(|k: Seq<char>| exists|i: int| 0 <= i < nodes.len() && arg_spec(nodes[i], 0) == Some(k))
}

/// `id` is `PREFIX_N_M` with `N` and `M` numbers and `PREFIX` one of
/// `ids`: a unit of another symbol rather than a symbol of its own.
pub open spec fn is_sub_symbol_id(id: Seq<char>, ids: Set<Seq<char>>) -> bool {
    match before_last(id, '_') {
        Some(rest) => match before_last(rest, '_') {
            Some(prefix) => parse_u32_spec(after_last(id, '_')) is Some && parse_u32_spec(after_last(rest, '_'))
                is Some && ids.contains(prefix),
            None => false,
        },
        None => false,
    }
}

/// A symbol's id: its first argument, empty where it has none.
pub open spec fn symbol_id(node: SExpr) -> Seq<char> {
    arg_or(node, 0, Seq::empty())
}

/// The top-level symbols that are not sub-symbols, in file order.
pub open spec fn own_symbols(nodes: Seq<SExpr>, ids: Set<Seq<char>>) -> Seq<SExpr>
    decreases nodes.len(),
{
    if nodes.len() == 0 {
        Seq::empty()
    } else {
        let r = own_symbols(nodes.drop_last(), ids);
        if is_sub_symbol_id(symbol_id(nodes.last()), ids) {
            r
        } else {
            r.push(nodes.last())
        }
    }
}

pub open spec fn ids_set(v: Seq<String>) -> Set<Seq<char>> {
    Set::new(|k: Seq<char>| exists|j: int| 0 <= j < v.len() && #[trigger] v[j]@ == k)
}

fn collect_ids(nodes: &Vec<&SExpr>) -> (r: Vec<String>)
    ensures
        ids_set(r@) == named_ids(refs_view(nodes@)),
{
    let ghost all = refs_view(nodes@);
    let mut out: Vec<String> = Vec::new();
    let mut i: usize = 0;
    while i < nodes.len()
        invariant
            i <= nodes@.len(),
            all == refs_view(nodes@),
            forall|k: Seq<char>|
                ids_set(out@).contains(k) <==> exists|j: int| 0 <= j < i && arg_spec(all[j], 0) == Some(k),
        decreases nodes.len() - i,
    {
        let ghost before = out@;
        assert(all[i as int] == *nodes@[i as int]);
        match nodes[i].first_arg() {
            Some(a) => {
                out.push(a.to_owned());
                assert forall|k: Seq<char>| ids_set(out@).contains(k) <==> exists|j: int|
                    0 <= j < i + 1 && arg_spec(all[j], 0) == Some(k) by {
                    if ids_set(out@).contains(k) {
                        let w = choose|w: int| 0 <= w < out@.len() && #[trigger] out@[w]@ == k;
                        if w < before.len() {
                            assert(before[w]@ == k);
                            assert(ids_set(before).contains(k));
                        } else {
                            assert(arg_spec(all[i as int], 0) == Some(k));
                        }
                    }
                    if exists|j: int| 0 <= j < i + 1 && arg_spec(all[j], 0) == Some(k) {
                        let j = choose|j: int| 0 <= j < i + 1 && arg_spec(all[j], 0) == Some(k);
                        if j < i {
                            assert(ids_set(before).contains(k));
                            let w = choose|w: int| 0 <= w < before.len() && #[trigger] before[w]@ == k;
                            assert(out@[w]@ == k);
                        } else {
                            assert(out@[before.len() as int]@ == k);
                        }
                    }
                }
            },
            None => {
                assert forall|k: Seq<char>| ids_set(out@).contains(k) <==> exists|j: int|
                    0 <= j < i + 1 && arg_spec(all[j], 0) == Some(k) by {
                    if exists|j: int| 0 <= j < i + 1 && arg_spec(all[j], 0) == Some(k) {
                        let j = choose|j: int| 0 <= j < i + 1 && arg_spec(all[j], 0) == Some(k);
                        assert(j < i);
                    }
                }
            },
        }
        i += 1;
    }
    assert(ids_set(out@) =~= named_ids(all));
    out
}

fn has_id(ids: &Vec<String>, k: &[char]) -> (b: bool)
    ensures
        b == ids_set(ids@).contains(k@),
{
    let mut j: usize = 0;
    while j < ids.len()
        invariant
            j <= ids@.len(),
            forall|w: int| 0 <= w < j ==> ids@[w]@ != k@,
        decreases ids.len() - j,
    {
        let c = chars_of(ids[j].as_str());
        if chars_eq(c.as_slice(), k) {
            assert(ids@[j as int]@ == k@);
            return true;
        }
        j += 1;
    }
    proof {
        if ids_set(ids@).contains(k@) {
            let w = choose|w: int| 0 <= w < ids@.len() && #[trigger] ids@[w]@ == k@;
            assert(ids@[w]@ != k@);
        }
    }
    false
}

fn reads_as_u32(s: &Vec<char>) -> (b: bool)
    ensures
        b == parse_u32_spec(s@) is Some,
{
    let t = string_from_chars(s.as_slice());
    parse_u32(t.as_str()).is_some()
}

fn is_sub_symbol(id: &str, ids: &Vec<String>) -> (b: bool)
    ensures
        b == is_sub_symbol_id(id@, ids_set(ids@)),
{
    let cs = chars_of(id);
    let (rest, last) = split_last(&cs, '_');
    match rest {
        None => false,
        Some(rest) => {
            let (prefix, mid) = split_last(&rest, '_');
            match prefix {
                None => false,
                Some(prefix) => reads_as_u32(&last) && reads_as_u32(&mid) && has_id(ids, prefix.as_slice()),
            }
        },
    }
}

// ---------------------------------------------------------------------------
// Derived symbols
// ---------------------------------------------------------------------------

/// What a derived symbol takes over from the symbol it extends: its
/// drawings, its pins and its pin-text settings.
pub struct LibBody {
    pub graphics: Seq<(u32, u32, GraphicView)>,
    pub pins: Seq<(u32, u32, PinView)>,
    pub show_pin_numbers: bool,
    pub show_pin_names: bool,
    pub pin_name_offset: i64,
}

pub open spec fn body_of(l: LibSymbol) -> LibBody {
    LibBody {
        graphics: l.graphics@.map_values(|g: LibGraphic| g@),
        pins: l.pins@.map_values(|p: LibPin| p@),
        show_pin_numbers: l.show_pin_numbers,
        show_pin_names: l.show_pin_names,
        pin_name_offset: l.pin_name_offset,
    }
}

/// No drawings and no pins.
pub open spec fn is_bare(b: LibBody) -> bool {
    b.graphics.len() == 0 && b.pins.len() == 0
}

/// The last position of `k` in `ids`.
pub open spec fn last_index_of(ids: Seq<Seq<char>>, k: Seq<char>) -> Option<int>
    decreases ids.len(),
{
    if ids.len() == 0 {
        None
    } else if ids.last() == k {
        Some(ids.len() - 1)
    } else {
        last_index_of(ids.drop_last(), k)
    }
}

proof fn lemma_last_index_of(ids: Seq<Seq<char>>, k: Seq<char>)
    ensures
        last_index_of(ids, k) matches Some(j) ==> 0 <= j < ids.len() && ids[j] == k && forall|w: int|
            j < w < ids.len() ==> ids[w] != k,
        last_index_of(ids, k) is None ==> forall|w: int| 0 <= w < ids.len() ==> ids[w] != k,
    decreases ids.len(),
{
    if ids.len() > 0 && ids.last() != k {
        lemma_last_index_of(ids.drop_last(), k);
        assert forall|w: int| 0 <= w < ids.len() - 1 implies ids[w] == ids.drop_last()[w] by {}
    }
}

/// The symbol named `child` (its last entry) takes the body of the one
/// named `parent` when it has no drawings or pins and the parent has
/// some; the flag says whether it did.
pub open spec fn inherit_step(ids: Seq<Seq<char>>, bodies: Seq<LibBody>, child: Seq<char>, parent: Seq<char>) -> (
    Seq<LibBody>,
    bool,
) {
    match (last_index_of(ids, child), last_index_of(ids, parent)) {
        (Some(c), Some(p)) => if is_bare(bodies[c]) && !is_bare(bodies[p]) {
            (bodies.update(c, bodies[p]), true)
        } else {
            (bodies, false)
        },
        _ => (bodies, false),
    }
}

/// One pass over the `(child, parent)` pairs in order; the flag says
/// whether any symbol inherited.
pub open spec fn inherit_pass(ids: Seq<Seq<char>>, bodies: Seq<LibBody>, pairs: Seq<(Seq<char>, Seq<char>)>) -> (
    Seq<LibBody>,
    bool,
)
    decreases pairs.len(),
{
    if pairs.len() == 0 {
        (bodies, false)
    } else {
        let (b1, c1) = inherit_pass(ids, bodies, pairs.drop_last());
        let (b2, c2) = inherit_step(ids, b1, pairs.last().0, pairs.last().1);
        (b2, c1 || c2)
    }
}

/// Up to `n` passes, stopping after the first that changes nothing.
pub open spec fn inherit_passes(
    ids: Seq<Seq<char>>,
    bodies: Seq<LibBody>,
    pairs: Seq<(Seq<char>, Seq<char>)>,
    n: nat,
) -> Seq<LibBody>
    decreases n,
{
    if n == 0 {
        bodies
    } else {
        let (b, changed) = inherit_pass(ids, bodies, pairs);
        if changed {
            inherit_passes(ids, b, pairs, (n - 1) as nat)
        } else {
            b
        }
    }
}

pub open spec fn entry_ids(v: Seq<(String, LibSymbol)>) -> Seq<Seq<char>> {
    v.map_values(|e: (String, LibSymbol)| e.0@)
}

pub open spec fn entry_bodies(v: Seq<(String, LibSymbol)>) -> Seq<LibBody> {
    v.map_values(|e: (String, LibSymbol)| body_of(e.1))
}

pub open spec fn pair_views(v: Seq<(String, String)>) -> Seq<(Seq<char>, Seq<char>)> {
    v.map_values(|e: (String, String)| (e.0@, e.1@))
}

/// `a` and `b` agree on everything but their bodies.
pub open spec fn same_head(a: LibSymbol, b: LibSymbol) -> bool {
    &&& a.id@ == b.id@
    &&& a.reference@ == b.reference@
    &&& a.value@ == b.value@
    &&& a.footprint@ == b.footprint@
    &&& a.datasheet@ == b.datasheet@
    &&& a.description@ == b.description@
    &&& a.keywords@ == b.keywords@
    &&& a.fp_filters@ == b.fp_filters@
    &&& a.in_bom == b.in_bom
    &&& a.on_board == b.on_board
    &&& a.in_pos_files == b.in_pos_files
    &&& a.duplicate_pin_numbers_are_jumpers == b.duplicate_pin_numbers_are_jumpers
}

fn copy_points(v: &Vec<crate::coord::Vec2>) -> (r: Vec<crate::coord::Vec2>)
    ensures
        r@ == v@,
{
    let mut r: Vec<crate::coord::Vec2> = Vec::new();
    let mut i: usize = 0;
    while i < v.len()
        invariant
            i <= v@.len(),
            r@ == v@.take(i as int),
        decreases v.len() - i,
    {
        r.push(v[i]);
        assert(v@.take(i + 1) =~= v@.take(i as int).push(v@[i as int]));
        i += 1;
    }
    assert(v@.take(i as int) =~= v@);
    r
}

fn copy_graphic(g: &Graphic) -> (r: Graphic)
    ensures
        r@ == g@,
{
    match g {
        Graphic::Polyline { points, width, fill } => Graphic::Polyline {
            points: copy_points(points),
            width: *width,
            fill: *fill,
        },
        Graphic::Rectangle { start, end, width, fill } => Graphic::Rectangle {
            start: *start,
            end: *end,
            width: *width,
            fill: *fill,
        },
        Graphic::Circle { center, radius, width, fill } => Graphic::Circle {
            center: *center,
            radius: *radius,
            width: *width,
            fill: *fill,
        },
        Graphic::Arc { start, mid, end, width, fill } => Graphic::Arc {
            start: *start,
            mid: *mid,
            end: *end,
            width: *width,
            fill: *fill,
        },
        Graphic::Text { text, position, rotation, font_size, bold, italic, justify_h, justify_v } => Graphic::Text {
            text: text.clone(),
            position: *position,
            rotation: *rotation,
            font_size: *font_size,
            bold: *bold,
            italic: *italic,
            justify_h: *justify_h,
            justify_v: *justify_v,
        },
        Graphic::TextBox { text, position, rotation, size, font_size, bold, italic, width, fill } => Graphic::TextBox {
            text: text.clone(),
            position: *position,
            rotation: *rotation,
            size: *size,
            font_size: *font_size,
            bold: *bold,
            italic: *italic,
            width: *width,
            fill: *fill,
        },
        Graphic::Bezier { points, width, fill } => Graphic::Bezier {
            points: copy_points(points),
            width: *width,
            fill: *fill,
        },
    }
}

fn copy_pin(p: &Pin) -> (r: Pin)
    ensures
        r@ == p@,
{
    Pin {
        direction: p.direction,
        shape_style: p.shape_style,
        position: p.position,
        rotation: p.rotation,
        length: p.length,
        name: p.name.clone(),
        number: p.number.clone(),
        visible: p.visible,
        name_visible: p.name_visible,
        number_visible: p.number_visible,
    }
}

fn copy_lib_graphics(v: &Vec<LibGraphic>) -> (r: Vec<LibGraphic>)
    ensures
        r@.map_values(|g: LibGraphic| g@) == v@.map_values(|g: LibGraphic| g@),
{
    let mut r: Vec<LibGraphic> = Vec::new();
    let mut i: usize = 0;
    while i < v.len()
        invariant
            i <= v@.len(),
            r@.len() == i,
            r@.map_values(|g: LibGraphic| g@) == v@.take(i as int).map_values(|g: LibGraphic| g@),
        decreases v.len() - i,
    {
        let g = LibGraphic { unit: v[i].unit, body_style: v[i].body_style, graphic: copy_graphic(&v[i].graphic) };
        let ghost before = r@;
        r.push(g);
        assert forall|k: int| #![trigger r@[k]] 0 <= k < i + 1 implies r@.map_values(|g: LibGraphic| g@)[k] == v@.take(i + 1).map_values(
            |g: LibGraphic| g@,
        )[k] by {
            if k < i {
                assert(r@[k] == before[k]);
                assert(before.map_values(|g: LibGraphic| g@)[k] == v@.take(i as int).map_values(|g: LibGraphic| g@)[k]);
            }
        }
        assert(r@.map_values(|g: LibGraphic| g@) =~= v@.take(i + 1).map_values(|g: LibGraphic| g@));
        i += 1;
    }
    assert(v@.take(i as int) =~= v@);
    r
}

fn copy_lib_pins(v: &Vec<LibPin>) -> (r: Vec<LibPin>)
    ensures
        r@.map_values(|p: LibPin| p@) == v@.map_values(|p: LibPin| p@),
{
    let mut r: Vec<LibPin> = Vec::new();
    let mut i: usize = 0;
    while i < v.len()
        invariant
            i <= v@.len(),
            r@.len() == i,
            r@.map_values(|p: LibPin| p@) == v@.take(i as int).map_values(|p: LibPin| p@),
        decreases v.len() - i,
    {
        let p = LibPin { unit: v[i].unit, body_style: v[i].body_style, pin: copy_pin(&v[i].pin) };
        let ghost before = r@;
        r.push(p);
        assert forall|k: int| #![trigger r@[k]] 0 <= k < i + 1 implies r@.map_values(|p: LibPin| p@)[k] == v@.take(i + 1).map_values(
            |p: LibPin| p@,
        )[k] by {
            if k < i {
                assert(r@[k] == before[k]);
                assert(before.map_values(|p: LibPin| p@)[k] == v@.take(i as int).map_values(|p: LibPin| p@)[k]);
            }
        }
        assert(r@.map_values(|p: LibPin| p@) =~= v@.take(i + 1).map_values(|p: LibPin| p@));
        i += 1;
    }
    assert(v@.take(i as int) =~= v@);
    r
}

fn last_index(entries: &Vec<(String, LibSymbol)>, k: &str) -> (r: Option<usize>)
    ensures
        match r {
            Some(i) => last_index_of(entry_ids(entries@), k@) == Some(i as int),
            None => last_index_of(entry_ids(entries@), k@) is None,
        },
{
    let ghost ids = entry_ids(entries@);
    let mut i: usize = entries.len();
    assert(ids.take(i as int) =~= ids);
    while i > 0
        invariant
            i <= entries@.len(),
            ids == entry_ids(entries@),
            last_index_of(ids, k@) == last_index_of(ids.take(i as int), k@),
        decreases i,
    {
        assert(ids.take(i as int).last() == entries@[i - 1].0@);
        if str_eq(entries[i - 1].0.as_str(), k) {
            return Some(i - 1);
        }
        assert(ids.take(i as int).drop_last() =~= ids.take(i - 1));
        i -= 1;
    }
    None
}

/// Gives entry `c` the body of entry `p`.
fn take_body(entries: &mut Vec<(String, LibSymbol)>, c: usize, p: usize)
    requires
        c < old(entries)@.len(),
        p < old(entries)@.len(),
    ensures
        final(entries)@.len() == old(entries)@.len(),
        forall|i: int| 0 <= i < final(entries)@.len() && i != c ==> #[trigger] final(entries)@[i] == old(entries)@[i],
        final(entries)@[c as int].0 == old(entries)@[c as int].0,
        same_head(final(entries)@[c as int].1, old(entries)@[c as int].1),
        body_of(final(entries)@[c as int].1) == body_of(old(entries)@[p as int].1),
{
    let graphics = copy_lib_graphics(&entries[p].1.graphics);
    let pins = copy_lib_pins(&entries[p].1.pins);
    let show_pin_numbers = entries[p].1.show_pin_numbers;
    let show_pin_names = entries[p].1.show_pin_names;
    let pin_name_offset = entries[p].1.pin_name_offset;
    let (id, mut lib) = entries.remove(c);
    lib.graphics = graphics;
    lib.pins = pins;
    lib.show_pin_numbers = show_pin_numbers;
    lib.show_pin_names = show_pin_names;
    lib.pin_name_offset = pin_name_offset;
    entries.insert(c, (id, lib));
}

fn inherit_once(entries: &mut Vec<(String, LibSymbol)>, pairs: &Vec<(String, String)>) -> (changed: bool)
    ensures
        final(entries)@.len() == old(entries)@.len(),
        entry_ids(final(entries)@) == entry_ids(old(entries)@),
        forall|i: int| 0 <= i < final(entries)@.len() ==> same_head(#[trigger] final(entries)@[i].1, old(entries)@[i].1),
        (entry_bodies(final(entries)@), changed) == inherit_pass(
            entry_ids(old(entries)@),
            entry_bodies(old(entries)@),
            pair_views(pairs@),
        ),
{
    let ghost ids = entry_ids(entries@);
    let ghost start = entries@;
    let ghost pv = pair_views(pairs@);
    let mut changed = false;
    let mut k: usize = 0;
    while k < pairs.len()
        invariant
            k <= pairs@.len(),
            pv == pair_views(pairs@),
            entries@.len() == start.len(),
            entry_ids(entries@) == ids,
            ids == entry_ids(start),
            forall|i: int| 0 <= i < entries@.len() ==> same_head(#[trigger] entries@[i].1, start[i].1),
            (entry_bodies(entries@), changed) == inherit_pass(ids, entry_bodies(start), pv.take(k as int)),
        decreases pairs.len() - k,
    {
        assert(pv.take(k + 1).drop_last() =~= pv.take(k as int));
        assert(pv.take(k + 1).last() == (pairs@[k as int].0@, pairs@[k as int].1@));
        let ghost b1 = entry_bodies(entries@);
        let ci = last_index(entries, pairs[k].0.as_str());
        let pi = last_index(entries, pairs[k].1.as_str());
        proof {
            lemma_last_index_of(ids, pairs@[k as int].0@);
            lemma_last_index_of(ids, pairs@[k as int].1@);
        }
        match (ci, pi) {
            (Some(c), Some(p)) => {
                let child_bare = entries[c].1.graphics.len() == 0 && entries[c].1.pins.len() == 0;
                let parent_bare = entries[p].1.graphics.len() == 0 && entries[p].1.pins.len() == 0;
                assert(child_bare == is_bare(b1[c as int]));
                assert(parent_bare == is_bare(b1[p as int]));
                if child_bare && !parent_bare {
                    let ghost before = entries@;
                    take_body(entries, c, p);
                    assert(entry_ids(entries@) =~= entry_ids(before));
                    assert(entry_bodies(entries@) =~= b1.update(c as int, b1[p as int]));
                    assert forall|i: int| 0 <= i < entries@.len() implies same_head(#[trigger] entries@[i].1, start[i].1) by {
                        if i != c {
                            assert(entries@[i] == before[i]);
                        }
                    }
                    changed = true;
                }
            },
            _ => {},
        }
        k += 1;
    }
    assert(pv.take(k as int) =~= pv);
    changed
}

/// The entries after derived symbols have inherited the drawings and pins
/// of the symbols they extend: up to eight passes over `pairs`, stopping
/// after one in which nothing changes.
pub fn resolve_extends(entries: Vec<(String, LibSymbol)>, pairs: &Vec<(String, String)>) -> (r: Vec<(String, LibSymbol)>)
    ensures
        r@.len() == entries@.len(),
        entry_ids(r@) == entry_ids(entries@),
        forall|i: int| 0 <= i < r@.len() ==> same_head(#[trigger] r@[i].1, entries@[i].1),
        entry_bodies(r@) == inherit_passes(entry_ids(entries@), entry_bodies(entries@), pair_views(pairs@), 8),
{
    let ghost ids = entry_ids(entries@);
    let ghost start = entries@;
    let ghost goal = inherit_passes(ids, entry_bodies(start), pair_views(pairs@), 8);
    let mut cur = entries;
    let mut round: usize = 0;
    while round < 8
        invariant
            round <= 8,
            start == entries@,
            goal == inherit_passes(ids, entry_bodies(start), pair_views(pairs@), 8),
            cur@.len() == start.len(),
            entry_ids(cur@) == ids,
            ids == entry_ids(start),
            forall|i: int| 0 <= i < cur@.len() ==> same_head(#[trigger] cur@[i].1, start[i].1),
            inherit_passes(ids, entry_bodies(cur@), pair_views(pairs@), (8 - round) as nat) == goal,
        decreases 8 - round,
    {
        let ghost before = cur@;
        let changed = inherit_once(&mut cur, pairs);
        assert forall|i: int| 0 <= i < cur@.len() implies same_head(#[trigger] cur@[i].1, start[i].1) by {
            assert(same_head(cur@[i].1, before[i].1));
        }
        proof {
            let n = (8 - round) as nat;
            assert(inherit_passes(ids, entry_bodies(before), pair_views(pairs@), n) == if changed {
                inherit_passes(ids, entry_bodies(cur@), pair_views(pairs@), (n - 1) as nat)
            } else {
                entry_bodies(cur@)
            });
        }
        if !changed {
            return cur;
        }
        round += 1;
    }
    cur
}

// ---------------------------------------------------------------------------
// Keyed by id
// ---------------------------------------------------------------------------

/// `out` keys `entries` by id: each id once, with the last entry of that
/// id.
pub open spec fn keyed_by_last(out: Seq<(String, LibSymbol)>, entries: Seq<(String, LibSymbol)>) -> bool {
    &&& forall|i: int, j: int| 0 <= i < j < out.len() ==> out[i].0@ != out[j].0@
    &&& forall|i: int|
        0 <= i < out.len() ==> ((#[trigger] last_index_of(entry_ids(entries), out[i].0@)) matches Some(j) && out[i]
            == entries[j])
    &&& forall|j: int| 0 <= j < entries.len() ==> exists|i: int| 0 <= i < out.len() && out[i].0@ == #[trigger] entries[j].0@
}

proof fn lemma_last_index_push(ids: Seq<Seq<char>>, x: Seq<char>, k: Seq<char>)
    ensures
        last_index_of(ids.push(x), k) == if x == k {
            Some(ids.len() as int)
        } else {
            last_index_of(ids, k)
        },
{
    assert(ids.push(x).drop_last() =~= ids);
}

fn find_key(out: &Vec<(String, LibSymbol)>, k: &str) -> (r: Option<usize>)
    ensures
        match r {
            Some(j) => j < out@.len() && out@[j as int].0@ == k@,
            None => forall|j: int| 0 <= j < out@.len() ==> out@[j].0@ != k@,
        },
{
    let mut j: usize = 0;
    while j < out.len()
        invariant
            j <= out@.len(),
            forall|w: int| 0 <= w < j ==> out@[w].0@ != k@,
        decreases out.len() - j,
    {
        if str_eq(out[j].0.as_str(), k) {
            return Some(j);
        }
        j += 1;
    }
    None
}

/// One entry per id, the last entry of each id, in the order in which the
/// ids first occur.
pub fn key_by_id(entries: Vec<(String, LibSymbol)>) -> (r: Vec<(String, LibSymbol)>)
    ensures
        keyed_by_last(r@, entries@),
{
    let ghost all = entries@;
    let mut rest = entries;
    let mut out: Vec<(String, LibSymbol)> = Vec::new();
    let ghost mut k: int = 0;
    assert(all.take(0) =~= Seq::<(String, LibSymbol)>::empty());
    assert(entry_ids(all.take(0)) =~= Seq::<Seq<char>>::empty());
    while rest.len() > 0
        invariant
            0 <= k <= all.len(),
            rest@ == all.skip(k),
            keyed_by_last(out@, all.take(k)),
        decreases rest@.len(),
    {
        let e = rest.remove(0);
        let ghost prev = all.take(k);
        let ghost next = all.take(k + 1);
        assert(e == all[k]);
        assert(next =~= prev.push(e));
        assert(entry_ids(next) =~= entry_ids(prev).push(e.0@));
        let ghost before = out@;
        let ghost mut pos: int = 0;
        match find_key(&out, e.0.as_str()) {
            Some(j) => {
                out.set(j, e);
                proof {
                    pos = j as int;
                }
            },
            None => {
                out.push(e);
                proof {
                    pos = before.len() as int;
                }
            },
        }
        assert(0 <= pos < out@.len() && out@[pos] == e);
        assert(out@.len() == before.len() || (out@.len() == before.len() + 1 && pos == before.len()));
        assert(forall|i: int| 0 <= i < out@.len() && i != pos ==> #[trigger] out@[i] == before[i]);
        assert(forall|i: int| 0 <= i < out@.len() && i != pos ==> #[trigger] out@[i].0@ != e.0@);
        assert(keyed_by_last(out@, next)) by {
            assert forall|i: int| 0 <= i < out@.len() implies ((#[trigger] last_index_of(entry_ids(next), out@[i].0@))
                matches Some(j) && out@[i] == next[j]) by {
                lemma_last_index_push(entry_ids(prev), e.0@, out@[i].0@);
                if i != pos {
                    assert(out@[i] == before[i]);
                    assert(last_index_of(entry_ids(prev), before[i].0@) matches Some(j) && before[i] == prev[j]);
                    let j = last_index_of(entry_ids(prev), before[i].0@)->0;
                    lemma_last_index_of(entry_ids(prev), before[i].0@);
                    assert(next[j] == prev[j]);
                } else {
                    assert(next[k] == e);
                }
            }
            assert forall|j: int| 0 <= j < next.len() implies exists|i: int|
                0 <= i < out@.len() && out@[i].0@ == #[trigger] next[j].0@ by {
                if j < k {
                    assert(prev[j] == next[j]);
                    let i = choose|i: int| 0 <= i < before.len() && before[i].0@ == #[trigger] prev[j].0@;
                    if i == pos {
                        assert(out@[pos].0@ == next[j].0@);
                    } else {
                        assert(out@[i].0@ == before[i].0@);
                    }
                } else {
                    assert(out@[pos].0@ == next[j].0@);
                }
            }
        }
        proof {
            assert(rest@ =~= all.skip(k + 1));
            k = k + 1;
        }
    }
    assert(all.take(k) =~= all);
    out
}

// ---------------------------------------------------------------------------
// The library
// ---------------------------------------------------------------------------

/// The first position of `k` among `keys`.
pub open spec fn first_index_of(keys: Seq<Seq<char>>, k: Seq<char>) -> Option<int>
    decreases keys.len(),
{
    if keys.len() == 0 {
        None
    } else {
        match first_index_of(keys.drop_last(), k) {
            Some(i) => Some(i),
            None => if keys.last() == k {
                Some(keys.len() - 1)
            } else {
                None
            },
        }
    }
}

pub proof fn lemma_first_index_of(keys: Seq<Seq<char>>, k: Seq<char>)
    ensures
        first_index_of(keys, k) matches Some(j) ==> 0 <= j < keys.len() && keys[j] == k && forall|w: int|
            0 <= w < j ==> keys[w] != k,
        first_index_of(keys, k) is None ==> forall|w: int| 0 <= w < keys.len() ==> keys[w] != k,
    decreases keys.len(),
{
    if keys.len() > 0 {
        lemma_first_index_of(keys.drop_last(), k);
        assert forall|w: int| 0 <= w < keys.len() - 1 implies keys[w] == keys.drop_last()[w] by {}
    }
}

/// `v` with `(k, p)` in the place of its entry for `k`, or appended.
pub open spec fn upsert_pair(v: Seq<(Seq<char>, Seq<char>)>, k: Seq<char>, p: Seq<char>) -> Seq<(Seq<char>, Seq<char>)> {
    match first_index_of(v.map_values(|e: (Seq<char>, Seq<char>)| e.0), k) {
        Some(i) => v.update(i, (k, p)),
        None => v.push((k, p)),
    }
}

/// `(child, parent)` for each of `own` that names a symbol it extends; a
/// later entry for a child replaces the earlier one in its place.
pub open spec fn extends_pairs(own: Seq<SExpr>) -> Seq<(Seq<char>, Seq<char>)>
    decreases own.len(),
{
    if own.len() == 0 {
        Seq::empty()
    } else {
        let r = extends_pairs(own.drop_last());
        match find_spec(own.last(), "extends"@) {
            Some(e) => match arg_spec(e, 0) {
                Some(p) => upsert_pair(r, symbol_id(own.last()), p),
                None => r,
            },
            None => r,
        }
    }
}

fn put_pair(pairs: &mut Vec<(String, String)>, child: String, parent: String)
    ensures
        pair_views(final(pairs)@) == upsert_pair(pair_views(old(pairs)@), child@, parent@),
{
    let ghost pv = pair_views(pairs@);
    let ghost keys = pv.map_values(|e: (Seq<char>, Seq<char>)| e.0);
    proof {
        lemma_first_index_of(keys, child@);
    }
    let mut j: usize = 0;
    while j < pairs.len()
        invariant
            j <= pairs@.len(),
            pairs@ == old(pairs)@,
            pv == pair_views(pairs@),
            keys == pv.map_values(|e: (Seq<char>, Seq<char>)| e.0),
            forall|w: int| 0 <= w < j ==> keys[w] != child@,
        decreases pairs.len() - j,
    {
        if str_eq(pairs[j].0.as_str(), child.as_str()) {
            proof {
                lemma_first_index_of(keys, child@);
            }
            assert(keys[j as int] == child@);
            assert(first_index_of(keys, child@) == Some(j as int));
            pairs.set(j, (child, parent));
            assert(pair_views(pairs@) =~= pv.update(j as int, (child@, parent@)));
            return;
        }
        j += 1;
    }
    proof {
        lemma_first_index_of(keys, child@);
    }
    assert(first_index_of(keys, child@) is None);
    pairs.push((child, parent));
    assert(pair_views(pairs@) =~= pv.push((child@, parent@)));
}

/// What a library symbol keeps of its node besides its body.
pub open spec fn lib_head_read(l: LibSymbol, node: SExpr) -> bool {
    &&& l.id@ == arg_or(node, 0, Seq::empty())
    &&& l.reference@ == property_or_empty(node, "Reference"@)
    &&& l.value@ == property_or_empty(node, "Value"@)
    &&& l.footprint@ == property_or_empty(node, "Footprint"@)
    &&& l.datasheet@ == property_or_empty(node, "Datasheet"@)
    &&& l.description@ == property_or_empty(node, "Description"@)
    &&& l.keywords@ == property_or_empty(node, "ki_keywords"@)
    &&& l.fp_filters@ == property_or_empty(node, "ki_fp_filters"@)
    &&& l.in_bom == flag_or(yes_flag(node, "in_bom"@), true)
    &&& l.on_board == flag_or(yes_flag(node, "on_board"@), true)
    &&& l.in_pos_files == flag_or(yes_flag(node, "in_pos_files"@), true)
    &&& l.duplicate_pin_numbers_are_jumpers == flag_or(yes_flag(node, "duplicate_pin_numbers_are_jumpers"@), false)
}

/// The body a library symbol node reads as.
pub open spec fn node_body(node: SExpr) -> LibBody {
    LibBody {
        graphics: graphics_over(ordered_subs(node)),
        pins: pins_over(ordered_subs(node)),
        show_pin_numbers: pin_text_shown(find_spec(node, "pin_numbers"@)),
        show_pin_names: pin_text_shown(find_spec(node, "pin_names"@)),
        pin_name_offset: (match find_spec(node, "pin_names"@) {
            Some(pn) => num_or(child_num(pn, "offset"@), PIN_NAME_OFFSET_NM as int),
            None => PIN_NAME_OFFSET_NM as int,
        }) as i64,
    }
}

proof fn lemma_lib_symbol_parts(l: LibSymbol, node: SExpr)
    requires
        lib_symbol_read(l, node),
    ensures
        lib_head_read(l, node),
        body_of(l) == node_body(node),
{
}

/// `v` is what a `(kicad_symbol_lib ...)` tree reads as: each id of its
/// own symbols once, with the last symbol of that id, whose drawings and
/// pins are its own or, where it has none, those it inherits along
/// `extends`.
pub open spec fn symbol_lib_read(v: Seq<(String, LibSymbol)>, root: SExpr) -> bool {
    let nodes = find_all_spec(root, "symbol"@);
    let own = own_symbols(nodes, named_ids(nodes));
    let ids = own.map_values(|n: SExpr| symbol_id(n));
    let bodies = inherit_passes(ids, own.map_values(|n: SExpr| node_body(n)), extends_pairs(own), 8);
    &&& forall|i: int, j: int| 0 <= i < j < v.len() ==> v[i].0@ != v[j].0@
    &&& forall|j: int| 0 <= j < own.len() ==> exists|i: int| 0 <= i < v.len() && v[i].0@ == #[trigger] ids[j]
    &&& forall|i: int|
        0 <= i < v.len() ==> ((#[trigger] last_index_of(ids, v[i].0@)) matches Some(j) && lib_head_read(
            v[i].1,
            own[j],
        ) && body_of(v[i].1) == bodies[j])
}

/// `raw` holds, for each of `own` in order, its id and the symbol it
/// reads as.
pub open spec fn own_entries_read(raw: Seq<(String, LibSymbol)>, own: Seq<SExpr>) -> bool {
    &&& raw.len() == own.len()
    &&& forall|j: int|
        0 <= j < raw.len() ==> (#[trigger] raw[j]).0@ == symbol_id(own[j]) && lib_symbol_read(raw[j].1, own[j])
}

fn read_own_symbols(root: &SExpr) -> (r: (Vec<(String, LibSymbol)>, Vec<(String, String)>))
    ensures
        own_entries_read(
            r.0@,
            own_symbols(find_all_spec(*root, "symbol"@), named_ids(find_all_spec(*root, "symbol"@))),
        ),
        pair_views(r.1@) == extends_pairs(
            own_symbols(find_all_spec(*root, "symbol"@), named_ids(find_all_spec(*root, "symbol"@))),
        ),
{
    proof {
        reveal_strlit("");
    }
    let nodes = root.find_all("symbol");
    let ghost all = refs_view(nodes@);
    let ids = collect_ids(&nodes);
    let ghost set = named_ids(all);
    let mut raw: Vec<(String, LibSymbol)> = Vec::new();
    let mut pairs: Vec<(String, String)> = Vec::new();
    let mut i: usize = 0;
    assert(all.take(0) =~= Seq::<SExpr>::empty());
    assert(pair_views(pairs@) =~= Seq::<(Seq<char>, Seq<char>)>::empty());
    while i < nodes.len()
        invariant
            i <= nodes@.len(),
            all == refs_view(nodes@),
            all == find_all_spec(*root, "symbol"@),
            set == named_ids(all),
            ids_set(ids@) == set,
            own_entries_read(raw@, own_symbols(all.take(i as int), set)),
            pair_views(pairs@) == extends_pairs(own_symbols(all.take(i as int), set)),
        decreases nodes.len() - i,
    {
        assert(all.take(i + 1).drop_last() =~= all.take(i as int));
        assert(all[i as int] == *nodes@[i as int]);
        let ghost own_i = own_symbols(all.take(i as int), set);
        let id = owned_or(nodes[i].first_arg(), "");
        proof {
            reveal_strlit("");
        }
        assert(id@ == symbol_id(all[i as int]));
        if !is_sub_symbol(id.as_str(), &ids) {
            assert(own_symbols(all.take(i + 1), set) == own_i.push(all[i as int]));
            assert(own_i.push(all[i as int]).drop_last() =~= own_i);
            match nodes[i].find("extends") {
                Some(e) => match e.first_arg() {
                    Some(p) => put_pair(&mut pairs, id.clone(), p.to_owned()),
                    None => {},
                },
                None => {},
            }
            let lib = parse_lib_symbol(nodes[i]);
            let ghost before = raw@;
            raw.push((id, lib));
            assert forall|j: int| 0 <= j < raw@.len() implies (#[trigger] raw@[j]).0@ == symbol_id(
                own_i.push(all[i as int])[j],
            ) && lib_symbol_read(raw@[j].1, own_i.push(all[i as int])[j]) by {
                if j < before.len() {
                    assert(raw@[j] == before[j]);
                }
            }
        }
        i += 1;
    }
    assert(all.take(i as int) =~= all);
    (raw, pairs)
}

proof fn lemma_symbol_lib_read(
    out: Seq<(String, LibSymbol)>,
    resolved: Seq<(String, LibSymbol)>,
    raw: Seq<(String, LibSymbol)>,
    own: Seq<SExpr>,
    pairs: Seq<(Seq<char>, Seq<char>)>,
)
    requires
        own_entries_read(raw, own),
        pairs == extends_pairs(own),
        resolved.len() == raw.len(),
        entry_ids(resolved) == entry_ids(raw),
        forall|i: int| 0 <= i < resolved.len() ==> same_head(#[trigger] resolved[i].1, raw[i].1),
        entry_bodies(resolved) == inherit_passes(entry_ids(raw), entry_bodies(raw), pairs, 8),
        keyed_by_last(out, resolved),
    ensures
        ({
            let ids = own.map_values(|n: SExpr| symbol_id(n));
            let bodies = inherit_passes(ids, own.map_values(|n: SExpr| node_body(n)), extends_pairs(own), 8);
            &&& forall|i: int, j: int| 0 <= i < j < out.len() ==> out[i].0@ != out[j].0@
            &&& forall|j: int| 0 <= j < own.len() ==> exists|i: int| 0 <= i < out.len() && out[i].0@ == #[trigger] ids[j]
            &&& forall|i: int|
                0 <= i < out.len() ==> ((#[trigger] last_index_of(ids, out[i].0@)) matches Some(j) && lib_head_read(
                    out[i].1,
                    own[j],
                ) && body_of(out[i].1) == bodies[j])
        }),
{
    let ids = own.map_values(|n: SExpr| symbol_id(n));
    assert(entry_ids(raw) =~= ids) by {
        assert forall|j: int| 0 <= j < raw.len() implies entry_ids(raw)[j] == ids[j] by {
            assert(raw[j].0@ == symbol_id(own[j]));
        }
    }
    assert(entry_bodies(raw) =~= own.map_values(|n: SExpr| node_body(n))) by {
        assert forall|j: int| 0 <= j < raw.len() implies entry_bodies(raw)[j] == node_body(own[j]) by {
            assert(lib_symbol_read(raw[j].1, own[j]));
            lemma_lib_symbol_parts(raw[j].1, own[j]);
        }
    }
    assert forall|j: int| 0 <= j < own.len() implies exists|i: int| 0 <= i < out.len() && out[i].0@ == #[trigger] ids[j] by {
        assert(resolved[j].0@ == entry_ids(resolved)[j]);
        let i = choose|i: int| 0 <= i < out.len() && out[i].0@ == #[trigger] resolved[j].0@;
        assert(out[i].0@ == ids[j]);
    }
    assert forall|i: int| 0 <= i < out.len() implies ((#[trigger] last_index_of(ids, out[i].0@)) matches Some(j)
        && lib_head_read(out[i].1, own[j]) && body_of(out[i].1) == inherit_passes(
        ids,
        own.map_values(|n: SExpr| node_body(n)),
        extends_pairs(own),
        8,
    )[j]) by {
        assert(last_index_of(entry_ids(resolved), out[i].0@) matches Some(j) && out[i] == resolved[j]);
        let j = last_index_of(ids, out[i].0@)->0;
        lemma_last_index_of(ids, out[i].0@);
        assert(same_head(resolved[j].1, raw[j].1));
        assert(lib_symbol_read(raw[j].1, own[j]));
        lemma_lib_symbol_parts(raw[j].1, own[j]);
        assert(entry_bodies(resolved)[j] == body_of(resolved[j].1));
    }
}

/// Reads a symbol library from its `(kicad_symbol_lib ...)` tree; a tree
/// of another kind is no symbol library.
pub fn parse_symbol_lib(root: &SExpr) -> (r: Result<Vec<(String, LibSymbol)>, ParseError>)
    ensures
        match r {
            Ok(v) => keyword_spec(*root) == Some("kicad_symbol_lib"@) && symbol_lib_read(v@, *root),
            Err(e) => keyword_spec(*root) != Some("kicad_symbol_lib"@) && (e matches ParseError::InvalidSExpr(m)
                && m@ == "Not a KiCad symbol library file"@),
        },
{
    let is_lib = match root.keyword() {
        Some(k) => str_eq(k, "kicad_symbol_lib"),
        None => false,
    };
    if !is_lib {
        return Err(ParseError::InvalidSExpr("Not a KiCad symbol library file".to_owned()));
    }
    let (raw, pairs) = read_own_symbols(root);
    let ghost raw_v = raw@;
    let resolved = resolve_extends(raw, &pairs);
    let ghost resolved_v = resolved@;
    let out = key_by_id(resolved);
    proof {
        let nodes = find_all_spec(*root, "symbol"@);
        let own = own_symbols(nodes, named_ids(nodes));
        lemma_symbol_lib_read(out@, resolved_v, raw_v, own, pair_views(pairs@));
    }
    Ok(out)
}

} // verus!
