//! What a written board file holds at its top level: one section per net,
//! footprint, board text, track segment, via and zone, and a setup block
//! exactly when the board has design rules.

use vstd::prelude::*;

use crate::kicad_pcb::{
    board_graphic_tree, board_graphics_upto, board_text_tree, footprint_tree, net_tree, pcb_head, pcb_kids,
    pcb_tree, segment_tree, via_tree, via_type_token, zone_tree,
};
use crate::pcb::{BoardGraphic, PcbBoard};
use crate::sexpr::{render_tree, Tree};
use crate::sexpr_read::{lemma_read_rendered, read_spec, readable_tree};

verus! {

/// The keyword a list starts with; empty for anything else.
pub open spec fn keyword_of(t: Tree) -> Seq<char> {
    match t {
        Tree::List(ks) => if ks.len() > 0 {
            match ks[0] {
                Tree::Raw(k) => k,
                _ => Seq::empty(),
            }
        } else {
            Seq::empty()
        },
        _ => Seq::empty(),
    }
}

/// How many of `ts` start with the keyword `k`.
#[verifier::opaque]
pub open spec fn count_kw(ts: Seq<Tree>, k: Seq<char>) -> nat
    decreases ts.len(),
{
    if ts.len() == 0 {
        0
    } else {
        count_kw(ts.drop_last(), k) + if keyword_of(ts.last()) == k {
            1nat
        } else {
            0nat
        }
    }
}

proof fn lemma_count_add(a: Seq<Tree>, b: Seq<Tree>, k: Seq<char>)
    ensures
        count_kw(a + b, k) == count_kw(a, k) + count_kw(b, k),
    decreases b.len(),
{
    reveal(count_kw);
    if b.len() == 0 {
        assert(a + b =~= a);
    } else {
        lemma_count_add(a, b.drop_last(), k);
        assert((a + b).drop_last() =~= a + b.drop_last());
        assert((a + b).last() == b.last());
    }
}

/// A run of trees all under keyword `kw` counts fully for `kw` and not at
/// all for another keyword.
proof fn lemma_count_uniform(ts: Seq<Tree>, kw: Seq<char>, k: Seq<char>)
    requires
        forall|i: int| 0 <= i < ts.len() ==> keyword_of(#[trigger] ts[i]) == kw,
    ensures
        count_kw(ts, k) == if kw == k {
            ts.len()
        } else {
            0
        },
    decreases ts.len(),
{
    reveal(count_kw);
    if ts.len() > 0 {
        lemma_count_uniform(ts.drop_last(), kw, k);
        assert(ts.last() == ts[ts.len() - 1]);
    }
}

proof fn lemma_count_absent(ts: Seq<Tree>, k: Seq<char>)
    requires
        forall|i: int| 0 <= i < ts.len() ==> keyword_of(#[trigger] ts[i]) != k,
    ensures
        count_kw(ts, k) == 0,
    decreases ts.len(),
{
    reveal(count_kw);
    if ts.len() > 0 {
        lemma_count_absent(ts.drop_last(), k);
    }
}

proof fn lemma_count_pair(x: Tree, y: Tree, k: Seq<char>)
    ensures
        count_kw(seq![x, y], k) == (if keyword_of(x) == k { 1nat } else { 0nat }) + (if keyword_of(y) == k {
            1nat
        } else {
            0nat
        }),
{
    reveal_with_fuel(count_kw, 3);
    assert(seq![x, y].drop_last() =~= seq![x]);
    assert(seq![x].drop_last() =~= Seq::<Tree>::empty());
}

/// Trees each under one of three distinct keywords number the sum of
/// their counts.
proof fn lemma_count_three(ts: Seq<Tree>, k1: Seq<char>, k2: Seq<char>, k3: Seq<char>)
    requires
        k1 != k2,
        k1 != k3,
        k2 != k3,
        forall|i: int| 0 <= i < ts.len() ==> {
            let k = keyword_of(#[trigger] ts[i]);
            k == k1 || k == k2 || k == k3
        },
    ensures
        count_kw(ts, k1) + count_kw(ts, k2) + count_kw(ts, k3) == ts.len(),
    decreases ts.len(),
{
    reveal(count_kw);
    if ts.len() > 0 {
        lemma_count_three(ts.drop_last(), k1, k2, k3);
        assert(ts.last() == ts[ts.len() - 1]);
    }
}

/// The keywords board drawings are written under.
pub open spec fn drawing_keyword(k: Seq<char>) -> bool {
    k == "gr_line"@ || k == "gr_rect"@ || k == "gr_arc"@ || k == "gr_circle"@
}

proof fn lemma_graphic_keyword(g: BoardGraphic)
    ensures
        board_graphic_tree(g) matches Some(t) ==> drawing_keyword(keyword_of(t)),
{
}

proof fn lemma_count_graphics(gs: Seq<BoardGraphic>, n: int, k: Seq<char>)
    requires
        !drawing_keyword(k),
    ensures
        count_kw(board_graphics_upto(gs, n), k) == 0,
    decreases n,
{
    reveal(count_kw);
    if 0 < n <= gs.len() {
        lemma_count_graphics(gs, n - 1, k);
        let prev = board_graphics_upto(gs, n - 1);
        let all = board_graphics_upto(gs, n);
        lemma_graphic_keyword(gs[n - 1]);
        match board_graphic_tree(gs[n - 1]) {
            Some(t) => {
                assert(all == prev + seq![t]);
                assert(all.drop_last() =~= prev);
                assert(all.last() == t);
            },
            None => {
                assert(all =~= prev);
            },
        }
    }
}

pub open spec fn net_trees(b: PcbBoard) -> Seq<Tree> {
    Seq::new(b.nets@.len(), |i: int| net_tree(b.nets@[i]))
}

pub open spec fn footprint_trees(b: PcbBoard) -> Seq<Tree> {
    Seq::new(b.footprints@.len(), |i: int| footprint_tree(b.footprints@[i]))
}

pub open spec fn text_trees(b: PcbBoard) -> Seq<Tree> {
    Seq::new(b.texts@.len(), |i: int| board_text_tree(b.texts@[i]))
}

pub open spec fn segment_trees(b: PcbBoard) -> Seq<Tree> {
    Seq::new(b.segments@.len(), |i: int| segment_tree(b.segments@[i]))
}

pub open spec fn via_trees(b: PcbBoard) -> Seq<Tree> {
    Seq::new(b.vias@.len(), |i: int| via_tree(b.vias@[i]))
}

pub open spec fn zone_trees(b: PcbBoard) -> Seq<Tree> {
    Seq::new(b.zones@.len(), |i: int| zone_tree(b.zones@[i]))
}

/// The top-level sections of a board file, counted for `k` section kind
/// by section kind.
proof fn lemma_count_kids(b: PcbBoard, k: Seq<char>)
    ensures
        count_kw(pcb_kids(b), k) == count_kw(pcb_head(b), k) + count_kw(net_trees(b), k) + count_kw(
            footprint_trees(b),
            k,
        ) + count_kw(board_graphics_upto(b.graphics@, b.graphics@.len() as int), k) + count_kw(text_trees(b), k)
            + count_kw(segment_trees(b), k) + count_kw(via_trees(b), k) + count_kw(zone_trees(b), k),
{
    let h = pcb_head(b);
    let n = net_trees(b);
    let f = footprint_trees(b);
    let g = board_graphics_upto(b.graphics@, b.graphics@.len() as int);
    let t = text_trees(b);
    let s = segment_trees(b);
    let v = via_trees(b);
    let z = zone_trees(b);
    assert(pcb_kids(b) == h + n + f + g + t + s + v + z);
    lemma_count_add(h, n, k);
    lemma_count_add(h + n, f, k);
    lemma_count_add(h + n + f, g, k);
    lemma_count_add(h + n + f + g, t, k);
    lemma_count_add(h + n + f + g + t, s, k);
    lemma_count_add(h + n + f + g + t + s, v, k);
    lemma_count_add(h + n + f + g + t + s + v, z, k);
}

#[verifier::rlimit(50)]
proof fn lemma_uniform_net_trees(b: PcbBoard, k: Seq<char>)
    ensures
        count_kw(net_trees(b), k) == if "net"@ == k { b.nets@.len() } else { 0 },
{
    assert forall|i: int| 0 <= i < net_trees(b).len() implies keyword_of(#[trigger] net_trees(b)[i]) == "net"@ by {}
    lemma_count_uniform(net_trees(b), "net"@, k);
}

#[verifier::rlimit(50)]
proof fn lemma_uniform_footprint_trees(b: PcbBoard, k: Seq<char>)
    ensures
        count_kw(footprint_trees(b), k) == if "footprint"@ == k { b.footprints@.len() } else { 0 },
{
    assert forall|i: int| 0 <= i < footprint_trees(b).len() implies keyword_of(#[trigger] footprint_trees(b)[i]) == "footprint"@ by {}
    lemma_count_uniform(footprint_trees(b), "footprint"@, k);
}

#[verifier::rlimit(50)]
proof fn lemma_uniform_text_trees(b: PcbBoard, k: Seq<char>)
    ensures
        count_kw(text_trees(b), k) == if "gr_text"@ == k { b.texts@.len() } else { 0 },
{
    assert forall|i: int| 0 <= i < text_trees(b).len() implies keyword_of(#[trigger] text_trees(b)[i]) == "gr_text"@ by {}
    lemma_count_uniform(text_trees(b), "gr_text"@, k);
}

#[verifier::rlimit(50)]
proof fn lemma_uniform_segment_trees(b: PcbBoard, k: Seq<char>)
    ensures
        count_kw(segment_trees(b), k) == if "segment"@ == k { b.segments@.len() } else { 0 },
{
    assert forall|i: int| 0 <= i < segment_trees(b).len() implies keyword_of(#[trigger] segment_trees(b)[i]) == "segment"@ by {}
    lemma_count_uniform(segment_trees(b), "segment"@, k);
}

#[verifier::rlimit(50)]
proof fn lemma_uniform_zone_trees(b: PcbBoard, k: Seq<char>)
    ensures
        count_kw(zone_trees(b), k) == if "zone"@ == k { b.zones@.len() } else { 0 },
{
    assert forall|i: int| 0 <= i < zone_trees(b).len() implies keyword_of(#[trigger] zone_trees(b)[i]) == "zone"@ by {}
    lemma_count_uniform(zone_trees(b), "zone"@, k);
}

/// The header's keywords, in order.
pub open spec fn head_keywords(b: PcbBoard) -> Seq<Seq<char>> {
    seq!["version"@, "generator"@, "generator_version"@, "general"@, "paper"@, "layers"@] + if b.setup is Some {
        seq!["setup"@, "net_class"@]
    } else {
        Seq::empty()
    }
}

proof fn lemma_head_keywords(b: PcbBoard)
    ensures
        pcb_head(b).len() == head_keywords(b).len(),
        forall|i: int| 0 <= i < pcb_head(b).len() ==> keyword_of(#[trigger] pcb_head(b)[i]) == head_keywords(b)[i],
{
    let h = pcb_head(b);
    assert forall|i: int| 0 <= i < h.len() implies keyword_of(#[trigger] h[i]) == head_keywords(b)[i] by {
        if i >= 6 {
            assert(b.setup is Some);
        }
    }
}

/// The vias' keywords, each one of the three via kinds.
proof fn lemma_via_keywords(b: PcbBoard)
    ensures
        forall|i: int| 0 <= i < via_trees(b).len() ==> {
            let k = keyword_of(#[trigger] via_trees(b)[i]);
            k == "via"@ || k == "via_blind"@ || k == "via_micro"@
        },
{
    assert forall|i: int| 0 <= i < via_trees(b).len() implies {
        let k = keyword_of(#[trigger] via_trees(b)[i]);
        k == "via"@ || k == "via_blind"@ || k == "via_micro"@
    } by {
        assert(keyword_of(via_trees(b)[i]) == via_type_token(b.vias@[i].via_type));
    }
}

proof fn lemma_differs_from_net()
    ensures
        "footprint"@ != "net"@,
        "gr_text"@ != "net"@,
        "segment"@ != "net"@,
        "via"@ != "net"@,
        "via_blind"@ != "net"@,
        "via_micro"@ != "net"@,
        "zone"@ != "net"@,
        "setup"@ != "net"@,
        "version"@ != "net"@,
        "generator"@ != "net"@,
        "generator_version"@ != "net"@,
        "general"@ != "net"@,
        "paper"@ != "net"@,
        "layers"@ != "net"@,
        "net_class"@ != "net"@,
        "gr_line"@ != "net"@,
        "gr_rect"@ != "net"@,
        "gr_arc"@ != "net"@,
        "gr_circle"@ != "net"@,
{
    reveal_strlit("net");
    reveal_strlit("footprint");
    reveal_strlit("gr_text");
    reveal_strlit("segment");
    reveal_strlit("via");
    reveal_strlit("via_blind");
    reveal_strlit("via_micro");
    reveal_strlit("zone");
    reveal_strlit("setup");
    reveal_strlit("version");
    reveal_strlit("generator");
    reveal_strlit("generator_version");
    reveal_strlit("general");
    reveal_strlit("paper");
    reveal_strlit("layers");
    reveal_strlit("net_class");
    reveal_strlit("gr_line");
    reveal_strlit("gr_rect");
    reveal_strlit("gr_arc");
    reveal_strlit("gr_circle");
    assert("footprint"@.len() != "net"@.len());
    assert("gr_text"@.len() != "net"@.len());
    assert("segment"@.len() != "net"@.len());
    assert("via"@[0] != "net"@[0]);
    assert("via_blind"@.len() != "net"@.len());
    assert("via_micro"@.len() != "net"@.len());
    assert("zone"@.len() != "net"@.len());
    assert("setup"@.len() != "net"@.len());
    assert("version"@.len() != "net"@.len());
    assert("generator"@.len() != "net"@.len());
    assert("generator_version"@.len() != "net"@.len());
    assert("general"@.len() != "net"@.len());
    assert("paper"@.len() != "net"@.len());
    assert("layers"@.len() != "net"@.len());
    assert("net_class"@.len() != "net"@.len());
    assert("gr_line"@.len() != "net"@.len());
    assert("gr_rect"@.len() != "net"@.len());
    assert("gr_arc"@.len() != "net"@.len());
    assert("gr_circle"@.len() != "net"@.len());
}

proof fn lemma_differs_from_footprint()
    ensures
        "net"@ != "footprint"@,
        "gr_text"@ != "footprint"@,
        "segment"@ != "footprint"@,
        "via"@ != "footprint"@,
        "via_blind"@ != "footprint"@,
        "via_micro"@ != "footprint"@,
        "zone"@ != "footprint"@,
        "setup"@ != "footprint"@,
        "version"@ != "footprint"@,
        "generator"@ != "footprint"@,
        "generator_version"@ != "footprint"@,
        "general"@ != "footprint"@,
        "paper"@ != "footprint"@,
        "layers"@ != "footprint"@,
        "net_class"@ != "footprint"@,
        "gr_line"@ != "footprint"@,
        "gr_rect"@ != "footprint"@,
        "gr_arc"@ != "footprint"@,
        "gr_circle"@ != "footprint"@,
{
    reveal_strlit("net");
    reveal_strlit("footprint");
    reveal_strlit("gr_text");
    reveal_strlit("segment");
    reveal_strlit("via");
    reveal_strlit("via_blind");
    reveal_strlit("via_micro");
    reveal_strlit("zone");
    reveal_strlit("setup");
    reveal_strlit("version");
    reveal_strlit("generator");
    reveal_strlit("generator_version");
    reveal_strlit("general");
    reveal_strlit("paper");
    reveal_strlit("layers");
    reveal_strlit("net_class");
    reveal_strlit("gr_line");
    reveal_strlit("gr_rect");
    reveal_strlit("gr_arc");
    reveal_strlit("gr_circle");
    assert("net"@.len() != "footprint"@.len());
    assert("gr_text"@.len() != "footprint"@.len());
    assert("segment"@.len() != "footprint"@.len());
    assert("via"@.len() != "footprint"@.len());
    assert("via_blind"@[0] != "footprint"@[0]);
    assert("via_micro"@[0] != "footprint"@[0]);
    assert("zone"@.len() != "footprint"@.len());
    assert("setup"@.len() != "footprint"@.len());
    assert("version"@.len() != "footprint"@.len());
    assert("generator"@[0] != "footprint"@[0]);
    assert("generator_version"@.len() != "footprint"@.len());
    assert("general"@.len() != "footprint"@.len());
    assert("paper"@.len() != "footprint"@.len());
    assert("layers"@.len() != "footprint"@.len());
    assert("net_class"@[0] != "footprint"@[0]);
    assert("gr_line"@.len() != "footprint"@.len());
    assert("gr_rect"@.len() != "footprint"@.len());
    assert("gr_arc"@.len() != "footprint"@.len());
    assert("gr_circle"@[0] != "footprint"@[0]);
}

proof fn lemma_differs_from_gr_text()
    ensures
        "net"@ != "gr_text"@,
        "footprint"@ != "gr_text"@,
        "segment"@ != "gr_text"@,
        "via"@ != "gr_text"@,
        "via_blind"@ != "gr_text"@,
        "via_micro"@ != "gr_text"@,
        "zone"@ != "gr_text"@,
        "setup"@ != "gr_text"@,
        "version"@ != "gr_text"@,
        "generator"@ != "gr_text"@,
        "generator_version"@ != "gr_text"@,
        "general"@ != "gr_text"@,
        "paper"@ != "gr_text"@,
        "layers"@ != "gr_text"@,
        "net_class"@ != "gr_text"@,
        "gr_line"@ != "gr_text"@,
        "gr_rect"@ != "gr_text"@,
        "gr_arc"@ != "gr_text"@,
        "gr_circle"@ != "gr_text"@,
{
    reveal_strlit("net");
    reveal_strlit("footprint");
    reveal_strlit("gr_text");
    reveal_strlit("segment");
    reveal_strlit("via");
    reveal_strlit("via_blind");
    reveal_strlit("via_micro");
    reveal_strlit("zone");
    reveal_strlit("setup");
    reveal_strlit("version");
    reveal_strlit("generator");
    reveal_strlit("generator_version");
    reveal_strlit("general");
    reveal_strlit("paper");
    reveal_strlit("layers");
    reveal_strlit("net_class");
    reveal_strlit("gr_line");
    reveal_strlit("gr_rect");
    reveal_strlit("gr_arc");
    reveal_strlit("gr_circle");
    assert("net"@.len() != "gr_text"@.len());
    assert("footprint"@.len() != "gr_text"@.len());
    assert("segment"@[0] != "gr_text"@[0]);
    assert("via"@.len() != "gr_text"@.len());
    assert("via_blind"@.len() != "gr_text"@.len());
    assert("via_micro"@.len() != "gr_text"@.len());
    assert("zone"@.len() != "gr_text"@.len());
    assert("setup"@.len() != "gr_text"@.len());
    assert("version"@[0] != "gr_text"@[0]);
    assert("generator"@.len() != "gr_text"@.len());
    assert("generator_version"@.len() != "gr_text"@.len());
    assert("general"@[1] != "gr_text"@[1]);
    assert("paper"@.len() != "gr_text"@.len());
    assert("layers"@.len() != "gr_text"@.len());
    assert("net_class"@.len() != "gr_text"@.len());
    assert("gr_line"@[3] != "gr_text"@[3]);
    assert("gr_rect"@[3] != "gr_text"@[3]);
    assert("gr_arc"@.len() != "gr_text"@.len());
    assert("gr_circle"@.len() != "gr_text"@.len());
}

proof fn lemma_differs_from_segment()
    ensures
        "net"@ != "segment"@,
        "footprint"@ != "segment"@,
        "gr_text"@ != "segment"@,
        "via"@ != "segment"@,
        "via_blind"@ != "segment"@,
        "via_micro"@ != "segment"@,
        "zone"@ != "segment"@,
        "setup"@ != "segment"@,
        "version"@ != "segment"@,
        "generator"@ != "segment"@,
        "generator_version"@ != "segment"@,
        "general"@ != "segment"@,
        "paper"@ != "segment"@,
        "layers"@ != "segment"@,
        "net_class"@ != "segment"@,
        "gr_line"@ != "segment"@,
        "gr_rect"@ != "segment"@,
        "gr_arc"@ != "segment"@,
        "gr_circle"@ != "segment"@,
{
    reveal_strlit("net");
    reveal_strlit("footprint");
    reveal_strlit("gr_text");
    reveal_strlit("segment");
    reveal_strlit("via");
    reveal_strlit("via_blind");
    reveal_strlit("via_micro");
    reveal_strlit("zone");
    reveal_strlit("setup");
    reveal_strlit("version");
    reveal_strlit("generator");
    reveal_strlit("generator_version");
    reveal_strlit("general");
    reveal_strlit("paper");
    reveal_strlit("layers");
    reveal_strlit("net_class");
    reveal_strlit("gr_line");
    reveal_strlit("gr_rect");
    reveal_strlit("gr_arc");
    reveal_strlit("gr_circle");
    assert("net"@.len() != "segment"@.len());
    assert("footprint"@.len() != "segment"@.len());
    assert("gr_text"@[0] != "segment"@[0]);
    assert("via"@.len() != "segment"@.len());
    assert("via_blind"@.len() != "segment"@.len());
    assert("via_micro"@.len() != "segment"@.len());
    assert("zone"@.len() != "segment"@.len());
    assert("setup"@.len() != "segment"@.len());
    assert("version"@[0] != "segment"@[0]);
    assert("generator"@.len() != "segment"@.len());
    assert("generator_version"@.len() != "segment"@.len());
    assert("general"@[0] != "segment"@[0]);
    assert("paper"@.len() != "segment"@.len());
    assert("layers"@.len() != "segment"@.len());
    assert("net_class"@.len() != "segment"@.len());
    assert("gr_line"@[0] != "segment"@[0]);
    assert("gr_rect"@[0] != "segment"@[0]);
    assert("gr_arc"@.len() != "segment"@.len());
    assert("gr_circle"@.len() != "segment"@.len());
}

proof fn lemma_differs_from_via()
    ensures
        "net"@ != "via"@,
        "footprint"@ != "via"@,
        "gr_text"@ != "via"@,
        "segment"@ != "via"@,
        "via_blind"@ != "via"@,
        "via_micro"@ != "via"@,
        "zone"@ != "via"@,
        "setup"@ != "via"@,
        "version"@ != "via"@,
        "generator"@ != "via"@,
        "generator_version"@ != "via"@,
        "general"@ != "via"@,
        "paper"@ != "via"@,
        "layers"@ != "via"@,
        "net_class"@ != "via"@,
        "gr_line"@ != "via"@,
        "gr_rect"@ != "via"@,
        "gr_arc"@ != "via"@,
        "gr_circle"@ != "via"@,
{
    reveal_strlit("net");
    reveal_strlit("footprint");
    reveal_strlit("gr_text");
    reveal_strlit("segment");
    reveal_strlit("via");
    reveal_strlit("via_blind");
    reveal_strlit("via_micro");
    reveal_strlit("zone");
    reveal_strlit("setup");
    reveal_strlit("version");
    reveal_strlit("generator");
    reveal_strlit("generator_version");
    reveal_strlit("general");
    reveal_strlit("paper");
    reveal_strlit("layers");
    reveal_strlit("net_class");
    reveal_strlit("gr_line");
    reveal_strlit("gr_rect");
    reveal_strlit("gr_arc");
    reveal_strlit("gr_circle");
    assert("net"@[0] != "via"@[0]);
    assert("footprint"@.len() != "via"@.len());
    assert("gr_text"@.len() != "via"@.len());
    assert("segment"@.len() != "via"@.len());
    assert("via_blind"@.len() != "via"@.len());
    assert("via_micro"@.len() != "via"@.len());
    assert("zone"@.len() != "via"@.len());
    assert("setup"@.len() != "via"@.len());
    assert("version"@.len() != "via"@.len());
    assert("generator"@.len() != "via"@.len());
    assert("generator_version"@.len() != "via"@.len());
    assert("general"@.len() != "via"@.len());
    assert("paper"@.len() != "via"@.len());
    assert("layers"@.len() != "via"@.len());
    assert("net_class"@.len() != "via"@.len());
    assert("gr_line"@.len() != "via"@.len());
    assert("gr_rect"@.len() != "via"@.len());
    assert("gr_arc"@.len() != "via"@.len());
    assert("gr_circle"@.len() != "via"@.len());
}

proof fn lemma_differs_from_via_blind()
    ensures
        "net"@ != "via_blind"@,
        "footprint"@ != "via_blind"@,
        "gr_text"@ != "via_blind"@,
        "segment"@ != "via_blind"@,
        "via"@ != "via_blind"@,
        "via_micro"@ != "via_blind"@,
        "zone"@ != "via_blind"@,
        "setup"@ != "via_blind"@,
        "version"@ != "via_blind"@,
        "generator"@ != "via_blind"@,
        "generator_version"@ != "via_blind"@,
        "general"@ != "via_blind"@,
        "paper"@ != "via_blind"@,
        "layers"@ != "via_blind"@,
        "net_class"@ != "via_blind"@,
        "gr_line"@ != "via_blind"@,
        "gr_rect"@ != "via_blind"@,
        "gr_arc"@ != "via_blind"@,
        "gr_circle"@ != "via_blind"@,
{
    reveal_strlit("net");
    reveal_strlit("footprint");
    reveal_strlit("gr_text");
    reveal_strlit("segment");
    reveal_strlit("via");
    reveal_strlit("via_blind");
    reveal_strlit("via_micro");
    reveal_strlit("zone");
    reveal_strlit("setup");
    reveal_strlit("version");
    reveal_strlit("generator");
    reveal_strlit("generator_version");
    reveal_strlit("general");
    reveal_strlit("paper");
    reveal_strlit("layers");
    reveal_strlit("net_class");
    reveal_strlit("gr_line");
    reveal_strlit("gr_rect");
    reveal_strlit("gr_arc");
    reveal_strlit("gr_circle");
    assert("net"@.len() != "via_blind"@.len());
    assert("footprint"@[0] != "via_blind"@[0]);
    assert("gr_text"@.len() != "via_blind"@.len());
    assert("segment"@.len() != "via_blind"@.len());
    assert("via"@.len() != "via_blind"@.len());
    assert("via_micro"@[4] != "via_blind"@[4]);
    assert("zone"@.len() != "via_blind"@.len());
    assert("setup"@.len() != "via_blind"@.len());
    assert("version"@.len() != "via_blind"@.len());
    assert("generator"@[0] != "via_blind"@[0]);
    assert("generator_version"@.len() != "via_blind"@.len());
    assert("general"@.len() != "via_blind"@.len());
    assert("paper"@.len() != "via_blind"@.len());
    assert("layers"@.len() != "via_blind"@.len());
    assert("net_class"@[0] != "via_blind"@[0]);
    assert("gr_line"@.len() != "via_blind"@.len());
    assert("gr_rect"@.len() != "via_blind"@.len());
    assert("gr_arc"@.len() != "via_blind"@.len());
    assert("gr_circle"@[0] != "via_blind"@[0]);
}

proof fn lemma_differs_from_via_micro()
    ensures
        "net"@ != "via_micro"@,
        "footprint"@ != "via_micro"@,
        "gr_text"@ != "via_micro"@,
        "segment"@ != "via_micro"@,
        "via"@ != "via_micro"@,
        "via_blind"@ != "via_micro"@,
        "zone"@ != "via_micro"@,
        "setup"@ != "via_micro"@,
        "version"@ != "via_micro"@,
        "generator"@ != "via_micro"@,
        "generator_version"@ != "via_micro"@,
        "general"@ != "via_micro"@,
        "paper"@ != "via_micro"@,
        "layers"@ != "via_micro"@,
        "net_class"@ != "via_micro"@,
        "gr_line"@ != "via_micro"@,
        "gr_rect"@ != "via_micro"@,
        "gr_arc"@ != "via_micro"@,
        "gr_circle"@ != "via_micro"@,
{
    reveal_strlit("net");
    reveal_strlit("footprint");
    reveal_strlit("gr_text");
    reveal_strlit("segment");
    reveal_strlit("via");
    reveal_strlit("via_blind");
    reveal_strlit("via_micro");
    reveal_strlit("zone");
    reveal_strlit("setup");
    reveal_strlit("version");
    reveal_strlit("generator");
    reveal_strlit("generator_version");
    reveal_strlit("general");
    reveal_strlit("paper");
    reveal_strlit("layers");
    reveal_strlit("net_class");
    reveal_strlit("gr_line");
    reveal_strlit("gr_rect");
    reveal_strlit("gr_arc");
    reveal_strlit("gr_circle");
    assert("net"@.len() != "via_micro"@.len());
    assert("footprint"@[0] != "via_micro"@[0]);
    assert("gr_text"@.len() != "via_micro"@.len());
    assert("segment"@.len() != "via_micro"@.len());
    assert("via"@.len() != "via_micro"@.len());
    assert("via_blind"@[4] != "via_micro"@[4]);
    assert("zone"@.len() != "via_micro"@.len());
    assert("setup"@.len() != "via_micro"@.len());
    assert("version"@.len() != "via_micro"@.len());
    assert("generator"@[0] != "via_micro"@[0]);
    assert("generator_version"@.len() != "via_micro"@.len());
    assert("general"@.len() != "via_micro"@.len());
    assert("paper"@.len() != "via_micro"@.len());
    assert("layers"@.len() != "via_micro"@.len());
    assert("net_class"@[0] != "via_micro"@[0]);
    assert("gr_line"@.len() != "via_micro"@.len());
    assert("gr_rect"@.len() != "via_micro"@.len());
    assert("gr_arc"@.len() != "via_micro"@.len());
    assert("gr_circle"@[0] != "via_micro"@[0]);
}

proof fn lemma_differs_from_zone()
    ensures
        "net"@ != "zone"@,
        "footprint"@ != "zone"@,
        "gr_text"@ != "zone"@,
        "segment"@ != "zone"@,
        "via"@ != "zone"@,
        "via_blind"@ != "zone"@,
        "via_micro"@ != "zone"@,
        "setup"@ != "zone"@,
        "version"@ != "zone"@,
        "generator"@ != "zone"@,
        "generator_version"@ != "zone"@,
        "general"@ != "zone"@,
        "paper"@ != "zone"@,
        "layers"@ != "zone"@,
        "net_class"@ != "zone"@,
        "gr_line"@ != "zone"@,
        "gr_rect"@ != "zone"@,
        "gr_arc"@ != "zone"@,
        "gr_circle"@ != "zone"@,
{
    reveal_strlit("net");
    reveal_strlit("footprint");
    reveal_strlit("gr_text");
    reveal_strlit("segment");
    reveal_strlit("via");
    reveal_strlit("via_blind");
    reveal_strlit("via_micro");
    reveal_strlit("zone");
    reveal_strlit("setup");
    reveal_strlit("version");
    reveal_strlit("generator");
    reveal_strlit("generator_version");
    reveal_strlit("general");
    reveal_strlit("paper");
    reveal_strlit("layers");
    reveal_strlit("net_class");
    reveal_strlit("gr_line");
    reveal_strlit("gr_rect");
    reveal_strlit("gr_arc");
    reveal_strlit("gr_circle");
    assert("net"@.len() != "zone"@.len());
    assert("footprint"@.len() != "zone"@.len());
    assert("gr_text"@.len() != "zone"@.len());
    assert("segment"@.len() != "zone"@.len());
    assert("via"@.len() != "zone"@.len());
    assert("via_blind"@.len() != "zone"@.len());
    assert("via_micro"@.len() != "zone"@.len());
    assert("setup"@.len() != "zone"@.len());
    assert("version"@.len() != "zone"@.len());
    assert("generator"@.len() != "zone"@.len());
    assert("generator_version"@.len() != "zone"@.len());
    assert("general"@.len() != "zone"@.len());
    assert("paper"@.len() != "zone"@.len());
    assert("layers"@.len() != "zone"@.len());
    assert("net_class"@.len() != "zone"@.len());
    assert("gr_line"@.len() != "zone"@.len());
    assert("gr_rect"@.len() != "zone"@.len());
    assert("gr_arc"@.len() != "zone"@.len());
    assert("gr_circle"@.len() != "zone"@.len());
}

proof fn lemma_differs_from_setup()
    ensures
        "net"@ != "setup"@,
        "footprint"@ != "setup"@,
        "gr_text"@ != "setup"@,
        "segment"@ != "setup"@,
        "via"@ != "setup"@,
        "via_blind"@ != "setup"@,
        "via_micro"@ != "setup"@,
        "zone"@ != "setup"@,
        "version"@ != "setup"@,
        "generator"@ != "setup"@,
        "generator_version"@ != "setup"@,
        "general"@ != "setup"@,
        "paper"@ != "setup"@,
        "layers"@ != "setup"@,
        "net_class"@ != "setup"@,
        "gr_line"@ != "setup"@,
        "gr_rect"@ != "setup"@,
        "gr_arc"@ != "setup"@,
        "gr_circle"@ != "setup"@,
{
    reveal_strlit("net");
    reveal_strlit("footprint");
    reveal_strlit("gr_text");
    reveal_strlit("segment");
    reveal_strlit("via");
    reveal_strlit("via_blind");
    reveal_strlit("via_micro");
    reveal_strlit("zone");
    reveal_strlit("setup");
    reveal_strlit("version");
    reveal_strlit("generator");
    reveal_strlit("generator_version");
    reveal_strlit("general");
    reveal_strlit("paper");
    reveal_strlit("layers");
    reveal_strlit("net_class");
    reveal_strlit("gr_line");
    reveal_strlit("gr_rect");
    reveal_strlit("gr_arc");
    reveal_strlit("gr_circle");
    assert("net"@.len() != "setup"@.len());
    assert("footprint"@.len() != "setup"@.len());
    assert("gr_text"@.len() != "setup"@.len());
    assert("segment"@.len() != "setup"@.len());
    assert("via"@.len() != "setup"@.len());
    assert("via_blind"@.len() != "setup"@.len());
    assert("via_micro"@.len() != "setup"@.len());
    assert("zone"@.len() != "setup"@.len());
    assert("version"@.len() != "setup"@.len());
    assert("generator"@.len() != "setup"@.len());
    assert("generator_version"@.len() != "setup"@.len());
    assert("general"@.len() != "setup"@.len());
    assert("paper"@[0] != "setup"@[0]);
    assert("layers"@.len() != "setup"@.len());
    assert("net_class"@.len() != "setup"@.len());
    assert("gr_line"@.len() != "setup"@.len());
    assert("gr_rect"@.len() != "setup"@.len());
    assert("gr_arc"@.len() != "setup"@.len());
    assert("gr_circle"@.len() != "setup"@.len());
}

#[verifier::spinoff_prover]
#[verifier::rlimit(60)]
proof fn lemma_kids_count_net(b: PcbBoard)
    ensures
        count_kw(pcb_kids(b), "net"@) == b.nets@.len(),
{
    lemma_differs_from_net();
    lemma_count_kids(b, "net"@);
    lemma_uniform_net_trees(b, "net"@);
    lemma_uniform_footprint_trees(b, "net"@);
    lemma_uniform_text_trees(b, "net"@);
    lemma_uniform_segment_trees(b, "net"@);
    lemma_uniform_zone_trees(b, "net"@);
    lemma_count_graphics(b.graphics@, b.graphics@.len() as int, "net"@);
    lemma_head_keywords(b);
    lemma_count_absent(pcb_head(b), "net"@);
    lemma_via_keywords(b);
    lemma_count_absent(via_trees(b), "net"@);
}

#[verifier::spinoff_prover]
#[verifier::rlimit(60)]
proof fn lemma_kids_count_footprint(b: PcbBoard)
    ensures
        count_kw(pcb_kids(b), "footprint"@) == b.footprints@.len(),
{
    lemma_differs_from_footprint();
    lemma_count_kids(b, "footprint"@);
    lemma_uniform_net_trees(b, "footprint"@);
    lemma_uniform_footprint_trees(b, "footprint"@);
    lemma_uniform_text_trees(b, "footprint"@);
    lemma_uniform_segment_trees(b, "footprint"@);
    lemma_uniform_zone_trees(b, "footprint"@);
    lemma_count_graphics(b.graphics@, b.graphics@.len() as int, "footprint"@);
    lemma_head_keywords(b);
    lemma_count_absent(pcb_head(b), "footprint"@);
    lemma_via_keywords(b);
    lemma_count_absent(via_trees(b), "footprint"@);
}

#[verifier::spinoff_prover]
#[verifier::rlimit(60)]
proof fn lemma_kids_count_gr_text(b: PcbBoard)
    ensures
        count_kw(pcb_kids(b), "gr_text"@) == b.texts@.len(),
{
    lemma_differs_from_gr_text();
    lemma_count_kids(b, "gr_text"@);
    lemma_uniform_net_trees(b, "gr_text"@);
    lemma_uniform_footprint_trees(b, "gr_text"@);
    lemma_uniform_text_trees(b, "gr_text"@);
    lemma_uniform_segment_trees(b, "gr_text"@);
    lemma_uniform_zone_trees(b, "gr_text"@);
    lemma_count_graphics(b.graphics@, b.graphics@.len() as int, "gr_text"@);
    lemma_head_keywords(b);
    lemma_count_absent(pcb_head(b), "gr_text"@);
    lemma_via_keywords(b);
    lemma_count_absent(via_trees(b), "gr_text"@);
}

#[verifier::spinoff_prover]
#[verifier::rlimit(60)]
proof fn lemma_kids_count_segment(b: PcbBoard)
    ensures
        count_kw(pcb_kids(b), "segment"@) == b.segments@.len(),
{
    lemma_differs_from_segment();
    lemma_count_kids(b, "segment"@);
    lemma_uniform_net_trees(b, "segment"@);
    lemma_uniform_footprint_trees(b, "segment"@);
    lemma_uniform_text_trees(b, "segment"@);
    lemma_uniform_segment_trees(b, "segment"@);
    lemma_uniform_zone_trees(b, "segment"@);
    lemma_count_graphics(b.graphics@, b.graphics@.len() as int, "segment"@);
    lemma_head_keywords(b);
    lemma_count_absent(pcb_head(b), "segment"@);
    lemma_via_keywords(b);
    lemma_count_absent(via_trees(b), "segment"@);
}

#[verifier::spinoff_prover]
#[verifier::rlimit(60)]
proof fn lemma_kids_count_via(b: PcbBoard)
    ensures
        count_kw(pcb_kids(b), "via"@) == count_kw(via_trees(b), "via"@),
{
    lemma_differs_from_via();
    lemma_count_kids(b, "via"@);
    lemma_uniform_net_trees(b, "via"@);
    lemma_uniform_footprint_trees(b, "via"@);
    lemma_uniform_text_trees(b, "via"@);
    lemma_uniform_segment_trees(b, "via"@);
    lemma_uniform_zone_trees(b, "via"@);
    lemma_count_graphics(b.graphics@, b.graphics@.len() as int, "via"@);
    lemma_head_keywords(b);
    lemma_count_absent(pcb_head(b), "via"@);
}

#[verifier::spinoff_prover]
#[verifier::rlimit(60)]
proof fn lemma_kids_count_via_blind(b: PcbBoard)
    ensures
        count_kw(pcb_kids(b), "via_blind"@) == count_kw(via_trees(b), "via_blind"@),
{
    lemma_differs_from_via_blind();
    lemma_count_kids(b, "via_blind"@);
    lemma_uniform_net_trees(b, "via_blind"@);
    lemma_uniform_footprint_trees(b, "via_blind"@);
    lemma_uniform_text_trees(b, "via_blind"@);
    lemma_uniform_segment_trees(b, "via_blind"@);
    lemma_uniform_zone_trees(b, "via_blind"@);
    lemma_count_graphics(b.graphics@, b.graphics@.len() as int, "via_blind"@);
    lemma_head_keywords(b);
    lemma_count_absent(pcb_head(b), "via_blind"@);
}

#[verifier::spinoff_prover]
#[verifier::rlimit(60)]
proof fn lemma_kids_count_via_micro(b: PcbBoard)
    ensures
        count_kw(pcb_kids(b), "via_micro"@) == count_kw(via_trees(b), "via_micro"@),
{
    lemma_differs_from_via_micro();
    lemma_count_kids(b, "via_micro"@);
    lemma_uniform_net_trees(b, "via_micro"@);
    lemma_uniform_footprint_trees(b, "via_micro"@);
    lemma_uniform_text_trees(b, "via_micro"@);
    lemma_uniform_segment_trees(b, "via_micro"@);
    lemma_uniform_zone_trees(b, "via_micro"@);
    lemma_count_graphics(b.graphics@, b.graphics@.len() as int, "via_micro"@);
    lemma_head_keywords(b);
    lemma_count_absent(pcb_head(b), "via_micro"@);
}

#[verifier::spinoff_prover]
#[verifier::rlimit(60)]
proof fn lemma_kids_count_zone(b: PcbBoard)
    ensures
        count_kw(pcb_kids(b), "zone"@) == b.zones@.len(),
{
    lemma_differs_from_zone();
    lemma_count_kids(b, "zone"@);
    lemma_uniform_net_trees(b, "zone"@);
    lemma_uniform_footprint_trees(b, "zone"@);
    lemma_uniform_text_trees(b, "zone"@);
    lemma_uniform_segment_trees(b, "zone"@);
    lemma_uniform_zone_trees(b, "zone"@);
    lemma_count_graphics(b.graphics@, b.graphics@.len() as int, "zone"@);
    lemma_head_keywords(b);
    lemma_count_absent(pcb_head(b), "zone"@);
    lemma_via_keywords(b);
    lemma_count_absent(via_trees(b), "zone"@);
}

#[verifier::spinoff_prover]
#[verifier::rlimit(60)]
proof fn lemma_kids_count_setup(b: PcbBoard)
    ensures
        count_kw(pcb_kids(b), "setup"@) == if b.setup is Some { 1nat } else { 0nat },
{
    lemma_differs_from_setup();
    lemma_count_kids(b, "setup"@);
    lemma_uniform_net_trees(b, "setup"@);
    lemma_uniform_footprint_trees(b, "setup"@);
    lemma_uniform_text_trees(b, "setup"@);
    lemma_uniform_segment_trees(b, "setup"@);
    lemma_uniform_zone_trees(b, "setup"@);
    lemma_count_graphics(b.graphics@, b.graphics@.len() as int, "setup"@);
    lemma_head_keywords(b);
    let h = pcb_head(b);
    if b.setup is Some {
        let first = h.take(6);
        let rest = h.skip(6);
        assert(h =~= first + rest);
        lemma_count_add(first, rest, "setup"@);
        lemma_count_absent(first, "setup"@);
        assert(rest =~= seq![h[6], h[7]]);
        lemma_count_pair(h[6], h[7], "setup"@);
    } else {
        lemma_count_absent(h, "setup"@);
    }
    lemma_via_keywords(b);
    lemma_count_absent(via_trees(b), "setup"@);
}

/// A written board (`write_pcb` renders `pcb_tree`) holds at its top
/// level, under the keyword `kicad_pcb`, one `net` per net, one
/// `footprint` per footprint, one `gr_text` per board text, one `segment`
/// per track, one `via`, `via_blind` or `via_micro` per via, one `zone`
/// per zone, and one `setup` exactly when the board has design rules.
pub proof fn lemma_pcb_sections(b: PcbBoard)
    ensures
        keyword_of(pcb_tree(b)) == "kicad_pcb"@,
        count_kw(pcb_kids(b), "net"@) == b.nets@.len(),
        count_kw(pcb_kids(b), "footprint"@) == b.footprints@.len(),
        count_kw(pcb_kids(b), "gr_text"@) == b.texts@.len(),
        count_kw(pcb_kids(b), "segment"@) == b.segments@.len(),
        count_kw(pcb_kids(b), "zone"@) == b.zones@.len(),
        count_kw(pcb_kids(b), "via"@) + count_kw(pcb_kids(b), "via_blind"@) + count_kw(pcb_kids(b), "via_micro"@)
            == b.vias@.len(),
        count_kw(pcb_kids(b), "setup"@) == if b.setup is Some {
            1nat
        } else {
            0nat
        },
{
    lemma_kids_count_net(b);
    lemma_kids_count_footprint(b);
    lemma_kids_count_gr_text(b);
    lemma_kids_count_segment(b);
    lemma_kids_count_via(b);
    lemma_kids_count_via_blind(b);
    lemma_kids_count_via_micro(b);
    lemma_kids_count_zone(b);
    lemma_kids_count_setup(b);
    lemma_differs_from_via();
    lemma_differs_from_via_blind();
    lemma_via_keywords(b);
    lemma_count_three(via_trees(b), "via"@, "via_blind"@, "via_micro"@);
}

/// The text `write_pcb` writes reads back, through the S-expression
/// reader, as the board's tree, and so holds the sections
/// `lemma_pcb_sections` counts, when every bare atom of that tree is bare
/// text (as the board's layer types, drill shapes and other bare tokens
/// are when they hold no whitespace, quote or parenthesis).
pub proof fn lemma_pcb_text_reads_back(b: PcbBoard)
    requires
        readable_tree(pcb_tree(b)),
    ensures
        read_spec(render_tree(pcb_tree(b)) + seq!['\n']) == Some(pcb_tree(b)),
        keyword_of(pcb_tree(b)) == "kicad_pcb"@,
        count_kw(pcb_kids(b), "net"@) == b.nets@.len(),
        count_kw(pcb_kids(b), "footprint"@) == b.footprints@.len(),
        count_kw(pcb_kids(b), "gr_text"@) == b.texts@.len(),
        count_kw(pcb_kids(b), "segment"@) == b.segments@.len(),
        count_kw(pcb_kids(b), "zone"@) == b.zones@.len(),
        count_kw(pcb_kids(b), "via"@) + count_kw(pcb_kids(b), "via_blind"@) + count_kw(pcb_kids(b), "via_micro"@)
            == b.vias@.len(),
{
    lemma_read_rendered(pcb_tree(b));
    lemma_pcb_sections(b);
}

} // verus!
