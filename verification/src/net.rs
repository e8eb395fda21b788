//! Net identities and differential pairs.

use vstd::prelude::*;

use crate::coord::Coord;

verus! {

#[derive(Debug, Clone, Copy, PartialEq, Eq, Hash, Structural)]
pub struct NetId(pub u32);

#[derive(Debug, Clone, PartialEq, Eq, Hash)]
pub struct NetClassId(pub String);

/// A net class: its name and design rules, in nanometres.
#[derive(Debug, Clone, PartialEq, Eq)]
pub struct NetClass {
    pub name: String,
    pub clearance: Coord,
    pub trace_width: Coord,
    pub via_diameter: Coord,
    pub via_drill: Coord,
    pub diff_pair_gap: Coord,
    pub diff_pair_width: Coord,
}

#[derive(Debug, Clone)]
pub struct DiffPair {
    pub positive_net: String,
    pub negative_net: String,
    pub class: String,
}

} // verus!
