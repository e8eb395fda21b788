//! The board model: pads, footprints, tracks, vias, zones and board
//! graphics. Lengths are integer nanometres; angles are millionths of a
//! degree; ratios are millionths.

use vstd::prelude::*;

use crate::coord::{Coord, Vec2};

verus! {

#[derive(Debug, Clone, Copy, PartialEq, Eq, Hash, Structural)]
pub enum PadType {
    Thru,
    Smd,
    Connect,
    NpThru,
}

#[derive(Debug, Clone, Copy, PartialEq, Eq, Hash, Structural)]
pub enum PadShape {
    Circle,
    Rect,
    Oval,
    Trapezoid,
    RoundRect,
    Custom,
}

#[derive(Debug, Clone, Copy, PartialEq, Eq, Hash, Structural)]
pub enum ViaType {
    Through,
    Blind,
    Micro,
}


/// Default board text height (1 mm).
pub const PCB_DEFAULT_TEXT_SIZE: Coord = 1_000_000;

/// Default stroke of board text (0.15 mm).
pub const PCB_TEXT_THICKNESS: Coord = 150_000;

/// How far a footprint's reference and value sit above and below its
/// origin (1.5 mm).
pub const PCB_FP_TEXT_OFFSET: Coord = 1_500_000;

/// A board layer: its number, name and kind.
#[derive(Debug, Clone, PartialEq, Eq)]
pub struct LayerDef {
    pub id: u8,
    pub name: String,
    pub layer_type: String,
}

/// A net: its number and name.
#[derive(Debug, Clone, PartialEq, Eq)]
pub struct NetDef {
    pub number: u32,
    pub name: String,
}

/// Design rules of the board.
#[derive(Debug, Clone, Copy, PartialEq, Eq, Structural)]
pub struct PcbSetup {
    pub clearance: Coord,
    pub trace_width: Coord,
    pub via_diameter: Coord,
    pub via_drill: Coord,
    pub via_min_diameter: Coord,
    pub via_min_drill: Coord,
}

/// A pad's drill: its shape token (empty for round) and diameter.
#[derive(Debug, Clone, PartialEq, Eq)]
pub struct DrillDef {
    pub shape: String,
    pub diameter: Coord,
}

/// The net a pad is on.
#[derive(Debug, Clone, PartialEq, Eq)]
pub struct PadNet {
    pub number: u32,
    pub name: String,
}

#[derive(Debug, Clone, PartialEq, Eq)]
pub struct Pad {
    pub uuid: u128,
    pub number: String,
    pub pad_type: PadType,
    pub shape: PadShape,
    pub position: Vec2,
    pub size: Vec2,
    pub drill: Option<DrillDef>,
    pub layers: Vec<String>,
    pub net: Option<PadNet>,
    /// Corner radius over the smaller side, in millionths.
    pub roundrect_ratio: i64,
}

/// A footprint drawing: line, rect, circle, arc, poly or text.
#[derive(Debug, Clone, PartialEq, Eq)]
pub struct FpGraphic {
    pub graphic_type: String,
    pub layer: String,
    pub width: Coord,
    pub start: Option<Vec2>,
    pub end: Option<Vec2>,
    pub center: Option<Vec2>,
    pub mid: Option<Vec2>,
    pub radius: Coord,
    pub points: Vec<Vec2>,
    pub text: String,
    pub font_size: Coord,
    pub position: Option<Vec2>,
    pub rotation: i64,
    pub fill: String,
}

/// A footprint property (reference, value or any other field).
#[derive(Debug, Clone, PartialEq, Eq)]
pub struct PcbProperty {
    pub key: String,
    pub value: String,
    pub position: Option<Vec2>,
    pub rotation: i64,
    pub layer: Option<String>,
    pub font_size: Option<Coord>,
    pub hidden: bool,
}

#[derive(Debug, Clone, PartialEq, Eq)]
pub struct Footprint {
    pub uuid: u128,
    pub reference: String,
    pub value: String,
    pub footprint_id: String,
    pub position: Vec2,
    pub rotation: i64,
    pub layer: String,
    pub locked: bool,
    pub pads: Vec<Pad>,
    pub graphics: Vec<FpGraphic>,
    pub properties: Vec<PcbProperty>,
}

/// A board drawing: line, rect, circle or arc.
#[derive(Debug, Clone, PartialEq, Eq)]
pub struct BoardGraphic {
    pub graphic_type: String,
    pub layer: String,
    pub width: Coord,
    pub start: Option<Vec2>,
    pub end: Option<Vec2>,
    pub center: Option<Vec2>,
    pub radius: Coord,
}

#[derive(Debug, Clone, PartialEq, Eq)]
pub struct BoardText {
    pub uuid: u128,
    pub text: String,
    pub position: Vec2,
    pub rotation: i64,
    pub layer: String,
    pub font_size: Coord,
}

/// A track segment.
#[derive(Debug, Clone, PartialEq, Eq)]
pub struct Segment {
    pub uuid: u128,
    pub start: Vec2,
    pub end: Vec2,
    pub width: Coord,
    pub layer: String,
    pub net: u32,
}

#[derive(Debug, Clone, PartialEq, Eq)]
pub struct Via {
    pub uuid: u128,
    pub position: Vec2,
    pub diameter: Coord,
    pub drill: Coord,
    pub layers: Vec<String>,
    pub net: u32,
    pub via_type: ViaType,
}

/// A copper zone.
#[derive(Debug, Clone, PartialEq, Eq)]
pub struct Zone {
    pub uuid: u128,
    pub net: u32,
    pub net_name: String,
    pub layer: String,
    pub priority: u32,
    pub thermal_relief: bool,
    pub thermal_gap: Coord,
    pub thermal_width: Coord,
    pub min_thickness: Coord,
    pub clearance: Coord,
    pub outline: Vec<Vec2>,
}

/// A whole board.
#[derive(Debug, Clone, PartialEq, Eq)]
pub struct PcbBoard {
    pub uuid: u128,
    pub version: u32,
    pub generator: String,
    pub thickness: Coord,
    pub outline: Vec<Vec2>,
    pub layers: Vec<LayerDef>,
    pub setup: Option<PcbSetup>,
    pub nets: Vec<NetDef>,
    pub footprints: Vec<Footprint>,
    pub segments: Vec<Segment>,
    pub vias: Vec<Via>,
    pub zones: Vec<Zone>,
    pub graphics: Vec<BoardGraphic>,
    pub texts: Vec<BoardText>,
}

} // verus!
