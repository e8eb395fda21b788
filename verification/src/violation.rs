//! ERC and DRC violation kinds.

use vstd::prelude::*;

use crate::coord::Vec2;

verus! {

/// Electrical rules check findings.
#[derive(Debug, Clone, Copy, PartialEq, Eq, Hash, Structural)]
pub enum ErcViolationType {
    PinConflict,
    UnconnectedPin,
    DuplicateReference,
    MissingValue,
    MissingFootprint,
    MultiplePowerFlags,
    NoPowerFlag,
    DuplicateNetName,
    WireDangling,
    LabelDangling,
    BusConflict,
}

/// Design rules check findings.
#[derive(Debug, Clone, Copy, PartialEq, Eq, Hash, Structural)]
pub enum DrcViolationType {
    Clearance,
    ShortCircuit,
    UnroutedNet,
    MinTrackWidth,
    MinViaDiameter,
    MinViaDrill,
    MinHoleToHole,
    MinAnnularRing,
    MinDrill,
    BoardOutlineClearance,
    SilkToMask,
    SilkToSilk,
    AcuteAngle,
    AcidTrap,
    CopperSliver,
}

#[derive(Debug, Clone, Copy, PartialEq, Eq, Hash, Structural)]
pub enum Severity {
    Error,
    Warning,
    Info,
}

#[derive(Debug, Clone, Copy, PartialEq, Eq, Hash, Structural)]
pub enum ViolationType {
    Erc(ErcViolationType),
    Drc(DrcViolationType),
}

/// A rules-check finding: its kind, severity, message, where it is (in
/// nanometres) and the UUIDs or references of the objects involved.
#[derive(Debug, Clone, PartialEq, Eq)]
pub struct Violation {
    pub violation_type: ViolationType,
    pub severity: Severity,
    pub message: String,
    pub location: Vec2,
    pub objects: Vec<String>,
}

} // verus!
