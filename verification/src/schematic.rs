//! Schematic enumerations and the integer/string-valued schematic records.

use vstd::prelude::*;

use crate::coord::{Coord, Vec2};
use crate::varmap::VarMap;

verus! {

/// Default schematic text height (1.27 mm), in nanometres.
pub const SCHEMATIC_TEXT_NM: i64 = 1_270_000;

/// One typographic point of schematic text (0.127 mm), in nanometres.
pub const SCHEMATIC_PT_TO_NM: i64 = 127_000;

/// The schematic grid (2.54 mm, 100 mil), in nanometres.
pub const GRID_NM: i64 = 2_540_000;

/// Default pin length: one grid step.
pub const PIN_LENGTH_NM: i64 = GRID_NM;

/// Default distance of pin names from the body (0.508 mm).
pub const PIN_NAME_OFFSET_NM: i64 = 508_000;

#[derive(Debug, Clone, Copy, Default, PartialEq, Eq, Hash, Structural)]
pub enum HAlign {
    Left,
    #[default]
    Center,
    Right,
}

#[derive(Debug, Clone, Copy, Default, PartialEq, Eq, Hash, Structural)]
pub enum VAlign {
    Top,
    #[default]
    Center,
    Bottom,
}

#[derive(Debug, Clone, Copy, Default, PartialEq, Eq, Hash, Structural)]
pub enum FillType {
    /// No fill. Written `none` in KiCad files; the name `None` would clash with Verus's prelude.
    #[default]
    Unfilled,
    Outline,
    Background,
}

/// Pin electrical role.
#[derive(Debug, Clone, Copy, PartialEq, Eq, Hash, Structural)]
pub enum PinDirection {
    /// Drives signal in.
    Input,
    /// Drives signal out.
    Output,
    /// Drives signal both ways depending on context.
    Bidirectional,
    /// Tri-statable output; can be high-Z.
    ThreeStatable,
    /// Passive electrical (resistor / capacitor / inductor terminal).
    Passive,
    /// Power supply input pin.
    PowerInput,
    /// Power supply output pin.
    PowerOutput,
    /// Ground reference, distinguished from generic power.
    GroundReference,
    /// Open-drain / open-collector, active-low output.
    OpenDrainLow,
    /// Open-drain / open-emitter, active-high output.
    OpenDrainHigh,
    /// Differential pair member.
    Differential,
    /// Clock pin (modeled as a direction, not a shape).
    Clock,
    /// Pin must remain unconnected.
    DoNotConnect,
    /// Not classified yet (the default for new pins).
    Unclassified,
}

/// Pin graphic decoration on the symbol pin tip.
#[derive(Debug, Clone, Copy, PartialEq, Eq, Hash, Structural)]
pub enum PinShapeStyle {
    Plain,
    InvertedBubble,
    ClockTriangle,
    InvertedClockBubble,
    HysteresisInput,
    HysteresisOutput,
    Schmitt,
}

#[derive(Debug, Clone, Copy, PartialEq, Eq, Hash, Structural)]
pub enum LabelType {
    Net,
    Global,
    Hierarchical,
    Power,
}

/// One placement of a symbol in a project's sheet hierarchy.
#[derive(Debug, Clone, Default, PartialEq, Eq)]
pub struct SymbolInstance {
    pub project: String,
    pub path: String,
    pub reference: String,
    pub unit: u32,
}

/// One placement of a child sheet in a project's sheet hierarchy.
#[derive(Debug, Clone, Default, PartialEq, Eq)]
pub struct SheetInstance {
    pub project: String,
    pub path: String,
    pub page: String,
}

/// An RGBA override for a drawing's stroke or fill.
#[derive(Debug, Clone, Copy, PartialEq, Eq, Structural)]
pub struct StrokeColor {
    pub r: u8,
    pub g: u8,
    pub b: u8,
    pub a: u8,
}

/// What the user has selected on the canvas.
#[derive(Debug, Clone, Copy, PartialEq, Eq, Hash, Structural)]
pub enum SelectedKind {
    Symbol,
    Wire,
    Bus,
    BusEntry,
    Junction,
    NoConnect,
    Label,
    /// Hierarchical sheet pin rendered on a child-sheet symbol.
    SheetPin,
    TextNote,
    ChildSheet,
    Drawing,
    /// Symbol reference field; the selection's UUID is the symbol's.
    SymbolRefField,
    /// Symbol value field; the selection's UUID is the symbol's.
    SymbolValField,
}

/// A selected element: its UUID's 128 bits and its kind.
#[derive(Debug, Clone, Copy, PartialEq, Eq, Hash, Structural)]
pub struct SelectedItem {
    pub uuid: u128,
    pub kind: SelectedKind,
}

impl SelectedItem {
    pub fn new(uuid: u128, kind: SelectedKind) -> (r: SelectedItem)
        ensures
            r == (SelectedItem { uuid, kind }),
    {
        SelectedItem { uuid, kind }
    }
}

/// Body style of a library graphic or pin when none is given: the normal one.
pub fn default_body_style() -> (r: u32)
    ensures
        r == 1,
{
    1
}

/// The value of flags that default to set.
pub fn default_true() -> (r: bool)
    ensures
        r,
{
    true
}

/// Unit of a symbol when none is given: the first.
pub fn default_unit() -> (r: u32)
    ensures
        r == 1,
{
    1
}

/// Vertical justification of a label when none is given.
pub fn default_label_v_align() -> (r: VAlign)
    ensures
        r == VAlign::Bottom,
{
    VAlign::Bottom
}

/// Page number of the root sheet when none is given.
pub fn default_root_sheet_page() -> (r: String)
    ensures
        r@ == "1"@,
{
    "1".to_owned()
}

/// A drawing inside a library symbol. Lengths are nanometres, angles
/// millionths of a degree.
#[derive(Debug, Clone, PartialEq, Eq)]
pub enum Graphic {
    Polyline { points: Vec<Vec2>, width: Coord, fill: FillType },
    Rectangle { start: Vec2, end: Vec2, width: Coord, fill: FillType },
    Circle { center: Vec2, radius: Coord, width: Coord, fill: FillType },
    Arc { start: Vec2, mid: Vec2, end: Vec2, width: Coord, fill: FillType },
    Text {
        text: String,
        position: Vec2,
        rotation: i64,
        font_size: Coord,
        bold: bool,
        italic: bool,
        justify_h: HAlign,
        justify_v: VAlign,
    },
    TextBox {
        text: String,
        position: Vec2,
        rotation: i64,
        size: Vec2,
        font_size: Coord,
        bold: bool,
        italic: bool,
        width: Coord,
        fill: FillType,
    },
    /// Cubic bezier through its control points (start, two controls, end).
    Bezier { points: Vec<Vec2>, width: Coord, fill: FillType },
}

/// A library drawing as values: its text and points as sequences.
pub enum GraphicView {
    Polyline { points: Seq<Vec2>, width: Coord, fill: FillType },
    Rectangle { start: Vec2, end: Vec2, width: Coord, fill: FillType },
    Circle { center: Vec2, radius: Coord, width: Coord, fill: FillType },
    Arc { start: Vec2, mid: Vec2, end: Vec2, width: Coord, fill: FillType },
    Text {
        text: Seq<char>,
        position: Vec2,
        rotation: i64,
        font_size: Coord,
        bold: bool,
        italic: bool,
        justify_h: HAlign,
        justify_v: VAlign,
    },
    TextBox {
        text: Seq<char>,
        position: Vec2,
        rotation: i64,
        size: Vec2,
        font_size: Coord,
        bold: bool,
        italic: bool,
        width: Coord,
        fill: FillType,
    },
    Bezier { points: Seq<Vec2>, width: Coord, fill: FillType },
}

impl View for Graphic {
    type V = GraphicView;

    open spec fn view(&self) -> GraphicView {
        match *self {
            Graphic::Polyline { points, width, fill } => GraphicView::Polyline { points: points@, width, fill },
            Graphic::Rectangle { start, end, width, fill } => GraphicView::Rectangle { start, end, width, fill },
            Graphic::Circle { center, radius, width, fill } => GraphicView::Circle { center, radius, width, fill },
            Graphic::Arc { start, mid, end, width, fill } => GraphicView::Arc { start, mid, end, width, fill },
            Graphic::Text { text, position, rotation, font_size, bold, italic, justify_h, justify_v } => GraphicView::Text {
                text: text@,
                position,
                rotation,
                font_size,
                bold,
                italic,
                justify_h,
                justify_v,
            },
            Graphic::TextBox { text, position, rotation, size, font_size, bold, italic, width, fill } => GraphicView::TextBox {
                text: text@,
                position,
                rotation,
                size,
                font_size,
                bold,
                italic,
                width,
                fill,
            },
            Graphic::Bezier { points, width, fill } => GraphicView::Bezier { points: points@, width, fill },
        }
    }
}

/// A pin as values.
pub struct PinView {
    pub direction: PinDirection,
    pub shape_style: PinShapeStyle,
    pub position: Vec2,
    pub rotation: i64,
    pub length: Coord,
    pub name: Seq<char>,
    pub number: Seq<char>,
    pub visible: bool,
    pub name_visible: bool,
    pub number_visible: bool,
}

/// A pin of a library symbol.
#[derive(Debug, Clone, PartialEq, Eq)]
pub struct Pin {
    pub direction: PinDirection,
    pub shape_style: PinShapeStyle,
    pub position: Vec2,
    pub rotation: i64,
    pub length: Coord,
    pub name: String,
    pub number: String,
    pub visible: bool,
    pub name_visible: bool,
    pub number_visible: bool,
}

impl View for Pin {
    type V = PinView;

    open spec fn view(&self) -> PinView {
        PinView {
            direction: self.direction,
            shape_style: self.shape_style,
            position: self.position,
            rotation: self.rotation,
            length: self.length,
            name: self.name@,
            number: self.number@,
            visible: self.visible,
            name_visible: self.name_visible,
            number_visible: self.number_visible,
        }
    }
}

/// A library drawing, for unit `unit` (0: every unit) and body style
/// `body_style` (0: both, 1: normal, 2: De Morgan).
#[derive(Debug, Clone, PartialEq, Eq)]
pub struct LibGraphic {
    pub unit: u32,
    pub body_style: u32,
    pub graphic: Graphic,
}

/// A library pin, for a unit and body style as for `LibGraphic`.
#[derive(Debug, Clone, PartialEq, Eq)]
pub struct LibPin {
    pub unit: u32,
    pub body_style: u32,
    pub pin: Pin,
}

impl View for LibGraphic {
    type V = (u32, u32, GraphicView);

    open spec fn view(&self) -> (u32, u32, GraphicView) {
        (self.unit, self.body_style, self.graphic@)
    }
}

impl View for LibPin {
    type V = (u32, u32, PinView);

    open spec fn view(&self) -> (u32, u32, PinView) {
        (self.unit, self.body_style, self.pin@)
    }
}

/// A library symbol: its fields, flags, drawings and pins.
#[derive(Debug, Clone, PartialEq, Eq)]
pub struct LibSymbol {
    pub id: String,
    pub reference: String,
    pub value: String,
    pub footprint: String,
    pub datasheet: String,
    pub description: String,
    pub keywords: String,
    pub fp_filters: String,
    pub in_bom: bool,
    pub on_board: bool,
    pub in_pos_files: bool,
    pub duplicate_pin_numbers_are_jumpers: bool,
    pub graphics: Vec<LibGraphic>,
    pub pins: Vec<LibPin>,
    pub show_pin_numbers: bool,
    pub show_pin_names: bool,
    /// Distance of pin names from the body, in nanometres.
    pub pin_name_offset: Coord,
}


/// Placement and style of a symbol's reference or value text.
#[derive(Debug, Clone, Copy, PartialEq, Eq, Structural)]
pub struct TextProp {
    pub position: Vec2,
    /// Millionths of a degree.
    pub rotation: i64,
    /// Nanometres.
    pub font_size: Coord,
    pub justify_h: HAlign,
    pub justify_v: VAlign,
    pub hidden: bool,
}

/// A symbol property with its KiCad metadata.
#[derive(Debug)]
pub struct SchematicProperty {
    pub key: String,
    pub value: String,
    pub id: Option<u32>,
    pub text: Option<TextProp>,
    pub show_name: Option<bool>,
    pub do_not_autoplace: Option<bool>,
    /// Values per variant name.
    pub variant_overrides: VarMap,
}

/// A placed symbol. Lengths are nanometres, angles millionths of a degree;
/// `uuid` and the pin UUIDs are the 128-bit values of the UUIDs.
#[derive(Debug)]
pub struct Symbol {
    pub uuid: u128,
    pub lib_id: String,
    pub reference: String,
    pub value: String,
    pub footprint: String,
    pub datasheet: String,
    pub position: Vec2,
    pub rotation: i64,
    pub mirror_x: bool,
    pub mirror_y: bool,
    pub unit: u32,
    pub is_power: bool,
    pub ref_text: Option<TextProp>,
    pub val_text: Option<TextProp>,
    pub fields_autoplaced: bool,
    pub fields_user_placed: bool,
    pub dnp: bool,
    pub in_bom: bool,
    pub on_board: bool,
    pub exclude_from_sim: bool,
    pub locked: bool,
    /// Further fields by name.
    pub fields: VarMap,
    pub custom_properties: Vec<SchematicProperty>,
    /// UUID of each pin, by pin number; each number occurs once.
    pub pin_uuids: Vec<(String, u128)>,
    pub instances: Vec<SymbolInstance>,
}

#[derive(Debug, Clone, Copy, PartialEq, Eq, Structural)]
pub struct Wire {
    pub uuid: u128,
    pub start: Vec2,
    pub end: Vec2,
    /// Nanometres; 0 means the schematic default.
    pub stroke_width: Coord,
}

#[derive(Debug, Clone, Copy, PartialEq, Eq, Structural)]
pub struct Junction {
    pub uuid: u128,
    pub position: Vec2,
    /// Nanometres; 0 means the theme default.
    pub diameter: Coord,
}

#[derive(Debug, Clone, PartialEq, Eq)]
pub struct Label {
    pub uuid: u128,
    pub text: String,
    pub position: Vec2,
    pub rotation: i64,
    pub label_type: LabelType,
    pub shape: String,
    pub font_size: Coord,
    pub justify: HAlign,
    pub justify_v: VAlign,
}

#[derive(Debug, Clone, Copy, PartialEq, Eq, Structural)]
pub struct NoConnect {
    pub uuid: u128,
    pub position: Vec2,
}

#[derive(Debug, Clone, PartialEq, Eq)]
pub struct TextNote {
    pub uuid: u128,
    pub text: String,
    pub position: Vec2,
    pub rotation: i64,
    pub font_size: Coord,
    pub justify_h: HAlign,
    pub justify_v: VAlign,
}

#[derive(Debug, Clone, Copy, PartialEq, Eq, Structural)]
pub struct Bus {
    pub uuid: u128,
    pub start: Vec2,
    pub end: Vec2,
}

#[derive(Debug, Clone, Copy, PartialEq, Eq)]
pub struct BusEntry {
    pub uuid: u128,
    pub position: Vec2,
    pub size: (Coord, Coord),
}

#[derive(Debug, Clone, PartialEq, Eq)]
pub struct SheetPin {
    pub uuid: u128,
    pub name: String,
    pub direction: String,
    pub position: Vec2,
    pub rotation: i64,
    pub auto_generated: bool,
    pub user_moved: bool,
}

#[derive(Debug, PartialEq, Eq)]
pub struct ChildSheet {
    pub uuid: u128,
    pub name: String,
    pub filename: String,
    pub position: Vec2,
    pub size: (Coord, Coord),
    pub stroke_width: Coord,
    pub fill: FillType,
    pub stroke_color: Option<StrokeColor>,
    pub fill_color: Option<StrokeColor>,
    pub fields_autoplaced: bool,
    pub pins: Vec<SheetPin>,
    pub instances: Vec<SheetInstance>,
}

/// A free drawing on a schematic sheet.
#[derive(Debug, Clone, PartialEq, Eq)]
pub enum SchDrawing {
    Line { uuid: u128, start: Vec2, end: Vec2, width: Coord, stroke_color: Option<StrokeColor> },
    Rect { uuid: u128, start: Vec2, end: Vec2, width: Coord, fill: FillType, stroke_color: Option<StrokeColor> },
    Circle { uuid: u128, center: Vec2, radius: Coord, width: Coord, fill: FillType, stroke_color: Option<StrokeColor> },
    Arc { uuid: u128, start: Vec2, mid: Vec2, end: Vec2, width: Coord, fill: FillType, stroke_color: Option<StrokeColor> },
    Polyline { uuid: u128, points: Vec<Vec2>, width: Coord, fill: FillType, stroke_color: Option<StrokeColor> },
}

/// A free drawing as values.
pub enum SchDrawingView {
    Line { uuid: u128, start: Vec2, end: Vec2, width: Coord, stroke_color: Option<StrokeColor> },
    Rect { uuid: u128, start: Vec2, end: Vec2, width: Coord, fill: FillType, stroke_color: Option<StrokeColor> },
    Circle { uuid: u128, center: Vec2, radius: Coord, width: Coord, fill: FillType, stroke_color: Option<StrokeColor> },
    Arc { uuid: u128, start: Vec2, mid: Vec2, end: Vec2, width: Coord, fill: FillType, stroke_color: Option<StrokeColor> },
    Polyline { uuid: u128, points: Seq<Vec2>, width: Coord, fill: FillType, stroke_color: Option<StrokeColor> },
}

impl View for SchDrawing {
    type V = SchDrawingView;

    open spec fn view(&self) -> SchDrawingView {
        match *self {
            SchDrawing::Line { uuid, start, end, width, stroke_color } => SchDrawingView::Line { uuid, start, end, width, stroke_color },
            SchDrawing::Rect { uuid, start, end, width, fill, stroke_color } => SchDrawingView::Rect {
                uuid,
                start,
                end,
                width,
                fill,
                stroke_color,
            },
            SchDrawing::Circle { uuid, center, radius, width, fill, stroke_color } => SchDrawingView::Circle {
                uuid,
                center,
                radius,
                width,
                fill,
                stroke_color,
            },
            SchDrawing::Arc { uuid, start, mid, end, width, fill, stroke_color } => SchDrawingView::Arc {
                uuid,
                start,
                mid,
                end,
                width,
                fill,
                stroke_color,
            },
            SchDrawing::Polyline { uuid, points, width, fill, stroke_color } => SchDrawingView::Polyline {
                uuid,
                points: points@,
                width,
                fill,
                stroke_color,
            },
        }
    }
}

/// A whole schematic sheet.
#[derive(Debug)]
pub struct SchematicSheet {
    pub uuid: u128,
    pub version: u32,
    pub generator: String,
    pub generator_version: String,
    pub paper_size: String,
    pub root_sheet_page: String,
    pub symbols: Vec<Symbol>,
    pub wires: Vec<Wire>,
    pub junctions: Vec<Junction>,
    pub labels: Vec<Label>,
    pub child_sheets: Vec<ChildSheet>,
    pub no_connects: Vec<NoConnect>,
    pub text_notes: Vec<TextNote>,
    pub buses: Vec<Bus>,
    pub bus_entries: Vec<BusEntry>,
    pub drawings: Vec<SchDrawing>,
    pub no_erc_directives: Vec<NoConnect>,
    pub title_block: VarMap,
    /// Library symbols by library id; each id occurs once.
    pub lib_symbols: Vec<(String, LibSymbol)>,
}

} // verus!
