use signex_kicad::coord::Vec2;
use signex_kicad::pcb::{DrillDef, Footprint, Pad, PadNet, PadShape, PadType, PcbBoard};
use signex_kicad::schematic::{SchematicSheet, Symbol, SymbolInstance};
use signex_kicad::snx::FormatError;
use signex_kicad::snx_pcb::{PadExtras, PcbExtras};
use signex_kicad::snx_rows::{
    attach_pads, board_sections, pad_to_row, read_rows, row_to_pad, sheet_sections, symbol_to_row,
    write_rows, PcbPadRow, PcbTrackRow, SchComponentRow, SchJunctionRow, SchLabelRow, SchWireRow,
    SnxTable,
};
use signex_kicad::snx_symbols::{row_to_symbol, SymbolExtras};
use signex_kicad::varmap::VarMap;

const MM: i64 = 1_000_000;
const DEG: i64 = 1_000_000;
const U1: u128 = 0x0192a8c0_0001_7000_8000_000000000001;

fn refs(v: &[String]) -> Vec<&str> {
    v.iter().map(|s| s.as_str()).collect()
}

fn field_of(e: FormatError) -> (String, usize, String, String) {
    match e {
        FormatError::TsvFieldParse { block, row, field, message } => (block, row, field, message),
        other => panic!("unexpected error: {other:?}"),
    }
}

#[test]
fn junction_row_cells_and_back() {
    let row = SchJunctionRow { uuid: U1, pos_x: 50_800_000, pos_y: -1, diameter: 0 };
    let cells = row.to_row();
    assert_eq!(cells, vec!["0192a8c0-0001-7000-8000-000000000001", "50800000", "-1", "0"]);
    assert_eq!(SchJunctionRow::from_row(&refs(&cells), "sheets.junctions", 0), Ok(row));
}

#[test]
fn label_row_writes_angles_and_sizes_as_decimals() {
    let row = SchLabelRow {
        uuid: 0,
        text: "VCC".to_string(),
        pos_x: 20 * MM,
        pos_y: 5 * MM,
        rotation: 90 * DEG,
        kind: "global".to_string(),
        shape: "input".to_string(),
        font_size: 1_270_000,
        justify: "left".to_string(),
        justify_v: "bottom".to_string(),
    };
    let cells = row.to_row();
    assert_eq!(cells[4], "90");
    assert_eq!(cells[7], "1.27");
    assert_eq!(SchLabelRow::from_row(&refs(&cells), "sheets.labels", 3), Ok(row));
}

#[test]
fn empty_uuid_and_decimal_cells_read_as_zero() {
    let row = SchJunctionRow::from_row(&["", "1", "2", ""], "sheets.junctions", 0).unwrap();
    assert_eq!(row, SchJunctionRow { uuid: 0, pos_x: 1, pos_y: 2, diameter: 0 });
}

#[test]
fn the_first_bad_field_is_the_error() {
    let e = SchJunctionRow::from_row(&["", "x", "y", "0"], "sheets.junctions", 4).unwrap_err();
    assert_eq!(
        field_of(e),
        (
            "sheets.junctions".to_string(),
            4,
            "pos_x".to_string(),
            "invalid digit found in string".to_string()
        )
    );
    let e = SchJunctionRow::from_row(&["", "1", "2", "1e3"], "sheets.junctions", 0).unwrap_err();
    assert_eq!(field_of(e).3, "invalid float literal");
    let e = SchJunctionRow::from_row(&["not-a-uuid", "1", "2", "0"], "sheets.junctions", 0).unwrap_err();
    assert_eq!(field_of(e).2, "uuid");
}

#[test]
fn net_numbers_read_as_u32() {
    let cells = ["", "-1", "F.Cu", "1", "0", "0", "1", "1"];
    let e = PcbTrackRow::from_row(&cells, "tracks", 0).unwrap_err();
    assert_eq!(field_of(e).3, "invalid digit found in string");
    let cells = ["", "4294967296", "F.Cu", "1", "0", "0", "1", "1"];
    let e = PcbTrackRow::from_row(&cells, "tracks", 0).unwrap_err();
    assert_eq!(field_of(e).3, "number too large to fit in target type");
    let cells = ["", "+7", "F.Cu", "1", "0", "0", "1", "1"];
    assert_eq!(PcbTrackRow::from_row(&cells, "tracks", 0).unwrap().net, 7);
}

fn wire(uuid: u128, x: i64) -> SchWireRow {
    SchWireRow {
        uuid,
        net: String::new(),
        start_x: x,
        start_y: 0,
        end_x: x + 2_540_000,
        end_y: -3,
        stroke_width: 150_000,
    }
}

#[test]
fn rows_survive_a_block() {
    let rows = vec![wire(1, 0), wire(U1, -7)];
    let text = write_rows(&rows);
    let back: Vec<SchWireRow> = read_rows("sheets.wires", &text).unwrap();
    assert_eq!(back, rows);
}

#[test]
fn integer_nanometre_coords_survive_round_trip() {
    let row = SchComponentRow {
        uuid: U1,
        ref_des: "U1".to_string(),
        library: "lm2596.snxsym".to_string(),
        pos_x: 50_800_001,
        pos_y: 25_400_002,
        rotation: 0,
        value: "LM2596".to_string(),
        mpn: String::new(),
    };
    let text = write_rows(&[row.clone()]);
    let back: Vec<SchComponentRow> = read_rows("sheets.components", &text).unwrap();
    assert_eq!(back[0].pos_x, 50_800_001);
    assert_eq!(back[0], row);
}

#[test]
fn a_bad_row_names_its_number() {
    let text = "uuid  pos_x  pos_y  diameter\n\"\"  1  2  0\n\"\"  1  zz  0\n";
    let e = read_rows::<SchJunctionRow>("sheets.junctions", text).unwrap_err();
    let (_, row, field, _) = field_of(e);
    assert_eq!((row, field.as_str()), (1, "pos_y"));
}

#[test]
fn columns_name_the_header() {
    assert_eq!(
        SchJunctionRow::columns(),
        vec!["uuid", "pos_x", "pos_y", "diameter"]
    );
}

fn empty_sheet() -> SchematicSheet {
    SchematicSheet {
        uuid: 0,
        version: 1,
        generator: "signex-test".into(),
        generator_version: "0.9".into(),
        paper_size: "A4".into(),
        root_sheet_page: "1".into(),
        symbols: vec![],
        wires: vec![],
        junctions: vec![],
        labels: vec![],
        child_sheets: vec![],
        no_connects: vec![],
        text_notes: vec![],
        buses: vec![],
        bus_entries: vec![],
        drawings: vec![],
        no_erc_directives: vec![],
        title_block: VarMap::new(),
        lib_symbols: vec![],
    }
}

fn empty_board() -> PcbBoard {
    PcbBoard {
        uuid: 0,
        version: 1,
        generator: "signex-test".into(),
        thickness: 1_600_000,
        outline: vec![],
        layers: vec![],
        setup: None,
        nets: vec![],
        footprints: vec![],
        segments: vec![],
        vias: vec![],
        zones: vec![],
        graphics: vec![],
        texts: vec![],
    }
}

#[test]
fn snxsch_includes_tsv_blocks_substring() {
    let s = sheet_sections(&empty_sheet());
    assert!(s.contains("[sheets.components]\ncontent = \"\"\""));
    assert!(s.contains("[sheets.wires]\ncontent = \"\"\""));
    assert!(s.contains("[sheets.junctions]\ncontent = \"\"\""));
    assert!(s.contains("[sheets.labels]\ncontent = \"\"\""));
}

#[test]
fn snxpcb_includes_tsv_blocks_substring() {
    let s = board_sections(&empty_board());
    assert!(s.contains("[footprints]\ncontent = \"\"\""));
    assert!(s.contains("[pads]\ncontent = \"\"\""));
    assert!(s.contains("[tracks]\ncontent = \"\"\""));
    assert!(s.contains("[vias]\ncontent = \"\"\""));
}

#[test]
fn sections_hold_the_header_and_rows() {
    let s = sheet_sections(&empty_sheet());
    assert!(s.starts_with("\n[sheets.components]\ncontent = \"\"\"\nuuid  ref  library"));
    assert!(s.ends_with("justify  justify_v\n\"\"\"\n"));
}

fn sample_symbol() -> Symbol {
    let mut fields = VarMap::new();
    fields.insert("MPN".to_string(), "LM2596S-5.0".to_string());
    fields.insert("Tolerance".to_string(), "1%".to_string());
    Symbol {
        uuid: U1,
        lib_id: "lm2596.snxsym".to_string(),
        reference: "U1".to_string(),
        value: "LM2596".to_string(),
        footprint: "TO-263.snxfpt".to_string(),
        datasheet: String::new(),
        position: Vec2 { x: 50_800_000, y: 25_400_000 },
        rotation: 0,
        mirror_x: false,
        mirror_y: false,
        unit: 1,
        is_power: false,
        ref_text: None,
        val_text: None,
        fields_autoplaced: false,
        fields_user_placed: false,
        dnp: true,
        in_bom: true,
        on_board: true,
        exclude_from_sim: false,
        locked: false,
        fields,
        custom_properties: vec![],
        pin_uuids: vec![("1".to_string(), 5)],
        instances: vec![SymbolInstance {
            project: "p".to_string(),
            path: "/".to_string(),
            reference: "U1".to_string(),
            unit: 1,
        }],
    }
}

#[test]
fn extras_preserve_symbol_fields() {
    let sym = sample_symbol();
    let row = symbol_to_row(&sym);
    assert_eq!(row.mpn, "LM2596S-5.0");
    let extras = SymbolExtras::from_symbol(&sym);
    assert!(!extras.is_default());
    let recovered = row_to_symbol(row, extras);
    assert_eq!(recovered.fields.get("MPN").unwrap(), "LM2596S-5.0");
    assert_eq!(recovered.fields.get("Tolerance").unwrap(), "1%");
    assert!(recovered.dnp);
    assert_eq!(recovered.pin_uuids, sym.pin_uuids);
}

#[test]
fn the_row_mpn_fills_in_a_missing_field() {
    let mut sym = sample_symbol();
    let row = symbol_to_row(&sym);
    sym.fields = VarMap::new();
    let back = row_to_symbol(row, SymbolExtras::from_symbol(&sym));
    assert_eq!(back.fields.get("MPN").unwrap(), "LM2596S-5.0");
    assert_eq!(back.fields.get("Tolerance"), None);
}

fn footprint(reference: &str) -> Footprint {
    Footprint {
        uuid: 9,
        reference: reference.to_string(),
        value: "10k".to_string(),
        footprint_id: "R_0603".to_string(),
        position: Vec2 { x: MM, y: MM },
        rotation: 0,
        layer: "F.Cu".to_string(),
        locked: false,
        pads: vec![],
        graphics: vec![],
        properties: vec![],
    }
}

fn pad(number: &str) -> Pad {
    Pad {
        uuid: 0,
        number: number.to_string(),
        pad_type: PadType::Smd,
        shape: PadShape::Rect,
        position: Vec2 { x: 0, y: 0 },
        size: Vec2 { x: MM, y: MM },
        drill: None,
        layers: vec!["F.Cu".to_string()],
        net: None,
        roundrect_ratio: 250_000,
    }
}

#[test]
fn pads_go_to_their_footprints_and_orphans_get_one() {
    let fps = vec![footprint("U1"), footprint("U2")];
    let pads = vec![
        ("U2".to_string(), pad("1")),
        ("X".to_string(), pad("2")),
        ("U1".to_string(), pad("3")),
        ("X".to_string(), pad("4")),
    ];
    let out = attach_pads(fps, pads);
    assert_eq!(out.len(), 3);
    assert_eq!(out[0].pads, vec![pad("3")]);
    assert_eq!(out[1].pads, vec![pad("1")]);
    assert_eq!(out[2].reference, "X");
    assert_eq!(out[2].uuid, 0);
    assert_eq!(out[2].footprint_id, "");
    assert_eq!(out[2].pads, vec![pad("2"), pad("4")]);
}

#[test]
fn pad_rows_encode_missing_drill_and_net() {
    let p = pad("1");
    let row = pad_to_row(&p, "U1");
    assert_eq!((row.drill, row.net_number, row.net_name.as_str()), (0, 0, ""));
    assert_eq!(row.layers, "F.Cu");
    let cells = row.to_row();
    assert_eq!(cells[13], "0.25");
    let back = row_to_pad(
        PcbPadRow::from_row(&refs(&cells), "pads", 0).unwrap(),
        PadExtras { drill_shape: String::new() },
    );
    assert_eq!(back, p);

    let mut q = pad("2");
    q.drill = Some(DrillDef { shape: "oval".to_string(), diameter: 800_000 });
    q.net = Some(PadNet { number: 3, name: "GND".to_string() });
    let row = pad_to_row(&q, "U1");
    let back = row_to_pad(row, PadExtras { drill_shape: "oval".to_string() });
    assert_eq!(back, q);
}

#[test]
fn board_extras_keep_only_what_rows_miss() {
    let mut plain = footprint("U1");
    plain.footprint_id = String::new();
    plain.uuid = 1;
    let mut kept = footprint("U2");
    kept.uuid = U1;
    let mut drilled = pad("1");
    drilled.uuid = 7;
    drilled.drill = Some(DrillDef { shape: "oval".to_string(), diameter: 800_000 });
    kept.pads = vec![pad("2"), drilled];
    let mut board = empty_board();
    board.footprints = vec![plain, kept];
    let extras = PcbExtras::from_board(&board);
    assert_eq!(extras.footprints.len(), 1);
    assert_eq!(extras.footprints[0].0, "0192a8c0-0001-7000-8000-000000000001");
    assert_eq!(extras.footprints[0].1.footprint_id, "R_0603");
    assert_eq!(extras.pads.len(), 1);
    assert_eq!(extras.pads[0].0, "00000000-0000-0000-0000-000000000007");
    assert_eq!(extras.pads[0].1.drill_shape, "oval");
}

#[test]
fn user_placed_fields_survive_a_trip_through_the_row() {
    let mut sym = sample_symbol();
    sym.fields_user_placed = true;
    let row = symbol_to_row(&sym);
    let extras = SymbolExtras::from_symbol(&sym);
    assert!(extras.fields_user_placed);
    assert!(!extras.is_default());
    let back = row_to_symbol(row, extras);
    assert!(back.fields_user_placed);
}

#[test]
fn fields_not_user_placed_stay_so() {
    let sym = sample_symbol();
    let back = row_to_symbol(symbol_to_row(&sym), SymbolExtras::from_symbol(&sym));
    assert!(!back.fields_user_placed);
}

#[test]
fn board_extras_hold_each_key_once_the_last_footprint_winning() {
    let mut first = footprint("U1");
    first.uuid = 5;
    first.footprint_id = "R_0603".to_string();
    let mut second = footprint("U2");
    second.uuid = 5;
    second.footprint_id = "C_0805".to_string();
    let mut other = footprint("U3");
    other.uuid = 6;
    let mut board = empty_board();
    board.footprints = vec![first, other, second];
    let extras = PcbExtras::from_board(&board);
    assert_eq!(extras.footprints.len(), 2);
    assert_eq!(extras.footprints[0].0, "00000000-0000-0000-0000-000000000005");
    assert_eq!(extras.footprints[0].1.footprint_id, "C_0805");
    assert_eq!(extras.footprints[1].0, "00000000-0000-0000-0000-000000000006");
}
