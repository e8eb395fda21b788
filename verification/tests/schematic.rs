use signex_kicad::coord::Vec2;
use signex_kicad::kicad_sch::{
    child_sheet_node, custom_property_node, drawing_node, junction_node, kicad_sch_root_node,
    label_node, schematic_property_node, symbol_node, text_note_node, wire_node, write_schematic,
    escape_newlines_text,
};
use signex_kicad::schematic::{
    ChildSheet, FillType, HAlign, Junction, Label, LabelType, LibSymbol, SchDrawing,
    SchematicProperty, SchematicSheet, SelectedItem, SelectedKind, SheetInstance, SheetPin, StrokeColor, Symbol,
    SymbolInstance, TextNote, TextProp, VAlign, Wire, SCHEMATIC_TEXT_NM,
};
use signex_kicad::sexpr::SExpr;
use signex_kicad::varmap::VarMap;

const MM: i64 = 1_000_000;

fn alphas() -> Vec<String> {
    (0..=255u32).map(|a| format!("{}", a as f64 / 255.0)).collect()
}

fn pt(x_mm: f64, y_mm: f64) -> Vec2 {
    Vec2 { x: (x_mm * MM as f64).round() as i64, y: (y_mm * MM as f64).round() as i64 }
}

fn render(e: SExpr) -> String {
    e.render()
}

fn bare_symbol() -> Symbol {
    Symbol {
        uuid: 0,
        lib_id: "Device:R".to_string(),
        reference: "R1".to_string(),
        value: "10k".to_string(),
        footprint: String::new(),
        datasheet: "https://example.invalid/r1".to_string(),
        position: pt(10.0, 10.0),
        rotation: 0,
        mirror_x: false,
        mirror_y: false,
        unit: 1,
        is_power: false,
        ref_text: Some(TextProp {
            position: pt(10.0, 8.0),
            rotation: 0,
            font_size: SCHEMATIC_TEXT_NM,
            justify_h: HAlign::Center,
            justify_v: VAlign::Center,
            hidden: false,
        }),
        val_text: Some(TextProp {
            position: pt(10.0, 12.0),
            rotation: 0,
            font_size: SCHEMATIC_TEXT_NM,
            justify_h: HAlign::Center,
            justify_v: VAlign::Center,
            hidden: false,
        }),
        fields_autoplaced: true,
        fields_user_placed: false,
        dnp: false,
        in_bom: true,
        on_board: true,
        exclude_from_sim: false,
        locked: false,
        fields: VarMap::new(),
        custom_properties: Vec::new(),
        pin_uuids: vec![("1".to_string(), 0)],
        instances: vec![SymbolInstance {
            project: "GateMagic".to_string(),
            path: "/root".to_string(),
            reference: "R1".to_string(),
            unit: 1,
        }],
    }
}

fn empty_sheet() -> SchematicSheet {
    SchematicSheet {
        uuid: 0,
        version: 20231120,
        generator: String::new(),
        generator_version: String::new(),
        paper_size: "A4".to_string(),
        root_sheet_page: "7".to_string(),
        symbols: Vec::new(),
        wires: Vec::new(),
        junctions: Vec::new(),
        labels: Vec::new(),
        child_sheets: Vec::new(),
        no_connects: Vec::new(),
        text_notes: Vec::new(),
        buses: Vec::new(),
        bus_entries: Vec::new(),
        drawings: Vec::new(),
        no_erc_directives: Vec::new(),
        title_block: VarMap::new(),
        lib_symbols: Vec::new(),
    }
}

#[test]
fn writes_property_metadata_in_kicad_order() {
    let text = TextProp {
        position: pt(10.0, 20.0),
        rotation: 0,
        font_size: SCHEMATIC_TEXT_NM,
        justify_h: HAlign::Center,
        justify_v: VAlign::Center,
        hidden: false,
    };

    let out = render(schematic_property_node("Reference", "R1", &text, false, false, None));

    assert!(out.contains("(show_name no)"));
    assert!(out.contains("(do_not_autoplace no)"));
    assert!(out.contains("(effects (font (size 1.27 1.27)))"));
}

#[test]
fn writes_custom_property_with_ast_metadata() {
    let property = SchematicProperty {
        key: "Tolerance".to_string(),
        value: "1%".to_string(),
        id: Some(7),
        text: Some(TextProp {
            position: pt(110.0, 60.0),
            rotation: 90_000_000,
            font_size: 1_500_000,
            justify_h: HAlign::Left,
            justify_v: VAlign::Bottom,
            hidden: true,
        }),
        show_name: Some(true),
        do_not_autoplace: Some(true),
        variant_overrides: VarMap::new(),
    };

    let parsed = custom_property_node(&property, pt(0.0, 0.0));
    assert_eq!(parsed.keyword(), Some("property"));
    assert_eq!(parsed.first_arg(), Some("Tolerance"));
    assert_eq!(parsed.arg(1), Some("1%"));
    assert_eq!(parsed.find("id").and_then(|node| node.first_arg()), Some("7"));
    assert_eq!(parsed.find("show_name").and_then(|node| node.first_arg()), Some("yes"));
    assert_eq!(
        parsed.find("do_not_autoplace").and_then(|node| node.first_arg()),
        Some("yes")
    );
    assert!(parsed.find("hide").is_some());
}

#[test]
fn writes_custom_property_variant_overrides() {
    let mut property = SchematicProperty {
        key: "Fitted".to_string(),
        value: "yes".to_string(),
        id: None,
        text: Some(TextProp {
            position: pt(100.0, 50.0),
            rotation: 0,
            font_size: 1_270_000,
            justify_h: HAlign::Center,
            justify_v: VAlign::Center,
            hidden: true,
        }),
        show_name: Some(false),
        do_not_autoplace: Some(false),
        variant_overrides: VarMap::new(),
    };
    property.variant_overrides.insert("DEFAULT".to_string(), "yes".to_string());
    property.variant_overrides.insert("LITE".to_string(), "no".to_string());

    let parsed = custom_property_node(&property, pt(0.0, 0.0));

    let variants = parsed.find("variants").unwrap();
    let variant_nodes = variants.find_all("variant");
    assert_eq!(variant_nodes.len(), 2);

    let default = variant_nodes.iter().find(|node| node.first_arg() == Some("DEFAULT")).unwrap();
    let lite = variant_nodes.iter().find(|node| node.first_arg() == Some("LITE")).unwrap();

    assert_eq!(default.arg(1), Some("yes"));
    assert_eq!(lite.arg(1), Some("no"));
}

#[test]
fn writes_sheet_instances_root_page_and_symbol_instances() {
    let mut sheet = empty_sheet();
    sheet.symbols.push(bare_symbol());

    let rendered = write_schematic(&sheet, &alphas());
    let parsed = kicad_sch_root_node(&sheet, &alphas());
    assert!(rendered.contains("(sheet_instances"));
    assert!(rendered.contains("(page \"7\")"));
    let symbol = parsed.find("symbol").unwrap();
    let datasheet = symbol
        .find_all("property")
        .into_iter()
        .find(|property| property.first_arg() == Some("Datasheet"))
        .unwrap();
    assert_eq!(datasheet.arg(1), Some("https://example.invalid/r1"));
    assert!(rendered.contains("(pin \"1\" (uuid \"00000000-0000-0000-0000-000000000000\"))"));
    assert!(rendered.contains("(instances"));
    assert!(rendered.contains("(project \"GateMagic\""));
}

#[test]
fn writes_global_label_without_forced_left_justify() {
    let label = Label {
        uuid: 0,
        text: "NET_A".to_string(),
        position: pt(10.0, 10.0),
        rotation: 0,
        label_type: LabelType::Global,
        shape: "input".to_string(),
        font_size: SCHEMATIC_TEXT_NM,
        justify: HAlign::Left,
        justify_v: VAlign::Bottom,
    };

    let out = render(label_node(&label));

    assert!(!out.contains("(justify left)"));
    assert!(out.contains("(justify bottom)"));
}

#[test]
fn writes_right_aligned_label_with_bottom_vertical_justify() {
    let label = Label {
        uuid: 0,
        text: "NET_B".to_string(),
        position: pt(20.0, 5.0),
        rotation: 0,
        label_type: LabelType::Net,
        shape: String::new(),
        font_size: SCHEMATIC_TEXT_NM,
        justify: HAlign::Right,
        justify_v: VAlign::Bottom,
    };

    let out = render(label_node(&label));

    assert!(out.contains("(justify right bottom)"));
}

#[test]
fn writes_text_note_as_expected_sexpr() {
    let note = TextNote {
        uuid: 0,
        text: "Line1\nLine2".to_string(),
        position: pt(10.0, 12.0),
        rotation: 45_000_000,
        font_size: 1_400_000,
        justify_h: HAlign::Center,
        justify_v: VAlign::Center,
    };

    let parsed = text_note_node(&note);
    assert_eq!(parsed.keyword(), Some("text"));
    assert_eq!(parsed.first_arg(), Some("Line1\\nLine2"));
    assert!(parsed.find("exclude_from_sim").is_some());
}

#[test]
fn writes_drawing_rect_as_expected_sexpr() {
    let drawing = SchDrawing::Rect {
        uuid: 0,
        start: pt(1.0, 2.0),
        end: pt(3.0, 4.0),
        width: 150_000,
        fill: FillType::Background,
        stroke_color: None,
    };

    let parsed = drawing_node(&drawing, &alphas());
    assert_eq!(parsed.keyword(), Some("rectangle"));
    assert!(parsed.find("fill").is_some());
}

#[test]
fn writes_child_sheet_with_instances_as_expected_sexpr() {
    let child = ChildSheet {
        uuid: 0,
        name: "Power".to_string(),
        filename: "power.kicad_sch".to_string(),
        position: pt(10.0, 20.0),
        size: (30 * MM, 40 * MM),
        stroke_width: 120_000,
        fill: FillType::Unfilled,
        stroke_color: None,
        fill_color: None,
        fields_autoplaced: true,
        pins: vec![SheetPin {
            uuid: 0,
            name: "VIN".to_string(),
            direction: "input".to_string(),
            position: pt(12.0, 22.0),
            rotation: 0,
            auto_generated: true,
            user_moved: false,
        }],
        instances: vec![SheetInstance {
            project: "Main".to_string(),
            path: "/sheet-1".to_string(),
            page: "2".to_string(),
        }],
    };

    let parsed = child_sheet_node(&child, &alphas());
    assert_eq!(parsed.keyword(), Some("sheet"));
    assert!(parsed.find("instances").is_some());
    assert!(parsed.find_all("property").iter().any(|p| p.first_arg() == Some("Sheet name")));
}

// ---------------------------------------------------------------------------

#[test]
fn child_sheet_properties_sit_around_the_frame() {
    let child = ChildSheet {
        uuid: 0,
        name: "Power".to_string(),
        filename: "power.kicad_sch".to_string(),
        position: pt(10.0, 20.0),
        size: (30 * MM, 40 * MM),
        stroke_width: 120_000,
        fill: FillType::Unfilled,
        stroke_color: Some(StrokeColor { r: 1, g: 2, b: 3, a: 255 }),
        fill_color: Some(StrokeColor { r: 10, g: 20, b: 30, a: 0 }),
        fields_autoplaced: false,
        pins: Vec::new(),
        instances: Vec::new(),
    };
    let out = render(child_sheet_node(&child, &alphas()));
    assert_eq!(
        out,
        "(sheet (at 10 20) (size 30 40) (stroke (width 0.12) (type default) (color 1 2 3 1)) \
         (fill (color 10 20 30 0)) (uuid \"00000000-0000-0000-0000-000000000000\") \
         (property \"Sheet name\" \"Power\" (id 0) (at 10 19 0) (show_name no) (do_not_autoplace no) \
         (effects (font (size 1.27 1.27)) (justify left bottom))) \
         (property \"Sheet file\" \"power.kicad_sch\" (id 1) (at 10 61 0) (show_name no) (do_not_autoplace no) \
         (effects (font (size 1.27 1.27)) (justify left top))))"
    );
}

#[test]
fn wiring_nodes_write_default_strokes() {
    let w = Wire { uuid: 1, start: pt(0.0, 0.0), end: pt(2.54, 0.0), stroke_width: 200_000 };
    assert_eq!(
        render(wire_node(&w)),
        "(wire (pts (xy 0 0) (xy 2.54 0)) (stroke (width 0) (type default)) \
         (uuid \"00000000-0000-0000-0000-000000000001\"))"
    );
    let j = Junction { uuid: 0, position: pt(1.0, 1.0), diameter: 0 };
    assert_eq!(
        render(junction_node(&j)),
        "(junction (at 1 1) (diameter 0) (color 0 0 0 0) (uuid \"00000000-0000-0000-0000-000000000000\"))"
    );
}

#[test]
fn note_line_breaks_are_escaped() {
    assert_eq!(escape_newlines_text("a\nb\n"), "a\\nb\\n");
    assert_eq!(escape_newlines_text("plain"), "plain");
}

#[test]
fn symbol_writes_fields_custom_properties_and_pins_in_order() {
    let mut sym = bare_symbol();
    sym.mirror_x = true;
    sym.locked = true;
    sym.fields.insert("Zeta".to_string(), "z".to_string());
    sym.fields.insert("Alpha".to_string(), "a".to_string());
    sym.fields.insert("Tolerance".to_string(), "shadowed".to_string());
    sym.custom_properties.push(SchematicProperty {
        key: "Tolerance".to_string(),
        value: "1%".to_string(),
        id: None,
        text: None,
        show_name: None,
        do_not_autoplace: None,
        variant_overrides: VarMap::new(),
    });
    sym.pin_uuids = vec![("2".to_string(), 2), ("10".to_string(), 10), ("1".to_string(), 1)];
    let node = symbol_node(&sym);
    let keys: Vec<_> = node
        .find_all("property")
        .iter()
        .map(|p| p.first_arg().unwrap().to_string())
        .collect();
    assert_eq!(keys, vec!["Reference", "Value", "Footprint", "Datasheet", "Tolerance", "Alpha", "Zeta"]);
    let pins: Vec<_> = node.find_all("pin").iter().map(|p| p.first_arg().unwrap().to_string()).collect();
    assert_eq!(pins, vec!["1", "10", "2"]);
    let out = render(node);
    assert!(out.starts_with("(symbol (lib_id \"Device:R\") (at 10 10 0) (mirror x) (unit 1) (locked) (exclude_from_sim no)"));
    assert!(out.contains("(property \"Tolerance\" \"1%\" (at 10 10 0) (show_name no) (do_not_autoplace no) (hide yes)"));
}

#[test]
fn sheet_writes_title_block_and_sorted_lib_symbols() {
    let mut sheet = empty_sheet();
    sheet.title_block.insert("comment_2".to_string(), "second".to_string());
    sheet.title_block.insert("title".to_string(), "Board".to_string());
    let lib = |id: &str| LibSymbol {
        id: id.to_string(),
        reference: String::new(),
        value: String::new(),
        footprint: String::new(),
        datasheet: String::new(),
        description: String::new(),
        keywords: String::new(),
        fp_filters: String::new(),
        in_bom: true,
        on_board: true,
        in_pos_files: true,
        duplicate_pin_numbers_are_jumpers: false,
        graphics: Vec::new(),
        pins: Vec::new(),
        show_pin_numbers: true,
        show_pin_names: true,
        pin_name_offset: 0,
    };
    sheet.lib_symbols.push(("Device:R".to_string(), lib("Device:R")));
    sheet.lib_symbols.push(("Device:C".to_string(), lib("Device:C")));
    let root = kicad_sch_root_node(&sheet, &alphas());
    let tb = root.find("title_block").unwrap();
    assert_eq!(
        tb.render(),
        "(title_block (title \"Board\") (comment 2 \"second\"))"
    );
    let ids: Vec<_> = root
        .find("lib_symbols")
        .unwrap()
        .find_all("symbol")
        .iter()
        .map(|s| s.first_arg().unwrap().to_string())
        .collect();
    assert_eq!(ids, vec!["Device:C", "Device:R"]);
    let out = write_schematic(&sheet, &alphas());
    assert!(out.starts_with("(kicad_sch (version 20231120) (generator \"signex\") (generator_version \"0.1\")"));
    assert!(out.ends_with("(sheet_instances (path \"/\" (page \"7\"))))\n"));
}

#[test]
fn selected_item_holds_what_it_was_given() {
    let item = SelectedItem::new(42, SelectedKind::Wire);
    assert_eq!(item.uuid, 42);
    assert_eq!(item.kind, SelectedKind::Wire);
}
