use signex_kicad::bounds::Aabb;
use signex_kicad::error::ParseError;
use signex_kicad::fresh_id::FreshUuids;
use signex_kicad::kicad_lib_read::parse_lib_symbol;
use signex_kicad::kicad_sch::write_schematic;
use signex_kicad::kicad_sch_read::parse_schematic;
use signex_kicad::kicad_symlib::parse_symbol_lib;
use signex_kicad::numeral::parse_millionths;
use signex_kicad::schematic::{FillType, HAlign, LabelType, SchematicSheet, VAlign};
use signex_kicad::kicad_text::{parse_schematic_text, parse_symbol_lib_text};
use signex_kicad::sexpr::{list, quoted, raw, SExpr};
use signex_kicad::sexpr_read::parse;

const MM: i64 = 1_000_000;
const DEG: i64 = 1_000_000;

/// The S-expression a text holds, read by the library.
fn tree(text: &str) -> SExpr {
    parse(text).unwrap()
}

fn read_sheet(text: &str) -> SchematicSheet {
    let mut ids = FreshUuids::new(0, 7);
    parse_schematic(&tree(text), &mut ids).unwrap()
}

fn minimal_kicad_sch() -> String {
    r#"(kicad_sch
  (version 20231120)
  (generator "test")
  (generator_version "0.1")
  (uuid "00000000-0000-0000-0000-000000000001")
  (paper "A4")
  (wire
    (pts (xy 10 20) (xy 30 20))
    (stroke (width 0) (type default))
    (uuid "00000000-0000-0000-0000-000000000002")
  )
  (junction
    (at 20 20)
    (uuid "00000000-0000-0000-0000-000000000003")
  )
  (label "VCC"
    (at 20 20 0)
    (effects (font (size 1.27 1.27)))
    (uuid "00000000-0000-0000-0000-000000000004")
  )
  (no_connect
    (at 50 50)
    (uuid "00000000-0000-0000-0000-000000000005")
  )
  (text "Hello World"
    (at 100 100 0)
    (effects (font (size 1.27 1.27)))
    (uuid "00000000-0000-0000-0000-000000000006")
  )
)"#
    .to_string()
}

#[test]
fn parse_minimal_schematic() {
    let sheet = read_sheet(&minimal_kicad_sch());
    assert_eq!(sheet.uuid, 1u128);
    assert_eq!(sheet.version, 20231120);
    assert_eq!(sheet.paper_size, "A4");
    assert_eq!(sheet.wires.len(), 1);
    assert_eq!(sheet.junctions.len(), 1);
    assert_eq!(sheet.labels.len(), 1);
    assert_eq!(sheet.no_connects.len(), 1);
    assert_eq!(sheet.text_notes.len(), 1);
}

#[test]
fn parse_wire_coordinates() {
    let sheet = read_sheet(&minimal_kicad_sch());
    let wire = &sheet.wires[0];
    assert_eq!(wire.start.x, 10 * MM);
    assert_eq!(wire.start.y, 20 * MM);
    assert_eq!(wire.end.x, 30 * MM);
    assert_eq!(wire.end.y, 20 * MM);
    assert_eq!(wire.uuid, 2u128);
}

#[test]
fn parse_label_text_and_type() {
    let sheet = read_sheet(&minimal_kicad_sch());
    let label = &sheet.labels[0];
    assert_eq!(label.text, "VCC");
    assert!(matches!(label.label_type, LabelType::Net));
    assert_eq!(label.position.x, 20 * MM);
}

#[test]
fn parse_label_justify_reads_horizontal_token_independent_of_order() {
    let content = r#"(kicad_sch
    (version 20231120)
    (generator "eeschema")
    (uuid "00000000-0000-0000-0000-000000000001")
    (paper "A4")
    (label "L1"
        (at 10 10 0)
        (effects (font (size 1.27 1.27)) (justify bottom right))
        (uuid "00000000-0000-0000-0000-000000000002")
    )
)"#;
    let sheet = read_sheet(content);
    assert_eq!(sheet.labels.len(), 1);
    assert_eq!(sheet.labels[0].justify, HAlign::Right);
    assert_eq!(sheet.labels[0].justify_v, VAlign::Bottom);
}

#[test]
fn parse_no_connect_has_uuid() {
    let sheet = read_sheet(&minimal_kicad_sch());
    let nc = &sheet.no_connects[0];
    assert_eq!(nc.uuid, 5u128);
    assert_eq!(nc.position.x, 50 * MM);
}

#[test]
fn parse_text_note() {
    let sheet = read_sheet(&minimal_kicad_sch());
    let note = &sheet.text_notes[0];
    assert_eq!(note.text, "Hello World");
    assert_eq!(note.uuid, 6u128);
    assert_eq!(note.font_size, 1_270_000);
}

#[test]
fn parse_kicad10_fields_default() {
    let content = r#"(kicad_sch
  (version 20260326)
  (generator "eeschema")
  (generator_version "10.0")
  (uuid "00000000-0000-0000-0000-000000000010")
  (paper "A4")
  (lib_symbols
    (symbol "Device:R"
      (pin_names (offset 0))
      (symbol "R_0_1"
        (rectangle (start -1.016 -2.54) (end 1.016 2.54)
          (stroke (width 0.254) (type default))
          (fill (type none))
        )
      )
      (symbol "R_1_1"
        (pin passive line (at 0 3.81 270) (length 1.27) (name "~" (effects (font (size 1.27 1.27)))) (number "1" (effects (font (size 1.27 1.27)))))
        (pin passive line (at 0 -3.81 90) (length 1.27) (name "~" (effects (font (size 1.27 1.27)))) (number "2" (effects (font (size 1.27 1.27)))))
      )
    )
  )
  (symbol
    (lib_id "Device:R")
    (at 100 50 0)
    (unit 1)
    (exclude_from_sim no)
    (in_bom yes)
    (on_board yes)
    (dnp no)
    (uuid "00000000-0000-0000-0000-000000000011")
    (property "Reference" "R1" (at 100 48 0) (effects (font (size 1.27 1.27))))
    (property "Value" "10k" (at 100 52 0) (effects (font (size 1.27 1.27))))
    (property "Footprint" "" (at 100 50 0) (effects (font (size 1.27 1.27)) (hide yes)))
  )
)"#;
    let sheet = read_sheet(content);
    assert_eq!(sheet.generator_version, "10.0");
    assert_eq!(sheet.symbols.len(), 1);
    let sym = &sheet.symbols[0];
    assert!(!sym.dnp);
    assert!(sym.in_bom);
    assert!(sym.on_board);
    assert!(!sym.exclude_from_sim);
    assert!(!sym.locked);
    assert!(sym.custom_properties.is_empty());
}

#[test]
fn parse_symbol_custom_property_metadata() {
    let content = r#"(kicad_sch
    (version 20260326)
    (generator "test")
    (uuid "00000000-0000-0000-0000-000000000010")
    (paper "A4")
    (symbol
        (lib_id "Device:R")
        (at 100 50 0)
        (unit 1)
        (in_bom yes)
        (on_board yes)
        (uuid "00000000-0000-0000-0000-000000000011")
        (property "Reference" "R1" (at 100 48 0) (effects (font (size 1.27 1.27))))
        (property "Value" "10k" (at 100 52 0) (effects (font (size 1.27 1.27))))
        (property "Tolerance" "1%"
            (id 7)
            (at 110 60 90)
            (show_name yes)
            (do_not_autoplace yes)
            (hide yes)
            (effects (font (size 1.5 1.5)) (justify left bottom))
        )
    )
)"#;
    let sheet = read_sheet(content);
    let property = &sheet.symbols[0].custom_properties[0];

    assert_eq!(property.key, "Tolerance");
    assert_eq!(property.value, "1%");
    assert_eq!(property.id, Some(7));
    assert_eq!(property.show_name, Some(true));
    assert_eq!(property.do_not_autoplace, Some(true));
    let text = property.text.as_ref().unwrap();
    assert_eq!(text.position.x, 110 * MM);
    assert_eq!(text.position.y, 60 * MM);
    assert_eq!(text.rotation, 90 * DEG);
    assert_eq!(text.font_size, 1_500_000);
    assert_eq!(text.justify_h, HAlign::Left);
    assert_eq!(text.justify_v, VAlign::Bottom);
    assert!(text.hidden);
    assert_eq!(sheet.symbols[0].fields.get("Tolerance"), Some(&"1%".to_string()));
}

#[test]
fn parse_symbol_property_variant_overrides() {
    let content = r#"(kicad_sch
    (version 20260326)
    (generator "test")
    (generator_version "10.0")
    (uuid "00000000-0000-0000-0000-000000000010")
    (paper "A4")
    (symbol
        (lib_id "Device:R")
        (at 100 50 0)
        (unit 1)
        (uuid "00000000-0000-0000-0000-000000000011")
        (property "Reference" "R1" (at 100 48 0) (effects (font (size 1.27 1.27))))
        (property "Value" "10k" (at 100 52 0) (effects (font (size 1.27 1.27))))
        (property "Fitted" "yes"
            (at 102 55 0)
            (effects (font (size 1.27 1.27)) (hide yes))
            (variants
                (variant "DEFAULT" "yes")
                (variant "LITE" "no")
            )
        )
    )
)"#;
    let sheet = read_sheet(content);
    let fitted = sheet.symbols[0]
        .custom_properties
        .iter()
        .find(|property| property.key == "Fitted")
        .unwrap();

    assert_eq!(fitted.variant_overrides.get("DEFAULT"), Some(&"yes".to_string()));
    assert_eq!(fitted.variant_overrides.get("LITE"), Some(&"no".to_string()));
}

#[test]
fn parse_lib_symbol_preserves_parent_metadata() {
    let symbol = tree(
        r#"(symbol "Interface_Ethernet:W5500"
  (in_bom yes)
  (on_board yes)
  (in_pos_files yes)
  (duplicate_pin_numbers_are_jumpers no)
  (property "Reference" "U" (id 0) (at 0 0 0) (effects (font (size 1.27 1.27))))
  (property "Value" "W5500" (id 1) (at 0 0 0) (effects (font (size 1.27 1.27))))
  (property "Footprint" "Package_QFP:LQFP-48_7x7mm_P0.5mm" (id 2) (at 0 0 0) (effects (font (size 1.27 1.27))))
  (property "Datasheet" "http://example.invalid/ds.pdf" (id 3) (at 0 0 0) (effects (font (size 1.27 1.27))))
  (property "Description" "Ethernet controller" (id 4) (at 0 0 0) (effects (font (size 1.27 1.27))))
  (property "ki_keywords" "WIZnet Ethernet" (id 5) (at 0 0 0) (effects (font (size 1.27 1.27))))
  (property "ki_fp_filters" "LQFP*" (id 6) (at 0 0 0) (effects (font (size 1.27 1.27))))
  (symbol "W5500_0_1")
  (symbol "W5500_1_1")
)"#,
    );
    let parsed = parse_lib_symbol(&symbol);
    assert_eq!(parsed.description, "Ethernet controller");
    assert_eq!(parsed.keywords, "WIZnet Ethernet");
    assert_eq!(parsed.fp_filters, "LQFP*");
    assert!(parsed.in_pos_files);
    assert!(!parsed.duplicate_pin_numbers_are_jumpers);
}

fn value_justify(reference_justify: &str) -> (HAlign, VAlign) {
    let content = format!(
        r#"(kicad_sch
    (version 20231120)
    (generator "eeschema")
    (uuid "00000000-0000-0000-0000-000000000001")
    (paper "A4")
    (symbol
        (lib_id "Device:R")
        (at 100 50 0)
        (unit 1)
        (uuid "00000000-0000-0000-0000-000000000011")
        (property "Reference" "R26" (at 100 48 0) (show_name no) (do_not_autoplace no) (effects (font (size 1.27 1.27)) (justify {j})))
        (property "Value" "26.7k" (at 100 52 90) (show_name no) (do_not_autoplace no) (effects (font (size 1.27 1.27)) (justify {j})))
        (property "Footprint" "" (at 100 50 0) (effects (font (size 1.27 1.27)) (hide yes)))
        (property "Datasheet" "" (at 100 50 0) (effects (font (size 1.27 1.27)) (hide yes)))
    )
)"#,
        j = reference_justify
    );
    let sheet = read_sheet(&content);
    let value_text = sheet.symbols[0].val_text.as_ref().expect("value text exists");
    (value_text.justify_h, value_text.justify_v)
}

#[test]
fn parse_property_justify_left_defaults_vertical_to_center() {
    assert_eq!(value_justify("left"), (HAlign::Left, VAlign::Center));
}

#[test]
fn parse_property_justify_center_sets_both_axes_to_center() {
    assert_eq!(value_justify("center"), (HAlign::Center, VAlign::Center));
}

#[test]
fn parse_property_justify_left_center_keeps_left_and_centers_vertical() {
    assert_eq!(value_justify("left center"), (HAlign::Left, VAlign::Center));
}

#[test]
fn parse_lib_symbol_preserves_pin_hide_flag() {
    let symbol = tree(
        r#"(symbol "Interface_Ethernet:W5500"
    (symbol "W5500_1_1"
        (pin no_connect line
            (at 20.32 0 0)
            (length 0)
            (hide yes)
            (name "NC" (effects (font (size 1.27 1.27))))
            (number "7" (effects (font (size 1.27 1.27))))
        )
    )
)"#,
    );
    let parsed = parse_lib_symbol(&symbol);
    assert_eq!(parsed.pins.len(), 1);
    assert!(!parsed.pins[0].pin.visible);
}

#[test]
fn parse_symbol_and_sheet_instances_and_root_page() {
    let content = r#"(kicad_sch
    (version 20231120)
    (generator "test")
    (uuid "00000000-0000-0000-0000-000000000001")
    (paper "A4")
    (symbol
        (lib_id "Device:R")
        (at 10 10 0)
        (unit 1)
        (in_bom yes)
        (on_board yes)
        (uuid "00000000-0000-0000-0000-000000000010")
        (property "Reference" "R1" (at 10 8 0) (effects (font (size 1.27 1.27))))
        (property "Value" "10k" (at 10 12 0) (effects (font (size 1.27 1.27))))
        (property "Footprint" "Resistor_SMD:R_0402" (at 0 0 0) (effects (font (size 1.27 1.27)) (hide yes)))
        (property "Datasheet" "https://example.invalid/r1" (at 0 0 0) (effects (font (size 1.27 1.27)) (hide yes)))
        (pin "1" (uuid "00000000-0000-0000-0000-000000000011"))
        (instances
            (project "GateMagic"
                (path "/00000000-0000-0000-0000-000000000001"
                    (reference "R1")
                    (unit 1)
                )
            )
        )
    )
    (sheet
        (at 20 20)
        (size 30 20)
        (fields_autoplaced)
        (stroke (width 0.2) (type default))
        (fill (type background))
        (uuid "00000000-0000-0000-0000-000000000020")
        (property "Sheet name" "Child" (at 20 19 0) (effects (font (size 1.27 1.27))))
        (property "Sheet file" "child.kicad_sch" (at 20 41 0) (effects (font (size 1.27 1.27))))
        (instances
            (project "GateMagic"
                (path "/00000000-0000-0000-0000-000000000001/00000000-0000-0000-0000-000000000020"
                    (page "2")
                )
            )
        )
    )
    (sheet_instances
        (path "/"
            (page "7")
        )
    )
)"#;
    let sheet = read_sheet(content);
    assert_eq!(sheet.root_sheet_page, "7");
    assert_eq!(sheet.symbols[0].datasheet, "https://example.invalid/r1");
    assert_eq!(sheet.symbols[0].pin_uuids.len(), 1);
    assert_eq!(sheet.symbols[0].instances.len(), 1);
    assert_eq!(sheet.symbols[0].instances[0].project, "GateMagic");
    assert_eq!(sheet.child_sheets[0].stroke_width, 200_000);
    assert!(matches!(sheet.child_sheets[0].fill, FillType::Background));
    assert!(sheet.child_sheets[0].fields_autoplaced);
    assert_eq!(sheet.child_sheets[0].instances[0].page, "2");
}

fn one_symbol_sheet(extra: &str) -> SchematicSheet {
    let content = format!(
        r#"(kicad_sch
    (version 20231120)
    (generator "test")
    (uuid "00000000-0000-0000-0000-000000000001")
    (paper "A4")
    (symbol
        (lib_id "Device:R")
        (at 10 10 0)
        (unit 1)
        {extra}
        (uuid "00000000-0000-0000-0000-000000000010")
        (property "Reference" "R1" (at 10 8 0) (effects (font (size 1.27 1.27))))
        (property "Value" "10k" (at 10 12 0) (effects (font (size 1.27 1.27))))
    )
)"#
    );
    read_sheet(&content)
}

#[test]
fn symbol_without_fields_autoplaced_marks_fields_user_placed() {
    let sheet = one_symbol_sheet("");
    assert!(!sheet.symbols[0].fields_autoplaced);
    assert!(sheet.symbols[0].fields_user_placed);
}

#[test]
fn symbol_with_fields_autoplaced_clears_fields_user_placed() {
    let sheet = one_symbol_sheet("(fields_autoplaced)");
    assert!(sheet.symbols[0].fields_autoplaced);
    assert!(!sheet.symbols[0].fields_user_placed);
}

fn alphas() -> Vec<String> {
    (0..=255u32).map(|a| format!("{}", a as f64 / 255.0)).collect()
}

#[test]
fn roundtrip_preserves_label_vertical_justify() {
    let content = r#"(kicad_sch
    (version 20231120)
    (generator "eeschema")
    (uuid "00000000-0000-0000-0000-000000000001")
    (paper "A4")
    (label "DIVIDED-S_{1}"
        (at 20 20 90)
        (effects (font (size 1.27 1.27)) (justify right top))
        (uuid "00000000-0000-0000-0000-000000000002")
    )
)"#;
    let parsed = read_sheet(content);
    let rendered = write_schematic(&parsed, &alphas());
    let reparsed = read_sheet(&rendered);

    assert_eq!(reparsed.labels.len(), 1);
    assert_eq!(reparsed.labels[0].justify, HAlign::Right);
    assert_eq!(reparsed.labels[0].justify_v, VAlign::Top);
}

// --- further cases ---

#[test]
fn tree_of_another_kind_is_no_schematic() {
    let mut ids = FreshUuids::new(0, 7);
    let r = parse_schematic(&tree("(kicad_pcb (version 1))"), &mut ids);
    match r {
        Err(ParseError::InvalidSExpr(m)) => assert_eq!(m, "Not a KiCad schematic file"),
        _ => panic!("expected a refusal"),
    }
    assert_eq!(ids, FreshUuids::new(0, 7));
}

#[test]
fn missing_header_fields_take_their_defaults() {
    let sheet = read_sheet("(kicad_sch (uuid \"00000000-0000-0000-0000-000000000009\"))");
    assert_eq!(sheet.version, 0);
    assert_eq!(sheet.generator, "unknown");
    assert_eq!(sheet.generator_version, "");
    assert_eq!(sheet.paper_size, "A4");
    assert_eq!(sheet.root_sheet_page, "1");
    assert_eq!(sheet.uuid, 9u128);
}

#[test]
fn paper_orientation_is_kept() {
    let sheet = read_sheet("(kicad_sch (paper \"A3\" PORTRAIT))");
    assert_eq!(sheet.paper_size, "A3 portrait");
}

#[test]
fn elements_without_uuid_draw_fresh_ones_in_file_order() {
    let text = "(kicad_sch (wire (pts (xy 0 0) (xy 1 0))) (junction (at 1 0)))";
    let mut a = FreshUuids::new(0, 3);
    let sheet = parse_schematic(&tree(text), &mut a).unwrap();
    let mut b = FreshUuids::new(0, 3);
    let sheet_uuid = b.next_uuid();
    let wire_uuid = b.next_uuid();
    let junction_uuid = b.next_uuid();
    assert_eq!(sheet.uuid, sheet_uuid);
    assert_eq!(sheet.wires[0].uuid, wire_uuid);
    assert_eq!(sheet.junctions[0].uuid, junction_uuid);
    assert_eq!(a, b);
}

#[test]
fn global_and_hierarchical_labels_follow_net_labels() {
    let text = r#"(kicad_sch
  (hierarchical_label "H" (at 3 0 0))
  (global_label "G" (shape input) (at 2 0 0))
  (label "N" (at 1 0 0))
)"#;
    let sheet = read_sheet(text);
    let kinds: Vec<LabelType> = sheet.labels.iter().map(|l| l.label_type).collect();
    assert_eq!(kinds, vec![LabelType::Net, LabelType::Global, LabelType::Hierarchical]);
    assert_eq!(sheet.labels[1].shape, "input");
}

#[test]
fn decimal_numbers_read_as_millionths() {
    assert_eq!(parse_millionths("1.27"), Some(1_270_000));
    assert_eq!(parse_millionths("-0.635"), Some(-635_000));
    assert_eq!(parse_millionths("+3"), Some(3_000_000));
    assert_eq!(parse_millionths("0.0000005"), Some(1));
    assert_eq!(parse_millionths("-0.0000005"), Some(-1));
    assert_eq!(parse_millionths("0.0000004"), Some(0));
    assert_eq!(parse_millionths(".5"), Some(500_000));
    assert_eq!(parse_millionths("5."), Some(5_000_000));
    assert_eq!(parse_millionths("1e3"), None);
    assert_eq!(parse_millionths(""), None);
    assert_eq!(parse_millionths("."), None);
    assert_eq!(parse_millionths("abc"), None);
}

#[test]
fn parse_minimal_symbol_lib() {
    let input = r#"(kicad_symbol_lib
  (version 20231120)
  (generator "test")
  (symbol "Device:R"
    (pin_names (offset 0))
    (symbol "Device:R_0_1"
      (rectangle (start -1.016 -2.54) (end 1.016 2.54)
        (stroke (width 0.254) (type default))
        (fill (type none))
      )
    )
    (symbol "Device:R_1_1"
      (pin passive line (at 0 3.81 270) (length 1.27)
        (name "~" (effects (font (size 1.27 1.27))))
        (number "1" (effects (font (size 1.27 1.27))))
      )
      (pin passive line (at 0 -3.81 90) (length 1.27)
        (name "~" (effects (font (size 1.27 1.27))))
        (number "2" (effects (font (size 1.27 1.27))))
      )
    )
  )
)"#;
    let map = parse_symbol_lib(&tree(input)).unwrap();
    assert_eq!(map.len(), 1);
    let r = &map.iter().find(|(id, _)| id == "Device:R").unwrap().1;
    assert!(!r.graphics.is_empty());
    assert_eq!(r.pins.len(), 2);
}

fn lib_entry<'a>(
    map: &'a [(String, signex_kicad::schematic::LibSymbol)],
    id: &str,
) -> &'a signex_kicad::schematic::LibSymbol {
    &map.iter().find(|(k, _)| k == id).unwrap().1
}

#[test]
fn derived_symbols_inherit_pins_along_extends_chains() {
    let input = r#"(kicad_symbol_lib
  (symbol "C" (extends "B") (property "Value" "C"))
  (symbol "B" (extends "A") (pin_names (offset 1.5)))
  (symbol "A"
    (pin_names (offset 0.5))
    (symbol "A_1_1"
      (pin input line (at 0 0 0) (length 2.54) (name "IN") (number "1"))
    )
  )
)"#;
    let map = parse_symbol_lib(&tree(input)).unwrap();
    assert_eq!(map.len(), 3);
    let a = lib_entry(&map, "A");
    let b = lib_entry(&map, "B");
    let c = lib_entry(&map, "C");
    assert_eq!(a.pins.len(), 1);
    assert_eq!(b.pins, a.pins);
    assert_eq!(c.pins, a.pins);
    assert_eq!(b.pin_name_offset, 500_000);
    assert_eq!(c.pin_name_offset, 500_000);
    assert_eq!(c.value, "C");
}

#[test]
fn top_level_unit_symbols_are_not_symbols_of_their_own() {
    let input = r#"(kicad_symbol_lib
  (symbol "R")
  (symbol "R_1_1")
  (symbol "Q_1_1")
  (symbol "R_x_1")
)"#;
    let map = parse_symbol_lib(&tree(input)).unwrap();
    let mut ids: Vec<&str> = map.iter().map(|(k, _)| k.as_str()).collect();
    ids.sort();
    assert_eq!(ids, vec!["Q_1_1", "R", "R_x_1"]);
}

#[test]
fn a_repeated_id_keeps_its_last_symbol() {
    let input = r#"(kicad_symbol_lib
  (symbol "R" (property "Value" "first"))
  (symbol "R" (property "Value" "second"))
)"#;
    let map = parse_symbol_lib(&tree(input)).unwrap();
    assert_eq!(map.len(), 1);
    assert_eq!(map[0].1.value, "second");
}

#[test]
fn a_tree_of_another_kind_is_no_symbol_library() {
    match parse_symbol_lib(&tree("(kicad_sch)")) {
        Err(ParseError::InvalidSExpr(m)) => assert_eq!(m, "Not a KiCad symbol library file"),
        _ => panic!("expected a refusal"),
    }
}

#[test]
fn content_bounds_cover_the_sheet_with_a_margin() {
    let sheet = read_sheet(&minimal_kicad_sch());
    let b = sheet.content_bounds().unwrap();
    let mm = MM as i128;
    assert_eq!(b, Aabb { min_x: 0, min_y: 10 * mm, max_x: 110 * mm, max_y: 110 * mm });
    assert!(b.contains(50 * mm, 50 * mm));
    assert!(!b.contains(111 * mm, 50 * mm));
}

#[test]
fn child_sheet_far_corner_counts_toward_bounds() {
    let sheet = read_sheet("(kicad_sch (sheet (at 20 20) (size 30 20)))");
    let b = sheet.content_bounds().unwrap();
    let mm = MM as i128;
    assert_eq!(b, Aabb { min_x: 10 * mm, min_y: 10 * mm, max_x: 60 * mm, max_y: 50 * mm });
    assert_eq!(b.width(), 50 * mm);
    assert_eq!(b.height(), 40 * mm);
}

#[test]
fn an_empty_sheet_has_no_bounds() {
    let sheet = read_sheet("(kicad_sch (paper \"A4\"))");
    assert_eq!(sheet.content_bounds(), None);
}

#[test]
fn boxes_order_their_corners_and_combine() {
    let a = Aabb::new(3, 1, 0, 5);
    assert_eq!(a, Aabb { min_x: 0, min_y: 1, max_x: 3, max_y: 5 });
    assert!(a.contains(0, 5));
    assert!(!a.contains(-1, 5));
    assert_eq!(a.expand(2), Aabb { min_x: -2, min_y: -1, max_x: 5, max_y: 7 });
    let b = Aabb::new(10, -4, 12, 0);
    assert_eq!(a.union(&b), Aabb { min_x: 0, min_y: -4, max_x: 12, max_y: 5 });
    assert_eq!(a.width(), 3);
    assert_eq!(a.height(), 4);
}


#[test]
fn text_reader_reads_lists_atoms_and_escapes() {
    let e = parse(" (a \"x\\\"y\\\\z\" b (c))\n").unwrap();
    assert_eq!(
        e,
        list(vec![raw("a"), quoted("x\"y\\z"), raw("b"), list(vec![raw("c")])])
    );
}

#[test]
fn text_reader_refuses_malformed_text() {
    let bad = Err(ParseError::InvalidSExpr("malformed S-expression".to_string()));
    assert_eq!(parse("(a (b)"), bad);
    assert_eq!(parse("(a) b"), bad);
    assert_eq!(parse(")"), bad);
    assert_eq!(parse("(a \"open)"), bad);
    assert_eq!(parse(""), bad);
}

#[test]
fn schematic_text_with_another_root_is_not_a_schematic() {
    let mut ids = FreshUuids::new(0, 7);
    assert_eq!(
        parse_schematic_text("(kicad_pcb (version 1))", &mut ids).err(),
        Some(ParseError::InvalidSExpr("Not a KiCad schematic file".to_string()))
    );
    assert_eq!(
        parse_schematic_text("(kicad_sch", &mut ids).err(),
        Some(ParseError::InvalidSExpr("malformed S-expression".to_string()))
    );
    assert!(parse_schematic_text("(kicad_sch (version 20231120) (generator eeschema))", &mut ids).is_ok());
}

#[test]
fn symbol_library_text_is_read_through_the_library_reader() {
    assert_eq!(
        parse_symbol_lib_text("(kicad_sch (version 1))"),
        Err(ParseError::InvalidSExpr("Not a KiCad symbol library file".to_string()))
    );
    assert_eq!(parse_symbol_lib_text("(kicad_symbol_lib (version 20231120))").unwrap().len(), 0);
}
