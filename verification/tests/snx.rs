use signex_kicad::pcb::{PadShape, PadType, ViaType};
use signex_kicad::schematic::{HAlign, LabelType, VAlign};
use signex_kicad::snx::{
    decode_cell, encode_cell, join_layers, parse_halign, parse_i64, parse_label_kind,
    parse_pad_shape, parse_pad_type, parse_tsv_block, parse_valign, parse_via_type, split_layers,
    split_row, write_tsv_block, check_format_version, FormatError, halign_str, label_kind_str, pad_shape_str,
    pad_type_str, valign_str, via_type_str,
};

const JUNCTION_COLUMNS: [&str; 4] = ["uuid", "pos_x", "pos_y", "diameter"];

fn row(cells: &[&str]) -> Vec<String> {
    cells.iter().map(|c| c.to_string()).collect()
}

#[test]
fn tsv_writer_pads_columns_for_legibility() {
    let rows = vec![
        row(&["00000000-0000-0000-0000-000000000000", "100", "200", "0.5"]),
        row(&["00000000-0000-0000-0000-000000000000", "30000000", "40000000", "0.5"]),
    ];
    let body = write_tsv_block(&JUNCTION_COLUMNS, &rows);
    let lines: Vec<&str> = body.lines().collect();
    assert_eq!(lines[0].split_whitespace().next().unwrap(), "uuid");
    assert!(lines[0].contains("pos_x"));
    assert!(lines[0].contains("diameter"));
    let parsed = parse_tsv_block("sheets.junctions", &body, &JUNCTION_COLUMNS).unwrap();
    assert_eq!(parsed.len(), 2);
    assert_eq!(parsed[0][1], "100");
    assert_eq!(parsed[1][1], "30000000");
}

#[test]
fn tsv_parser_rejects_header_mismatch() {
    let body = "uuid pos_x pos_y wrong_column\n";
    let err = parse_tsv_block("sheets.junctions", body, &JUNCTION_COLUMNS).unwrap_err();
    assert!(matches!(err, FormatError::TsvHeaderMismatch { .. }));
}

#[test]
fn tsv_parser_rejects_cell_count_mismatch() {
    let body = "uuid  pos_x  pos_y  diameter\n00000000-0000-0000-0000-000000000000  100  200\n";
    let err = parse_tsv_block("sheets.junctions", body, &JUNCTION_COLUMNS).unwrap_err();
    assert!(matches!(err, FormatError::TsvCellCountMismatch { .. }));
}

#[test]
fn tsv_empty_block_is_refused_and_cells_round_trip() {
    let err = parse_tsv_block("pads", "\n\n", &JUNCTION_COLUMNS).unwrap_err();
    assert!(matches!(err, FormatError::TsvEmpty { .. }));
    let rows = vec![row(&["a b", "", "say \"hi\"", "-x"])];
    let body = write_tsv_block(&JUNCTION_COLUMNS, &rows);
    let parsed = parse_tsv_block("b", &body, &JUNCTION_COLUMNS).unwrap();
    assert_eq!(parsed, rows);
}

#[test]
fn cells_encode_and_decode() {
    assert_eq!(encode_cell(""), "\"\"");
    assert_eq!(encode_cell("a b"), "\"a b\"");
    assert_eq!(encode_cell("say \"hi\""), "\"say \"\"hi\"\"\"");
    assert_eq!(encode_cell("plain"), "plain");
    assert_eq!(decode_cell("\"\""), "");
    assert_eq!(decode_cell("-"), "");
    assert_eq!(decode_cell(&encode_cell("say \"hi\"")), "say \"hi\"");
    assert_eq!(decode_cell(&encode_cell("a\tb")), "a\tb");
    assert_eq!(split_row("a  \"b c\"\t\"d \"\"e\"\"\""), vec!["a", "\"b c\"", "\"d \"\"e\"\"\""]);
}

#[test]
fn enumeration_cells_round_trip() {
    for t in [LabelType::Net, LabelType::Global, LabelType::Hierarchical, LabelType::Power] {
        assert_eq!(parse_label_kind(label_kind_str(t)), t);
    }
    for h in [HAlign::Left, HAlign::Center, HAlign::Right] {
        assert_eq!(parse_halign(halign_str(h)), h);
    }
    for v in [VAlign::Top, VAlign::Center, VAlign::Bottom] {
        assert_eq!(parse_valign(valign_str(v)), v);
    }
    for p in [PadType::Thru, PadType::Smd, PadType::Connect, PadType::NpThru] {
        assert_eq!(parse_pad_type(pad_type_str(p)), p);
    }
    for s in [
        PadShape::Circle,
        PadShape::Rect,
        PadShape::Oval,
        PadShape::Trapezoid,
        PadShape::RoundRect,
        PadShape::Custom,
    ] {
        assert_eq!(parse_pad_shape(pad_shape_str(s)), s);
    }
    for w in [ViaType::Through, ViaType::Blind, ViaType::Micro] {
        assert_eq!(parse_via_type(via_type_str(w)), w);
    }
}

#[test]
fn layer_lists_round_trip() {
    let layers = vec!["F.Cu".to_string(), "B.Cu".to_string()];
    assert_eq!(join_layers(&layers), "F.Cu,B.Cu");
    assert_eq!(split_layers(&join_layers(&layers)), layers);
    assert!(split_layers("").is_empty());
}

#[test]
fn integer_fields_report_std_messages() {
    assert_eq!(parse_i64("-42", "b", 0, "f"), Ok(-42));
    assert_eq!(parse_i64("+7", "b", 0, "f"), Ok(7));
    match parse_i64("", "tracks", 3, "width") {
        Err(FormatError::TsvFieldParse { block, row, field, message }) => {
            assert_eq!(block, "tracks");
            assert_eq!(row, 3);
            assert_eq!(field, "width");
            assert_eq!(message, "cannot parse integer from empty string");
        }
        other => panic!("unexpected: {other:?}"),
    }
    assert!(matches!(
        parse_i64("9223372036854775808", "b", 0, "f"),
        Err(FormatError::TsvFieldParse { .. })
    ));
    assert!(matches!(parse_i64("1x", "b", 0, "f"), Err(FormatError::TsvFieldParse { .. })));
}

#[test]
fn matching_format_version_is_accepted() {
    assert_eq!(check_format_version("snxsch/1", "snxsch/1"), Ok(()));
    assert_eq!(check_format_version("snxpcb/1", "snxpcb/1"), Ok(()));
}

#[test]
fn other_format_versions_are_refused() {
    assert_eq!(
        check_format_version("snxsch/2", "snxsch/1"),
        Err(FormatError::UnsupportedVersion {
            found: "snxsch/2".to_string(),
            expected: "snxsch/1".to_string(),
        })
    );
    assert_eq!(
        check_format_version("snxsch/1", "snxpcb/1"),
        Err(FormatError::UnsupportedVersion {
            found: "snxsch/1".to_string(),
            expected: "snxpcb/1".to_string(),
        })
    );
}

#[test]
fn tsv_columns_line_up() {
    let rows = vec![
        row(&["a", "100", "", "0.5"]),
        row(&["bbbbbb", "3", "has space", "x"]),
    ];
    let body = write_tsv_block(&JUNCTION_COLUMNS, &rows);
    assert!(body.ends_with('\n'));
    let lines: Vec<&str> = body.lines().collect();
    assert_eq!(lines.len(), 3);
    assert_eq!(lines[0], "uuid    pos_x  pos_y        diameter");
    assert_eq!(lines[1], "a       100    \"\"           0.5");
    assert_eq!(lines[2], "bbbbbb  3      \"has space\"  x");
    for l in &lines {
        assert!(!l.ends_with(' '));
    }
}
