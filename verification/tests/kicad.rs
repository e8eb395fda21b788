use signex_kicad::kicad_read::{
    is_effects_hidden, is_text_hidden, parse_fill_type, parse_halign, parse_pin_electrical_type,
    parse_pin_shape, parse_root_sheet_page, parse_sheet_instances, parse_symbol_instances,
    parse_title_block, parse_u32, parse_valign, parse_variant_definitions,
};
use signex_kicad::kicad_write::{
    effects_with_justify_node, fill_type_node, fill_type_str, fixed_text, halign_str,
    label_type_keyword, lib_symbol_property_node, pin_electrical_str, pin_shape_str,
    sheet_fill_node, sheet_instances_node, symbol_instances_node, valign_str,
    write_rendered_sexpr,
};
use signex_kicad::schematic::{
    FillType, HAlign, LabelType, PinDirection, PinShapeStyle, SheetInstance, StrokeColor,
    SymbolInstance, VAlign,
};
use signex_kicad::sexpr::{atom, list, node, quoted, raw, SExpr};

fn n(keyword: &str, children: Vec<SExpr>) -> SExpr {
    node(keyword, children)
}

#[test]
fn parse_legacy_not_connected_pin_type() {
    assert_eq!(
        parse_pin_electrical_type("not_connected"),
        PinDirection::DoNotConnect
    );
}

#[test]
fn writes_not_connected_pins_as_no_connect() {
    assert_eq!(pin_electrical_str(PinDirection::DoNotConnect), "no_connect");
}

#[test]
fn macro_builds_ast_with_raw_and_quoted_atoms() {
    let net_name = "GND";
    let expr = list(vec![
        raw("segment"),
        list(vec![raw("net"), atom(1i32), atom(net_name)]),
        list(vec![raw("layer"), atom(raw("F.Cu"))]),
        list(vec![raw("width"), raw("0.25")]),
    ]);
    assert_eq!(
        expr.render(),
        r#"(segment (net 1 "GND") (layer F.Cu) (width 0.25))"#
    );
}

#[test]
fn rendering_escapes_quotes_and_backslashes() {
    let expr = list(vec![raw("text"), quoted("a \"b\" \\ c")]);
    assert_eq!(expr.render(), r#"(text "a \"b\" \\ c")"#);
}

#[test]
fn parse_variant_definitions_from_root() {
    let root = n(
        "kicad_sch",
        vec![
            n("version", vec![raw("20260326")]),
            n("generator", vec![quoted("eeschema")]),
            n("generator_version", vec![quoted("10.0")]),
            n(
                "variant_definitions",
                vec![
                    n("variant", vec![quoted("DEFAULT")]),
                    n("variant", vec![quoted("LITE")]),
                    n("variant", vec![quoted("PRO")]),
                ],
            ),
        ],
    );
    let variants = parse_variant_definitions(&root);
    assert_eq!(variants, vec!["DEFAULT", "LITE", "PRO"]);
}

#[test]
fn variant_names_are_trimmed_and_deduplicated() {
    let root = n(
        "kicad_sch",
        vec![n(
            "variant_definitions",
            vec![
                n("variant", vec![quoted(" LITE ")]),
                n("variant", vec![quoted("   ")]),
                n("variant", vec![quoted("LITE")]),
                n("variant", vec![]),
                n("variant", vec![quoted("PRO")]),
            ],
        )],
    );
    assert_eq!(parse_variant_definitions(&root), vec!["LITE", "PRO"]);
}

#[test]
fn token_readers_default_to_centre_and_plain() {
    assert_eq!(parse_halign("left"), HAlign::Left);
    assert_eq!(parse_halign("right"), HAlign::Right);
    assert_eq!(parse_halign("middle"), HAlign::Center);
    assert_eq!(parse_valign("top"), VAlign::Top);
    assert_eq!(parse_valign("bottom"), VAlign::Bottom);
    assert_eq!(parse_valign(""), VAlign::Center);
    assert_eq!(parse_pin_shape("clock_low"), PinShapeStyle::InvertedClockBubble);
    assert_eq!(parse_pin_shape("output_low"), PinShapeStyle::InvertedBubble);
    assert_eq!(parse_pin_shape("edge_clock_high"), PinShapeStyle::ClockTriangle);
    assert_eq!(parse_pin_shape("non_logic"), PinShapeStyle::Plain);
    assert_eq!(parse_pin_electrical_type("free"), PinDirection::Unclassified);
    assert_eq!(parse_pin_electrical_type("open_emitter"), PinDirection::OpenDrainHigh);
    assert_eq!(parse_pin_electrical_type("bogus"), PinDirection::Unclassified);
}

#[test]
fn written_tokens_read_back() {
    for h in [HAlign::Left, HAlign::Center, HAlign::Right] {
        assert_eq!(parse_halign(halign_str(h)), h);
    }
    for v in [VAlign::Top, VAlign::Center, VAlign::Bottom] {
        assert_eq!(parse_valign(valign_str(v)), v);
    }
    for d in [
        PinDirection::Input,
        PinDirection::Output,
        PinDirection::Bidirectional,
        PinDirection::ThreeStatable,
        PinDirection::Passive,
        PinDirection::PowerInput,
        PinDirection::PowerOutput,
        PinDirection::OpenDrainLow,
        PinDirection::OpenDrainHigh,
        PinDirection::DoNotConnect,
        PinDirection::Unclassified,
    ] {
        assert_eq!(parse_pin_electrical_type(pin_electrical_str(d)), d);
    }
    assert_eq!(
        parse_pin_electrical_type(pin_electrical_str(PinDirection::Clock)),
        PinDirection::Unclassified
    );
    assert_eq!(pin_shape_str(PinShapeStyle::Schmitt), "line");
    assert_eq!(parse_pin_shape(pin_shape_str(PinShapeStyle::InvertedClockBubble)), PinShapeStyle::InvertedClockBubble);
    assert_eq!(label_type_keyword(LabelType::Power), "label");
    assert_eq!(label_type_keyword(LabelType::Hierarchical), "hierarchical_label");
    for f in [FillType::Unfilled, FillType::Outline, FillType::Background] {
        let drawing = n("rectangle", vec![fill_type_node(f)]);
        assert_eq!(parse_fill_type(&drawing), f);
    }
    assert_eq!(fill_type_str(FillType::Unfilled), "none");
}

#[test]
fn effects_hide_markers_in_all_three_forms() {
    let yes = n("effects", vec![n("hide", vec![raw("yes")])]);
    let no = n("effects", vec![n("hide", vec![raw("no")])]);
    let bare = n("effects", vec![n("hide", vec![])]);
    let atom_form = n("effects", vec![n("font", vec![]), raw("hide")]);
    let none = n("effects", vec![n("font", vec![])]);
    assert!(is_effects_hidden(Some(&yes)));
    assert!(!is_effects_hidden(Some(&no)));
    assert!(is_effects_hidden(Some(&bare)));
    assert!(is_effects_hidden(Some(&atom_form)));
    assert!(!is_effects_hidden(Some(&none)));
    assert!(!is_effects_hidden(None));
    let text = n("text", vec![quoted("x"), atom_form]);
    assert!(is_text_hidden(&text));
}

#[test]
fn title_block_reads_fields_and_numbered_comments() {
    let root = n(
        "kicad_sch",
        vec![n(
            "title_block",
            vec![
                n("title", vec![quoted("Power board")]),
                n("rev", vec![quoted("B")]),
                n("comment", vec![raw("1"), quoted("first")]),
                n("comment", vec![raw("2"), quoted("second")]),
                n("comment", vec![raw("1"), quoted("again")]),
                n("comment", vec![raw("3")]),
            ],
        )],
    );
    let tb = parse_title_block(&root);
    assert_eq!(tb.get("title").unwrap(), "Power board");
    assert_eq!(tb.get("rev").unwrap(), "B");
    assert!(tb.get("date").is_none());
    assert_eq!(tb.get("comment_1").unwrap(), "again");
    assert_eq!(tb.get("comment_2").unwrap(), "second");
    assert!(tb.get("comment_3").is_none());
    let empty = parse_title_block(&n("kicad_sch", vec![]));
    assert!(empty.get("title").is_none());
}

#[test]
fn u32_fields_read_like_str_parse() {
    assert_eq!(parse_u32("7"), Some(7));
    assert_eq!(parse_u32("+7"), Some(7));
    assert_eq!(parse_u32("4294967295"), Some(u32::MAX));
    assert_eq!(parse_u32("4294967296"), None);
    assert_eq!(parse_u32("-1"), None);
    assert_eq!(parse_u32("+"), None);
    assert_eq!(parse_u32(""), None);
    assert_eq!(parse_u32("1a"), None);
}

fn sample_symbol_with_instances() -> SExpr {
    n(
        "symbol",
        vec![
            n("lib_id", vec![quoted("Device:R")]),
            n(
                "instances",
                vec![
                    n(
                        "project",
                        vec![
                            quoted("GateMagic"),
                            n(
                                "path",
                                vec![
                                    quoted("/root"),
                                    n("reference", vec![quoted("R1")]),
                                    n("unit", vec![raw("2")]),
                                ],
                            ),
                            n("path", vec![quoted("/child")]),
                        ],
                    ),
                    n(
                        "project",
                        vec![n(
                            "path",
                            vec![quoted("/x"), n("unit", vec![raw("zero")])],
                        )],
                    ),
                ],
            ),
        ],
    )
}

#[test]
fn symbol_instances_read_in_file_order_with_defaults() {
    let got = parse_symbol_instances(&sample_symbol_with_instances());
    assert_eq!(got.len(), 3);
    assert_eq!(got[0].project, "GateMagic");
    assert_eq!(got[0].path, "/root");
    assert_eq!(got[0].reference, "R1");
    assert_eq!(got[0].unit, 2);
    assert_eq!(got[1].path, "/child");
    assert_eq!(got[1].reference, "");
    assert_eq!(got[1].unit, 1);
    assert_eq!(got[2].project, "");
    assert_eq!(got[2].unit, 1);
}

#[test]
fn sheet_instances_default_page_is_one() {
    let sheet = n(
        "sheet",
        vec![n(
            "instances",
            vec![n(
                "project",
                vec![
                    quoted("GateMagic"),
                    n("path", vec![quoted("/a"), n("page", vec![quoted("7")])]),
                    n("path", vec![quoted("/b")]),
                ],
            )],
        )],
    );
    let got = parse_sheet_instances(&sheet);
    assert_eq!(got.len(), 2);
    assert_eq!(got[0].page, "7");
    assert_eq!(got[1].page, "1");
    assert_eq!(got[1].project, "GateMagic");
    assert!(parse_sheet_instances(&n("sheet", vec![])).is_empty());
}

#[test]
fn root_page_prefers_sheet_instances_then_top_level_path() {
    let listed = n(
        "kicad_sch",
        vec![
            n(
                "sheet_instances",
                vec![
                    n("path", vec![quoted("/x"), n("page", vec![quoted("3")])]),
                    n("path", vec![quoted("/"), n("page", vec![quoted("7")])]),
                ],
            ),
            n("path", vec![quoted("/"), n("page", vec![quoted("9")])]),
        ],
    );
    assert_eq!(parse_root_sheet_page(&listed), "7");
    let top = n(
        "kicad_sch",
        vec![
            n("sheet_instances", vec![n("path", vec![quoted("/x")])]),
            n("path", vec![quoted("/"), n("page", vec![quoted("9")])]),
        ],
    );
    assert_eq!(parse_root_sheet_page(&top), "9");
    assert_eq!(parse_root_sheet_page(&n("kicad_sch", vec![])), "1");
    let no_page = n("kicad_sch", vec![n("path", vec![quoted("/")])]);
    assert_eq!(parse_root_sheet_page(&no_page), "1");
}

#[test]
fn millimetre_numerals_drop_trailing_zeros() {
    assert_eq!(fixed_text(0), "0");
    assert_eq!(fixed_text(1_270_000), "1.27");
    assert_eq!(fixed_text(10_000_000), "10");
    assert_eq!(fixed_text(-500_000), "-0.5");
    assert_eq!(fixed_text(150_000), "0.15");
    assert_eq!(fixed_text(1), "0.000001");
    assert_eq!(fixed_text(-3_000_000), "-3");
    assert_eq!(fixed_text(123_456_789), "123.456789");
}

#[test]
fn effects_and_property_nodes() {
    assert_eq!(
        effects_with_justify_node(&[]).render(),
        "(effects (font (size 1.27 1.27)))"
    );
    assert_eq!(
        effects_with_justify_node(&["left", "bottom"]).render(),
        "(effects (font (size 1.27 1.27)) (justify left bottom))"
    );
    assert_eq!(
        lib_symbol_property_node("Reference", "R", 0).render(),
        r#"(property "Reference" "R" (id 0) (at 0 0 0) (effects (font (size 1.27 1.27))))"#
    );
}

#[test]
fn sheet_fill_uses_colour_when_present() {
    assert_eq!(
        sheet_fill_node(FillType::Background, None, "1").render(),
        "(fill (type background))"
    );
    let c = StrokeColor { r: 255, g: 128, b: 0, a: 255 };
    assert_eq!(
        sheet_fill_node(FillType::Background, Some(c), "1").render(),
        "(fill (color 255 128 0 1))"
    );
}

fn sym(project: &str, path: &str, reference: &str, unit: u32) -> SymbolInstance {
    SymbolInstance {
        project: project.into(),
        path: path.into(),
        reference: reference.into(),
        unit,
    }
}

#[test]
fn symbol_instances_are_grouped_by_project_and_sorted_by_path() {
    assert!(symbol_instances_node(&[]).is_none());
    let instances = vec![
        sym("Zeta", "/b", "R3", 1),
        sym("Alpha", "/c", "R2", 1),
        sym("Zeta", "/a", "R4", 2),
        sym("Alpha", "/a", "R1", 1),
        sym("Alpha", "/c", "R5", 1),
    ];
    let node = symbol_instances_node(&instances).unwrap();
    assert_eq!(
        node.render(),
        [
            r#"(instances (project "Alpha" (path "/a" (reference "R1") (unit 1))"#,
            r#" (path "/c" (reference "R2") (unit 1)) (path "/c" (reference "R5") (unit 1)))"#,
            r#" (project "Zeta" (path "/a" (reference "R4") (unit 2)) (path "/b" (reference "R3") (unit 1))))"#
        ].concat()
    );
}

#[test]
fn sheet_instances_are_grouped_and_sorted() {
    assert!(sheet_instances_node(&[]).is_none());
    let instances = vec![
        SheetInstance { project: "P".into(), path: "/z".into(), page: "3".into() },
        SheetInstance { project: "P".into(), path: "/a".into(), page: "2".into() },
    ];
    assert_eq!(
        sheet_instances_node(&instances).unwrap().render(),
        r#"(instances (project "P" (path "/a" (page "2")) (path "/z" (page "3"))))"#
    );
}

#[test]
fn rendered_lines_are_indented() {
    let mut out = String::from("x\n");
    write_rendered_sexpr(&mut out, 2, n("paper", vec![quoted("A4")]));
    assert_eq!(out, "x\n  (paper \"A4\")\n");
}
