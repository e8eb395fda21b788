use signex_kicad::coord::Vec2;
use signex_kicad::kicad_pcb::{
    board_text_node, build_board_graphic, build_footprint, build_fp_graphic, build_fp_pad,
    effective_footprint_properties, pcb_property_node, write_pcb,
};
use signex_kicad::kicad_write::write_rendered_sexpr;
use signex_kicad::pcb::{
    BoardGraphic, BoardText, DrillDef, FpGraphic, Footprint, LayerDef, NetDef, Pad, PadNet,
    PadShape, PadType, PcbBoard, PcbProperty, PcbSetup, Segment, Via, ViaType, Zone,
};
use signex_kicad::sexpr::{atom, list, raw, SExpr};
use signex_kicad::sexpr_read::parse;
use signex_kicad::snx_pcb::{FootprintExtras, PadExtras, SnxPcb};

const MM: i64 = 1_000_000;
const DEG: i64 = 1_000_000;

fn render_fragment(expr: SExpr, indent: usize) -> String {
    let mut out = String::new();
    write_rendered_sexpr(&mut out, indent, expr);
    out
}

#[test]
fn writes_footprint_property_as_expected_sexpr() {
    let property = PcbProperty {
        key: "MPN".to_string(),
        value: "RC0603FR-0710KL".to_string(),
        position: Some(Vec2 { x: MM, y: 3 * MM }),
        rotation: 180 * DEG,
        layer: Some("Cmts.User".to_string()),
        font_size: Some(1_200_000),
        hidden: true,
    };
    let out = render_fragment(pcb_property_node(&property), 4);
    let expected = list(vec![
        raw("property"),
        atom("MPN"),
        atom("RC0603FR-0710KL"),
        list(vec![raw("at"), raw("1"), raw("3"), raw("180")]),
        list(vec![raw("layer"), atom("Cmts.User")]),
        list(vec![raw("hide"), raw("yes")]),
        list(vec![
            raw("effects"),
            list(vec![
                raw("font"),
                list(vec![raw("size"), raw("1.2"), raw("1.2")]),
                list(vec![raw("thickness"), raw("0.15")]),
            ]),
        ]),
    ]);
    assert_eq!(out.trim(), expected.render());
}

#[test]
fn writes_board_text_as_expected_sexpr() {
    let text = BoardText {
        uuid: 0,
        text: "HELLO".to_string(),
        position: Vec2 { x: 10 * MM, y: 20 * MM },
        rotation: 90 * DEG,
        layer: "F.SilkS".to_string(),
        font_size: 1_500_000,
    };
    let out = render_fragment(board_text_node(&text), 2);
    let expected = list(vec![
        raw("gr_text"),
        atom("HELLO"),
        list(vec![raw("at"), atom(10i64), atom(20i64), atom(90i64)]),
        list(vec![raw("layer"), atom("F.SilkS")]),
        list(vec![
            raw("effects"),
            list(vec![
                raw("font"),
                list(vec![raw("size"), raw("1.5"), raw("1.5")]),
                list(vec![raw("thickness"), raw("0.15")]),
            ]),
        ]),
        list(vec![raw("uuid"), atom("00000000-0000-0000-0000-000000000000")]),
    ]);
    assert_eq!(out.trim(), expected.render());
}

fn mpn_footprint() -> Footprint {
    Footprint {
        uuid: 0,
        reference: "R1".to_string(),
        value: "10k".to_string(),
        footprint_id: "Resistor_SMD:R_0603".to_string(),
        position: Vec2 { x: 10 * MM, y: 20 * MM },
        rotation: 0,
        layer: "F.Cu".to_string(),
        locked: false,
        pads: Vec::new(),
        graphics: vec![FpGraphic {
            graphic_type: "text".to_string(),
            layer: "Cmts.User".to_string(),
            width: 100_000,
            start: None,
            end: None,
            center: None,
            mid: None,
            radius: 0,
            points: Vec::new(),
            text: "RC0603FR-0710KL".to_string(),
            font_size: 1_200_000,
            position: Some(Vec2 { x: MM, y: 3 * MM }),
            rotation: 180 * DEG,
            fill: String::new(),
        }],
        properties: vec![PcbProperty {
            key: "MPN".to_string(),
            value: "RC0603FR-0710KL".to_string(),
            position: Some(Vec2 { x: MM, y: 3 * MM }),
            rotation: 180 * DEG,
            layer: Some("Cmts.User".to_string()),
            font_size: Some(1_200_000),
            hidden: false,
        }],
    }
}

#[test]
fn writes_structured_footprint_properties_without_duplicate_text_graphics() {
    let fp = mpn_footprint();
    let expr = build_footprint(&fp);
    let property = expr
        .find_all("property")
        .into_iter()
        .find(|node| node.first_arg() == Some("MPN"))
        .unwrap();
    assert_eq!(property.arg(1), Some("RC0603FR-0710KL"));
    let out = render_fragment(build_footprint(&fp), 2);
    assert_eq!(out.matches("RC0603FR-0710KL").count(), 1);
}

#[test]
fn missing_reference_and_value_properties_are_supplied() {
    let fp = mpn_footprint();
    let props = effective_footprint_properties(&fp);
    assert_eq!(props.len(), 3);
    assert_eq!(props[0].key, "Reference");
    assert_eq!(props[0].value, "R1");
    assert_eq!(props[0].layer.as_deref(), Some("F.SilkS"));
    assert_eq!(props[1].key, "MPN");
    assert_eq!(props[2].key, "Value");
    assert_eq!(props[2].value, "10k");

    let mut bare = mpn_footprint();
    bare.properties.clear();
    let props = effective_footprint_properties(&bare);
    assert_eq!(props.len(), 2);
    assert_eq!(props[0].position, Some(Vec2 { x: 0, y: -1_500_000 }));
    assert_eq!(props[1].position, Some(Vec2 { x: 0, y: 1_500_000 }));

    let mut stale = mpn_footprint();
    stale.properties[0].key = "Value".to_string();
    stale.properties[0].value = "old".to_string();
    let props = effective_footprint_properties(&stale);
    assert_eq!(props.len(), 2);
    assert_eq!(props[1].key, "Value");
    assert_eq!(props[1].value, "10k");
}

#[test]
fn graphics_of_each_kind() {
    let line = BoardGraphic {
        graphic_type: "line".into(),
        layer: "Edge.Cuts".into(),
        width: 150_000,
        start: Some(Vec2 { x: 0, y: 0 }),
        end: Some(Vec2 { x: 5 * MM, y: 0 }),
        center: None,
        radius: 0,
    };
    assert_eq!(
        build_board_graphic(&line).unwrap().render(),
        r#"(gr_line (start 0 0) (end 5 0) (stroke (width 0.15) (type default)) (layer "Edge.Cuts"))"#
    );
    let circle = BoardGraphic {
        graphic_type: "circle".into(),
        center: Some(Vec2 { x: MM, y: MM }),
        radius: 2_500_000,
        start: None,
        end: None,
        ..line.clone()
    };
    assert_eq!(
        build_board_graphic(&circle).unwrap().render(),
        r#"(gr_circle (center 1 1) (end 3.5 1) (stroke (width 0.15) (type default)) (layer "Edge.Cuts"))"#
    );
    let broken = BoardGraphic { end: None, ..line.clone() };
    assert!(build_board_graphic(&broken).is_none());
    let other = BoardGraphic { graphic_type: "bezier".into(), ..line };
    assert!(build_board_graphic(&other).is_none());

    let poly = FpGraphic {
        graphic_type: "poly".into(),
        layer: "F.SilkS".into(),
        width: 120_000,
        start: None,
        end: None,
        center: None,
        mid: None,
        radius: 0,
        points: vec![Vec2 { x: 0, y: 0 }, Vec2 { x: MM, y: 0 }],
        text: String::new(),
        font_size: 0,
        position: None,
        rotation: 0,
        fill: "solid".into(),
    };
    assert_eq!(
        build_fp_graphic(&poly).unwrap().render(),
        r#"(fp_poly (pts (xy 0 0) (xy 1 0)) (stroke (width 0.12) (type default)) (fill solid) (layer "F.SilkS"))"#
    );
    let short = FpGraphic { points: vec![Vec2 { x: 0, y: 0 }], ..poly.clone() };
    assert!(build_fp_graphic(&short).is_none());
    let text = FpGraphic {
        graphic_type: "text".into(),
        text: "%R".into(),
        position: Some(Vec2 { x: 0, y: -MM }),
        ..poly
    };
    assert_eq!(
        build_fp_graphic(&text).unwrap().render(),
        r#"(fp_text user "%R" (at 0 -1) (layer "F.SilkS") (effects (font (size 1 1) (thickness 0.15))))"#
    );
}

#[test]
fn pads_write_drill_net_and_ratio() {
    let pad = Pad {
        uuid: 0x0192a8c0_0011_7000_8000_000000000001,
        number: "1".into(),
        pad_type: PadType::Thru,
        shape: PadShape::RoundRect,
        position: Vec2 { x: -MM, y: 0 },
        size: Vec2 { x: 1_700_000, y: 1_700_000 },
        drill: Some(DrillDef { shape: "oval".into(), diameter: 1_000_000 }),
        layers: vec!["*.Cu".into(), "*.Mask".into()],
        net: Some(PadNet { number: 1, name: "VCC".into() }),
        roundrect_ratio: 250_000,
    };
    assert_eq!(
        build_fp_pad(&pad).render(),
        [
            r#"(pad "1" thru_hole roundrect (at -1 0) (size 1.7 1.7) (drill oval 1) (layers "*.Cu" "*.Mask")"#,
            r#" (roundrect_rratio 0.25) (net 1 "VCC") (uuid "0192a8c0-0011-7000-8000-000000000001"))"#
        ].concat()
    );
    assert_eq!(PadExtras::from_pad(&pad).drill_shape, "oval");
    assert!(!PadExtras::from_pad(&pad).is_default());
    let plain = Pad { drill: None, net: None, roundrect_ratio: 0, ..pad };
    assert!(PadExtras::from_pad(&plain).is_default());
}

fn empty_board() -> PcbBoard {
    PcbBoard {
        uuid: 0,
        version: 1,
        generator: "signex-test".into(),
        thickness: 1_600_000,
        outline: vec![],
        layers: vec![],
        setup: None,
        nets: vec![],
        footprints: vec![],
        segments: vec![],
        vias: vec![],
        zones: vec![],
        graphics: vec![],
        texts: vec![],
    }
}

#[test]
fn writes_empty_board() {
    let out = write_pcb(&empty_board());
    assert_eq!(
        out,
        [
            r#"(kicad_pcb (version 1) (generator "signex") (generator_version "0.1")"#,
            r#" (general (thickness 1.6) (uuid "00000000-0000-0000-0000-000000000000"))"#,
            r#" (paper "A4") (layers))"#,
            "\n"
        ].concat()
    );
}

#[test]
fn writes_board_sections_in_order() {
    let mut board = empty_board();
    board.layers = vec![LayerDef { id: 0, name: "F.Cu".into(), layer_type: "signal".into() }];
    board.setup = Some(PcbSetup {
        clearance: 200_000,
        trace_width: 250_000,
        via_diameter: 800_000,
        via_drill: 400_000,
        via_min_diameter: 300_000,
        via_min_drill: 100_000,
    });
    board.nets = vec![NetDef { number: 0, name: "".into() }, NetDef { number: 1, name: "GND".into() }];
    board.segments = vec![Segment {
        uuid: 1,
        start: Vec2 { x: 0, y: 0 },
        end: Vec2 { x: MM, y: 0 },
        width: 250_000,
        layer: "F.Cu".into(),
        net: 1,
    }];
    board.vias = vec![Via {
        uuid: 2,
        position: Vec2 { x: MM, y: 0 },
        diameter: 800_000,
        drill: 400_000,
        layers: vec!["F.Cu".into(), "B.Cu".into()],
        net: 1,
        via_type: ViaType::Blind,
    }];
    board.zones = vec![Zone {
        uuid: 3,
        net: 1,
        net_name: "GND".into(),
        layer: "B.Cu".into(),
        priority: 2,
        thermal_relief: true,
        thermal_gap: 500_000,
        thermal_width: 300_000,
        min_thickness: 250_000,
        clearance: 0,
        outline: vec![Vec2 { x: 0, y: 0 }, Vec2 { x: MM, y: 0 }, Vec2 { x: MM, y: MM }],
    }];
    let back = parse(&write_pcb(&board)).unwrap();
    assert_eq!(back.keyword(), Some("kicad_pcb"));
    assert!(back.find("setup").is_some());
    assert_eq!(back.find_all("net").len(), 2);
    assert_eq!(back.find_all("segment").len(), 1);
    assert_eq!(back.find_all("via_blind").len(), 1);
    assert_eq!(back.find_all("zone").len(), 1);
    assert_eq!(back.find_all("footprint").len(), 0);
    let out = write_pcb(&board);
    let expected = [
        r#"(kicad_pcb (version 1) (generator "signex") (generator_version "0.1")"#,
        r#" (general (thickness 1.6) (uuid "00000000-0000-0000-0000-000000000000"))"#,
        r#" (paper "A4") (layers (0 "F.Cu" signal))"#,
        r#" (setup (pad_to_mask_clearance 0) (pcbplotparams (layerselection 0x00010fc_ffffffff) (plot_on_all_layers_selection 0x0000000_00000000)))"#,
        r#" (net_class "Default" "" (clearance 0.2) (trace_width 0.25) (via_dia 0.8) (via_drill 0.4) (uvia_dia 0.3) (uvia_drill 0.1))"#,
        r#" (net 0 "") (net 1 "GND")"#,
        r#" (segment (start 0 0) (end 1 0) (width 0.25) (layer "F.Cu") (net 1) (uuid "00000000-0000-0000-0000-000000000001"))"#,
        r#" (via_blind (at 1 0) (size 0.8) (drill 0.4) (layers "F.Cu" "B.Cu") (net 1) (uuid "00000000-0000-0000-0000-000000000002"))"#,
        r#" (zone (net 1) (net_name "GND") (layer "B.Cu") (uuid "00000000-0000-0000-0000-000000000003") (priority 2)"#,
        r#" (fill (thermal_relief) (thermal_gap 0.5) (thermal_bridge_width 0.3)) (min_thickness 0.25)"#,
        r#" (polygon (pts (xy 0 0) (xy 1 0) (xy 1 1)))))"#,
        "\n"
    ].concat();
    assert_eq!(out, expected);
}

#[test]
fn footprint_extras_keep_what_rows_lose() {
    let fp = mpn_footprint();
    let extras = FootprintExtras::from_footprint(&fp);
    assert_eq!(extras.footprint_id, "Resistor_SMD:R_0603");
    assert_eq!(extras.graphics.len(), 1);
    assert_eq!(extras.properties[0].value, "RC0603FR-0710KL");
    assert!(!extras.is_default());
    let none = FootprintExtras {
        footprint_id: String::new(),
        locked: false,
        graphics: vec![],
        properties: vec![],
    };
    assert!(none.is_default());
    let snx = SnxPcb::new(empty_board());
    assert_eq!(snx.format, "snxpcb/1");
}
