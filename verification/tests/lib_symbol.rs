use signex_kicad::coord::Vec2;
use signex_kicad::kicad_lib::{
    lib_base_name, lib_graphic_node, lib_pin_node, lib_sub_symbol_keys, lib_sub_symbol_node,
    lib_symbol_node, text_effects_node,
};
use signex_kicad::schematic::{
    FillType, Graphic, HAlign, LibGraphic, LibPin, LibSymbol, Pin, PinDirection, PinShapeStyle,
    VAlign,
};

fn empty_lib(id: &str) -> LibSymbol {
    LibSymbol {
        id: id.to_string(),
        reference: String::new(),
        value: String::new(),
        footprint: String::new(),
        datasheet: String::new(),
        description: String::new(),
        keywords: String::new(),
        fp_filters: String::new(),
        in_bom: true,
        on_board: true,
        in_pos_files: true,
        duplicate_pin_numbers_are_jumpers: false,
        graphics: Vec::new(),
        pins: Vec::new(),
        show_pin_numbers: true,
        show_pin_names: true,
        pin_name_offset: 508_000,
    }
}

fn pin(number: &str) -> Pin {
    Pin {
        direction: PinDirection::Passive,
        shape_style: PinShapeStyle::Plain,
        position: Vec2 { x: 0, y: 3_810_000 },
        rotation: 270_000_000,
        length: 1_270_000,
        name: "~".to_string(),
        number: number.to_string(),
        visible: true,
        name_visible: true,
        number_visible: true,
    }
}

#[test]
fn writes_lib_symbol_parent_metadata() {
    let lib = LibSymbol {
        id: "Interface_Ethernet:W5500".to_string(),
        reference: "U".to_string(),
        value: "W5500".to_string(),
        footprint: "Package_QFP:LQFP-48_7x7mm_P0.5mm".to_string(),
        datasheet: "http://example.invalid/ds.pdf".to_string(),
        description: "Ethernet controller".to_string(),
        keywords: "WIZnet Ethernet".to_string(),
        fp_filters: "LQFP*".to_string(),
        in_bom: true,
        on_board: true,
        in_pos_files: true,
        duplicate_pin_numbers_are_jumpers: false,
        graphics: Vec::new(),
        pins: Vec::new(),
        show_pin_numbers: true,
        show_pin_names: true,
        pin_name_offset: 508_000,
    };

    let parsed = lib_symbol_node(&lib);
    assert_eq!(parsed.keyword(), Some("symbol"));
    assert!(parsed
        .find_all("property")
        .iter()
        .any(|p| p.first_arg() == Some("Description")));
    assert!(parsed
        .find_all("property")
        .iter()
        .any(|p| p.first_arg() == Some("ki_keywords")));
    assert!(parsed
        .find_all("property")
        .iter()
        .any(|p| p.first_arg() == Some("ki_fp_filters")));
}

#[test]
fn writes_hidden_lib_pin_flag() {
    let pin = Pin {
        direction: PinDirection::DoNotConnect,
        shape_style: PinShapeStyle::Plain,
        position: Vec2 { x: 20_320_000, y: 0 },
        rotation: 0,
        length: 0,
        name: "NC".to_string(),
        number: "7".to_string(),
        visible: false,
        name_visible: true,
        number_visible: true,
    };

    let out = lib_pin_node(&pin).render();
    assert!(out.contains("(hide yes)"));
}

#[test]
fn lib_pin_writes_tokens_placement_and_labels() {
    let mut p = pin("2");
    p.number_visible = false;
    assert_eq!(
        lib_pin_node(&p).render(),
        "(pin passive line (at 0 3.81 270) (length 1.27) \
         (name \"~\" (effects (font (size 1.27 1.27)))) \
         (number \"2\" (effects (font (size 1.27 1.27)) (hide yes))))"
    );
}

#[test]
fn base_name_is_what_follows_the_last_colon() {
    assert_eq!(lib_base_name("Device:R"), "R");
    assert_eq!(lib_base_name("a:b:C"), "C");
    assert_eq!(lib_base_name("NoLibrary"), "NoLibrary");
    assert_eq!(lib_base_name("Lib:"), "");
    assert_eq!(lib_base_name(""), "");
}

#[test]
fn empty_fields_fall_back_to_u_and_base_name() {
    let lib = empty_lib("Device:R");
    let node = lib_symbol_node(&lib);
    let props = node.find_all("property");
    assert_eq!(props.len(), 4);
    assert_eq!(props[0].arg(1), Some("U"));
    assert_eq!(props[1].arg(1), Some("R"));
    assert_eq!(props[2].first_arg(), Some("Footprint"));
    assert_eq!(props[3].first_arg(), Some("Datasheet"));
}

#[test]
fn symbol_without_drawings_has_one_default_sub_symbol() {
    let lib = empty_lib("Device:R");
    assert_eq!(lib_sub_symbol_keys(&lib), vec![(0, 1)]);
    let node = lib_symbol_node(&lib);
    let subs = node.find_all("symbol");
    assert_eq!(subs.len(), 1);
    assert_eq!(subs[0].render(), "(symbol \"R_0_1\")");
}

#[test]
fn sub_symbols_are_sorted_and_distinct() {
    let mut lib = empty_lib("Device:R");
    lib.graphics.push(LibGraphic {
        unit: 2,
        body_style: 1,
        graphic: Graphic::Circle {
            center: Vec2 { x: 0, y: 0 },
            radius: 1_000_000,
            width: 254_000,
            fill: FillType::Unfilled,
        },
    });
    lib.graphics.push(LibGraphic {
        unit: 0,
        body_style: 1,
        graphic: Graphic::Rectangle {
            start: Vec2 { x: -1_016_000, y: -2_540_000 },
            end: Vec2 { x: 1_016_000, y: 2_540_000 },
            width: 254_000,
            fill: FillType::Background,
        },
    });
    lib.pins.push(LibPin { unit: 1, body_style: 1, pin: pin("1") });
    lib.pins.push(LibPin { unit: 2, body_style: 1, pin: pin("2") });
    lib.pins.push(LibPin { unit: 1, body_style: 2, pin: pin("3") });

    assert_eq!(lib_sub_symbol_keys(&lib), vec![(0, 1), (1, 1), (1, 2), (2, 1)]);

    let node = lib_symbol_node(&lib);
    let names: Vec<_> = node
        .find_all("symbol")
        .iter()
        .map(|s| s.first_arg().unwrap().to_string())
        .collect();
    assert_eq!(names, vec!["R_0_1", "R_1_1", "R_1_2", "R_2_1"]);

    let unit2 = lib_sub_symbol_node("R", 2, 1, &lib);
    assert!(unit2.find("circle").is_some());
    assert_eq!(unit2.find_all("pin").len(), 1);
    assert_eq!(unit2.find("pin").unwrap().find("number").unwrap().first_arg(), Some("2"));
}

#[test]
fn hidden_pin_numbers_and_names_are_flagged() {
    let mut lib = empty_lib("Device:R");
    lib.show_pin_numbers = false;
    lib.show_pin_names = false;
    let out = lib_symbol_node(&lib).render();
    assert!(out.contains("(pin_numbers hide)"));
    assert!(out.contains("(pin_names (offset 0.508) hide)"));
}

#[test]
fn text_effects_justify_only_off_centre_axes() {
    assert_eq!(
        text_effects_node(1_270_000, false, false, HAlign::Center, VAlign::Center).render(),
        "(effects (font (size 1.27 1.27)))"
    );
    assert_eq!(
        text_effects_node(1_270_000, true, false, HAlign::Left, VAlign::Center).render(),
        "(effects (font (size 1.27 1.27) bold) (justify left))"
    );
    assert_eq!(
        text_effects_node(1_000_000, false, true, HAlign::Right, VAlign::Top).render(),
        "(effects (font (size 1 1) italic) (justify right top))"
    );
}

#[test]
fn lib_graphics_write_their_shapes() {
    let poly = Graphic::Polyline {
        points: vec![Vec2 { x: 0, y: 0 }, Vec2 { x: 2_540_000, y: -1_270_000 }],
        width: 0,
        fill: FillType::Outline,
    };
    assert_eq!(
        lib_graphic_node(&poly).render(),
        "(polyline (pts (xy 0 0) (xy 2.54 -1.27)) (stroke (width 0) (type default)) (fill (type outline)))"
    );
    let arc = Graphic::Arc {
        start: Vec2 { x: 0, y: 1_000_000 },
        mid: Vec2 { x: 1_000_000, y: 0 },
        end: Vec2 { x: 0, y: -1_000_000 },
        width: 150_000,
        fill: FillType::Unfilled,
    };
    assert_eq!(
        lib_graphic_node(&arc).render(),
        "(arc (start 0 1) (mid 1 0) (end 0 -1) (stroke (width 0.15) (type default)) (fill (type none)))"
    );
    let text = Graphic::Text {
        text: "A".to_string(),
        position: Vec2 { x: 500_000, y: 0 },
        rotation: 0,
        font_size: 1_270_000,
        bold: false,
        italic: false,
        justify_h: HAlign::Center,
        justify_v: VAlign::Bottom,
    };
    assert_eq!(
        lib_graphic_node(&text).render(),
        "(text \"A\" (at 0.5 0 0) (effects (font (size 1.27 1.27)) (justify bottom)))"
    );
    let text_box = Graphic::TextBox {
        text: "B".to_string(),
        position: Vec2 { x: 0, y: 0 },
        rotation: 90_000_000,
        size: Vec2 { x: 5_000_000, y: 2_000_000 },
        font_size: 1_000_000,
        bold: true,
        italic: false,
        width: 0,
        fill: FillType::Unfilled,
    };
    assert_eq!(
        lib_graphic_node(&text_box).render(),
        "(text_box \"B\" (at 0 0 90) (size 5 2) (stroke (width 0) (type default)) (fill (type none)) (effects (font (size 1 1) bold)))"
    );
    let bezier = Graphic::Bezier {
        points: vec![Vec2 { x: 0, y: 0 }],
        width: 0,
        fill: FillType::Unfilled,
    };
    assert!(lib_graphic_node(&bezier).render().starts_with("(bezier (pts (xy 0 0))"));
}
