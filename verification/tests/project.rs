use signex_kicad::error::ParseError;
use signex_kicad::fresh_id::{rand_u16, rand_u32, rand_u48};
use signex_kicad::project::{parse_project, pcb_file_name, project_name, schematic_file_name, ProjectError};
use signex_kicad::sheet_dir::{collect_sheets_from, DirFile};
use signex_kicad::sheet_walk::{admit_child, has_traversal, scan_sheet_text, PathPart, SheetWalk, MAX_FILE_SIZE};
use signex_kicad::theme::{canvas_colors, theme_tokens, Color, ThemeId};

#[test]
fn project_with_both_companions() {
    let p = parse_project(Some("snxprj"), Some("/work/amp"), Some("amp"), true, true).unwrap();
    assert_eq!(p.name, "amp");
    assert_eq!(p.dir, "/work/amp");
    assert_eq!(p.schematic_root.as_deref(), Some("amp.snxsch"));
    assert_eq!(p.pcb_file.as_deref(), Some("amp.snxpcb"));
    assert_eq!(p.sheets.len(), 1);
    assert_eq!(p.sheets[0].name, "amp");
    assert_eq!(p.sheets[0].filename, "amp.snxsch");
    assert!(p.variant_definitions.is_empty());
    assert!(p.active_variant.is_none());
}

#[test]
fn project_defaults_and_refusals() {
    let p = parse_project(Some("SNXPRJ"), None, None, false, false).unwrap();
    assert_eq!(p.name, "Untitled");
    assert_eq!(p.dir, ".");
    assert!(p.schematic_root.is_none());
    assert!(p.sheets.is_empty());
    assert_eq!(
        parse_project(Some("Kicad_Pro"), Some("."), Some("x"), true, true),
        Err(ProjectError::UnsupportedExtension("kicad_pro".into()))
    );
    assert_eq!(
        parse_project(None, Some("."), Some("x"), true, true),
        Err(ProjectError::UnsupportedExtension(String::new()))
    );
    assert_eq!(project_name(Some("a")), "a");
    assert_eq!(schematic_file_name("a"), "a.snxsch");
    assert_eq!(pcb_file_name("a"), "a.snxpcb");
}

#[test]
fn colours_parse_from_hex() {
    assert_eq!(Color::from_hex("#FF8000"), Color::new(255, 128, 0, 255));
    assert_eq!(Color::from_hex("0891b2"), Color { r: 8, g: 145, b: 178, a: 255 });
    assert_eq!(Color::from_hex("##102030"), Color::new(16, 32, 48, 255));
    assert_eq!(Color::from_hex("#11223344"), Color::new(17, 34, 51, 68));
    assert_eq!(Color::from_hex("#zz2233"), Color::new(0, 34, 51, 255));
    assert_eq!(Color::from_hex("#112233zz"), Color::new(17, 34, 51, 255));
    assert_eq!(Color::from_hex("+F+F+F"), Color::new(15, 15, 15, 255));
}

#[test]
fn themes_share_signex_where_documented() {
    let signex = theme_tokens(ThemeId::Signex);
    let alplab = theme_tokens(ThemeId::Alplab);
    assert_eq!(alplab.accent, Color::new(0x08, 0x91, 0xB2, 0xFF));
    assert_eq!(signex.accent, Color::new(0xE8, 0x91, 0x2D, 0xFF));
    assert_eq!(tokens_without_accent(alplab), tokens_without_accent(signex));
    assert_eq!(canvas_colors(ThemeId::Alplab), canvas_colors(ThemeId::Signex));
    assert_eq!(theme_tokens(ThemeId::Custom), signex);
    assert_eq!(canvas_colors(ThemeId::Custom), canvas_colors(ThemeId::Signex));
    assert_eq!(canvas_colors(ThemeId::Signex).paper, Color::new(0xFF, 0xFF, 0xE0, 0xFF));
    assert_eq!(ThemeId::Nord.label(), "Nord");
    assert_eq!(ThemeId::Alplab.label(), "Alp Lab");
    let builtins = ThemeId::builtins();
    assert_eq!(builtins.len(), 7);
    assert_eq!(builtins[0], ThemeId::Signex);
    assert!(!builtins.contains(&ThemeId::Custom));
}

fn tokens_without_accent(mut t: signex_kicad::theme::ThemeTokens) -> signex_kicad::theme::ThemeTokens {
    t.accent = Color::new(0, 0, 0, 0);
    t
}

#[test]
fn fresh_id_bits_mix_counter_and_seed() {
    let n: u64 = 1;
    let seed: u64 = 0x1234_5678_9abc_def0;
    let mixed = n.wrapping_mul(0x517cc1b727220a95) ^ seed;
    assert_eq!(rand_u32(n, seed), (mixed >> 16) as u32);
    assert_eq!(rand_u16(n, seed), (mixed >> 32) as u16);
    assert_eq!(rand_u48(n, seed), mixed & 0xFFFF_FFFF_FFFF);
    assert_ne!(rand_u32(1, seed), rand_u32(2, seed));
}

#[test]
fn parse_error_from_message() {
    assert_eq!(ParseError::from("bad".to_string()), ParseError::InvalidSExpr("bad".into()));
}

const SHEET: &str = r#"(kicad_sch
  (version 20231120)
  (lib_symbols
    (symbol "Device:R"
      (pin passive line)
    )
  )
  (symbol (lib_id "Device:R")
    (property "Reference" "R1")
  )
  (symbol (lib_id "power:GND"))
  (wire (pts (xy 0 0) (xy 1 0)))
  (label "A (not a paren" (at 0 0 0))
  (global_label "B")
  (sheet (at 0 0)
    (property "Sheetname" "Power")
    (property "Sheetfile" "power.kicad_sch")
  )
)
"#;

#[test]
fn sheet_text_counts_top_level_items_and_children() {
    let scan = scan_sheet_text(SHEET);
    assert_eq!(scan.symbols_count, 1);
    assert_eq!(scan.wires_count, 1);
    assert_eq!(scan.labels_count, 2);
    assert_eq!(scan.child_filenames, vec!["power.kicad_sch"]);
}

#[test]
fn sheet_walk_visits_each_file_once_within_depth() {
    let mut walk = SheetWalk::new("top.kicad_sch");
    let (f, d) = walk.next_file().unwrap();
    assert_eq!((f.as_str(), d), ("top.kicad_sch", 0));
    let children = walk.record(f, SHEET);
    assert_eq!(children, vec!["power.kicad_sch"]);
    walk.enqueue("power.kicad_sch".into(), d + 1);
    walk.enqueue("top.kicad_sch".into(), d + 1);
    walk.enqueue("deep.kicad_sch".into(), 33);
    let (f, d) = walk.next_file().unwrap();
    assert_eq!((f.as_str(), d), ("power.kicad_sch", 1));
    walk.record(f, "");
    assert!(walk.next_file().is_none());
    let sheets = walk.into_sheets();
    assert_eq!(sheets.len(), 2);
    assert_eq!(sheets[0].name, "Root");
    assert_eq!(sheets[0].symbols_count, 1);
    assert_eq!(sheets[1].name, "power");
    assert!(SheetWalk::check_file_size("a", MAX_FILE_SIZE).is_ok());
    assert_eq!(
        SheetWalk::check_file_size("a.kicad_sch", MAX_FILE_SIZE + 1),
        Err(ParseError::InvalidValue("File too large: a.kicad_sch (104857601 bytes)".into()))
    );
}

#[test]
fn plain_child_paths_stay_in_the_directory() {
    assert!(!has_traversal(&[PathPart::Normal]));
    assert!(!has_traversal(&[PathPart::CurDir, PathPart::Normal, PathPart::Normal]));
    assert!(!has_traversal(&[]));
}

#[test]
fn child_paths_that_leave_the_directory_are_caught() {
    assert!(has_traversal(&[PathPart::ParentDir, PathPart::Normal]));
    assert!(has_traversal(&[PathPart::RootDir, PathPart::Normal]));
    assert!(has_traversal(&[PathPart::Prefix, PathPart::RootDir, PathPart::Normal]));
    assert!(has_traversal(&[PathPart::Normal, PathPart::ParentDir, PathPart::Normal]));
}

#[test]
fn colours_written_as_hex_read_back() {
    for &(r, g, b, a) in &[(0u8, 0u8, 0u8, 0u8), (255, 128, 1, 254), (8, 145, 178, 255), (171, 205, 239, 16)] {
        let upper = format!("#{:02X}{:02X}{:02X}{:02X}", r, g, b, a);
        assert_eq!(Color::from_hex(&upper), Color::new(r, g, b, a));
        let lower = format!("#{:02x}{:02x}{:02x}", r, g, b);
        assert_eq!(Color::from_hex(&lower), Color::new(r, g, b, 255));
    }
}

fn dir_file(name: &str, text: &str, parts: Vec<PathPart>, inside: bool) -> DirFile {
    DirFile {
        name: name.to_string(),
        size: text.len() as u64,
        text: Some(text.to_string()),
        parts,
        inside,
    }
}

const ROOT_TEXT: &str = "(kicad_sch\n  (sheet\n    (property \"Sheetfile\" \"power.kicad_sch\")\n  )\n  (sheet\n    (property \"Sheetfile\" \"../outside.kicad_sch\")\n  )\n  (sheet\n    (property \"Sheetfile\" \"missing.kicad_sch\")\n  )\n)\n";
const POWER_TEXT: &str = "(kicad_sch\n  (wire (pts (xy 0 0) (xy 1 0)))\n  (sheet\n    (property \"Sheetfile\" \"main.kicad_sch\")\n  )\n  (sheet\n    (property \"Sheetfile\" \"power.kicad_sch\")\n  )\n)\n";

#[test]
fn whole_walk_reads_each_reachable_sheet_once() {
    let files = vec![
        dir_file("main.kicad_sch", ROOT_TEXT, vec![PathPart::Normal], true),
        dir_file("power.kicad_sch", POWER_TEXT, vec![PathPart::Normal], true),
        dir_file("../outside.kicad_sch", POWER_TEXT, vec![PathPart::ParentDir, PathPart::Normal], false),
    ];
    let sheets = collect_sheets_from(&files, "main.kicad_sch").unwrap();
    assert_eq!(sheets.len(), 2);
    assert_eq!(sheets[0].name, "Root");
    assert_eq!(sheets[0].filename, "main.kicad_sch");
    assert_eq!(sheets[1].name, "power");
    assert_eq!(sheets[1].filename, "power.kicad_sch");
    assert_eq!(sheets[1].wires_count, 1);
}

#[test]
fn whole_walk_refuses_a_missing_root() {
    let files = vec![dir_file("power.kicad_sch", POWER_TEXT, vec![PathPart::Normal], true)];
    assert_eq!(
        collect_sheets_from(&files, "main.kicad_sch"),
        Err(ParseError::IoError("Failed to read main.kicad_sch: not found".to_string()))
    );
}

#[test]
fn whole_walk_skips_children_that_resolve_outside() {
    let files = vec![
        dir_file("main.kicad_sch", ROOT_TEXT, vec![PathPart::Normal], true),
        dir_file("power.kicad_sch", POWER_TEXT, vec![PathPart::Normal], false),
    ];
    let sheets = collect_sheets_from(&files, "main.kicad_sch").unwrap();
    assert_eq!(sheets.len(), 1);
}

#[test]
fn whole_walk_refuses_unreadable_and_oversized_files() {
    let mut bad = dir_file("power.kicad_sch", POWER_TEXT, vec![PathPart::Normal], true);
    bad.text = None;
    let files = vec![dir_file("main.kicad_sch", ROOT_TEXT, vec![PathPart::Normal], true), bad];
    assert_eq!(
        collect_sheets_from(&files, "main.kicad_sch"),
        Err(ParseError::IoError("Failed to read power.kicad_sch: not valid UTF-8".to_string()))
    );
    let mut big = dir_file("main.kicad_sch", ROOT_TEXT, vec![PathPart::Normal], true);
    big.size = MAX_FILE_SIZE + 1;
    assert_eq!(
        collect_sheets_from(&[big], "main.kicad_sch"),
        Err(ParseError::InvalidValue(format!("File too large: main.kicad_sch ({} bytes)", MAX_FILE_SIZE + 1)))
    );
}

#[test]
fn child_admission_needs_a_plain_path_inside_the_directory() {
    assert!(admit_child(&[PathPart::Normal], Some(true)));
    assert!(!admit_child(&[PathPart::Normal], Some(false)));
    assert!(!admit_child(&[PathPart::Normal], None));
    assert!(!admit_child(&[PathPart::ParentDir, PathPart::Normal], Some(true)));
    assert!(!admit_child(&[PathPart::RootDir, PathPart::Normal], Some(true)));
}
