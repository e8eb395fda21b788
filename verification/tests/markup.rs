use signex_kicad::markup::{
    auto_net_name, evaluate_expressions, parse_signex_markup, ExpressionEvalContext,
    RichSegment,
};
use signex_kicad::varmap::VarMap;

#[test]
fn plain_text() {
    assert_eq!(
        parse_signex_markup("Hello"),
        vec![RichSegment::Normal("Hello".into())]
    );
}

#[test]
fn empty_input() {
    assert_eq!(parse_signex_markup(""), Vec::<RichSegment>::new());
}

#[test]
fn bold() {
    assert_eq!(
        parse_signex_markup("**bold**"),
        vec![RichSegment::Bold("bold".into())]
    );
}

#[test]
fn italic() {
    assert_eq!(
        parse_signex_markup("*italic*"),
        vec![RichSegment::Italic("italic".into())]
    );
}

#[test]
fn strike() {
    assert_eq!(
        parse_signex_markup("~~gone~~"),
        vec![RichSegment::Strike("gone".into())]
    );
}

#[test]
fn superscript() {
    assert_eq!(
        parse_signex_markup("V^+^"),
        vec![
            RichSegment::Normal("V".into()),
            RichSegment::Superscript("+".into()),
        ]
    );
}

#[test]
fn subscript() {
    assert_eq!(
        parse_signex_markup("V~CC~"),
        vec![
            RichSegment::Normal("V".into()),
            RichSegment::Subscript("CC".into()),
        ]
    );
}

#[test]
fn overbar() {
    assert_eq!(
        parse_signex_markup("_~RESET~_"),
        vec![RichSegment::Overbar("RESET".into())]
    );
}

#[test]
fn link() {
    assert_eq!(
        parse_signex_markup("[click](https://example.com)"),
        vec![RichSegment::Link {
            label: "click".into(),
            url: "https://example.com".into(),
        }]
    );
}

#[test]
fn escape_sigils() {
    assert_eq!(
        parse_signex_markup(r"\*literal\*"),
        vec![RichSegment::Normal("*literal*".into())]
    );
    assert_eq!(
        parse_signex_markup(r"\~\~not strike\~\~"),
        vec![RichSegment::Normal("~~not strike~~".into())]
    );
    assert_eq!(
        parse_signex_markup(r"\_\~not overbar\~\_"),
        vec![RichSegment::Normal("_~not overbar~_".into())]
    );
}

#[test]
fn mixed_overbar_and_subscript() {
    assert_eq!(
        parse_signex_markup("_~OE~_~0~"),
        vec![
            RichSegment::Overbar("OE".into()),
            RichSegment::Subscript("0".into()),
        ]
    );
}

#[test]
fn unmatched_sigil_is_literal() {
    assert_eq!(
        parse_signex_markup("a*b"),
        vec![RichSegment::Normal("a*b".into())]
    );
}

#[test]
fn auto_net_name_format_is_signex() {
    let pins = vec![
        ("U2".to_string(), "5".to_string()),
        ("R1".to_string(), "2".to_string()),
        ("R1".to_string(), "1".to_string()),
    ];
    assert_eq!(auto_net_name("", &pins), Some("unnamed-R1:1".to_string()));
    assert_eq!(
        auto_net_name("PowerSupply", &pins),
        Some("unnamed-PowerSupply:R1:1".to_string())
    );
}

#[test]
fn auto_net_name_empty_pins() {
    assert_eq!(auto_net_name("", &[]), None);
}

#[test]
fn evaluates_refdes_and_at_variables() {
    let mut at = VarMap::new();
    at.insert("Comment".to_string(), "Decoupling".to_string());
    let mut refdes = VarMap::new();
    refdes.insert("U1_UUID".to_string(), "U1".to_string());

    let ctx = ExpressionEvalContext {
        current_refdes: Some("U7"),
        at_variables: Some(&at),
        refdes_variables: Some(&refdes),
        ..ExpressionEvalContext::default()
    };

    let out = evaluate_expressions("${refdes:self} @{Comment} ${refdes:U1_UUID}", &ctx);
    assert_eq!(out, "U7 Decoupling U1");
}

#[test]
fn evaluates_cell_and_net_name() {
    let mut nets = VarMap::new();
    nets.insert("A1".to_string(), "ADC_IN".to_string());
    let ctx = ExpressionEvalContext {
        current_pin: Some("A1"),
        cell: Some("2"),
        net_name_by_pin: Some(&nets),
        ..ExpressionEvalContext::default()
    };

    let out = evaluate_expressions("CELL() NET_NAME(pin)", &ctx);
    assert_eq!(out, "2 ADC_IN");
}

#[test]
fn unresolved_expressions_are_preserved() {
    let ctx = ExpressionEvalContext::default();
    let out = evaluate_expressions("${refdes:U1} @{foo} NET_NAME(1)", &ctx);
    assert_eq!(out, "${refdes:U1} @{foo} NET_NAME(1)");
}

#[test]
fn unresolved_lower_case_cell_is_kept_as_written() {
    let ctx = ExpressionEvalContext::default();
    assert_eq!(evaluate_expressions("a cell() b", &ctx), "a cell() b");
    assert_eq!(evaluate_expressions("Cell()", &ctx), "Cell()");
}

#[test]
fn unresolved_lower_case_net_name_is_kept_as_written() {
    let ctx = ExpressionEvalContext::default();
    assert_eq!(evaluate_expressions("net_name(R1.2) x", &ctx), "net_name(R1.2) x");
}

#[test]
fn nul_characters_are_copied() {
    let ctx = ExpressionEvalContext::default();
    assert_eq!(evaluate_expressions("a\0b ${x}", &ctx), "a\0b ${x}");
}

#[test]
fn lower_case_cell_resolves_when_a_cell_is_set() {
    let ctx = ExpressionEvalContext {
        cell: Some("B7"),
        ..ExpressionEvalContext::default()
    };
    assert_eq!(evaluate_expressions("at cell()", &ctx), "at B7");
}

#[test]
fn escaped_multi_byte_characters_inside_spans_are_kept() {
    assert_eq!(parse_signex_markup("*a\\é*"), vec![RichSegment::Italic("aé".into())]);
    assert_eq!(
        parse_signex_markup("x **a\\ü** y"),
        vec![
            RichSegment::Normal("x ".into()),
            RichSegment::Bold("aü".into()),
            RichSegment::Normal(" y".into()),
        ]
    );
    assert_eq!(
        parse_signex_markup("_~\\日~_"),
        vec![RichSegment::Overbar("日".into())]
    );
    assert_eq!(parse_signex_markup("\\é"), vec![RichSegment::Normal("\\é".into())]);
}
