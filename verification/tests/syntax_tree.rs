use nxc::syntax::{self, SyntaxKind};
use nxc::{parse_nxc, Limits, MAX_SOURCE_BYTES};

fn text(parse: &syntax::SourceParse) -> String {
    parse.green().unwrap().to_string()
}

#[test]
fn syntax_trees_keep_every_byte_of_the_source() {
    for source in [
        "1",
        "  f(a, b)  # trailing comment\n",
        "let { x = \"caf\u{e9}\"; yield x ++ ''\n  y\n''; }",
        "[ a ++ @, h(3) ]",
        "\u{a7} \u{a7} ${",
        "",
    ] {
        let parsed = syntax::parse(source);
        assert_eq!(text(&parsed), source);
    }
}

#[test]
fn a_parse_lowers_exactly_when_it_has_no_diagnostics() {
    let parsed = syntax::parse("f(a).x ++ [1]");
    assert!(parsed.diagnostics().is_empty());
    assert_eq!(parsed.lower().unwrap(), parse_nxc("f(a).x ++ [1]").unwrap());
    let broken = syntax::parse("f(a ++, h(3))");
    assert!(!broken.diagnostics().is_empty());
    assert_eq!(broken.lower().unwrap_err(), broken.diagnostics().clone());
}

#[test]
fn oversized_sources_have_no_syntax_tree() {
    let limits = Limits::new(4, 10).unwrap();
    let parsed = syntax::parse_with_limits("12345", limits);
    assert!(parsed.green().is_none());
    assert_eq!(parsed.diagnostics().len(), 1);
    assert!(syntax::parse(&" ".repeat(MAX_SOURCE_BYTES + 1)).green().is_none());
}

#[test]
fn kinds_number_and_read_back() {
    for kind in [SyntaxKind::Whitespace, SyntaxKind::Ident, SyntaxKind::ErrorToken] {
        assert_eq!(SyntaxKind::from_raw(kind.to_raw()), Some(kind));
    }
    assert_eq!(SyntaxKind::from_raw(1000), None);
}

#[test]
fn default_limits_are_the_ceilings() {
    assert_eq!(Limits::new(MAX_SOURCE_BYTES, nxc::MAX_TOKENS), Some(Limits::default()));
}
