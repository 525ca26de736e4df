use nxc::{
    emit,
    ir::{Binding, Expr},
    limits::MAX_DIAGNOSTICS,
    nix, parse_nxc, Limits,
};

#[test]
fn native_parsing_is_separate_from_lowering() {
    let parsed = nix::parse("x: x + 1").unwrap();
    let copy = parsed.clone();
    drop(parsed);
    assert_eq!(copy.lower().unwrap(), nix::import("x: x + 1").unwrap());
    let float = nix::parse("1.5").unwrap();
    assert!(float.lower().is_err());
    assert!(nix::parse("a\u{a0}+ b").is_err());
    assert!(nix::parse_with_limits("1 + 2", Limits::new(4, 100).unwrap()).is_err());
    assert!(nix::parse_with_limits("1 + 2", Limits::new(5, 3).unwrap()).is_ok());
    assert!(nix::parse_with_limits("1 + 2", Limits::new(5, 2).unwrap()).is_err());
}

#[test]
fn each_native_parse_error_is_reported_up_to_the_limit() {
    let errors = nix::parse("(").err().unwrap();
    assert!(!errors.is_empty());
    for error in &errors {
        assert!(error.message.starts_with("native Nix parse error: "), "{error:?}");
    }
    let many = nix::parse(&"]".repeat(300)).err().unwrap();
    assert!(!many.is_empty() && many.len() <= MAX_DIAGNOSTICS, "{}", many.len());
}

#[test]
fn a_let_binding_named_yield_is_quoted_in_nxc() {
    let e = nix::import("let yield = 2; in yield").unwrap();
    let converted = emit::nxc(&e).unwrap();
    assert_eq!(converted, "let { \"yield\" = 2; yield __nxc_ident_yield; }");
    assert_eq!(parse_nxc(&converted).unwrap(), e);
    assert_eq!(nix::emit(&e).unwrap(), "(let yield = 2; in yield)");
}

#[test]
fn a_plain_string_key_can_be_inherited() {
    let expected = Expr::AttrSet {
        recursive: false,
        bindings: vec![Binding::Inherit {
            source: Some(Expr::Variable("s".into())),
            names: vec!["x".into()],
        }],
    };
    assert_eq!(parse_nxc(r#"{ inherit (s) ${"x"}; }"#).unwrap(), expected);
    assert_eq!(nix::import(r#"{ inherit (s) ${"x"}; }"#).unwrap(), expected);
    assert!(parse_nxc(r#"{ inherit (s) ${x}; }"#).is_err());
    assert!(parse_nxc(r#"{ inherit (s) "${x}"; }"#).is_err());
}

#[test]
fn indented_strings_are_no_attribute_names() {
    assert!(parse_nxc("{ ''a'' = 1; }").is_err());
    assert!(parse_nxc("s.''a''").is_err());
    assert!(parse_nxc("{ ${''a''} = 1; }").is_ok());
    assert!(parse_nxc("({ ..., }) => 1").is_err());
    assert!(parse_nxc("({ x, ... }) => 1").is_ok());
}

#[test]
fn native_lexical_errors_point_at_the_offending_character() {
    let errors = nix::import("a \u{2003}b").unwrap_err();
    assert_eq!(errors.len(), 1);
    assert_eq!(errors[0].message, "whitespace is not accepted by native Nix");
    assert_eq!(errors[0].span, 2..5);
    let errors = nix::import("# \u{e9}x\ry\n1").unwrap_err();
    assert_eq!(errors.len(), 1);
    assert!(errors[0].message.starts_with("bare-CR native line comments"));
    assert_eq!(errors[0].span, 5..6);
}

#[test]
fn long_native_operator_chains_are_refused_before_parsing() {
    let message = "semantic depth limit exceeded: observed 257, limit 256";
    for source in [
        format!("{}1", "-".repeat(5_000)),
        format!("{}true", "!".repeat(300)),
        format!("1{}", " ++ 1".repeat(300)),
        format!("a{}", " -> a".repeat(257)),
    ] {
        let errors = nix::import(&source).unwrap_err();
        assert_eq!(errors.len(), 1);
        assert_eq!(errors[0].message, message);
    }
    let chain = format!("1{}", " ++ 1".repeat(200));
    assert!(nix::import(&chain).is_ok());
    let bindings: String = (0..300).map(|i| format!("a{i} = b ++ c; ")).collect();
    assert!(nix::import(&format!("{{ {bindings} }}")).is_ok());
}

fn range_in(message: &str) -> Option<(usize, usize)> {
    let bytes = message.as_bytes();
    let dots = (1..bytes.len()).find(|&i| {
        bytes[i..].starts_with(b"..") && bytes[i - 1].is_ascii_digit()
    })?;
    let start = message[..dots].rsplit(|c: char| !c.is_ascii_digit()).next()?;
    let end = message[dots + 2..].split(|c: char| !c.is_ascii_digit()).next()?;
    Some((start.parse().ok()?, end.parse().ok()?))
}

#[test]
fn native_parse_errors_keep_the_range_rnix_reports() {
    let mut ranged = 0;
    for source in ["{ a = 1; } }", "let in", "1 +", "(", "f (x"] {
        let errors = nix::import(source).unwrap_err();
        for error in &errors {
            let detail = error
                .message
                .strip_prefix("native Nix parse error: ")
                .expect("an rnix error");
            match range_in(detail) {
                Some((start, end)) => {
                    ranged += 1;
                    assert_eq!(error.span, start..end, "{source:?}: {detail}");
                }
                None => assert_eq!(error.span, source.len()..source.len(), "{source:?}: {detail}"),
            }
        }
    }
    assert!(ranged > 0);
}
