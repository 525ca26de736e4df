use nxc::{emit, ir::Expr, nix, parse_nxc, parse_nxc_with_limits, Limits, MAX_DEPTH, MAX_SOURCE_BYTES, MAX_TOKENS};

#[test]
fn budget_diagnostics_name_the_exceeded_budget() {
    for (source, kind, observed, limit) in [
        (" ".repeat(MAX_SOURCE_BYTES + 1), "source byte", MAX_SOURCE_BYTES + 1, MAX_SOURCE_BYTES),
        ("x ".repeat(MAX_TOKENS + 1), "source token", MAX_TOKENS + 1, MAX_TOKENS),
        (
            format!("{}1{}", "(".repeat(MAX_DEPTH + 1), ")".repeat(MAX_DEPTH + 1)),
            "delimiter depth",
            MAX_DEPTH + 1,
            MAX_DEPTH,
        ),
    ] {
        for errors in [parse_nxc(&source).unwrap_err(), nix::import(&source).unwrap_err()] {
            assert_eq!(errors.len(), 1);
            assert_eq!(
                errors[0].message,
                format!("{kind} limit exceeded: observed {observed}, limit {limit}")
            );
        }
    }
}

#[test]
fn smaller_budgets_apply_to_native_parses_and_both_emitters() {
    let limits = Limits::new(100, 3).unwrap();
    let parsed = nix::parse_with_limits("a -> b", limits).unwrap();
    let clone = parsed.clone();
    drop(parsed);
    assert_eq!(
        clone.lower().unwrap_err()[0].message,
        "semantic node limit exceeded: observed 4, limit 3"
    );
    assert!(nix::import("a -> b").is_ok());

    let limits = Limits::new(100, 4).unwrap();
    let ir = nix::import_with_limits("[1 1]", limits).unwrap();
    assert_eq!(nix::emit_with_limits(&ir, limits).unwrap(), "[1 1]");
    assert_eq!(
        emit::nxc_with_limits(&ir, limits).unwrap_err().message,
        "generated nxc token limit exceeded: observed 5, limit 4"
    );
    assert_eq!(
        parse_nxc_with_limits("[1, 1]", limits).unwrap_err()[0].message,
        "source token limit exceeded: observed 5, limit 4"
    );

    let limits = Limits::new(3, 1).unwrap();
    assert_eq!((limits.source_bytes(), limits.tokens()), (3, 1));
    let ir = parse_nxc_with_limits("abc", limits).unwrap();
    assert_eq!(emit::nxc_with_limits(&ir, limits).unwrap(), "abc");
    assert_eq!(nix::emit_with_limits(&ir, limits).unwrap(), "abc");
    for error in [
        emit::nxc_with_limits(&Expr::Variable("abcd".into()), limits).unwrap_err(),
        nix::emit_with_limits(&Expr::Variable("abcd".into()), limits).unwrap_err(),
    ] {
        assert!(error.message.contains("byte limit exceeded: observed 4, limit 3"), "{error:?}");
    }
    assert!(parse_nxc_with_limits("abc ", limits).is_err());
    assert!(nix::import_with_limits("abc ", limits).is_err());

    let zero = Limits::new(0, 0).unwrap();
    assert!(parse_nxc_with_limits("1", zero).is_err());
    assert!(emit::nxc_with_limits(&Expr::Integer(1), zero).is_err());
    assert!(nix::emit_with_limits(&Expr::Integer(1), zero).is_err());
    assert!(Limits::new(MAX_SOURCE_BYTES + 1, 1).is_none());
    assert!(Limits::new(1, MAX_TOKENS + 1).is_none());
}

#[test]
fn what_a_budget_admits_a_larger_budget_admits() {
    let ir = parse_nxc("[1, 1]").unwrap();
    let small = Limits::new(6, 5).unwrap();
    let large = Limits::new(7, 6).unwrap();
    assert_eq!(emit::nxc_with_limits(&ir, small).unwrap(), "[1, 1]");
    assert_eq!(emit::nxc_with_limits(&ir, large).unwrap(), "[1, 1]");
    assert_eq!(nix::emit_with_limits(&ir, Limits::new(5, 4).unwrap()).unwrap(), "[1 1]");
    assert_eq!(nix::emit_with_limits(&ir, large).unwrap(), "[1 1]");
    assert!(parse_nxc_with_limits("[1, 1]", small).is_ok());
    assert!(parse_nxc_with_limits("[1, 1]", large).is_ok());
}

#[test]
fn malformed_sources_report_a_bounded_number_of_diagnostics() {
    let limits = Limits::new(16_384, 4096).unwrap();
    let lexical = "§ ".repeat(200);
    let errors = parse_nxc_with_limits(&lexical, limits).unwrap_err();
    assert!(!errors.is_empty() && errors.len() <= 100);
    let bindings: String = (0..200).map(|i| format!("a{i} = ; ")).collect();
    let errors = parse_nxc_with_limits(&format!("let {{ {bindings} yield 1; }}"), limits).unwrap_err();
    assert!(!errors.is_empty() && errors.len() <= 100);
    let errors = nix::import_with_limits(&format!("let {bindings} in 1"), limits).unwrap_err();
    assert!(!errors.is_empty() && errors.len() <= 100);
}
