use nxc::{
    emit,
    ir::{Expr, Formal, Pattern},
    nix, parse_nxc, Limits, MAX_DEPTH,
};

#[test]
fn native_concatenation_calls_require_parenthesized_lambda_arguments() {
    for source in ["a ++ f x: x", "(f x: x) ++ a"] {
        assert!(nix::import(source).is_err(), "accepted {source}");
    }
}

#[test]
fn current_position_recognition_requires_the_exact_identifier() {
    for name in ["__curPos0", "x__curPos"] {
        let expected = Expr::Variable(name.into());
        assert_eq!(parse_nxc(name).unwrap(), expected, "nxc identifier {name}");
        assert_eq!(
            nix::import(name).unwrap(),
            expected,
            "Nix identifier {name}"
        );
        assert_eq!(emit::nxc(&expected).unwrap(), name);
        assert_eq!(nix::emit(&expected).unwrap(), name);
    }
}

#[test]
fn current_position_uses_the_existing_resource_limits() {
    let position = parse_nxc("__curPos").unwrap();
    let exact = Limits::new(8, 1).unwrap();
    assert_eq!(
        nxc::parse_nxc_with_limits("__curPos", exact).unwrap(),
        position
    );
    assert_eq!(
        nix::import_with_limits("__curPos", exact).unwrap(),
        position
    );
    assert_eq!(emit::nxc_with_limits(&position, exact).unwrap(), "__curPos");
    assert_eq!(nix::emit_with_limits(&position, exact).unwrap(), "__curPos");
    for limits in [Limits::new(7, 1).unwrap(), Limits::new(8, 0).unwrap()] {
        assert!(nxc::parse_nxc_with_limits("__curPos", limits).is_err());
        assert!(nix::import_with_limits("__curPos", limits).is_err());
        assert!(emit::nxc_with_limits(&position, limits).is_err());
        assert!(nix::emit_with_limits(&position, limits).is_err());
    }
    let invalid = Expr::Variable("__curPos".into());
    assert!(emit::nxc(&invalid).is_err());
    assert!(nix::emit(&invalid).is_err());
}

#[test]
fn native_dynamic_selection_rejects_non_simple_defaults() {
    for selection in ["s.a", "s.${key}"] {
        for default in ["-1", "!true", "assert true; 1"] {
            let source = format!("{selection} or {default}");
            assert!(
                nix::import(&source).is_err(),
                "accepted invalid native Nix: {source}"
            );
        }
    }
}

#[test]
fn public_ir_keeps_original_parameter_names_and_attribute_keys() {
    let ir = Expr::Lambda {
        parameter: Pattern::AttrSet {
            fields: vec![Formal {
                name: "fn".into(),
                default: None,
            }],
            ellipsis: false,
            bind: Some("yield".into()),
        },
        body: Box::new(Expr::Variable("fn".into())),
    };
    assert_eq!(parse_nxc(&emit::nxc(&ir).unwrap()).unwrap(), ir);
    assert_eq!(nix::import(&nix::emit(&ir).unwrap()).unwrap(), ir);
    assert_eq!(
        parse_nxc("__nxc_ident_fn").unwrap(),
        Expr::Variable("fn".into())
    );
    for name in [
        "__nxc_ident_fn",
        "__nxc_ident_yield",
        "__nxc_unknown",
        "__curPos",
        "or",
    ] {
        let invalid = Expr::Variable(name.into());
        assert!(emit::nxc(&invalid).is_err());
        assert!(nix::emit(&invalid).is_err());
    }
}

#[test]
fn emission_checks_delimiter_depth_in_nested_pattern_defaults() {
    // Each emitted nxc pattern default adds two parentheses and one brace.
    let mut expr = Expr::Integer(1);
    for _ in 0..MAX_DEPTH / 3 {
        expr = Expr::Lambda {
            parameter: Pattern::AttrSet {
                fields: vec![Formal {
                    name: "x".into(),
                    default: Some(expr),
                }],
                ellipsis: false,
                bind: None,
            },
            body: Box::new(Expr::Integer(1)),
        };
    }
    let source = emit::nxc(&expr).unwrap();
    assert_eq!(parse_nxc(&source).unwrap(), expr);
    let over = Expr::Lambda {
        parameter: Pattern::AttrSet {
            fields: vec![Formal {
                name: "x".into(),
                default: Some(expr),
            }],
            ellipsis: false,
            bind: None,
        },
        body: Box::new(Expr::Integer(1)),
    };
    // The IR and native source still fit their own bounds.
    assert_eq!(nix::import(&nix::emit(&over).unwrap()).unwrap(), over);
    assert!(
        emit::nxc(&over).is_err(),
        "emitter accepted output beyond the nxc nesting limit"
    );
}

#[test]
fn emitters_validate_caller_supplied_patterns_and_default_expressions() {
    for parameter in [
        Pattern::Ident("x: 1".into()),
        Pattern::Ident("__nxc_ident_fn".into()),
        Pattern::AttrSet {
            fields: vec![
                Formal {
                    name: "x".into(),
                    default: None
                };
                2
            ],
            ellipsis: false,
            bind: None,
        },
        Pattern::AttrSet {
            fields: vec![Formal {
                name: "x".into(),
                default: None,
            }],
            ellipsis: false,
            bind: Some("x".into()),
        },
        Pattern::AttrSet {
            fields: vec![Formal {
                name: "x".into(),
                default: Some(Expr::Integer(u64::MAX)),
            }],
            ellipsis: false,
            bind: None,
        },
    ] {
        let expr = Expr::Lambda {
            parameter,
            body: Box::new(Expr::Integer(1)),
        };
        assert!(emit::nxc(&expr).is_err());
        assert!(nix::emit(&expr).is_err());
    }
}
