use nxc::{
    emit,
    ir::{AttrName, BinaryOp, Binding, Expr, Formal, Pattern, StringPart},
    nix, parse_nxc, parse_nxc_with_limits,
    syntax::{lexer::lex, SyntaxKind},
    Limits, MAX_DEPTH, MAX_SOURCE_BYTES, MAX_TOKENS,
};

fn var(name: &str) -> Expr {
    Expr::Variable(name.into())
}

fn both(expr: &Expr, nxc: &str, native: &str) {
    assert_eq!(emit::nxc(expr).unwrap(), nxc);
    assert_eq!(nix::emit(expr).unwrap(), native);
    assert_eq!(parse_nxc(nxc).unwrap(), *expr, "{nxc}");
    assert_eq!(nix::import(native).unwrap(), *expr, "{native}");
}

#[test]
fn each_form_has_its_spelling_in_both_dialects() {
    both(&Expr::Integer(42), "42", "42");
    both(&Expr::CurrentPosition, "__curPos", "__curPos");
    both(&Expr::RelativePath("./a/b".into()), "./a/b", "./a/b");
    both(&Expr::AbsolutePath("/nix/store".into()), "/nix/store", "/nix/store");
    both(&Expr::HomePath("~/x".into()), "~/x", "~/x");
    both(
        &Expr::List(vec![Expr::Integer(1), Expr::Integer(2)]),
        "[1, 2]",
        "[1 2]",
    );
    both(&Expr::List(vec![]), "[]", "[]");
    both(
        &Expr::AttrSet {
            recursive: true,
            bindings: vec![Binding::Assign {
                path: vec!["a".into(), "b".into()],
                value: Expr::Integer(1),
            }],
        },
        "rec { a.b = 1; }",
        "rec { a.b = 1; }",
    );
    both(
        &Expr::Let {
            bindings: vec![Binding::Assign {
                path: vec!["a".into()],
                value: Expr::Integer(1),
            }],
            body: Box::new(var("a")),
        },
        "let { a = 1; yield a; }",
        "(let a = 1; in a)",
    );
    both(
        &Expr::With {
            scope: Box::new(var("s")),
            body: Box::new(var("b")),
        },
        "with(s, b)",
        "(with s; b)",
    );
    both(
        &Expr::If {
            condition: Box::new(var("c")),
            then_branch: Box::new(Expr::Integer(1)),
            else_branch: Box::new(Expr::Integer(2)),
        },
        "(if c then 1 else 2)",
        "(if c then 1 else 2)",
    );
    both(
        &Expr::Select {
            value: Box::new(var("s")),
            path: vec!["a".into()],
            default: Some(Box::new(Expr::Integer(1))),
        },
        "((s).a or (1))",
        "((s).a or (1))",
    );
    both(
        &Expr::HasAttr {
            value: Box::new(var("s")),
            path: vec!["a".into(), "b".into()],
        },
        "((s) ? a.b)",
        "((s) ? a.b)",
    );
    both(
        &Expr::Lambda {
            parameter: Pattern::AttrSet {
                fields: vec![
                    Formal {
                        name: "a".into(),
                        default: None,
                    },
                    Formal {
                        name: "b".into(),
                        default: Some(Expr::Integer(1)),
                    },
                ],
                ellipsis: true,
                bind: Some("args".into()),
            },
            body: Box::new(var("a")),
        },
        "(({ a, b ? 1, ... }@args) => a)",
        "({ a, b ? 1, ... }@args: a)",
    );
    both(
        &Expr::Apply {
            function: Box::new(Expr::Apply {
                function: Box::new(var("f")),
                argument: Box::new(Expr::Integer(1)),
            }),
            argument: Box::new(Expr::Integer(2)),
        },
        "f(1, 2)",
        "((f 1) 2)",
    );
    both(&Expr::Negate(Box::new(var("x"))), "(-x)", "(-x)");
    both(&Expr::Not(Box::new(var("x"))), "(!x)", "(!x)");
    both(
        &Expr::Binary {
            op: BinaryOp::Update,
            left: Box::new(var("a")),
            right: Box::new(var("b")),
        },
        "__nxc_update(a, b)",
        "(a // b)",
    );
    both(
        &Expr::Binary {
            op: BinaryOp::Concat,
            left: Box::new(var("a")),
            right: Box::new(var("b")),
        },
        "(a ++ b)",
        "(a ++ b)",
    );
    both(
        &Expr::String(vec![
            StringPart::Literal("a".into()),
            StringPart::Interpolation(var("x")),
        ]),
        "\"a${x}\"",
        "\"a${x}\"",
    );
}

#[test]
fn escaped_text_decodes_to_itself() {
    let text = "quote \" backslash \\ dollar $ ${ newline \n return \r tab \t α";
    let expr = Expr::String(vec![StringPart::Literal(text.into())]);
    let nxc = emit::nxc(&expr).unwrap();
    assert_eq!(
        nxc,
        "\"quote \\\" backslash \\\\ dollar \\$ \\${ newline \\n return \\r tab \\t α\""
    );
    assert_eq!(parse_nxc(&nxc).unwrap(), expr);
    assert_eq!(nix::import(&nix::emit(&expr).unwrap()).unwrap(), expr);
}

#[test]
fn compatibility_names_decode_what_encoding_spells() {
    for (native, spelled) in [("fn", "__nxc_ident_fn"), ("yield", "__nxc_ident_yield"), ("x", "x")] {
        assert_eq!(emit::nxc(&var(native)).unwrap(), spelled);
        assert_eq!(parse_nxc(spelled).unwrap(), var(native));
    }
    // Attribute keys are never encoded.
    let set = Expr::AttrSet {
        recursive: false,
        bindings: vec![Binding::Assign {
            path: vec!["fn".into()],
            value: Expr::Integer(1),
        }],
    };
    assert_eq!(emit::nxc(&set).unwrap(), "{ fn = 1; }");
}

#[test]
fn attribute_names_outside_identifiers_are_quoted() {
    let set = Expr::AttrSet {
        recursive: false,
        bindings: vec![Binding::Assign {
            path: vec![AttrName::Static("a b".into()), AttrName::Static("if".into())],
            value: Expr::Integer(1),
        }],
    };
    assert_eq!(emit::nxc(&set).unwrap(), "{ \"a b\".\"if\" = 1; }");
    assert_eq!(parse_nxc("{ \"a b\".\"if\" = 1; }").unwrap(), set);
}

#[test]
fn tokens_cover_every_byte_in_order() {
    for source in [
        "",
        "x",
        "let { a = 1; yield a; } # c\n",
        "\"a${b}c\" /* α */ ./p/${q}/r",
        "''x'' $ & é",
        "/* unterminated",
    ] {
        let tokens = lex(source);
        let mut end = 0;
        for token in &tokens {
            assert_eq!(token.span.start, end, "{source}");
            assert!(token.span.start < token.span.end, "{source}");
            end = token.span.end;
        }
        assert_eq!(end, source.len(), "{source}");
    }
    let kinds: Vec<SyntaxKind> = lex("f(x) // c")
        .iter()
        .map(|t| t.kind)
        .filter(|k| !k.is_trivia())
        .collect();
    assert_eq!(
        kinds,
        vec![
            SyntaxKind::Ident,
            SyntaxKind::LParen,
            SyntaxKind::Ident,
            SyntaxKind::RParen
        ]
    );
}

#[test]
fn validation_errors_are_reported_for_each_rule() {
    let limits = Limits::new(MAX_SOURCE_BYTES, MAX_TOKENS).unwrap();
    for invalid in [
        Expr::Integer(1 << 63),
        var("if"),
        var("__curPos"),
        var("__nxc_x"),
        var("or"),
        Expr::RelativePath("a".into()),
        Expr::String(vec![StringPart::Literal("".into())]),
        Expr::String(vec![
            StringPart::Literal("a".into()),
            StringPart::Literal("b".into()),
        ]),
        Expr::String(vec![StringPart::Literal("\0".into())]),
        Expr::Select {
            value: Box::new(var("s")),
            path: vec![],
            default: None,
        },
        Expr::Lambda {
            parameter: Pattern::Ident("__curPos".into()),
            body: Box::new(Expr::Integer(1)),
        },
        Expr::Let {
            bindings: vec![Binding::Assign {
                path: vec!["__curPos".into()],
                value: Expr::Integer(1),
            }],
            body: Box::new(Expr::Integer(1)),
        },
    ] {
        assert!(invalid.validate(limits).is_err(), "{invalid:?}");
        assert!(emit::nxc(&invalid).is_err(), "{invalid:?}");
        assert!(nix::emit(&invalid).is_err(), "{invalid:?}");
    }
    assert!(Expr::Integer((1 << 63) - 1).validate(limits).is_ok());
}

#[test]
fn budgets_bound_nodes_literal_bytes_and_depth() {
    let list = Expr::List(vec![Expr::Integer(1); 3]);
    assert!(list.validate(Limits::new(0, 4).unwrap()).is_ok());
    assert!(list.validate(Limits::new(0, 3).unwrap()).is_err());
    let path = Expr::RelativePath("./abc".into());
    assert!(path.validate(Limits::new(5, 1).unwrap()).is_ok());
    assert!(path.validate(Limits::new(4, 1).unwrap()).is_err());
    let deep = (0..MAX_DEPTH - 1).fold(Expr::Integer(1), |e, _| Expr::Negate(Box::new(e)));
    assert!(deep.validate(Limits::new(0, MAX_TOKENS).unwrap()).is_ok());
    let error = Expr::Negate(Box::new(deep))
        .validate(Limits::new(0, MAX_TOKENS).unwrap())
        .unwrap_err();
    assert_eq!(
        error.message,
        "semantic depth limit exceeded: observed 257, limit 256"
    );
}

#[test]
fn limits_stay_within_the_ceilings() {
    assert!(Limits::new(MAX_SOURCE_BYTES, MAX_TOKENS).is_some());
    assert!(Limits::new(MAX_SOURCE_BYTES + 1, 0).is_none());
    assert!(Limits::new(0, MAX_TOKENS + 1).is_none());
    let limits = Limits::new(10, 3).unwrap();
    assert_eq!(limits.source_bytes(), 10);
    assert_eq!(limits.tokens(), 3);
    assert!(limits.check_source_bytes(10).is_ok());
    let error = limits.check_source_bytes(11).unwrap_err();
    assert_eq!(error.span, 0..11);
    assert_eq!(
        error.message,
        "source byte limit exceeded: observed 11, limit 10"
    );
}

#[test]
fn parse_budgets_apply_before_the_grammar() {
    let limits = Limits::new(100, 3).unwrap();
    assert!(parse_nxc_with_limits("f(x)", Limits::new(100, 4).unwrap()).is_ok());
    let error = parse_nxc_with_limits("f(x)", limits).unwrap_err();
    assert_eq!(
        error[0].message,
        "source token limit exceeded: observed 4, limit 3"
    );
    let nested = format!("{}1{}", "(".repeat(MAX_DEPTH + 1), ")".repeat(MAX_DEPTH + 1));
    let error = parse_nxc(&nested).unwrap_err();
    assert_eq!(
        error[0].message,
        format!("delimiter depth limit exceeded: observed {}, limit {MAX_DEPTH}", MAX_DEPTH + 1)
    );
    assert!(parse_nxc("$").is_err());
    assert!(parse_nxc("").is_err());
    assert!(parse_nxc("\"open").is_err());
    assert!(parse_nxc("1 2").is_err());
    assert!(parse_nxc("a < b < c").is_err());
    assert!(parse_nxc("1.5").is_err());
    assert!(parse_nxc("9223372036854775808").is_err());
    assert_eq!(
        parse_nxc("9223372036854775807").unwrap(),
        Expr::Integer(9223372036854775807)
    );
}

#[test]
fn operators_follow_their_binding_powers() {
    let parsed = parse_nxc("!a + b * c == d && e || f").unwrap();
    let native = nix::import("!a + b * c == d && e || f").unwrap();
    assert_eq!(parsed, native);
    assert_eq!(parse_nxc("-f(x)").unwrap(), nix::import("-(f x)").unwrap());
    assert_eq!(parse_nxc("a ++ b ++ c").unwrap(), nix::import("a ++ (b ++ c)").unwrap());
    assert_eq!(parse_nxc("a - b - c").unwrap(), nix::import("(a - b) - c").unwrap());
    assert_eq!(parse_nxc("s ? a.b").unwrap(), nix::import("s ? a.b").unwrap());
    assert_eq!(
        parse_nxc("if c then x => x else 1").unwrap(),
        nix::import("if c then x: x else 1").unwrap()
    );
}

#[test]
fn native_import_normalizes_implication_and_refuses_bare_lambda_operands() {
    assert_eq!(
        nix::import("a -> b").unwrap(),
        Expr::Binary {
            op: BinaryOp::Or,
            left: Box::new(Expr::Not(Box::new(var("a")))),
            right: Box::new(var("b")),
        }
    );
    for source in ["[ x: x ]", "f x: x", "s.a or x: x"] {
        assert!(nix::import(source).is_err(), "{source}");
    }
    assert!(nix::import("1.5").is_err());
    assert!(nix::import("a\u{a0}+ b").is_err());
    assert!(nix::import("# c\rx").is_err());
    assert!(nix::import("# c\r\nx").is_ok());
}

#[test]
fn native_emission_checks_its_output_against_the_budgets() {
    let list = Expr::List(vec![Expr::Integer(1); 2]);
    assert_eq!(
        nix::emit_with_limits(&list, Limits::new(5, 4).unwrap()).unwrap(),
        "[1 1]"
    );
    assert!(nix::emit_with_limits(&list, Limits::new(4, 4).unwrap()).is_err());
    assert_eq!(
        emit::nxc_with_limits(&list, Limits::new(6, 5).unwrap()).unwrap(),
        "[1, 1]"
    );
    assert!(emit::nxc_with_limits(&list, Limits::new(6, 4).unwrap()).is_err());
}

#[test]
fn binding_shapes_merge_literal_sets_only() {
    assert!(parse_nxc("{ a.b = 1; a.c = 2; }").is_ok());
    assert!(parse_nxc("{ a = { b = 1; }; a.c = 2; }").is_ok());
    assert!(parse_nxc("{ a = 1; a = 2; }").is_err());
    assert!(parse_nxc("{ inherit a; inherit a; }").is_err());
    assert!(parse_nxc("{ ${x} = 1; ${x} = 2; }").is_ok());
}

#[test]
fn canonical_is_the_expression_itself() {
    let e = parse_nxc("f(1, x => x)").unwrap();
    assert_eq!(*e.canonical(), e);
}

#[test]
fn indented_strings_follow_the_indentation_rules() {
    for (source, value) in [
        ("''''", ""),
        ("''   ''", ""),
        ("''\n''", ""),
        ("''\n  a\n    b\n ''", "a\n  b\n"),
        ("''  a\n    b''", "a\n  b"),
        ("''\n\n  a\n \n    \n  b\n  ''", "\na\n\n  \nb\n"),
        ("''a ''", "a "),
        ("''\t\n  a\n''", "\t\n  a\n"),
        ("''\n  \ta\n    b\n''", "\ta\n  b\n"),
        ("''\r\n  a\r\n ''", "\r\n  a\r\n"),
        ("''a\rb''", "a\rb"),
        ("''a''\\\rb''", "a\rb"),
        ("''\n  a\n    ''\\ ''", "a\n   "),
        ("''\n  a\n    ''\\n    b\n  ''", "a\n  \n  b\n"),
        (r#"''\n\t\r\q"hi"''"#, "\\n\\t\\r\\q\"hi\""),
        (r#"''a''\n''\r''\t''\q''\🦀''"#, "a\n\r\tq🦀"),
        ("''a'''b''", "a''b"),
        ("''a''''b''", "a'''b"),
        ("''$${x}''", "$${x}"),
        ("''''${x}''", "${x}"),
    ] {
        let expected = Expr::String(if value.is_empty() {
            vec![]
        } else {
            vec![StringPart::Literal(value.into())]
        });
        assert_eq!(parse_nxc(source).unwrap(), expected, "{source:?}");
        assert_eq!(nix::import(source).unwrap(), expected, "{source:?}");
        assert_eq!(parse_nxc(&emit::nxc(&expected).unwrap()).unwrap(), expected);
    }
    assert_eq!(
        parse_nxc("''\n  a\n  ${x}\n    b\n''").unwrap(),
        nix::import("''\n  a\n  ${x}\n    b\n''").unwrap()
    );
    assert!(nix::import("{ ''a'' = 1; }").is_err());
}

#[test]
fn a_dotted_binding_reports_the_depth_its_value_reaches() {
    let set = Expr::AttrSet {
        recursive: false,
        bindings: vec![Binding::Assign {
            path: vec![
                AttrName::Static("a".into()),
                AttrName::Static("b".into()),
                AttrName::Static("c".into()),
            ],
            value: Expr::Integer(1),
        }],
    };
    let shallow = (0..MAX_DEPTH - 4).fold(set, |e, _| Expr::Not(Box::new(e)));
    assert!(shallow.validate(Limits::default()).is_ok());
    let deep = Expr::Not(Box::new(Expr::Not(Box::new(shallow))));
    assert_eq!(
        deep.validate(Limits::default()).unwrap_err().message,
        "semantic depth limit exceeded: observed 258, limit 256"
    );
}

#[test]
fn the_node_budget_is_reported_once_every_other_check_passes() {
    let e = Expr::Binary {
        op: BinaryOp::Or,
        left: Box::new(Expr::Not(Box::new(Expr::Variable("a".into())))),
        right: Box::new(Expr::Variable("b".into())),
    };
    assert_eq!(
        e.validate(Limits::new(100, 3).unwrap()).unwrap_err().message,
        "semantic node limit exceeded: observed 4, limit 3"
    );
    assert!(e.validate(Limits::new(100, 4).unwrap()).is_ok());
}

#[test]
fn the_literal_byte_budget_is_reported_once_every_other_check_passes() {
    let path = Expr::RelativePath("./abc".into());
    assert_eq!(
        path.validate(Limits::new(4, 1).unwrap()).unwrap_err().message,
        "semantic literal byte limit exceeded: observed 5, limit 4"
    );
    let list = Expr::List(vec![path.clone(), path]);
    assert_eq!(
        list.validate(Limits::new(9, 3).unwrap()).unwrap_err().message,
        "semantic literal byte limit exceeded: observed 10, limit 9"
    );
}
