use nxc::{
    emit,
    ir::{Expr},
    nix, parse_nxc, MAX_DEPTH, MAX_TOKENS,
};

fn application(arguments: usize) -> Expr {
    (0..arguments).fold(Expr::Variable("f".into()), |function, _| Expr::Apply {
        function: Box::new(function),
        argument: Box::new(Expr::Integer(1)),
    })
}

fn assertion_with(value: Expr, in_condition: bool) -> Expr {
    if in_condition {
        Expr::Assert {
            condition: Box::new(value),
            body: Box::new(Expr::Variable("true".into())),
        }
    } else {
        Expr::Assert {
            condition: Box::new(Expr::Variable("true".into())),
            body: Box::new(value),
        }
    }
}

#[test]
fn emitters_validate_both_assertion_children_even_when_the_body_cannot_run() {
    for invalid in [
        Expr::Integer(u64::MAX),
        Expr::Variable("assert".into()),
        (0..MAX_DEPTH - 1).fold(Expr::Integer(1), |inner, _| Expr::Negate(Box::new(inner))),
        Expr::List(vec![Expr::Integer(1); MAX_TOKENS]),
    ] {
        for expr in [
            Expr::Assert {
                condition: Box::new(invalid.clone()),
                body: Box::new(Expr::Integer(1)),
            },
            Expr::Assert {
                condition: Box::new(Expr::Variable("false".into())),
                body: Box::new(invalid.clone()),
            },
        ] {
            assert!(emit::nxc(&expr).is_err(), "accepted {expr:?}");
            assert!(nix::emit(&expr).is_err(), "accepted {expr:?}");
        }
    }
}

#[test]
fn flattened_calls_in_both_assertion_children_use_semantic_depth() {
    let exact_arguments = MAX_DEPTH - 2;
    let nxc_call = format!(
        "f({})",
        (0..exact_arguments)
            .map(|_| "1")
            .collect::<Vec<_>>()
            .join(", ")
    );
    let native_call = format!("f{}", " 1".repeat(exact_arguments));
    let over_nxc_call = format!(
        "f({})",
        (0..=exact_arguments)
            .map(|_| "1")
            .collect::<Vec<_>>()
            .join(", ")
    );
    let over_native_call = format!("{native_call} 1");

    for in_condition in [true, false] {
        let expected = assertion_with(application(exact_arguments), in_condition);
        let nxc_source = if in_condition {
            format!("assert({nxc_call}, true)")
        } else {
            format!("assert(true, {nxc_call})")
        };
        let native_source = if in_condition {
            format!("assert {native_call}; true")
        } else {
            format!("assert true; {native_call}")
        };

        assert_eq!(parse_nxc(&nxc_source).unwrap(), expected);
        assert_eq!(nix::import(&native_source).unwrap(), expected);
        assert_eq!(parse_nxc(&emit::nxc(&expected).unwrap()).unwrap(), expected);
        assert_eq!(
            nix::import(&nix::emit(&expected).unwrap()).unwrap(),
            expected
        );

        let over = assertion_with(application(exact_arguments + 1), in_condition);
        let over_nxc = if in_condition {
            format!("assert({over_nxc_call}, true)")
        } else {
            format!("assert(true, {over_nxc_call})")
        };
        let over_native = if in_condition {
            format!("assert {over_native_call}; true")
        } else {
            format!("assert true; {over_native_call}")
        };

        assert!(parse_nxc(&over_nxc).is_err());
        assert!(nix::import(&over_native).is_err());
        assert!(emit::nxc(&over).is_err());
        assert!(nix::emit(&over).is_err());
    }
}
