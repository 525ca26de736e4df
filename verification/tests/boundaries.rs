use nxc::{
    emit,
    ir::{BinaryOp, Expr},
    nix, parse_nxc, MAX_DEPTH, MAX_TOKENS,
};

#[test]
fn larger_native_files_roundtrip_through_both_generated_dialects() {
    // 1,800 implications expand from 9,002 native tokens to 16,201 nxc tokens.
    // This catches both the old input ceiling and output-only ceiling changes.
    for items in [128, 1_800] {
        let source = format!("[{}]", "(a -> b) ".repeat(items));
        let expected = Expr::List(vec![
            Expr::Binary {
                op: BinaryOp::Or,
                left: Box::new(Expr::Not(Box::new(Expr::Variable("a".into())))),
                right: Box::new(Expr::Variable("b".into())),
            };
            items
        ]);
        let imported = nix::import(&source).unwrap();
        assert_eq!(imported, expected);
        let converted = emit::nxc(&imported).unwrap();
        let reparsed = parse_nxc(&converted).unwrap();
        assert_eq!(reparsed, expected);
        let native = nix::emit(&reparsed).unwrap();
        assert_eq!(nix::import(&native).unwrap(), expected);
    }
}


#[test]
fn ordinary_large_files_survive_both_conversion_directions() {
    for source in [
        format!("[{}]", "1 ".repeat(20_000)),
        format!("\"{}\"", "a".repeat(1024 * 1024 + 100)),
    ] {
        let ir = nix::import(&source).unwrap();
        let converted = emit::nxc(&ir).unwrap();
        let reparsed = parse_nxc(&converted).unwrap();
        assert_eq!(reparsed, ir);
        assert_eq!(nix::import(&nix::emit(&reparsed).unwrap()).unwrap(), ir);
    }
}

#[test]
fn semantic_depth_is_distinct_from_delimiter_depth() {
    let source = format!("{}1", "- ".repeat(MAX_DEPTH));
    for errors in [
        parse_nxc(&source).unwrap_err(),
        nix::import(&source).unwrap_err(),
    ] {
        assert_eq!(
            errors[0].message,
            format!(
                "semantic depth limit exceeded: observed {}, limit {MAX_DEPTH}",
                MAX_DEPTH + 1
            )
        );
    }
}

#[test]
fn emitters_validate_every_conditional_child_without_selecting_a_branch() {
    for invalid in [
        Expr::Integer(u64::MAX),
        Expr::Variable("then".into()),
        (0..MAX_DEPTH - 1).fold(Expr::Integer(1), |inner, _| Expr::Negate(Box::new(inner))),
        Expr::List(vec![Expr::Integer(1); MAX_TOKENS]),
    ] {
        for position in 0..3 {
            let mut children = [Expr::Integer(1), Expr::Integer(2), Expr::Integer(3)];
            children[position] = invalid.clone();
            let [condition, then_branch, else_branch] = children;
            let expr = Expr::If {
                condition: Box::new(condition),
                then_branch: Box::new(then_branch),
                else_branch: Box::new(else_branch),
            };
            assert!(emit::nxc(&expr).is_err(), "accepted {expr:?}");
            assert!(nix::emit(&expr).is_err(), "accepted {expr:?}");
        }
    }
}



