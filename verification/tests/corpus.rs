use nxc::{emit, nix, parse_nxc};

/// Where both spellings of one expression first disagree, if anywhere: they
/// lower to one expression, and emitting it in either dialect and reading it
/// back gives it again.
fn disagreement(source: &str, native: &str, canonical: bool) -> Option<String> {
    let actual = match parse_nxc(source) {
        Ok(e) => e,
        Err(e) => return Some(format!("nxc {source}: {e:?}")),
    };
    let expected = match nix::import(native) {
        Ok(e) => e,
        Err(e) => return Some(format!("native {native}: {e:?}")),
    };
    let same = if canonical {
        actual.canonical() == expected.canonical()
    } else {
        actual == expected
    };
    if !same {
        return Some(format!("{source} and {native} differ: {actual:?} / {expected:?}"));
    }
    let converted = emit::nxc(&expected).unwrap();
    match parse_nxc(&converted) {
        Ok(e) if e == expected => {},
        other => return Some(format!("emitted nxc {converted}: {other:?}")),
    }
    if emit::nxc(&parse_nxc(&converted).unwrap()).unwrap() != converted {
        return Some(format!("nxc emission of {converted} is not stable"));
    }
    let generated = nix::emit(&actual).unwrap();
    match nix::import(&generated) {
        Ok(e) if e == actual => {},
        other => return Some(format!("emitted native {generated}: {other:?}")),
    }
    let parsed = nix::parse(native).unwrap();
    if parsed.clone().lower().unwrap() != expected {
        return Some(format!("parse then lower differs for {native}"));
    }
    None
}

#[test]
fn absolute_paths_corpus_agrees_across_dialects() {
    let pairs = [
        ("import(/missing/module.nix)", "import /missing/module.nix"),
        ("1(/2)", "1 /2"),
        ("/a(/b)", "/a /b"),
        ("/a-(/b)", "/a- /b"),
        ("/a+(/b)", "/a+ /b"),
        ("<x>(/2)", "<x>/2"),
        ("f(/a, /b)", "f /a /b"),
        ("[/a, /b]", "[/a /b]"),
        ("fn({ x ? /a }) => x", "{ x ? /a }: x"),
        ("let { x = /a; yield x; }", "let x = /a; in x"),
        ("with(/a, 1)", "with /a; 1"),
        ("assert(true, /a)", "assert true; /a"),
        ("__nxc_update({}, /a)", "{} // /a"),
        ("/a // comment\n + /b", "/a # comment\n + /b"),
    ];
    let failures: Vec<String> = pairs
        .iter()
        .filter_map(|(source, native)| disagreement(source, native, false))
        .collect();
    assert!(failures.is_empty(), "{failures:#?}");
}

#[test]
fn assertions_corpus_agrees_across_dialects() {
    let pairs = [
        ("assert(condition, value)", "assert condition; value"),
        ("assert(condition, value,)", "assert condition; value"),
        ("assert(f(1, 2), g(3, 4))", "assert f 1 2; g 3 4"),
        ("assert(true, x => x)", "assert true; x: x"),
        ("assert(x => x, 1)", "assert x: x; 1"),
        ("assert(a, assert(b, value))", "assert a; assert b; value"),
        ("assert(assert(a, b), value)", "assert (assert a; b); value"),
        ("assert(let { yield true; }, with({}, 1))", "assert let in true; with {}; 1"),
        ("assert(if c then a else b, if d then 1 else 2)", "assert if c then a else b; if d then 1 else 2"),
        ("/* α */ assert /* β */ (true, // γ\n1,)", "assert true; 1"),
        ("assert(true, x => x)(2)", "(assert true; x: x) 2"),
        ("assert(true, { a = 1; }).a", "(assert true; { a = 1; }).a"),
        ("s.a or assert(c, fallback)", "s.a or (assert c; fallback)"),
        ("2 * assert(c, 3 + 4)", "2 * (assert c; 3 + 4)"),
        ("assert(c, 1) + 2", "(assert c; 1) + 2"),
        ("-assert(c, 1)", "-(assert c; 1)"),
        ("[assert(a, 1) assert(b, 2)]", "[(assert a; 1) (assert b; 2)]"),
        ("f(assert(c, 1), 2)", "f (assert c; 1) 2"),
        ("x => assert(c, x)", "x: assert c; x"),
        ("({ x ? assert(c, fallback) }) => x", "{ x ? assert c; fallback }: x"),
        ("let { inherit (assert(c, source)) x; yield assert(c, x); }", "let inherit (assert c; source) x; in assert c; x"),
        ("{ x = assert(c, 1); }", "{ x = assert c; 1; }"),
        ("with(assert(c, scope), assert(c, body))", "with (assert c; scope); assert c; body"),
        ("if assert(c, a) then assert(c, b) else assert(c, d)", "if assert c; a then assert c; b else assert c; d"),
        (r#""${assert(c, "value")}""#, r#""${assert c; "value"}""#),
        ("assert(c, ''${x}'')", "assert c; ''${x}''"),
        ("assert(true, 1)", "assert true; 1"),
    ];
    let failures: Vec<String> = pairs
        .iter()
        .filter_map(|(source, native)| disagreement(source, native, false))
        .collect();
    assert!(failures.is_empty(), "{failures:#?}");
}

#[test]
fn attrsets_corpus_agrees_across_dialects() {
    let pairs = [
        ("s.a.b", "s.a.b"),
        ("s.a or 2 + 3", "s.a or 2 + 3"),
        ("s.a or f(2)", "(s.a or f) 2"),
        ("s.a or (f(2))", "s.a or (f 2)"),
        ("s.a or t.b or 3", "s.a or t.b or 3"),
        ("f(x).a", "(f x).a"),
        ("f(x.a)", "f x.a"),
        ("s.f(1, 2).result", "(s.f 1 2).result"),
        ("-s.a * 2 + 1", "-s.a * 2 + 1"),
        ("(s.a or t).b", "(s.a or t).b"),
        ("{ a = 1; }.a", "{ a = 1; }.a"),
        ("s.or", "s.or"),
        ("s.fn", "s.fn"),
        ("({ x ? s.a or 3 }) => x", "{ x ? s.a or 3 }: x"),
    ];
    let failures: Vec<String> = pairs
        .iter()
        .filter_map(|(source, native)| disagreement(source, native, true))
        .collect();
    assert!(failures.is_empty(), "{failures:#?}");
}

#[test]
fn concat_corpus_agrees_across_dialects() {
    let pairs = [
        ("a++b", "a ++ b"),
        ("[1]++[2]", "[1] ++ [2]"),
        ("a ++ b ++ c", "a ++ (b ++ c)"),
        ("(a ++ b) ++ c", "(a ++ b) ++ c"),
        ("a + b ++ c * d", "a + ((b ++ c) * d)"),
        ("a * b ++ c + d", "(a * (b ++ c)) + d"),
        ("a ++ b / c", "(a ++ b) / c"),
        ("-a ++ b", "(-a) ++ b"),
        ("a ++ -b", "a ++ (-b)"),
        ("!a ++ b", "!(a ++ b)"),
        ("a ++ !b", "a ++ (!b)"),
        ("a ++ b == c ++ d", "(a ++ b) == (c ++ d)"),
        ("a ++ b < c && d", "((a ++ b) < c) && d"),
        ("f(a).x ++ g(b)", "((f a).x) ++ (g b)"),
        ("s.x or a ++ b", "(s.x or a) ++ b"),
        ("__nxc_update(a ++ b, c)", "a ++ b // c"),
        ("__nxc_update(a, b ++ c)", "a // b ++ c"),
        ("/* α */ a/* β */++// γ\nb", "a ++ b"),
        ("[a ++ b c ++ d]", "[(a ++ b) (c ++ d)]"),
        ("[a, b] ++ [c, d]", "[a b] ++ [c d]"),
        ("[[a]] ++ [[b]]", "[[a]] ++ [[b]]"),
        ("f(a ++ b, c)", "f (a ++ b) c"),
        ("(a ++ b)(c)", "(a ++ b) c"),
        ("(a ++ b).x", "(a ++ b).x"),
        ("s.x or (a ++ b)", "s.x or (a ++ b)"),
        ("x => x ++ []", "x: x ++ []"),
        ("({ x ? a ++ b }) => x", "{ x ? a ++ b }: x"),
        ("a ++ (x => x)", "a ++ (x: x)"),
        ("a ++ f(x => x)", "a ++ f (x: x)"),
        ("f(x => x) ++ a", "(f (x: x)) ++ a"),
        ("a ++ (if c then b else [])", "a ++ (if c then b else [])"),
        ("if c then a ++ b else d", "if c then a ++ b else d"),
        ("assert(c, a ++ b)", "assert c; a ++ b"),
        ("with(s, a ++ b)", "with s; a ++ b"),
        ("a ++ let { x = b; yield x; }", "a ++ (let x = b; in x)"),
        ("let { x = a ++ b; yield x; }", "let x = a ++ b; in x"),
        ("{ inherit (a ++ b) x; }", "{ inherit (a ++ b) x; }"),
        (r#""${a ++ b}""#, r#""${a ++ b}""#),
        ("a ++ b", "a ++ b"),
    ];
    let failures: Vec<String> = pairs
        .iter()
        .filter_map(|(source, native)| disagreement(source, native, false))
        .collect();
    assert!(failures.is_empty(), "{failures:#?}");
}

#[test]
fn conditionals_corpus_agrees_across_dialects() {
    let pairs = [
        ("if condition then yes else no", "if condition then yes else no"),
        ("if (condition) then yes else no", "if condition then yes else no"),
        ("if f(1) then g(2) else h(3)", "if f 1 then g 2 else h 3"),
        ("if c then 1 + 2 else 3 * 4", "if c then 1 + 2 else 3 * 4"),
        ("if if a then b else c then d else e", "if (if a then b else c) then d else e"),
        ("if a then if b then c else d else e", "if a then (if b then c else d) else e"),
        ("if a then b else if c then d else e", "if a then b else (if c then d else e)"),
        ("if c then x => x else y => y + 1", "if c then x: x else y: y + 1"),
        ("if x => x then 1 else 2", "if x: x then 1 else 2"),
        ("if let { yield true; } then with({}, 1) else let { yield 2; }", "if let in true then with {}; 1 else let in 2"),
        ("/* α */ if // β\ntrue then /* γ */ 1 else 2", "if true then 1 else 2"),
        ("(if c then f else g)(x)", "(if c then f else g) x"),
        ("(if c then a else b).x", "(if c then a else b).x"),
        ("s.a or (if c then a else b)", "s.a or (if c then a else b)"),
        ("1 + (if c then 2 else 3)", "1 + (if c then 2 else 3)"),
        ("-(if c then 1 else 2)", "-(if c then 1 else 2)"),
        ("if c then a else b(x).y + 1", "if c then a else (b x).y + 1"),
        ("[if c then 1 else 2, if c then 3 else 4]", "[(if c then 1 else 2) (if c then 3 else 4)]"),
        ("[if c then 1 else 2 if c then 3 else 4]", "[(if c then 1 else 2) (if c then 3 else 4)]"),
        ("f(if c then 1 else 2, 3)", "f (if c then 1 else 2) 3"),
        ("x => if x then 1 else 2", "x: if x then 1 else 2"),
        ("({ x ? if c then 1 else 2 }) => x", "{ x ? if c then 1 else 2 }: x"),
        ("{ x = if c then 1 else 2; }", "{ x = if c then 1 else 2; }"),
        ("let { x = if c then 1 else 2; yield if c then x else 3; }", "let x = if c then 1 else 2; in if c then x else 3"),
        ("{ inherit (if c then a else b) x; }", "{ inherit (if c then a else b) x; }"),
        ("with(if c then a else b, if c then x else y)", "with (if c then a else b); if c then x else y"),
        (r#""${if c then "a" else ''b''}""#, r#""${if c then "a" else ''b''}""#),
        ("if true then 1 else 2", "if true then 1 else 2"),
    ];
    let failures: Vec<String> = pairs
        .iter()
        .filter_map(|(source, native)| disagreement(source, native, false))
        .collect();
    assert!(failures.is_empty(), "{failures:#?}");
}

#[test]
fn current_position_corpus_agrees_across_dialects() {
    let pairs = [
        ("/* position */ __curPos", "# position\n__curPos"),
        ("__curPos.file", "__curPos.file"),
        ("__curPos ? line", "__curPos ? line"),
        ("f(__curPos)", "f __curPos"),
        ("__curPos(x)", "__curPos x"),
        ("[__curPos, __curPos.file]", "[__curPos __curPos.file]"),
        ("s.a or __curPos", "s.a or __curPos"),
        ("__curPos == null", "__curPos == null"),
        ("if false then __curPos else 1", "if false then __curPos else 1"),
        ("assert(false, __curPos)", "assert false; __curPos"),
        ("fn({ x ? __curPos }) => x", "{ x ? __curPos }: x"),
        ("{ inherit (__curPos) file; }", "{ inherit (__curPos) file; }"),
        (r#""${__curPos.file}""#, r#""${__curPos.file}""#),
        ("''${__curPos.file}''", "''${__curPos.file}''"),
        ("./${__curPos}", "./${__curPos}"),
        ("{ ${__curPos} = 1; }", "{ ${__curPos} = 1; }"),
        ("{ ${null} = __curPos; }", "{ ${null} = __curPos; }"),
        ("s.${__curPos}", "s.${__curPos}"),
        ("s ? missing.${__curPos}", "s ? missing.${__curPos}"),
    ];
    let failures: Vec<String> = pairs
        .iter()
        .filter_map(|(source, native)| disagreement(source, native, false))
        .collect();
    assert!(failures.is_empty(), "{failures:#?}");
}

#[test]
fn dynamic_bindings_corpus_agrees_across_dialects() {
    let pairs = [
        ("{ ${name} = value; }", "{ ${name} = value; }"),
        (r#"{ "prefix-${name}" = value; }"#, r#"{ "prefix-${name}" = value; }"#),
        (r#"{ a.${name}."b.c"."${suffix}" = value; }"#, r#"{ a.${name}."b.c"."${suffix}" = value; }"#),
        (r#"{ ${""} = 1; ${"a"}.b = 2; }"#, r#"{ ${""} = 1; ${"a"}.b = 2; }"#),
        (r#"{ ${if flag then "a" else "b"} = 1; }"#, r#"{ ${if flag then "a" else "b"} = 1; }"#),
        ("{ ${f(name)} = value; }", "{ ${f name} = value; }"),
        ("{ ${with(ctx, name)} = value; }", "{ ${with ctx; name} = value; }"),
        (r#"{ ${let { x = "a"; yield x; }} = 1; }"#, r#"{ ${let x = "a"; in x} = 1; }"#),
        ("{ ${ { ${key} = name; }.${key} } = 1; }", "{ ${ { ${key} = name; }.${key} } = 1; }"),
        ("rec { name = outer; ${name} = name; }", "rec { name = outer; ${name} = name; }"),
        ("let { a.${key} = 1; yield a; }", "let a.${key} = 1; in a"),
        (r#"let { ${"x"} = 1; yield x; }"#, r#"let ${"x"} = 1; in x"#),
        ("let { ${''x''} = 1; yield x; }", "let ${''x''} = 1; in x"),
        (r#"{ inherit (s) ${("x")}; }"#, r#"{ inherit (s) ${("x")}; }"#),
        (r#"let { x = 1; yield { inherit ${"x"}; }; }"#, r#"let x = 1; in { inherit ${"x"}; }"#),
        ("{ a = rec { key = y; }; a.${key} = 1; }", "{ a = rec { key = y; }; a.${key} = 1; }"),
        ("{ a.${key} = 1; a = rec { key = y; }; }", "{ a.${key} = 1; a = rec { key = y; }; }"),
        ("{ ${ /* } ; ${ */ name # }\n } = 1; }", "{ ${ /* } ; ${ */ name # }\n } = 1; }"),
        (r#"{ "${key}" = 1; }"#, r#"{ ${"${key}"} = 1; }"#),
    ];
    let failures: Vec<String> = pairs
        .iter()
        .filter_map(|(source, native)| disagreement(source, native, false))
        .collect();
    assert!(failures.is_empty(), "{failures:#?}");
}

#[test]
fn dynamic_select_corpus_agrees_across_dialects() {
    let pairs = [
        ("s.${key}", "s.${key}"),
        (r#"s."prefix-${key}""#, r#"s."prefix-${key}""#),
        (r#"s.${""}"#, r#"s.${""}"#),
        (r#"s.a.${key}."b.c"."${suffix}" or fallback"#, r#"s.a.${key}."b.c"."${suffix}" or fallback"#),
        (r#"s.${if flag then "a" else "b"}"#, r#"s.${if flag then "a" else "b"}"#),
        (r#"s.${let { key = "a"; yield key; }}"#, r#"s.${let key = "a"; in key}"#),
        ("s.${f(x)}", "s.${f x}"),
        ("s.${x => x}", "s.${x: x}"),
        ("s.${with(ctx, key)}", "s.${with ctx; key}"),
        ("s.${assert(ok, key)}", "s.${assert ok; key}"),
        ("s.${s.${key}}", "s.${s.${key}}"),
        (r#"s.${{ a = "x"; }.a}"#, r#"s.${{ a = "x"; }.a}"#),
        (r#"s.${''x''}"#, r#"s.${''x''}"#),
        (r#""outer-${s."${key}"}-end""#, r#""outer-${s."${key}"}-end""#),
        ("s.${ /* } ${ */ key # }\n }", "s.${ /* } ${ */ key # }\n }"),
        ("s.${key}(1).${result}", "(s.${key} 1).${result}"),
        ("s.${key} or f(1)", "(s.${key} or f) 1"),
        ("s.${key} or (f(1))", "s.${key} or (f 1)"),
        ("s.${key} or t.${other} or 2", "s.${key} or t.${other} or 2"),
        ("[s.${a}, s.${b}]", "[s.${a} s.${b}]"),
        ("fn({ x ? s.${key} }) => x", "{ x ? s.${key} }: x"),
        (r#"s."${key}""#, r#"s.${"${key}"}"#),
    ];
    let failures: Vec<String> = pairs
        .iter()
        .filter_map(|(source, native)| disagreement(source, native, false))
        .collect();
    assert!(failures.is_empty(), "{failures:#?}");
}

#[test]
fn has_attr_corpus_agrees_across_dialects() {
    let pairs = [
        ("s ? a", "s ? a"),
        ("s?a.b", "s ? a.b"),
        (r#"s ? "a.b"."""#, r#"s ? "a.b"."""#),
        (r#"s ? a.${key}."prefix-${suffix}""#, r#"s ? a.${key}."prefix-${suffix}""#),
        ("s ? ${f(key)}", "s ? ${f key}"),
        (r#"s ? ${''a'''b''}"#, r#"s ? ${''a'''b''}"#),
        ("s ? or.fn.yield.__nxc_update", "s ? or.fn.yield.__nxc_update"),
        ("s ? ${if flag then a else b}", "s ? ${if flag then a else b}"),
        ("s ? ${with(ctx, key)}", "s ? ${with ctx; key}"),
        ("s ? ${let { yield key; }}", "s ? ${let in key}"),
        ("fn({ x ? s ? a }) => x", "{ x ? s ? a }: x"),
        ("[s ? a, t ? b]", "[(s ? a) (t ? b)]"),
        ("f(s ? a, t ? b)", "f (s ? a) (t ? b)"),
        ("let { found = s ? a; yield found; }", "let found = s ? a; in found"),
        ("if s ? a then s.a else 0", "if s ? a then s.a else 0"),
        ("assert(s ? a, s.a)", "assert s ? a; s.a"),
        (r#""${s ? a}""#, r#""${s ? a}""#),
        ("{ ${s ? a} = 1; }", "{ ${s ? a} = 1; }"),
        ("s.${t ? a}", "s.${t ? a}"),
        ("s /* ? */ ? // key\n a", "s ? # key\n a"),
        ("f(x) ? a", "(f x) ? a"),
        ("s.a ? b", "(s.a) ? b"),
        ("s.a or t ? b", "(s.a or t) ? b"),
        ("s.a or (t ? b)", "s.a or (t ? b)"),
        ("-s ? a", "(-s) ? a"),
        ("!s ? a", "!(s ? a)"),
        ("!s ? a == b", "(!(s ? a)) == b"),
        ("s ? a ++ t", "(s ? a) ++ t"),
        ("s ++ t ? a", "s ++ (t ? a)"),
        ("s ? a * 2 + 1", "((s ? a) * 2) + 1"),
        ("s + t ? a", "s + (t ? a)"),
        ("s ? a < t ? b", "(s ? a) < (t ? b)"),
        ("s ? a == t ? b", "(s ? a) == (t ? b)"),
        ("s ? a && t ? b || u ? c", "((s ? a) && (t ? b)) || (u ? c)"),
        ("s ? a ? b", "(s ? a) ? b"),
        ("x => x ? a", "x: (x ? a)"),
        ("__nxc_update(s, t) ? a", "(s // t) ? a"),
    ];
    let failures: Vec<String> = pairs
        .iter()
        .filter_map(|(source, native)| disagreement(source, native, false))
        .collect();
    assert!(failures.is_empty(), "{failures:#?}");
}

#[test]
fn home_paths_corpus_agrees_across_dialects() {
    let pairs = [
        ("import(~/missing.nix)", "import ~/missing.nix"),
        ("1(~/a)", "1~/a"),
        ("f(~/a)", "f~/a"),
        ("~/a+(~/b)", "~/a+~/b"),
        ("~/a-(~/b)", "~/a-~/b"),
        ("<x>(~/a)", "<x>~/a"),
        ("f(~/a, ~/b)", "f ~/a ~/b"),
        ("[~/a, ~/b]", "[~/a ~/b]"),
        ("fn({ x ? ~/a }) => x", "{ x ? ~/a }: x"),
        ("let { x = ~/a; yield x; }", "let x = ~/a; in x"),
        ("with(~/a, 1)", "with ~/a; 1"),
        ("assert(true, ~/a)", "assert true; ~/a"),
        ("__nxc_update({}, ~/a)", "{} // ~/a"),
        ("~/a // comment\n + ~/b", "~/a # comment\n + ~/b"),
    ];
    let failures: Vec<String> = pairs
        .iter()
        .filter_map(|(source, native)| disagreement(source, native, false))
        .collect();
    assert!(failures.is_empty(), "{failures:#?}");
}

#[test]
fn implication_corpus_agrees_across_dialects() {
    let pairs = [
        ("(!false) || true", "false -> true"),
        ("(!a) || b", "a -> b"),
    ];
    let failures: Vec<String> = pairs
        .iter()
        .filter_map(|(source, native)| disagreement(source, native, true))
        .collect();
    assert!(failures.is_empty(), "{failures:#?}");
}

#[test]
fn indented_strings_corpus_agrees_across_dialects() {
    let pairs = [
        ("''\n  a\n  ${x}\n    b\n''", "''\n  a\n  ${x}\n    b\n''"),
        ("''${''inner ${x}''}''", "''${''inner ${x}''}''"),
        (r#""${''inner ${"nested"}''}""#, r#""${''inner ${"nested"}''}""#),
        ("''${f(''x'', [1, 2])}''", "''${f ''x'' [1 2]}''"),
        ("[x'' ''value'' ''${{ a = ''nested''; }.a}'']", "[x'' ''value'' ''${{ a = ''nested''; }.a}'']"),
        ("''. # /* \" ${x // '' }\n}''", "''. # /* \" ${x # '' }\n}''"),
        ("s.a or ''fallback''", "s.a or ''fallback''"),
    ];
    let failures: Vec<String> = pairs
        .iter()
        .filter_map(|(source, native)| disagreement(source, native, false))
        .collect();
    assert!(failures.is_empty(), "{failures:#?}");
}

#[test]
fn interpolated_paths_corpus_agrees_across_dialects() {
    let pairs = [
        ("f(./${x}, /${y})", "f ./${x} /${y}"),
        ("[./${x}, ~/${y}]", "[./${x} ~/${y}]"),
        ("./${x}(~/${y})", "./${x} ~/${y}"),
        ("let { x = \"a\"; yield ./${x}; }", "let x = \"a\"; in ./${x}"),
        ("./${f(x)}", "./${f x}"),
        ("./${x => x}", "./${x: x}"),
        ("fn({ x ? ./${y} }) => x", "{ x ? ./${y} }: x"),
        ("assert(true, ./${x})", "assert true; ./${x}"),
        ("with({}, ./${x})", "with {}; ./${x}"),
        ("./${x // }\n}/a", "./${x # }\n}/a"),
    ];
    let failures: Vec<String> = pairs
        .iter()
        .filter_map(|(source, native)| disagreement(source, native, false))
        .collect();
    assert!(failures.is_empty(), "{failures:#?}");
}

#[test]
fn keyword_identifiers_corpus_agrees_across_dialects() {
    let pairs = [
        ("__nxc_ident_fn", "fn"),
        ("__nxc_ident_yield", "yield"),
        ("__nxc_ident_fn(x)", "fn x"),
        ("__nxc_ident_fn => __nxc_ident_fn", "fn: fn"),
        ("fn(__nxc_ident_yield) => __nxc_ident_yield", "yield: yield"),
        ("fn({ __nxc_ident_fn, __nxc_ident_yield ? __nxc_ident_fn }) => __nxc_ident_yield", "{ fn, yield ? fn }: yield"),
        ("(__nxc_ident_fn@{ x }) => __nxc_ident_fn.x", "fn@{ x }: fn.x"),
        ("({ x }@__nxc_ident_yield) => __nxc_ident_yield.x", "{ x }@yield: yield.x"),
        ("let { fn = 1; yield __nxc_ident_fn; }", "let fn = 1; in fn"),
        ("let { \"yield\" = 2; yield __nxc_ident_yield; }", "let yield = 2; in yield"),
        ("let { \"yield\".fn = 2; yield __nxc_ident_yield.fn; }", "let yield.fn = 2; in yield.fn"),
        ("let { ${\"yield\"} = 2; yield __nxc_ident_yield; }", "let ${\"yield\"} = 2; in yield"),
        ("rec { fn = 1; yield = __nxc_ident_fn; }", "rec { fn = 1; yield = fn; }"),
        ("__nxc_ident_fn => { inherit fn; }", "fn: { inherit fn; }"),
        ("__nxc_ident_yield => rec { inherit yield; x = __nxc_ident_yield; }", "yield: rec { inherit yield; x = yield; }"),
        ("let { inherit (s) fn yield; yield [__nxc_ident_fn, __nxc_ident_yield]; }", "let inherit (s) fn yield; in [ fn yield ]"),
        ("with(s, __nxc_ident_fn(__nxc_ident_yield))", "with s; fn yield"),
        ("s.a or __nxc_ident_fn", "s.a or fn"),
        ("{ ${__nxc_ident_fn} = __nxc_ident_yield; }", "{ ${fn} = yield; }"),
        ("\"${__nxc_ident_fn}\"", "\"${fn}\""),
        ("./${__nxc_ident_yield}", "./${yield}"),
    ];
    let failures: Vec<String> = pairs
        .iter()
        .filter_map(|(source, native)| disagreement(source, native, false))
        .collect();
    assert!(failures.is_empty(), "{failures:#?}");
}

#[test]
fn lambdas_corpus_agrees_across_dialects() {
    let pairs = [
        ("true => true", "true: true"),
        ("x => x + 1", "x: x + 1"),
        ("(x) => x + 1", "x: x + 1"),
        ("fn(x) => x + 1", "x: x + 1"),
        ("# α\nfn /* β */ (x) /* γ */ => x + 1 // end\n", "x: x + 1"),
        ("x => y => x + y * 2", "x: y: x + y * 2"),
        ("(x => x + 1)(2)", "(x: x + 1) 2"),
        ("fn(x) => f(x, y => g(y))", "x: f x (y: g y)"),
        ("(x => y => x + y)(1, 2)", "(x: y: x + y) 1 2"),
        ("f(x => x + 1, 2)", "f (x: x + 1) 2"),
        ("1 + (x => x)(2) * 3", "1 + ((x: x) 2) * 3"),
        ("({}) => 1", "{}: 1"),
        ("fn({ x, y, }) => x + y", "{ x, y, }: x + y"),
        ("({ pkgs, lib, ... }) => pkgs", "{ pkgs, lib, ... }: pkgs"),
        ("({...}) => 1", "{...}: 1"),
        ("({ x ? 1 + 2, y ? x, ... }) => y", "{ x ? 1 + 2, y ? x, ... }: y"),
        ("({ f ? x => x + 1 }) => f(2)", "{ f ? x: x + 1 }: f 2"),
        ("({ f ? ({ x ? 2 }) => x }) => f", "{ f ? { x ? 2 }: x }: f"),
        ("({ x ? f(1, 2), y ? g(x), ... }) => y", "{ x ? f 1 2, y ? g x, ... }: y"),
        ("({ x ? (a => a)(1), y ? x }) => y", "{ x ? (a: a) 1, y ? x }: y"),
        ("({ x ? f(g(1, 2), 3), y }) => x", "{ x ? f (g 1 2) 3, y }: x"),
        ("({ x }@args) => x", "{ x }@args: x"),
        ("(args@{ x ? 1, ... }) => args", "args@{ x ? 1, ... }: args"),
        ("({ x ? 1, ... }@args) => args", "args@{ x ? 1, ... }: args"),
        ("fn(args@{ x ? 1, ... }) => args", "args@{ x ? 1, ... }: args"),
        ("fn({ x ? 1, ... }@args) => args", "args@{ x ? 1, ... }: args"),
    ];
    let failures: Vec<String> = pairs
        .iter()
        .filter_map(|(source, native)| disagreement(source, native, true))
        .collect();
    assert!(failures.is_empty(), "{failures:#?}");
}

/// The inputs of `cases` that a dialect accepts though it should refuse them.
fn accepted(cases: &[(&str, bool, bool)]) -> Vec<String> {
    let mut wrong = Vec::new();
    for (source, nxc, native) in cases {
        if *nxc && parse_nxc(source).is_ok() {
            wrong.push(format!("nxc accepted {source}"));
        }
        if *native && nix::import(source).is_ok() {
            wrong.push(format!("native accepted {source}"));
        }
    }
    wrong
}

#[test]
fn absolute_paths_corpus_rejections_hold() {
    let cases = [
        ("/", true, true),
        ("/a/", true, true),
        ("/a//b", true, true),
        ("/a/*comment*/", true, true),
        ("/a\\b", true, true),
        ("/é", true, true),
        ("/a${x}/", true, true),
        ("/${x}/", true, true),
        ("~/a/", true, true),
        ("/a\0", true, true),
        ("/a'b", true, true),
        ("f(/bad/, good(/ok))", true, false),
        ("[/bad/, good(/ok)]", true, false),
        ("{ x = /bad/; y = good(/ok); }", true, false),
        ("f(/bad//path, good(/ok))", true, false),
    ];
    let wrong = accepted(&cases);
    assert!(wrong.is_empty(), "{wrong:#?}");
}

#[test]
fn assertions_corpus_rejections_hold() {
    let cases = [
        ("[assert true; 1]", false, true),
        ("{}.a or assert true; 1", false, true),
        ("1 + assert true; 2", false, true),
        ("f assert true; 1", false, true),
        ("-assert true; 1", false, true),
        ("assert", true, false),
        ("assert()", true, false),
        ("assert(c)", true, false),
        ("assert(c,)", true, false),
        ("assert(c)(x)", true, false),
        ("assert(c, x, extra)", true, false),
        ("assert(, x)", true, false),
        ("assert(c,, x)", true, false),
        ("assert(c, x,,)", true, false),
        ("assert(c; x)", true, false),
        ("assert c; x", true, false),
        ("assert(c, x", true, false),
        ("assert(c, @)", true, false),
        ("f(assert)", true, false),
        ("assert => 1", true, false),
        ("{ assert = 1; }", true, false),
        ("s.assert", true, false),
        ("assert(false, ./path${__nxc_unsupported})", true, false),
        ("assert(__nxc_bad, 1)", true, false),
        ("assert(false, __nxc_bad)", true, false),
        ("assert(@, h(3))", true, false),
        ("assert(f(@, { x = 1; }), h(3))", true, false),
        ("assert(@ + ''commas, ${f(1, 2)}'', h(3))", true, false),
        ("f(assert(c), h(3))", true, false),
        ("f(assert(c, @), h(3))", true, false),
        ("f(assert(c, x, extra), h(3))", true, false),
        ("[assert(c, @), h(3)]", true, false),
        ("let { a = assert(@, x); yield h(3); }", true, false),
        ("{ a = assert(@, x); b = h(3); }", true, false),
    ];
    let wrong = accepted(&cases);
    assert!(wrong.is_empty(), "{wrong:#?}");
}

#[test]
fn assertions_adversarial_corpus_rejections_hold() {
    let cases = [
        ("f(assert(scope, value, extra(1, 2)), h(3))", true, false),
        ("f(assert(scope, [bad(@), keep(1, 2)]), h(3))", true, false),
    ];
    let wrong = accepted(&cases);
    assert!(wrong.is_empty(), "{wrong:#?}");
}

#[test]
fn attrsets_corpus_rejections_hold() {
    let cases = [
        ("{ a = 1 }", true, false),
        ("{ a = ; b = 2; }", true, false),
        ("{ a = 1, b = 2; }", true, false),
        ("{ a; }", true, false),
        ("{ a..b = 1; }", true, false),
        ("{ = 1; }", true, false),
        ("{ inherit (x; }", true, false),
        ("s.", true, false),
        ("s.a or", true, false),
        ("s.a or -1", true, false),
        ("s.a or x => x", true, false),
        ("s..a", true, false),
        ("s.1", true, false),
        ("{ 1 = 2; }", true, false),
        ("{ rec = 1; }", true, false),
        ("let x = 1; in x", true, false),
        ("{ a = 1; a = 2; }", true, true),
        ("{ a.b = 1; a.b = 2; }", true, true),
        ("{ a = 1; a.b = 2; }", true, true),
        ("{ a.b = 1; a = 2; }", true, true),
        ("{ a = { b = 1; }; a.b = 2; }", true, true),
        ("{ a.b = 2; a = { b = 1; }; }", true, true),
        ("{ inherit a; a.b = 1; }", true, true),
        ("{ a = {}; inherit a; }", true, true),
        ("{ inherit (src) a a; }", true, true),
        ("{ a = {}; a = 1; }", true, true),
        ("{ a = @; b = 3; }", true, false),
        ("{ a = f(@, { inner = @; good = 2; }); b = 3; }", true, false),
        ("f(@ + { inner = g(1, 2); }, { b = 3; }, 4)", true, false),
    ];
    let wrong = accepted(&cases);
    assert!(wrong.is_empty(), "{wrong:#?}");
}

#[test]
fn attrsets_adversarial_corpus_rejections_hold() {
    let cases = [
        ("{ a.b = { c = 1; }; a.b.c = 2; }", true, true),
        ("{ a.b.c = 1; a = { b.c = 2; }; }", true, true),
        ("{ a = { inherit b; }; a.b.c = 1; }", true, true),
        ("{ a.b.c = 1; a = { inherit b; }; }", true, true),
    ];
    let wrong = accepted(&cases);
    assert!(wrong.is_empty(), "{wrong:#?}");
}

#[test]
fn concat_corpus_rejections_hold() {
    let cases = [
        ("a ++ f x: x", false, true),
        ("(f x: x) ++ a", false, true),
        ("++", true, false),
        ("++a", true, false),
        ("a++", true, false),
        ("a+++b", true, false),
        ("a++++b", true, false),
        ("a + + b", true, false),
        ("a ++ ++ b", true, false),
        ("a ++ x => x", true, false),
        ("a ++ if c then b else d", true, false),
        ("a++b/c/", true, false),
        ("__nxc_bad ++ []", true, false),
        ("a -> b", true, false),
        ("a ?", true, false),
        ("f(a ++ @, h(3))", true, false),
        ("f(a ++, h(3))", true, false),
        ("f(a +++ b, h(3))", true, false),
        ("[a ++ @, h(3)]", true, false),
        ("f(a ++ (@, g(2)), h(3))", true, false),
        ("{ a = x ++ @; b = h(3); }", true, false),
        ("let { a = x ++ @; yield h(3); }", true, false),
    ];
    let wrong = accepted(&cases);
    assert!(wrong.is_empty(), "{wrong:#?}");
}

#[test]
fn conditionals_corpus_rejections_hold() {
    let cases = [
        ("1 + if c then 2 else 3", true, true),
        ("s.a or if c then 1 else 2", true, true),
        ("-if c then 1 else 2", true, true),
        ("f if c then 1 else 2", false, true),
        ("[if c then 1 else 2]", false, true),
        ("if", true, false),
        ("if true", true, false),
        ("if true then", true, false),
        ("if true then 1", true, false),
        ("if true then 1 else", true, false),
        ("if then 1 else 2", true, false),
        ("if true then else 2", true, false),
        ("if true else 2", true, false),
        ("if true 1 else 2", true, false),
        ("if true then 1 else 2 else 3", true, false),
        ("if true then if false then 1 else 2", true, false),
        ("if(true, 1, 2)", true, false),
        ("if (true) { 1 } else { 2 }", true, false),
        ("if true then @ else 2", true, false),
        ("if true then 1 else __nxc_bad", true, false),
        ("if __nxc_bad then 1 else 2", true, false),
        ("if false then __nxc_bad else 1", true, false),
        ("{ if = 1; }", true, false),
        ("s.then", true, false),
        ("x => else", true, false),
        ("f(if @ then 1 else 2, h(3))", true, false),
        ("f(if true then @ else 2, h(3))", true, false),
        ("f(if true then 1 else @, h(3))", true, false),
        ("f(if true then f(@, [1, 2]) else 2, h(3))", true, false),
        ("[if true then 1 else @, h(3)]", true, false),
        ("let { x = if true then @ else 2; yield h(3); }", true, false),
        ("{ x = if true then @ else 2; y = h(3); }", true, false),
    ];
    let wrong = accepted(&cases);
    assert!(wrong.is_empty(), "{wrong:#?}");
}

#[test]
fn conditionals_adversarial_corpus_rejections_hold() {
    let cases = [
        ("f(if true then 1, h(3))", true, false),
        ("f(if true else 1, h(3))", true, false),
        ("[if true then 1, h(3)]", true, false),
        ("{ x = if true then 1; y = h(3); }", true, false),
        ("let { x = if true then 1; yield h(3); }", true, false),
    ];
    let wrong = accepted(&cases);
    assert!(wrong.is_empty(), "{wrong:#?}");
}

#[test]
fn dynamic_bindings_corpus_rejections_hold() {
    let cases = [
        (r#"{ ${"x"} = 1; x = 2; }"#, true, true),
        (r#"{ x = 1; ${( "x" )} = 2; }"#, true, true),
        (r#"{ ${"a"}.b = 1; a.${"b"} = 2; }"#, true, true),
        (r#"{ a = 1; a.${key} = 2; }"#, true, true),
        (r#"{ a.${key} = 2; a = 1; }"#, true, true),
        (r#"{ ${"a"} = { b = 1; }; a.b = 2; }"#, true, true),
        (r#"{ inherit (s) ${"x"}; x = 2; }"#, true, true),
        ("{ ${} = 1; }", true, true),
        ("{ ${name} = ; }", true, true),
        ("{ a.${name}. = 1; }", true, true),
        (r#"{ "${}" = 1; }"#, true, true),
        ("{ ''${key}'' = 1; }", true, true),
        ("{ inherit ${key}; }", true, true),
        (r#"{ inherit (s) "${key}"; }"#, true, true),
        ("{ ${} = 1; good = 3; }", true, false),
        ("{ ${key} = ; good = 3; }", true, false),
        (r#"{ "${}" = 1; good = 3; }"#, true, false),
        ("let { a.${} = 1; good = 3; yield good; }", true, false),
        ("f({ ${} = 1; }, { good = 3; })", true, false),
    ];
    let wrong = accepted(&cases);
    assert!(wrong.is_empty(), "{wrong:#?}");
}

#[test]
fn dynamic_select_corpus_rejections_hold() {
    let cases = [
        ("s.${}", true, false),
        ("s.${key", true, false),
        ("s.${key}}", true, false),
        ("s.$key", true, false),
        ("s.${key}.", true, false),
        ("s.${key} or", true, false),
        ("s.${key} or -1", true, false),
        ("s.${key} or x => x", true, false),
        ("s.${x ?}", true, false),
        (r#"s."${}""#, true, false),
        ("s.''${key}''", true, false),
        ("${key}", true, false),
        ("{ ${} = 1; }", true, false),
        (r#"{ "${}" = 1; }"#, true, false),
        ("{ a.${} = 1; }", true, false),
        ("{ inherit (s) ${key}; }", true, false),
        (r#"{ inherit (s) "${key}"; }"#, true, false),
        ("{ bad = s.${}; good = 3; }", true, false),
        ("let { bad = s.${}; good = 3; yield good; }", true, false),
        ("f(s.${}, { good = 3; })", true, false),
        ("[s.${}, { good = 3; }]", true, false),
        (r#"f(s."${}", { good = 3; })"#, true, false),
        ("f(s.${key} or , { good = 3; })", true, false),
    ];
    let wrong = accepted(&cases);
    assert!(wrong.is_empty(), "{wrong:#?}");
}

#[test]
fn has_attr_corpus_rejections_hold() {
    let cases = [
        ("? a", true, true),
        ("s ?", true, true),
        ("s ? a.", true, true),
        ("s ? 1", true, true),
        ("s ? ${}", true, true),
        (r#"s ? "${}""#, true, true),
        ("s ? ''a''", true, true),
        ("s ? a or t", true, true),
        ("f(s ? , good(3))", true, false),
        ("[s ? ${}, good(3)]", true, false),
        ("{ a = s ? ; b = good(3); }", true, false),
    ];
    let wrong = accepted(&cases);
    assert!(wrong.is_empty(), "{wrong:#?}");
}

#[test]
fn home_paths_corpus_rejections_hold() {
    let cases = [
        ("~", true, true),
        ("~/", true, true),
        ("~//a", true, true),
        ("~user/a", true, true),
        ("~/a/", true, true),
        ("~/a//b", true, true),
        ("~/a/*comment*/", true, true),
        ("~/a\\b", true, true),
        ("~/é", true, true),
        ("~/a${x}/", true, true),
        ("~/${x}/", true, true),
        ("~/a\0", true, true),
        ("~/a'b", true, true),
        ("+~/a", true, true),
        ("f(~/, good(1))", true, false),
        ("[~/bad/, good(1)]", true, false),
        ("{ x = ~/bad/; y = good(1); }", true, false),
        ("f(~/bad//path, good(1))", true, false),
    ];
    let wrong = accepted(&cases);
    assert!(wrong.is_empty(), "{wrong:#?}");
}

#[test]
fn implication_corpus_rejections_hold() {
    let cases = [
        ("a -> b", true, false),
        ("a ->b", true, false),
        ("1->2", true, false),
        ("(a)->b", true, false),
        ("fn(x) -> T => x", true, false),
        ("[a -> b]", true, false),
        ("false -> ./path${__nxc_unsupported}", false, true),
        ("false -> __nxc_bad", false, true),
        ("false -> 9223372036854775808", false, true),
        ("true -> ./path${__nxc_unsupported}", false, true),
        ("./path${__nxc_unsupported} -> true", false, true),
        ("__nxc_unsupported -> true", false, true),
        ("false -> 1.5e+", false, true),
        ("false -> (a |> b)", false, true),
    ];
    let wrong = accepted(&cases);
    assert!(wrong.is_empty(), "{wrong:#?}");
}

#[test]
fn indented_strings_corpus_rejections_hold() {
    let cases = [
        ("''", true, true),
        ("'''", true, true),
        ("''x", true, true),
        ("''x'''", true, true),
        ("''x''\\", true, true),
        ("''${}''", true, true),
        ("''${x''", true, true),
        ("''a\0b''", true, true),
        ("''a''\\\0b''", true, true),
        ("{ ''name'' = 1; }", true, true),
        ("s.''name''", true, true),
        ("f(@ + ''commas, ; ${g(1, 2)}'', h(3))", true, false),
        ("[''${@}'', h(3)]", true, false),
        ("{ a = @ + ''${{ inner = ''}; ,''; }}''; b = h(3); }", true, false),
    ];
    let wrong = accepted(&cases);
    assert!(wrong.is_empty(), "{wrong:#?}");
}

#[test]
fn interpolated_paths_corpus_rejections_hold() {
    let cases = [
        ("f(./${}, good(1))", true, false),
        ("[./${x}/, good(1)]", true, false),
        ("{ x = ./${}; y = good(1); }", true, false),
        ("f(./${{ x = ; }}, good(1))", true, false),
    ];
    let wrong = accepted(&cases);
    assert!(wrong.is_empty(), "{wrong:#?}");
}

#[test]
fn keyword_identifiers_corpus_rejections_hold() {
    let cases = [
        ("fn", true, false),
        ("yield", true, false),
        ("fn => 1", true, false),
        ("yield => 1", true, false),
        ("fn(fn) => 1", true, false),
        ("({ yield }) => 1", true, false),
        ("__nxc_ident", true, false),
        ("__nxc_ident_or", true, false),
        ("__nxc_ident_fn_extra", true, false),
        ("__nxc_ident_fn-suffix", true, false),
        ("__nxc_ident_fn'", true, false),
        ("__nxc_ident___curPos", true, false),
        ("__nxc_update", true, false),
        ("({ __nxc_ident_fn, __nxc_ident_fn }) => 1", true, false),
        ("(__nxc_ident_yield@{ __nxc_ident_yield }) => 1", true, false),
        ("let { __nxc_ident_fn = 1; yield 1; }", true, false),
        ("{ inherit __nxc_ident_yield; }", true, false),
        ("let { yield = 1; yield __nxc_ident_yield; }", true, false),
        ("let { fn = 1; \"fn\" = 2; yield __nxc_ident_fn; }", true, false),
        ("__nxc_ident_fn", false, true),
        ("__nxc_ident_yield", false, true),
        ("__nxc_ident_fn: 1", false, true),
        ("{ __nxc_ident_yield }: 1", false, true),
        ("let __nxc_ident_fn = 1; in 1", false, true),
        ("or", false, true),
        ("{ fn, fn }: 1", false, true),
        ("yield@{ yield }: 1", false, true),
        ("f(__nxc_ident_bad, good(1))", true, false),
        ("[__nxc_ident_fn +, good(1)]", true, false),
        ("let { x = __nxc_ident_bad; yield good(1); }", true, false),
    ];
    let wrong = accepted(&cases);
    assert!(wrong.is_empty(), "{wrong:#?}");
}

#[test]
fn lambdas_corpus_rejections_hold() {
    let cases = [
        ("x: x", true, false),
        ("fn x => x", true, false),
        ("fn(x)", true, false),
        ("fn() => 1", true, false),
        ("(x, y) => x", true, false),
        ("1 => 1", true, false),
        ("(x + y) => x", true, false),
        ("f(x) => x", true, false),
        ("1 + x => x", true, false),
        ("-x => x", true, false),
        ("x =>", true, false),
        ("({ x, x }) => x", true, false),
        ("(x@{ x }) => x", true, false),
        ("({ x }@x) => x", true, false),
        ("(a@{ x }@b) => x", true, false),
        ("({ x ? }) => x", true, false),
        ("({ ..., x }) => x", true, false),
        ("({ ..., ... }) => 1", true, false),
        ("({ x,, y }) => x", true, false),
        ("({ x = 1; }) => x", true, false),
        ("({ ..., }) => 1", true, false),
        ("({ x ... }) => x", true, false),
        ("({ x y }) => x", true, false),
        ("{ x } => x", true, false),
        ("({ fn }) => 1", true, false),
        ("(__curPos) => 1", true, false),
        ("(__nxc_x) => 1", true, false),
        ("{ x, x }: x", false, true),
        ("x@{ x }: x", false, true),
        ("{ x }@x: x", false, true),
        ("__nxc_private: 1", false, true),
        ("{ __curPos }: 1", false, true),
    ];
    let wrong = accepted(&cases);
    assert!(wrong.is_empty(), "{wrong:#?}");
}
