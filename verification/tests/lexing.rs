use nxc::syntax::{lexer::lex, SyntaxKind};
use SyntaxKind::{
    AbsolutePath, AndAnd, Arrow, Assign, BlockComment, Dot, Ellipsis, EqualEqual, ErrorToken, Float, Fn, GreaterEqual, HomePath, Ident, Inherit, Integer, InterpolationEnd, InterpolationStart, LBrace, LessEqual, Let, LineComment, NotEqual, OrOr, PathContent, PathStart, PlusPlus, RBrace, RelativePath, SearchPath, Semicolon, StringContent, StringEnd, StringStart, Whitespace,
};

/// Each token's kind and text.
fn tokens(source: &str) -> Vec<(SyntaxKind, &str)> {
    lex(source)
        .into_iter()
        .map(|t| (t.kind, &source[t.span.start..t.span.end]))
        .collect()
}

#[test]
fn keywords_and_identifiers_are_told_apart_by_the_whole_word() {
    assert_eq!(
        tokens("let letx fn fn' inherit"),
        vec![
            (Let, "let"),
            (Whitespace, " "),
            (Ident, "letx"),
            (Whitespace, " "),
            (Fn, "fn"),
            (Whitespace, " "),
            (Ident, "fn'"),
            (Whitespace, " "),
            (Inherit, "inherit"),
        ]
    );
}

#[test]
fn the_longest_token_wins_and_punctuation_pairs_up() {
    assert_eq!(
        tokens("a++b=>c==d!=e<=f>=g&&h||i..."),
        vec![
            (Ident, "a"),
            (PlusPlus, "++"),
            (Ident, "b"),
            (Arrow, "=>"),
            (Ident, "c"),
            (EqualEqual, "=="),
            (Ident, "d"),
            (NotEqual, "!="),
            (Ident, "e"),
            (LessEqual, "<="),
            (Ident, "f"),
            (GreaterEqual, ">="),
            (Ident, "g"),
            (AndAnd, "&&"),
            (Ident, "h"),
            (OrOr, "||"),
            (Ident, "i"),
            (Ellipsis, "..."),
        ]
    );
    assert_eq!(tokens("12 1.5"), vec![(Integer, "12"), (Whitespace, " "), (Float, "1.5")]);
    assert_eq!(
        tokens("./a/b ~/c <d/e> /f"),
        vec![
            (RelativePath, "./a/b"),
            (Whitespace, " "),
            (HomePath, "~/c"),
            (Whitespace, " "),
            (SearchPath, "<d/e>"),
            (Whitespace, " "),
            (AbsolutePath, "/f"),
        ]
    );
}

#[test]
fn strings_interpolations_and_braces_switch_modes() {
    assert_eq!(
        tokens(r#""a${ { b = 1; }.b }c""#),
        vec![
            (StringStart, "\""),
            (StringContent, "a"),
            (InterpolationStart, "${"),
            (Whitespace, " "),
            (LBrace, "{"),
            (Whitespace, " "),
            (Ident, "b"),
            (Whitespace, " "),
            (Assign, "="),
            (Whitespace, " "),
            (Integer, "1"),
            (Semicolon, ";"),
            (Whitespace, " "),
            (RBrace, "}"),
            (Dot, "."),
            (Ident, "b"),
            (Whitespace, " "),
            (InterpolationEnd, "}"),
            (StringContent, "c"),
            (StringEnd, "\""),
        ]
    );
    assert_eq!(
        tokens("''x '''y $${z}''"),
        vec![
            (StringStart, "''"),
            (StringContent, "x '''y $${z}"),
            (StringEnd, "''"),
        ]
    );
    assert_eq!(
        tokens("./a/${b}/c"),
        vec![
            (PathStart, "./a/"),
            (InterpolationStart, "${"),
            (Ident, "b"),
            (InterpolationEnd, "}"),
            (PathContent, "/c"),
        ]
    );
}

#[test]
fn comments_and_invalid_text_are_tokens_too() {
    assert_eq!(
        tokens("# a\n/* b */x // c"),
        vec![
            (LineComment, "# a"),
            (Whitespace, "\n"),
            (BlockComment, "/* b */"),
            (Ident, "x"),
            (Whitespace, " "),
            (LineComment, "// c"),
        ]
    );
    assert_eq!(tokens("/* open"), vec![(ErrorToken, "/* open")]);
    assert_eq!(
        tokens("é$&"),
        vec![(ErrorToken, "é"), (ErrorToken, "$"), (ErrorToken, "&")]
    );
}

#[test]
fn tokens_start_and_end_on_character_boundaries() {
    for source in [
        "a\u{e9}b \"\u{1F600}\\\u{e9}\" # \u{4e2d}\n",
        "''\u{e9}''\\\u{4e2d}'' \u{1F600}\u{e9} /* \u{e9} */ ./a/\u{e9}",
        "\u{80}\u{800}\u{10000}",
    ] {
        let tokens = lex(source);
        assert!(!tokens.is_empty());
        for token in &tokens {
            assert!(source.is_char_boundary(token.span.start), "{source:?} {token:?}");
            assert!(source.is_char_boundary(token.span.end), "{source:?} {token:?}");
        }
    }
}
