//! The calls into rnix, which tokenizes and parses native Nix. Everything
//! after these calls is verified; what rnix returns is named, not restated.
use vstd::prelude::*;
use rnix::parser::ParseError::{
    DuplicatedArgs, Unexpected, UnexpectedDoubleBind, UnexpectedExtra, UnexpectedWanted,
};
use rnix::WalkEvent::{Enter, Leave};

use super::check::{chains_ok, native_depth};

verus! {

/// The tokens that `rnix::tokenize` yields for a source: each token's kind,
/// as rnix numbers its `SyntaxKind`, and its text.
pub uninterp spec fn native_tokens(source: Seq<char>) -> Seq<(u16, Seq<char>)>;

/// The syntax tree that `rnix::Root::parse` builds for a source, walked in
/// preorder with tokens: each node and token is entered (tag 0) and left
/// (tag 1), with its kind number and byte range; and the parse errors, each
/// with its display text and the byte range it carries, if any.
pub uninterp spec fn native_syntax(source: Seq<char>) -> (
    Seq<(u8, u16, usize, usize)>,
    Seq<(Seq<char>, Option<(usize, usize)>)>,
);

pub open spec fn texts_view(v: Seq<(u16, String)>) -> Seq<(u16, Seq<char>)> {
    v.map_values(|t: (u16, String)| (t.0, t.1@))
}

pub open spec fn errors_view(v: Seq<(String, Option<core::ops::Range<usize>>)>) -> Seq<
    (Seq<char>, Option<(usize, usize)>),
> {
    v.map_values(
        |m: (String, Option<core::ops::Range<usize>>)|
            (
                m.0@,
                match m.1 {
                    Some(r) => Some((r.start, r.end)),
                    None => None,
                },
            ),
    )
}

/// `rnix::tokenize`: the kind number and text of each native token. The
/// contract names the result; it states nothing of which tokens rnix forms.
#[verifier::external_body]
pub(crate) fn tokenize(source: &str) -> (r: Vec<(u16, String)>)
    ensures
        texts_view(r@) == native_tokens(source@),
{
    rnix::tokenize(source).into_iter().map(|(kind, text)| (kind as u16, text.to_owned())).collect()
}

/// rnix's parse result, carried from the parse to its release.
#[verifier::external_type_specification]
#[verifier::external_body]
#[verifier::reject_recursive_types(T)]
pub struct ExParse<T>(rnix::Parse<T>);

/// rnix's root node type, the parse result's type argument.
#[verifier::external_type_specification]
#[verifier::external_body]
pub struct ExRoot(rnix::Root);

/// `rnix::Root::parse`, then rowan's `preorder_with_tokens` over the tree,
/// and the display text of each parse error with the range of the variants
/// that carry one; the parse result itself is handed back for release. The contract names the walk and the messages; it states
/// nothing of the tree's shape, which the lowering checks as it reads.
/// rnix bounds its expression nesting itself, but recurses once per token of
/// a prefix `-`/`!` run or a right-associative chain; the source's chains
/// are bounded by `MAX_DEPTH` beforehand, and its delimiter nesting too.
#[verifier::external_body]
pub(crate) fn parse(source: &str) -> (r: (
    Vec<(u8, u16, usize, usize)>,
    Vec<(String, Option<core::ops::Range<usize>>)>,
    rnix::Parse<rnix::Root>,
))
    requires
        chains_ok(native_tokens(source@), native_tokens(source@).len() as int),
        forall|k: int|
            0 <= k <= native_tokens(source@).len() ==> #[trigger] native_depth(native_tokens(source@), k)
                <= crate::MAX_DEPTH,
    ensures
        (r.0@, errors_view(r.1@)) == native_syntax(source@),
{
    let parsed = rnix::Root::parse(source);
    let errors = parsed.errors().iter().map(|e| (e.to_string(), match e {
        Unexpected(r) | UnexpectedExtra(r) | UnexpectedWanted(_, r, _) | UnexpectedDoubleBind(r)
        | DuplicatedArgs(r, _) => Some((*r).into()),
        _ => None
    })).collect();
    (parsed.syntax().preorder_with_tokens().map(|event| match event {
        Enter(e) => (0, e),
        Leave(e) => (1, e)
    }).map(|(t, e)| (t, e.kind() as u16, e.text_range().start().into(), e.text_range().end().into()))
        .collect(), errors, parsed)
}

/// Free an rnix parse result node by node through rowan's `GreenNode`
/// children: long operator chains parse to deep trees, which rowan's own
/// drop would free recursively. Nothing is stated; nothing is returned.
#[verifier::external_body]
pub(crate) fn release(parsed: rnix::Parse<rnix::Root>) {
    let mut pending = vec![parsed.syntax().green().into_owned()];
    drop(parsed);
    while let Some(node) = pending.pop() {
        pending.extend(node.children().filter_map(|c| c.into_node()).map(|n| n.to_owned()));
    }
}

// rnix's kind numbers, in the order of its `SyntaxKind`.
pub const TOKEN_COMMENT: u16 = 0;
pub const TOKEN_WHITESPACE: u16 = 2;
pub const TOKEN_REC: u16 = 10;
pub const TOKEN_SEMICOLON: u16 = 24;
pub const TOKEN_L_BRACE: u16 = 13;
pub const TOKEN_R_BRACE: u16 = 14;
pub const TOKEN_L_BRACK: u16 = 15;
pub const TOKEN_R_BRACK: u16 = 16;
pub const TOKEN_ELLIPSIS: u16 = 22;
pub const TOKEN_L_PAREN: u16 = 25;
pub const TOKEN_R_PAREN: u16 = 26;
pub const TOKEN_CONCAT: u16 = 27;
pub const TOKEN_INVERT: u16 = 28;
pub const TOKEN_UPDATE: u16 = 29;
pub const TOKEN_ADD: u16 = 30;
pub const TOKEN_SUB: u16 = 31;
pub const TOKEN_MUL: u16 = 32;
pub const TOKEN_DIV: u16 = 33;
pub const TOKEN_AND_AND: u16 = 34;
pub const TOKEN_EQUAL: u16 = 35;
pub const TOKEN_IMPLICATION: u16 = 36;
pub const TOKEN_LESS: u16 = 37;
pub const TOKEN_LESS_OR_EQ: u16 = 38;
pub const TOKEN_MORE: u16 = 39;
pub const TOKEN_MORE_OR_EQ: u16 = 40;
pub const TOKEN_NOT_EQUAL: u16 = 41;
pub const TOKEN_OR_OR: u16 = 42;
pub const TOKEN_PIPE_RIGHT: u16 = 43;
pub const TOKEN_PIPE_LEFT: u16 = 44;
pub const TOKEN_FLOAT: u16 = 45;
pub const TOKEN_INTEGER: u16 = 47;
pub const TOKEN_INTERPOL_END: u16 = 48;
pub const TOKEN_INTERPOL_START: u16 = 49;
pub const TOKEN_PATH: u16 = 50;
pub const TOKEN_STRING_CONTENT: u16 = 52;
pub const TOKEN_STRING_END: u16 = 53;
pub const TOKEN_STRING_START: u16 = 54;
pub const NODE_APPLY: u16 = 55;
pub const NODE_ASSERT: u16 = 56;
pub const NODE_ATTRPATH: u16 = 57;
pub const NODE_DYNAMIC: u16 = 58;
pub const NODE_ERROR: u16 = 59;
pub const NODE_IDENT: u16 = 60;
pub const NODE_IF_ELSE: u16 = 61;
pub const NODE_SELECT: u16 = 62;
pub const NODE_INHERIT: u16 = 63;
pub const NODE_INHERIT_FROM: u16 = 64;
pub const NODE_STRING: u16 = 65;
pub const NODE_INTERPOL: u16 = 66;
pub const NODE_LAMBDA: u16 = 67;
pub const NODE_IDENT_PARAM: u16 = 68;
pub const NODE_LEGACY_LET: u16 = 69;
pub const NODE_LET_IN: u16 = 70;
pub const NODE_LIST: u16 = 71;
pub const NODE_BIN_OP: u16 = 72;
pub const NODE_PAREN: u16 = 73;
pub const NODE_PATTERN: u16 = 74;
pub const NODE_PAT_BIND: u16 = 75;
pub const NODE_PAT_ENTRY: u16 = 76;
pub const NODE_ROOT: u16 = 77;
pub const NODE_ATTR_SET: u16 = 78;
pub const NODE_ATTRPATH_VALUE: u16 = 79;
pub const NODE_UNARY_OP: u16 = 80;
pub const NODE_LITERAL: u16 = 81;
pub const NODE_WITH: u16 = 82;
pub const NODE_PATH: u16 = 83;
pub const NODE_HAS_ATTR: u16 = 84;

/// Kinds of rnix's `ast::Expr`.
pub open spec fn spec_is_expr_kind(k: u16) -> bool {
    k == NODE_APPLY || k == NODE_ASSERT || k == NODE_ERROR || k == NODE_IF_ELSE || k
        == NODE_SELECT || k == NODE_STRING || k == NODE_PATH || k == NODE_LITERAL || k
        == NODE_LAMBDA || k == NODE_LEGACY_LET || k == NODE_LET_IN || k == NODE_LIST || k
        == NODE_BIN_OP || k == NODE_PAREN || k == NODE_ROOT || k == NODE_ATTR_SET || k
        == NODE_UNARY_OP || k == NODE_IDENT || k == NODE_WITH || k == NODE_HAS_ATTR
}

pub(crate) fn is_expr_kind(k: u16) -> (r: bool)
    ensures
        r == spec_is_expr_kind(k),
{
    k == NODE_APPLY || k == NODE_ASSERT || k == NODE_ERROR || k == NODE_IF_ELSE || k
        == NODE_SELECT || k == NODE_STRING || k == NODE_PATH || k == NODE_LITERAL || k
        == NODE_LAMBDA || k == NODE_LEGACY_LET || k == NODE_LET_IN || k == NODE_LIST || k
        == NODE_BIN_OP || k == NODE_PAREN || k == NODE_ROOT || k == NODE_ATTR_SET || k
        == NODE_UNARY_OP || k == NODE_IDENT || k == NODE_WITH || k == NODE_HAS_ATTR
}

/// Kinds of rnix's `ast::Attr`.
pub open spec fn spec_is_attr_kind(k: u16) -> bool {
    k == NODE_IDENT || k == NODE_DYNAMIC || k == NODE_STRING
}

pub(crate) fn is_attr_kind(k: u16) -> (r: bool)
    ensures
        r == spec_is_attr_kind(k),
{
    k == NODE_IDENT || k == NODE_DYNAMIC || k == NODE_STRING
}

} // verus!
