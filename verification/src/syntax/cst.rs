//! The lossless syntax tree of an nxc source, built with rowan: every byte of
//! the source stands in exactly one token, in order, under a root node.
use vstd::prelude::*;

use super::kind::spec_to_raw;
use super::lexer::{lex, tokens_partition, Token};
use super::grammar::source_derives;
use super::lexer::{lex_clean, nxc_within, spec_lex};
use super::parser::{lemma_partition_bounds, parse_source};
use crate::ir::validate::expr_valid;
use crate::ir::{clone_expr, copy_of, Expr};
use crate::limits::{Limits, MAX_DIAGNOSTICS};
use crate::text::utf8_text;
use crate::Diagnostic;
use vstd::string::StringSliceAdditionalSpecFns;
use vstd::utf8::{
    decode_utf8, decode_utf8_encode_utf8, encode_utf8_valid_utf8, is_char_boundary,
    is_char_boundary_iff_not_is_continuation_byte, is_char_boundary_start_end_of_seq,
    is_continuation_byte, valid_utf8, valid_utf8_split,
};

verus! {

/// rowan's immutable syntax tree node.
#[verifier::external_type_specification]
#[verifier::external_body]
pub struct ExGreenNode(rowan::GreenNode);

/// rowan's builder of green trees.
#[verifier::external_type_specification]
#[verifier::external_body]
pub struct ExGreenNodeBuilder<'a>(rowan::GreenNodeBuilder<'a>);

/// The text of a green tree, as bytes: its tokens' text in order.
pub uninterp spec fn green_text(g: rowan::GreenNode) -> Seq<u8>;

/// The text of the tokens a builder has been given, in order.
pub uninterp spec fn builder_text(b: rowan::GreenNodeBuilder<'static>) -> Seq<u8>;

/// The kinds of the nodes a builder has started and not finished.
pub uninterp spec fn builder_open(b: rowan::GreenNodeBuilder<'static>) -> Seq<u16>;

/// The kinds of the nodes a builder has finished outside any other node.
pub uninterp spec fn builder_top(b: rowan::GreenNodeBuilder<'static>) -> Seq<u16>;

/// `rowan::GreenNodeBuilder::new`: a builder holding nothing.
#[verifier::external_body]
fn new_builder() -> (b: rowan::GreenNodeBuilder<'static>)
    ensures
        builder_text(b) == Seq::<u8>::empty(),
        builder_open(b) == Seq::<u16>::empty(),
        builder_top(b) == Seq::<u16>::empty(),
{
    rowan::GreenNodeBuilder::new()
}

/// `GreenNodeBuilder::start_node`: opens a node of the given kind.
#[verifier::external_body]
fn start_node(b: &mut rowan::GreenNodeBuilder<'static>, kind: u16)
    ensures
        builder_text(*final(b)) == builder_text(*old(b)),
        builder_open(*final(b)) == builder_open(*old(b)).push(kind),
        builder_top(*final(b)) == builder_top(*old(b)),
{
    b.start_node(rowan::SyntaxKind(kind))
}

/// `GreenNodeBuilder::token`: appends a token to the open node. rowan
/// measures text in `u32`, so the text stays below that bound.
#[verifier::external_body]
fn push_token(b: &mut rowan::GreenNodeBuilder<'static>, kind: u16, text: &str)
    requires
        builder_open(*old(b)).len() > 0,
        builder_text(*old(b)).len() + text.spec_bytes().len() <= u32::MAX,
    ensures
        builder_text(*final(b)) == builder_text(*old(b)) + text.spec_bytes(),
        builder_open(*final(b)) == builder_open(*old(b)),
        builder_top(*final(b)) == builder_top(*old(b)),
{
    b.token(rowan::SyntaxKind(kind), text)
}

/// `GreenNodeBuilder::finish_node`: closes the innermost open node.
#[verifier::external_body]
fn finish_node(b: &mut rowan::GreenNodeBuilder<'static>)
    requires
        builder_open(*old(b)).len() > 0,
    ensures
        builder_text(*final(b)) == builder_text(*old(b)),
        builder_open(*final(b)) == builder_open(*old(b)).drop_last(),
        builder_top(*final(b)) == if builder_open(*old(b)).len() == 1 {
            builder_top(*old(b)).push(builder_open(*old(b)).last())
        } else {
            builder_top(*old(b))
        },
{
    b.finish_node()
}

/// `GreenNodeBuilder::finish`: the one finished node, whose text is the
/// text of every token given.
#[verifier::external_body]
fn finish(b: rowan::GreenNodeBuilder<'static>) -> (g: rowan::GreenNode)
    requires
        builder_open(b).len() == 0,
        builder_top(b).len() == 1,
    ensures
        green_text(g) == builder_text(b),
{
    b.finish()
}

/// The kind of the root node.
pub const ROOT_NODE: u16 = 1000;

/// The kind of the node holding a source's tokens when it parses.
pub const EXPRESSION_NODE: u16 = 1001;

/// The kind of the node holding a source's tokens when it does not parse.
pub const ERROR_NODE: u16 = 1002;

/// Bytes between two character boundaries of valid UTF-8 are valid UTF-8.
proof fn lemma_between_boundaries(b: Seq<u8>, start: int, end: int)
    requires
        valid_utf8(b),
        0 <= start <= end <= b.len(),
        is_char_boundary(b, start),
        end == b.len() || !is_continuation_byte(b[end]),
    ensures
        valid_utf8(b.subrange(start, end)),
{
    valid_utf8_split(b, start);
    let s = b.subrange(start, b.len() as int);
    let k = end - start;
    if end == b.len() {
        assert(s.subrange(0, k) =~= s);
    } else {
        assert(s[k] == b[end]);
        is_char_boundary_iff_not_is_continuation_byte(s, k);
        valid_utf8_split(s, k);
        assert(s.subrange(0, k) =~= b.subrange(start, end));
    }
}

/// The green tree of a source: a root node holding one node (an expression
/// node when the source parses, an error node otherwise) whose tokens are
/// the source's lexical tokens. The lexer's tokens end on character
/// boundaries; a token list that ended one inside a character would have it
/// joined with its neighbour here.
fn build(source: &str, tokens: &Vec<Token>, parsed: bool) -> (g: rowan::GreenNode)
    requires
        tokens_partition(tokens@, source.spec_bytes().len()),
        source.spec_bytes().len() <= u32::MAX,
    ensures
        green_text(g) == source.spec_bytes(),
{
    let bytes = source.as_bytes();
    let n = bytes.len();
    proof {
        encode_utf8_valid_utf8(source@);
        is_char_boundary_start_end_of_seq(bytes@);
        lemma_partition_bounds(tokens@, bytes@.len());
    }
    let mut b = new_builder();
    start_node(&mut b, ROOT_NODE);
    let inner = if parsed {
        EXPRESSION_NODE
    } else {
        ERROR_NODE
    };
    start_node(&mut b, inner);
    let mut pending: usize = 0;
    let mut kind: u16 = 0;
    let mut i: usize = 0;
    while i < tokens.len()
        invariant
            n == bytes@.len(),
            bytes@ == source.spec_bytes(),
            valid_utf8(bytes@),
            n <= u32::MAX,
            tokens_partition(tokens@, n as nat),
            forall|k: int|
                0 <= k < tokens@.len() ==> (#[trigger] tokens@[k]).span.start <= tokens@[k].span.end
                    <= n,
            i <= tokens@.len(),
            i == 0 ==> pending == 0,
            i > 0 ==> pending <= tokens@[i - 1].span.end,
            i == tokens@.len() && i > 0 ==> pending == tokens@[i - 1].span.end,
            is_char_boundary(bytes@, pending as int),
            is_char_boundary(bytes@, n as int),
            builder_text(b) == bytes@.subrange(0, pending as int),
            builder_open(b) == seq![ROOT_NODE, inner],
            builder_top(b) == Seq::<u16>::empty(),
        decreases tokens@.len() - i,
    {
        let t = &tokens[i];
        if i > 0 {
            assert(tokens@[i - 1].span.end == tokens@[i as int].span.start);
        }
        if pending == t.span.start {
            kind = t.kind.to_raw();
        }
        let end = t.span.end;
        if i + 1 == tokens.len() {
            assert(tokens@[i as int] == tokens@.last());
        }
        if end == n || !(bytes[end] >= 0x80 && bytes[end] < 0xc0) {
            proof {
                lemma_between_boundaries(bytes@, pending as int, end as int);
                if end < n {
                    is_char_boundary_iff_not_is_continuation_byte(bytes@, end as int);
                }
            }
            let piece = &bytes[pending..end];
            assert(piece@ == bytes@.subrange(pending as int, end as int));
            match utf8_text(piece) {
                Some(text) => {
                    proof {
                        decode_utf8_encode_utf8(piece@);
                        assert(text@ == decode_utf8(piece@));
                        assert(bytes@.subrange(0, pending as int) + piece@ =~= bytes@.subrange(
                            0,
                            end as int,
                        ));
                    }
                    let slice = text.as_str();
                    assert(slice.spec_bytes() == piece@);
                    push_token(&mut b, kind, slice);
                },
                None => {},
            }
            pending = end;
        }
        i += 1;
    }
    proof {
        assert(bytes@.subrange(0, n as int) =~= bytes@);
    }
    finish_node(&mut b);
    finish_node(&mut b);
    finish(b)
}

/// A parse of nxc source: its lossless syntax tree (absent when the source
/// exceeds the byte budget), its diagnostics, and its expression when it
/// has none.
pub struct SourceParse {
    green: Option<rowan::GreenNode>,
    diagnostics: Vec<Diagnostic>,
    expr: Option<Expr>,
}

impl SourceParse {
    /// Whether the parse holds a syntax tree.
    pub closed spec fn has_tree(&self) -> bool {
        self.green is Some
    }

    /// The text of the syntax tree, as bytes.
    pub closed spec fn spec_text(&self) -> Seq<u8> {
        match self.green {
            Some(g) => green_text(g),
            None => Seq::empty(),
        }
    }

    pub closed spec fn spec_diagnostics(&self) -> Seq<Diagnostic> {
        self.diagnostics@
    }

    /// The expression the source parsed to.
    pub closed spec fn spec_expr(&self) -> Option<Expr> {
        self.expr
    }

    /// The green syntax tree, absent only when the source exceeds the byte budget.
    pub fn green(&self) -> (g: Option<&rowan::GreenNode>)
        ensures
            g is Some <==> self.has_tree(),
            g matches Some(t) ==> green_text(*t) == self.spec_text(),
    {
        match &self.green {
            Some(t) => Some(t),
            None => None,
        }
    }

    pub fn diagnostics(&self) -> (d: &Vec<Diagnostic>)
        ensures
            d@ == self.spec_diagnostics(),
    {
        &self.diagnostics
    }

    /// The expression, or the diagnostics when there are any.
    pub fn lower(&self) -> (r: Result<Expr, Vec<Diagnostic>>)
        ensures
            r is Ok <==> self.spec_diagnostics().len() == 0,
            r matches Ok(e) ==> self.spec_expr() matches Some(x) && copy_of(x, e),
            r matches Err(ds) ==> ds@ == self.spec_diagnostics(),
    {
        if self.diagnostics.len() > 0 {
            let mut ds: Vec<Diagnostic> = Vec::new();
            let mut i: usize = 0;
            while i < self.diagnostics.len()
                invariant
                    i <= self.diagnostics@.len(),
                    ds@ == self.diagnostics@.subrange(0, i as int),
                decreases self.diagnostics@.len() - i,
            {
                ds.push(self.diagnostics[i].clone());
                i += 1;
            }
            assert(self.diagnostics@.subrange(0, self.diagnostics@.len() as int)
                =~= self.diagnostics@);
            return Err(ds);
        }
        proof {
            use_type_invariant(self);
        }
        match &self.expr {
            Some(e) => Ok(clone_expr(e)),
            None => Err(Vec::new()),
        }
    }

    #[verifier::type_invariant]
    spec fn consistent(self) -> bool {
        (self.diagnostics@.len() == 0) == (self.expr is Some)
    }
}

/// Parse nxc source under the library ceilings.
pub fn parse(source: &str) -> (p: SourceParse)
    ensures
        p.has_tree() <==> source.spec_bytes().len() <= crate::MAX_SOURCE_BYTES,
        p.has_tree() ==> p.spec_text() == source.spec_bytes(),
        p.spec_diagnostics().len() <= MAX_DIAGNOSTICS,
        p.spec_diagnostics().len() == 0 <==> p.spec_expr() is Some,
        p.spec_expr() matches Some(e) ==> expr_valid(e, Limits::spec_ceilings()) && source_derives(
            source.spec_bytes(),
            e,
        ),
{
    proof {
        Limits::lemma_ceilings();
    }
    parse_with_limits(source, Limits::ceilings())
}

/// SourceParse nxc source under the given budgets, keeping the lossless tree, the
/// diagnostics and the expression.
pub fn parse_with_limits(source: &str, limits: Limits) -> (p: SourceParse)
    ensures
        p.has_tree() <==> source.spec_bytes().len() <= limits.spec_source_bytes(),
        p.has_tree() ==> p.spec_text() == source.spec_bytes(),
        p.spec_diagnostics().len() <= MAX_DIAGNOSTICS,
        p.spec_diagnostics().len() == 0 <==> p.spec_expr() is Some,
        p.spec_expr() matches Some(e) ==> expr_valid(e, limits) && source_derives(
            source.spec_bytes(),
            e,
        ) && nxc_within(source@, limits) && lex_clean(spec_lex(source.spec_bytes())),
        source.spec_bytes().len() > limits.spec_source_bytes() ==> p.spec_diagnostics().len() > 0,
{
    let outcome = parse_source(source, limits);
    let parsed = outcome.is_ok();
    let green = if source.as_bytes().len() <= limits.source_bytes() {
        let tokens = lex(source);
        Some(build(source, &tokens, parsed))
    } else {
        None
    };
    match outcome {
        Ok(e) => SourceParse { green, diagnostics: Vec::new(), expr: Some(e) },
        Err(ds) => SourceParse { green, diagnostics: ds, expr: None },
    }
}

} // verus!
