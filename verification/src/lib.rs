//! A C/Rust-flavored concrete syntax for Nix with unchanged evaluation semantics.
//!
//! The library lowers nxc source and native Nix source into one semantic
//! expression tree, validates that tree against explicit resource budgets, and
//! emits canonical nxc or conservative native Nix from it.
use vstd::prelude::*;

pub mod emit;
pub mod ir;
pub mod limits;
pub mod nix;
pub mod string;
pub mod syntax;
pub mod text;

pub use limits::Limits;

use ir::validate::expr_valid;
use nix::check::native_source_ok;
use syntax::grammar::source_derives;
use syntax::lexer::{lex_clean, nxc_budget_message, nxc_within, spec_lex};
use vstd::string::StringSliceAdditionalSpecFns;

verus! {

/// Resource bound on source and generated text, in bytes.
pub const MAX_SOURCE_BYTES: usize = 33554432;

/// Resource bound on non-trivia tokens and semantic nodes.
pub const MAX_TOKENS: usize = 4194304;

/// Resource bound on delimiter nesting and semantic depth.
pub const MAX_DEPTH: usize = 256;

/// A located error message. Spans are UTF-8 byte offsets.
#[derive(Debug, PartialEq, Eq)]
pub struct Diagnostic {
    pub span: core::ops::Range<usize>,
    pub message: String,
}

impl Clone for Diagnostic {
    fn clone(&self) -> (d: Diagnostic)
        ensures
            d == *self,
    {
        Diagnostic {
            span: core::ops::Range { start: self.span.start, end: self.span.end },
            message: self.message.clone(),
        }
    }
}

impl Diagnostic {
    /// A diagnostic covering `start..end` with the given message.
    pub(crate) fn new(start: usize, end: usize, message: &str) -> (d: Diagnostic)
        ensures
            d.span.start == start,
            d.span.end == end,
            d.message@ == message@,
    {
        Diagnostic { span: core::ops::Range { start, end }, message: message.to_owned() }
    }
}

/// Larger budgets admit everything smaller ones do: an expression valid
/// under some budgets is valid under any budgets at least as large, and text
/// within the smaller budgets, as nxc or as native Nix, is within the larger.
pub proof fn lemma_larger_budgets_admit_more(e: ir::Expr, text: Seq<char>, small: Limits, large: Limits)
    requires
        small.spec_source_bytes() <= large.spec_source_bytes(),
        small.spec_tokens() <= large.spec_tokens(),
    ensures
        expr_valid(e, small) ==> expr_valid(e, large),
        nxc_within(text, small) ==> nxc_within(text, large),
        native_source_ok(text, small) ==> native_source_ok(text, large),
{
}

/// Lower nxc source into a syntax-independent semantic expression, under the
/// library ceilings.
pub fn parse_nxc(source: &str) -> (r: Result<ir::Expr, Vec<Diagnostic>>)
    ensures
        r matches Ok(e) ==> expr_valid(e, Limits::spec_ceilings()),
        r is Ok ==> nxc_within(source@, Limits::spec_ceilings()) && lex_clean(
            spec_lex(source.spec_bytes()),
        ),
        r matches Ok(e) ==> source_derives(source.spec_bytes(), e),
        r matches Err(ds) ==> 1 <= ds@.len() <= limits::MAX_DIAGNOSTICS,
        source.spec_bytes().len() > MAX_SOURCE_BYTES ==> (r matches Err(ds) && ds@.len() == 1
            && ds@[0].message@ == limits::exceeded_message(
            "source byte"@,
            source.spec_bytes().len() as int,
            MAX_SOURCE_BYTES as int,
        )),
        source.spec_bytes().len() <= MAX_SOURCE_BYTES && nxc_budget_message(
            source@,
            Limits::spec_ceilings(),
        ) != Seq::<char>::empty() ==> (r matches Err(ds) && ds@.len() == 1 && ds@[0].message@
            == nxc_budget_message(source@, Limits::spec_ceilings())),
{
    proof {
        Limits::lemma_ceilings();
    }
    syntax::parser::parse_source(source, Limits::ceilings())
}

/// Lower nxc using explicitly selected byte and token/node budgets.
pub fn parse_nxc_with_limits(source: &str, limits: Limits) -> (r: Result<ir::Expr, Vec<Diagnostic>>)
    ensures
        r matches Ok(e) ==> expr_valid(e, limits),
        r is Ok ==> nxc_within(source@, limits) && lex_clean(spec_lex(source.spec_bytes())),
        r matches Ok(e) ==> source_derives(source.spec_bytes(), e),
        r matches Err(ds) ==> 1 <= ds@.len() <= limits::MAX_DIAGNOSTICS,
        source.spec_bytes().len() > limits.spec_source_bytes() ==> (r matches Err(ds) && ds@.len()
            == 1 && ds@[0].message@ == limits::exceeded_message(
            "source byte"@,
            source.spec_bytes().len() as int,
            limits.spec_source_bytes() as int,
        )),
        source.spec_bytes().len() <= limits.spec_source_bytes() && nxc_budget_message(
            source@,
            limits,
        ) != Seq::<char>::empty() ==> (r matches Err(ds) && ds@.len() == 1 && ds@[0].message@
            == nxc_budget_message(source@, limits)),
{
    syntax::parser::parse_source(source, limits)
}

} // verus!
