//! Canonical nxc emission.
use vstd::prelude::*;

use super::{render, render_text};
use crate::ir::validate::expr_valid;
use crate::ir::Expr;
use crate::limits::{exceeded, Limits};
use crate::syntax::lexer::{lex, measure, nxc_within};
use crate::{Diagnostic, MAX_DEPTH};

verus! {

/// Emit canonical nxc under the library ceilings.
pub fn emit(expr: &Expr) -> (r: Result<String, Diagnostic>)
    ensures
        r is Ok <==> expr_valid(*expr, Limits::spec_ceilings()) && nxc_within(
            render(*expr, false),
            Limits::spec_ceilings(),
        ),
        r matches Ok(s) ==> s@ == render(*expr, false),
{
    emit_with_limits(expr, Limits::ceilings())
}

/// Emit canonical nxc, flattening left-associated application chains, after
/// validating the expression and checking the output's bytes, significant
/// tokens and delimiter nesting against the budgets.
pub fn emit_with_limits(expr: &Expr, limits: Limits) -> (r: Result<String, Diagnostic>)
    ensures
        r is Ok <==> expr_valid(*expr, limits) && nxc_within(render(*expr, false), limits),
        r matches Ok(s) ==> s@ == render(*expr, false),
{
    expr.validate(limits)?;
    let source = render_text(expr, false);
    let bytes = source.as_str().len();
    if bytes > limits.source_bytes() {
        return Err(exceeded("generated nxc byte", bytes, limits.source_bytes()));
    }
    let tokens = lex(source.as_str());
    let (count, peak) = measure(&tokens);
    if count > limits.tokens() {
        return Err(exceeded("generated nxc token", count, limits.tokens()));
    }
    if peak > MAX_DEPTH {
        return Err(exceeded("generated nxc delimiter depth", peak, MAX_DEPTH));
    }
    Ok(source)
}

} // verus!
