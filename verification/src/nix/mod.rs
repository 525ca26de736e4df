//! Native Nix: import through rnix, and conservative parenthesized emission.
use vstd::prelude::*;

pub mod check;
pub mod import;
pub mod lowering;
pub mod native;

use crate::emit::{render, render_text};
use crate::ir::validate::expr_valid;
use crate::ir::Expr;
use crate::limits::Limits;
use crate::Diagnostic;
use check::{check_source, native_source_ok, overflow_message, overflowing};
use lowering::{lowers, walk_of, well_nested};
use vstd::utf8::encode_utf8;
use crate::limits::{exceeded_message, MAX_DIAGNOSTICS};
use crate::MAX_SOURCE_BYTES;
use native::{errors_view, native_syntax};
use vstd::string::StringExecFns;
use vstd::string::StringSliceAdditionalSpecFns;

verus! {

/// Emit conservative, parenthesized native Nix under the library ceilings.
pub fn emit(expr: &Expr) -> (r: Result<String, Diagnostic>)
    ensures
        r is Ok <==> expr_valid(*expr, Limits::spec_ceilings()) && native_source_ok(
            render(*expr, true),
            Limits::spec_ceilings(),
        ),
        r matches Ok(s) ==> s@ == render(*expr, true),
{
    emit_with_limits(expr, Limits::ceilings())
}

/// Emit native Nix without evaluating anything: validate the expression,
/// render it, then check the output as native source under the budgets.
pub fn emit_with_limits(expr: &Expr, limits: Limits) -> (r: Result<String, Diagnostic>)
    ensures
        r is Ok <==> expr_valid(*expr, limits) && native_source_ok(render(*expr, true), limits),
        r matches Ok(s) ==> s@ == render(*expr, true),
{
    expr.validate(limits)?;
    let source = render_text(expr, true);
    check_source(source.as_str(), limits)?;
    Ok(source)
}

/// A native source that passed the preflight checks and that rnix parsed
/// without errors, held as the preorder walk of its syntax tree, with the
/// budgets it is lowered under.
pub struct Parsed {
    source: String,
    events: Vec<(u8, u16, usize, usize)>,
    limits: Limits,
}

impl Clone for Parsed {
    fn clone(&self) -> (p: Parsed)
        ensures
            p.spec_source() == self.spec_source(),
            p.spec_events() == self.spec_events(),
            p.spec_limits() == self.spec_limits(),
    {
        let mut events: Vec<(u8, u16, usize, usize)> = Vec::new();
        let mut i: usize = 0;
        while i < self.events.len()
            invariant
                i <= self.events@.len(),
                events@ == self.events@.subrange(0, i as int),
            decreases self.events@.len() - i,
        {
            events.push(self.events[i]);
            i += 1;
        }
        Parsed { source: self.source.clone(), events, limits: self.limits }
    }
}

impl Parsed {
    /// The source text.
    pub closed spec fn spec_source(&self) -> Seq<char> {
        self.source@
    }

    /// The walk of the source's syntax tree.
    pub closed spec fn spec_events(&self) -> Seq<(u8, u16, usize, usize)> {
        self.events@
    }

    /// The budgets for lowering.
    pub closed spec fn spec_limits(&self) -> Limits {
        self.limits
    }

    /// Lower the supported native forms to the IR without parsing again: pair
    /// the walk's entries with their exits, unwrap the root, lower the tree
    /// (checking its shape as it is read) and validate the result.
    pub fn lower(&self) -> (r: Result<Expr, Vec<Diagnostic>>)
        ensures
            r matches Ok(e) ==> expr_valid(e, self.spec_limits()),
            r matches Ok(e) ==> lowers(walk_of(self.spec_source(), self.spec_events()), 0, e),
            !well_nested(self.spec_events(), encode_utf8(self.spec_source()).len()) ==> r is Err,
            r matches Err(ds) ==> ds@.len() == 1,
            self.spec_events().len() == 0 ==> r is Err,
            self.spec_events().len() > 0 && (self.spec_events()[0].0 != 0
                || self.spec_events()[0].1 != native::NODE_ROOT) ==> r is Err,
    {
        let bytes = self.source.as_str().as_bytes();
        let n = bytes.len();
        let t = match import::tree(bytes, &self.events) {
            Ok(t) => t,
            Err(e) => {
                return Err(vec![e]);
            },
        };
        if t.ev.len() == 0 || t.ev[0].0 != 0 || t.ev[0].1 != native::NODE_ROOT {
            return Err(vec![Diagnostic::new(0, n, "missing native Nix expression")]);
        }
        proof {
            assert(import::walk(&t) == walk_of(self.spec_source(), self.spec_events()));
        }
        let expr = match import::lower(&t, 0, 1, import::LOWER_FUEL) {
            Ok(e) => e,
            Err(e) => {
                return Err(vec![e]);
            },
        };
        match expr.validate(self.limits) {
            Ok(()) => Ok(expr),
            Err(mut e) => {
                e.span = core::ops::Range { start: 0, end: n };
                Err(vec![e])
            },
        }
    }
}

/// The diagnostic of an rnix parse error in a source of `n` bytes: its text
/// after a prefix, over the error's range, or at the end where it has none.
pub open spec fn native_error(n: nat, e: (Seq<char>, Option<(usize, usize)>), d: Diagnostic) -> bool {
    &&& d.message@ == "native Nix parse error: "@ + e.0
    &&& match e.1 {
        Some((start, end)) => d.span.start == start && d.span.end == end,
        None => d.span.start == n && d.span.end == n,
    }
}

/// The number of diagnostics that `n` native parse errors are reported as.
pub open spec fn reported(n: nat) -> nat {
    if n < MAX_DIAGNOSTICS {
        n
    } else {
        MAX_DIAGNOSTICS as nat
    }
}

/// Check and parse native Nix under the library ceilings, separately from
/// lowering. Parsing success does not mean that lowering supports the syntax.
pub fn parse(source: &str) -> (r: Result<Parsed, Vec<Diagnostic>>)
    ensures
        r is Ok <==> native_source_ok(source@, Limits::spec_ceilings()) && native_syntax(
            source@,
        ).1.len() == 0,
        r matches Ok(p) ==> p.spec_source() == source@ && p.spec_events() == native_syntax(
            source@,
        ).0 && p.spec_limits() == Limits::spec_ceilings(),
        r matches Err(ds) ==> 1 <= ds@.len() <= MAX_DIAGNOSTICS,
{
    parse_with_limits(source, Limits::ceilings())
}

/// Check native source against the budgets and Nix's lexical rules, then
/// parse it with rnix and keep the walk of its syntax tree. Each rnix parse
/// error becomes a diagnostic over the range it carries, up to the
/// diagnostic limit.
pub fn parse_with_limits(source: &str, limits: Limits) -> (r: Result<Parsed, Vec<Diagnostic>>)
    ensures
        r is Ok <==> native_source_ok(source@, limits) && native_syntax(source@).1.len() == 0,
        r matches Ok(p) ==> p.spec_source() == source@ && p.spec_events() == native_syntax(
            source@,
        ).0 && p.spec_limits() == limits,
        r is Err && native_source_ok(source@, limits) ==> r->Err_0@.len() == reported(
            native_syntax(source@).1.len(),
        ),
        r is Err && native_source_ok(source@, limits) ==> forall|i: int|
            0 <= i < r->Err_0@.len() ==> native_error(
                source.spec_bytes().len(),
                native_syntax(source@).1[i],
                #[trigger] r->Err_0@[i],
            ),
        r matches Err(ds) ==> 1 <= ds@.len() <= MAX_DIAGNOSTICS,
        source.spec_bytes().len() > limits.spec_source_bytes() ==> (r matches Err(ds) && ds@.len()
            == 1 && ds@[0].message@ == exceeded_message(
            "source byte"@,
            source.spec_bytes().len() as int,
            limits.spec_source_bytes() as int,
        )),
        source.spec_bytes().len() <= limits.spec_source_bytes() && overflowing(source@, limits) ==> (
        r matches Err(ds) && ds@.len() == 1 && ds@[0].message@ == overflow_message(source@, limits)),
{
    match check_source(source, limits) {
        Ok(()) => {},
        Err(e) => {
            return Err(vec![e]);
        },
    }
    let (events, messages, parsed) = native::parse(source);
    native::release(parsed);
    if messages.len() > 0 {
        let mut errors: Vec<Diagnostic> = Vec::new();
        let mut i: usize = 0;
        while i < messages.len() && errors.len() < MAX_DIAGNOSTICS
            invariant
                i <= messages@.len(),
                i <= MAX_DIAGNOSTICS,
                errors@.len() == i,
                errors_view(messages@) == native_syntax(source@).1,
                forall|k: int|
                    0 <= k < i ==> native_error(
                        source.spec_bytes().len(),
                        native_syntax(source@).1[k],
                        #[trigger] errors@[k],
                    ),
            decreases messages@.len() - i,
        {
            let mut message = "native Nix parse error: ".to_owned();
            message.append(messages[i].0.as_str());
            let ghost e = native_syntax(source@).1[i as int];
            assert(errors_view(messages@)[i as int] == (
                messages@[i as int].0@,
                match messages@[i as int].1 {
                    Some(r) => Some((r.start, r.end)),
                    None => None,
                },
            ));
            let d = match &messages[i].1 {
                Some(range) => Diagnostic::new(range.start, range.end, message.as_str()),
                None => {
                    let n = source.as_bytes().len();
                    Diagnostic::new(n, n, message.as_str())
                },
            };
            errors.push(d);
            i += 1;
        }
        assert(errors_view(messages@).len() == messages@.len());
        return Err(errors);
    }
    assert(errors_view(messages@).len() == messages@.len());
    Ok(Parsed { source: source.to_owned(), events, limits })
}

/// Parse native Nix through rnix and lower the supported forms to the IR,
/// under the library ceilings.
pub fn import(source: &str) -> (r: Result<Expr, Vec<Diagnostic>>)
    ensures
        r matches Ok(e) ==> expr_valid(e, Limits::spec_ceilings()),
        r matches Ok(e) ==> lowers(walk_of(source@, native_syntax(source@).0), 0, e),
        r is Ok ==> well_nested(native_syntax(source@).0, encode_utf8(source@).len()),
        r is Ok ==> native_source_ok(source@, Limits::spec_ceilings()) && native_syntax(
            source@,
        ).1.len() == 0,
        !native_source_ok(source@, Limits::spec_ceilings()) ==> r is Err,
        native_syntax(source@).1.len() > 0 ==> r is Err,
        r matches Err(ds) ==> 1 <= ds@.len() <= MAX_DIAGNOSTICS,
        source.spec_bytes().len() > MAX_SOURCE_BYTES ==> (r matches Err(ds) && ds@.len() == 1
            && ds@[0].message@ == exceeded_message(
            "source byte"@,
            source.spec_bytes().len() as int,
            MAX_SOURCE_BYTES as int,
        )),
        source.spec_bytes().len() <= MAX_SOURCE_BYTES && overflowing(source@, Limits::spec_ceilings())
            ==> (r matches Err(ds) && ds@.len() == 1 && ds@[0].message@ == overflow_message(
            source@,
            Limits::spec_ceilings(),
        )),
{
    proof {
        Limits::lemma_ceilings();
    }
    import_with_limits(source, Limits::ceilings())
}

/// Parse native Nix under the given budgets and lower it.
pub fn import_with_limits(source: &str, limits: Limits) -> (r: Result<Expr, Vec<Diagnostic>>)
    ensures
        r matches Ok(e) ==> expr_valid(e, limits),
        r matches Ok(e) ==> lowers(walk_of(source@, native_syntax(source@).0), 0, e),
        r is Ok ==> well_nested(native_syntax(source@).0, encode_utf8(source@).len()),
        r is Ok ==> native_source_ok(source@, limits) && native_syntax(source@).1.len() == 0,
        r is Err && native_source_ok(source@, limits) && native_syntax(source@).1.len() > 0
            ==> r->Err_0@.len() == reported(native_syntax(source@).1.len()),
        r is Err && native_source_ok(source@, limits) && native_syntax(source@).1.len() > 0
            ==> forall|i: int|
            0 <= i < r->Err_0@.len() ==> native_error(
                source.spec_bytes().len(),
                native_syntax(source@).1[i],
                #[trigger] r->Err_0@[i],
            ),
        r matches Err(ds) ==> 1 <= ds@.len() <= MAX_DIAGNOSTICS,
        source.spec_bytes().len() > limits.spec_source_bytes() ==> (r matches Err(ds) && ds@.len()
            == 1 && ds@[0].message@ == exceeded_message(
            "source byte"@,
            source.spec_bytes().len() as int,
            limits.spec_source_bytes() as int,
        )),
        source.spec_bytes().len() <= limits.spec_source_bytes() && overflowing(source@, limits) ==> (
        r matches Err(ds) && ds@.len() == 1 && ds@[0].message@ == overflow_message(source@, limits)),
{
    let parsed = parse_with_limits(source, limits)?;
    parsed.lower()
}

} // verus!
