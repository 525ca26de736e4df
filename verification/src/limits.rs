//! Per-operation byte and token/node budgets.
use vstd::prelude::*;

use crate::text::{decimal, spec_decimal};
use crate::{Diagnostic, MAX_SOURCE_BYTES, MAX_TOKENS};
use vstd::string::StringExecFns;

verus! {

/// Per-operation byte and token/node budgets. Nesting remains bounded by
/// `MAX_DEPTH`; callers may reduce these budgets below the library ceilings.
#[derive(Debug, Clone, Copy, PartialEq, Eq)]
pub struct Limits {
    pub(crate) source_bytes: usize,
    pub(crate) tokens: usize,
}

impl Limits {
    #[verifier::type_invariant]
    spec fn within_ceilings(self) -> bool {
        self.source_bytes <= MAX_SOURCE_BYTES && self.tokens <= MAX_TOKENS
    }

    pub closed spec fn spec_source_bytes(self) -> usize {
        self.source_bytes
    }

    pub closed spec fn spec_tokens(self) -> usize {
        self.tokens
    }

    /// The library ceilings, as a value.
    pub closed spec fn spec_ceilings() -> Limits {
        Limits { source_bytes: MAX_SOURCE_BYTES, tokens: MAX_TOKENS }
    }

    /// The ceilings' budgets are the library constants.
    pub proof fn lemma_ceilings()
        ensures
            Limits::spec_ceilings().spec_source_bytes() == MAX_SOURCE_BYTES,
            Limits::spec_ceilings().spec_tokens() == MAX_TOKENS,
    {
    }

    /// The library ceilings.
    pub fn ceilings() -> (l: Limits)
        ensures
            l == Limits::spec_ceilings(),
            l.spec_source_bytes() == MAX_SOURCE_BYTES,
            l.spec_tokens() == MAX_TOKENS,
    {
        Limits { source_bytes: MAX_SOURCE_BYTES, tokens: MAX_TOKENS }
    }

    /// Return a budget within the supported ceilings. Zero is permitted.
    pub fn new(source_bytes: usize, tokens: usize) -> (r: Option<Limits>)
        ensures
            r is Some <==> (source_bytes <= MAX_SOURCE_BYTES && tokens <= MAX_TOKENS),
            r matches Some(l) ==> l.spec_source_bytes() == source_bytes && l.spec_tokens()
                == tokens,
            source_bytes == MAX_SOURCE_BYTES && tokens == MAX_TOKENS ==> r == Some(
                Limits::spec_ceilings(),
            ),
    {
        if source_bytes > MAX_SOURCE_BYTES || tokens > MAX_TOKENS {
            None
        } else {
            Some(Limits { source_bytes, tokens })
        }
    }

    pub fn source_bytes(self) -> (r: usize)
        ensures
            r == self.spec_source_bytes(),
            r <= MAX_SOURCE_BYTES,
    {
        proof {
            use_type_invariant(&self);
        }
        self.source_bytes
    }

    pub fn tokens(self) -> (r: usize)
        ensures
            r == self.spec_tokens(),
            r <= MAX_TOKENS,
    {
        proof {
            use_type_invariant(&self);
        }
        self.tokens
    }

    /// Check bytes already observed by a reader. For a capped read, `observed`
    /// may be only a lower bound on the complete file size.
    pub fn check_source_bytes(self, observed: usize) -> (r: Result<(), Diagnostic>)
        ensures
            r is Ok <==> observed <= self.spec_source_bytes(),
            r matches Err(d) ==> d.span.start == 0 && d.span.end == observed && d.message@
                == exceeded_message("source byte"@, observed as int, self.spec_source_bytes() as int),
    {
        match check("source byte", observed, self.source_bytes) {
            Ok(()) => Ok(()),
            Err(mut error) => {
                error.span = core::ops::Range { start: 0, end: observed };
                Err(error)
            },
        }
    }
}

impl Default for Limits {
    fn default() -> (l: Limits)
        ensures
            l == Limits::spec_ceilings(),
            l.spec_source_bytes() == MAX_SOURCE_BYTES,
            l.spec_tokens() == MAX_TOKENS,
    {
        Limits::ceilings()
    }
}

/// The message of a resource-limit diagnostic.
pub open spec fn exceeded_message(kind: Seq<char>, observed: int, limit: int) -> Seq<char> {
    kind + " limit exceeded: observed "@ + spec_decimal(observed as nat) + ", limit "@
        + spec_decimal(limit as nat)
}

/// The number of diagnostics reported before parsing stops.
pub const MAX_DIAGNOSTICS: usize = 100;

/// A limit diagnostic without a location.
pub(crate) fn exceeded(kind: &str, observed: usize, limit: usize) -> (d: Diagnostic)
    ensures
        d.span.start == 0,
        d.span.end == 0,
        d.message@ == exceeded_message(kind@, observed as int, limit as int),
{
    let mut message = kind.to_owned();
    message.append(" limit exceeded: observed ");
    let o = decimal(observed as u64);
    message.append(o.as_str());
    message.append(", limit ");
    let l = decimal(limit as u64);
    message.append(l.as_str());
    Diagnostic { span: core::ops::Range { start: 0, end: 0 }, message }
}

/// Fail when `observed` exceeds `limit`.
pub(crate) fn check(kind: &str, observed: usize, limit: usize) -> (r: Result<(), Diagnostic>)
    ensures
        r is Ok <==> observed <= limit,
        r matches Err(d) ==> d.message@ == exceeded_message(kind@, observed as int, limit as int)
            && d.span.start == 0 && d.span.end == 0,
{
    if observed > limit {
        Err(exceeded(kind, observed, limit))
    } else {
        Ok(())
    }
}

/// Add `additional` to a running count, saturating, then check it.
pub(crate) fn consume(kind: &str, count: &mut usize, additional: usize, limit: usize) -> (r: Result<
    (),
    Diagnostic,
>)
    ensures
        *final(count) == if *old(count) + additional > usize::MAX {
            usize::MAX as int
        } else {
            *old(count) + additional
        },
        r is Ok <==> *final(count) <= limit,
        r matches Err(d) ==> d.message@ == exceeded_message(
            kind@,
            *final(count) as int,
            limit as int,
        ),
{
    *count = count.saturating_add(additional);
    check(kind, *count, limit)
}

} // verus!
