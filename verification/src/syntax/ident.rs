//! Compatibility spellings for native names that are nxc keywords. Only
//! variable and parameter names pass through this mapping; attribute keys are
//! literal names and never do.
use vstd::prelude::*;

use crate::ir::starts_with;
use crate::text::text_eq;

verus! {

/// The nxc spelling of a native variable or parameter name.
pub open spec fn spec_encode(n: Seq<char>) -> Seq<char> {
    if n == "fn"@ {
        "__nxc_ident_fn"@
    } else if n == "yield"@ {
        "__nxc_ident_yield"@
    } else {
        n
    }
}

/// The native name that an nxc compatibility spelling stands for.
pub open spec fn spec_decode(n: Seq<char>) -> Seq<char> {
    if n == "__nxc_ident_fn"@ {
        "fn"@
    } else if n == "__nxc_ident_yield"@ {
        "yield"@
    } else {
        n
    }
}

/// Spell a native variable or parameter name in nxc.
pub(crate) fn encode(name: &str) -> (r: &str)
    ensures
        r@ == spec_encode(name@),
{
    if text_eq(name, "fn") {
        "__nxc_ident_fn"
    } else if text_eq(name, "yield") {
        "__nxc_ident_yield"
    } else {
        name
    }
}

/// Recover the native name behind an nxc spelling.
pub(crate) fn decode(name: &str) -> (r: &str)
    ensures
        r@ == spec_decode(name@),
{
    if text_eq(name, "__nxc_ident_fn") {
        "fn"
    } else if text_eq(name, "__nxc_ident_yield") {
        "yield"
    } else {
        name
    }
}

/// Decoding undoes encoding for every name outside the private `__nxc_`
/// namespace.
pub proof fn lemma_decode_encode(n: Seq<char>)
    requires
        !starts_with(n, "__nxc_"@),
    ensures
        spec_decode(spec_encode(n)) == n,
{
    reveal_strlit("fn");
    reveal_strlit("yield");
    reveal_strlit("__nxc_ident_fn");
    reveal_strlit("__nxc_ident_yield");
    reveal_strlit("__nxc_");
    assert("fn"@.len() == 2);
    assert("yield"@.len() == 5);
    assert("__nxc_ident_fn"@.len() == 14);
    assert("__nxc_ident_yield"@.len() == 17);
    if n == "__nxc_ident_fn"@ {
        assert(n.subrange(0, 6) =~= "__nxc_"@);
    }
    if n == "__nxc_ident_yield"@ {
        assert(n.subrange(0, 6) =~= "__nxc_"@);
    }
}

/// Encoding undoes decoding for every name that is not itself a native
/// keyword spelling.
pub proof fn lemma_encode_decode(n: Seq<char>)
    requires
        n != "fn"@,
        n != "yield"@,
    ensures
        spec_encode(spec_decode(n)) == n,
{
    reveal_strlit("fn");
    reveal_strlit("yield");
    reveal_strlit("__nxc_ident_fn");
    reveal_strlit("__nxc_ident_yield");
    assert("fn"@.len() == 2);
    assert("yield"@.len() == 5);
    assert("__nxc_ident_fn"@.len() == 14);
    assert("__nxc_ident_yield"@.len() == 17);
}

} // verus!
