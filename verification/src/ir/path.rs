//! Literal and interpolated paths.
use vstd::prelude::*;

use super::{
    absolute_path_chars, absolute_path_ok, components_ok, has_prefix, is_path_char, home_path_chars, home_path_ok,
    relative_path_chars, relative_path_ok, starts_with, Expr, StringPart, is_literal,
    nonempty_unless_interpolated,
};
use crate::text::chars_of;

verus! {

/// A literal path of the kind its prefix selects.
pub open spec fn literal_path_ok(p: Seq<char>) -> bool {
    if starts_with(p, "~/"@) {
        home_path_ok(p)
    } else if starts_with(p, "/"@) {
        absolute_path_ok(p)
    } else {
        relative_path_ok(p)
    }
}

/// The spelling that checks an interpolated path: each interpolation stands
/// for one placeholder character `x`.
pub open spec fn placeholder_spelling(parts: Seq<StringPart>) -> Seq<char>
    decreases parts.len(),
{
    if parts.len() == 0 {
        Seq::empty()
    } else {
        placeholder_spelling(parts.subrange(0, parts.len() - 1)) + match parts.last() {
            StringPart::Literal(t) => t@,
            StringPart::Interpolation(_) => seq!['x'],
        }
    }
}

/// A path with at least one interpolation: a literal prefix containing a slash,
/// nonempty and nonadjacent literals, and a spelling that is a valid literal path.
pub open spec fn interpolated_path_ok(parts: Seq<StringPart>) -> bool {
    &&& parts.len() > 0
    &&& parts[0] matches StringPart::Literal(prefix) && prefix@.contains('/')
    &&& forall|i: int| 0 <= i < parts.len() ==> nonempty_unless_interpolated(#[trigger] parts[i])
    &&& forall|i: int|
        0 <= i < parts.len() - 1 ==> !(is_literal(#[trigger] parts[i]) && is_literal(parts[i + 1]))
    &&& exists|i: int| 0 <= i < parts.len() && !is_literal(#[trigger] parts[i])
    &&& literal_path_ok(placeholder_spelling(parts))
}


/// Whether the characters spell a literal path of the kind their prefix selects.
pub(crate) fn literal_path_chars(chars: &Vec<char>) -> (r: bool)
    ensures
        r == literal_path_ok(chars@),
{
    if has_prefix(chars, "~/") {
        home_path_chars(chars)
    } else if has_prefix(chars, "/") {
        absolute_path_chars(chars)
    } else {
        relative_path_chars(chars)
    }
}

fn push_all(out: &mut Vec<char>, t: &str)
    ensures
        final(out)@ == old(out)@ + t@,
{
    let c = chars_of(t);
    let mut i: usize = 0;
    while i < c.len()
        invariant
            c@ == t@,
            0 <= i <= c.len(),
            out@ == old(out)@ + c@.subrange(0, i as int),
        decreases c.len() - i,
    {
        out.push(c[i]);
        i += 1;
        assert(out@ =~= old(out)@ + c@.subrange(0, i as int));
    }
    assert(c@.subrange(0, c.len() as int) =~= c@);
}

/// Check an interpolated path's spelling without evaluating its interpolations.
pub(crate) fn validate_interpolated_path(parts: &Vec<StringPart>) -> (r: Result<(), &'static str>)
    ensures
        r is Ok <==> interpolated_path_ok(parts@),
{
    if parts.len() == 0 {
        return Err("interpolated paths must begin with a literal path prefix");
    }
    match &parts[0] {
        StringPart::Literal(prefix) => {
            let chars = chars_of(prefix.as_str());
            if !super::contains_char(&chars, '/') {
                return Err("a path requires a slash before its first interpolation");
            }
        },
        StringPart::Interpolation(_) => {
            return Err("interpolated paths must begin with a literal path prefix");
        },
    }
    // An interpolation supplies a component syntactically, even when its value
    // will be empty or invalid. Validate spelling without evaluating that value.
    let mut spelling: Vec<char> = Vec::new();
    let mut interpolated = false;
    let mut previous_literal = false;
    let mut i: usize = 0;
    while i < parts.len()
        invariant
            0 <= i <= parts.len(),
            spelling@ == placeholder_spelling(parts@.subrange(0, i as int)),
            forall|j: int| 0 <= j < i ==> nonempty_unless_interpolated(#[trigger] parts@[j]),
            forall|j: int|
                0 <= j < i - 1 ==> !(is_literal(#[trigger] parts@[j]) && is_literal(parts@[j + 1])),
            i > 0 ==> previous_literal == is_literal(parts@[i - 1]),
            i == 0 ==> !previous_literal,
            interpolated ==> exists|j: int| 0 <= j < i && !is_literal(#[trigger] parts@[j]),
            !interpolated ==> forall|j: int| 0 <= j < i ==> is_literal(#[trigger] parts@[j]),
        decreases parts.len() - i,
    {
        let ghost next = parts@.subrange(0, i + 1);
        assert(next.subrange(0, next.len() - 1) =~= parts@.subrange(0, i as int));
        assert(next.last() == parts@[i as int]);
        let ghost before = spelling@;
        match &parts[i] {
            StringPart::Literal(text) => {
                if text.as_str().is_empty() || previous_literal {
                    assert(!interpolated_path_ok(parts@)) by {
                        if text@.len() == 0 {
                            assert(!nonempty_unless_interpolated(parts@[i as int]));
                        } else {
                            assert(is_literal(parts@[i - 1]) && is_literal(parts@[i - 1 + 1]));
                        }
                    }
                    return Err("path literals must be nonempty and nonadjacent");
                }
                push_all(&mut spelling, text.as_str());
                previous_literal = true;
            },
            StringPart::Interpolation(_) => {
                spelling.push('x');
                assert(spelling@ =~= before + seq!['x']);
                assert(!is_literal(parts@[i as int]));
                interpolated = true;
                previous_literal = false;
            },
        }
        assert(spelling@ == placeholder_spelling(next));
        i += 1;
    }
    assert(parts@.subrange(0, parts.len() as int) =~= parts@);
    if !interpolated {

        return Err("interpolated paths require an interpolation");
    }
    if !literal_path_chars(&spelling) {
        return Err("expected a path with nonempty components around its interpolations");
    }
    Ok(())
}

/// Lower the fragments of a path literal: a single literal is a plain path of
/// the kind its prefix selects; anything else is an interpolated path.
pub(crate) fn lower_path(mut parts: Vec<StringPart>) -> (r: Result<Expr, &'static str>)
    ensures
        parts@.len() == 1 && parts@[0] is Literal ==> {
            let t = parts@[0]->Literal_0;
            &&& (r is Ok <==> literal_path_ok(t@))
            &&& r matches Ok(e) ==> (if starts_with(t@, "~/"@) {
                e == Expr::HomePath(t)
            } else if starts_with(t@, "/"@) {
                e == Expr::AbsolutePath(t)
            } else {
                e == Expr::RelativePath(t)
            })
        },
        !(parts@.len() == 1 && parts@[0] is Literal) ==> {
            &&& (r is Ok <==> interpolated_path_ok(parts@))
            &&& r matches Ok(e) ==> e matches Expr::InterpolatedPath(p) && p@ == parts@
        },
{
    if parts.len() == 1 {
        let is_literal = match &parts[0] {
            StringPart::Literal(_) => true,
            StringPart::Interpolation(_) => false,
        };
        if is_literal {
            let part = parts.pop().unwrap();
            match part {
                StringPart::Literal(text) => {
                    let chars = chars_of(text.as_str());
                    if !literal_path_chars(&chars) {
                        return Err("expected a literal path with nonempty components");
                    }
                    if has_prefix(&chars, "~/") {
                        return Ok(Expr::HomePath(text));
                    } else if has_prefix(&chars, "/") {
                        return Ok(Expr::AbsolutePath(text));
                    } else {
                        return Ok(Expr::RelativePath(text));
                    }
                },
                StringPart::Interpolation(_) => {
                    return Err("interpolated paths require a literal path prefix");
                },
            }
        }
    }
    validate_interpolated_path(&parts)?;
    Ok(Expr::InterpolatedPath(parts))
}


/// Components stay valid when path characters without a slash follow them.
proof fn lemma_components_extend(x: Seq<char>, t: Seq<char>)
    requires
        components_ok(x),
        forall|i: int| 0 <= i < t.len() ==> is_path_char(#[trigger] t[i]),
    ensures
        components_ok(x + t),
{
    let r = x + t;
    let h = x.len() as int;
    assert(x[h - 1] != '/');
    assert forall|i: int| 0 <= i < r.len() implies (if #[trigger] r[i] == '/' {
        0 < i < r.len() - 1 && r[i - 1] != '/'
    } else {
        is_path_char(r[i])
    }) by {
        if i < h {
            assert(r[i] == x[i]);
            if i > 0 {
                assert(r[i - 1] == x[i - 1]);
            }
        } else {
            assert(r[i] == t[i - h]);
        }
    }
}

/// A literal after an interpolation need not start a new component: adding
/// path characters after a final interpolation (`./${x}` to `./${x}.nix`)
/// keeps an interpolated path valid.
pub proof fn lemma_suffix_after_interpolation(parts: Seq<StringPart>, t: String)
    requires
        interpolated_path_ok(parts),
        parts.last() is Interpolation,
        t@.len() > 0,
        forall|i: int| 0 <= i < t@.len() ==> is_path_char(#[trigger] t@[i]),
    ensures
        interpolated_path_ok(parts.push(StringPart::Literal(t))),
{
    let q = parts.push(StringPart::Literal(t));
    let s = placeholder_spelling(parts);
    assert(q.subrange(0, q.len() - 1) =~= parts);
    assert(placeholder_spelling(q) == s + t@);
    assert(parts.subrange(0, parts.len() - 1) =~= parts.drop_last());
    assert(s.last() == 'x');
    let r = s + t@;
    assert(r[0] == s[0]);
    reveal_strlit("~/");
    reveal_strlit("/");
    reveal_strlit("...");
    assert forall|i: int| 0 <= i < q.len() implies nonempty_unless_interpolated(#[trigger] q[i]) by {
        if i < parts.len() {
            assert(q[i] == parts[i]);
        }
    }
    assert forall|i: int| 0 <= i < q.len() - 1 implies !(is_literal(#[trigger] q[i]) && is_literal(
        q[i + 1],
    )) by {
        assert(q[i] == parts[i]);
        if i + 1 < parts.len() {
            assert(q[i + 1] == parts[i + 1]);
        }
    }
    let w = choose|i: int| 0 <= i < parts.len() && !is_literal(#[trigger] parts[i]);
    assert(q[w] == parts[w]);
    assert(q[0] == parts[0]);
    if starts_with(s, "~/"@) {
        assert(r.subrange(0, 2) =~= s.subrange(0, 2));
        assert(r.subrange(2, r.len() as int) =~= s.subrange(2, s.len() as int) + t@);
        lemma_components_extend(s.subrange(2, s.len() as int), t@);
    } else if starts_with(s, "/"@) {
        assert(r.subrange(0, 1) =~= s.subrange(0, 1));
        assert(s[0] == s.subrange(0, 1)[0]);
        if r.len() >= 2 {
            assert(r.subrange(0, 2)[0] == r[0]);
        }
        assert(!starts_with(r, "~/"@));
        assert(r.subrange(1, r.len() as int) =~= s.subrange(1, s.len() as int) + t@);
        lemma_components_extend(s.subrange(1, s.len() as int), t@);
    } else {
        let j = choose|j: int| 0 <= j < s.len() && s[j] == '/';
        assert(s.len() >= 2);
        assert(r.subrange(0, 2) =~= s.subrange(0, 2));
        assert(r.subrange(0, 1) =~= s.subrange(0, 1));
        assert(!starts_with(r, "/"@));
        if s.len() >= 3 {
            assert(r.subrange(0, 3) =~= s.subrange(0, 3));
        } else {
            assert(r[1] == 'x');
        }
        assert(r[j] == '/');
        lemma_components_extend(s, t@);
    }
}

} // verus!
