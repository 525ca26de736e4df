//! Validation of caller-supplied and lowered expressions against the name
//! rules, literal rules and resource budgets.
use vstd::prelude::*;

use super::path::{interpolated_path_ok, validate_interpolated_path};
use super::{
    absolute_path_ok, contains_char, home_path_ok, is_literal, nonempty_unless_interpolated,
    parameter_name_ok, parts_normalized, relative_path_ok, scoped_name_ok, search_path_ok,
    spec_literal_name, validate_absolute_path, validate_home_path, validate_name,
    validate_bindable_name, validate_parameter_name, validate_relative_path, validate_scoped_name,
    validate_search_path, bindable_name_ok,
    variable_name_ok, AttrName, Binding, Expr, Formal, Pattern, StringPart,
};
use crate::limits::{check, consume, exceeded_message};
use crate::text::{chars_of, text_eq};
use crate::{Diagnostic, Limits, MAX_DEPTH};

verus! {

/// The number of UTF-8 bytes of a text, as `str::len` reports it.
pub open spec fn byte_len(s: Seq<char>) -> nat {
    (vstd::utf8::encode_utf8(s).len() as usize) as nat
}

// ---------------------------------------------------------------------------
// Semantic node counts: one per expression, plus one per string part,
// binding, attribute-path element, inherited name and pattern field.
// Sequences are summed from index `i` onward.

pub open spec fn node_count(e: Expr) -> nat
    decreases e, 0int,
{
    match e {
        Expr::InterpolatedPath(parts) => 1 + parts@.len() + parts_count(parts@, 0),
        Expr::String(parts) => 1 + parts@.len() + parts_count(parts@, 0),
        Expr::List(items) => 1 + items_count(items@, 0),
        Expr::AttrSet { bindings, .. } => 1 + bindings@.len() + bindings_count(bindings@, 0),
        Expr::Let { bindings, body } => 1 + bindings@.len() + bindings_count(bindings@, 0)
            + node_count(*body),
        Expr::With { scope, body } => 1 + node_count(*scope) + node_count(*body),
        Expr::Assert { condition, body } => 1 + node_count(*condition) + node_count(*body),
        Expr::If { condition, then_branch, else_branch } => 1 + node_count(*condition)
            + node_count(*then_branch) + node_count(*else_branch),
        Expr::Select { value, path, default } => 1 + path@.len() + keys_count(path@, 0)
            + node_count(*value) + match default {
            Some(d) => node_count(*d),
            None => 0,
        },
        Expr::HasAttr { value, path } => 1 + path@.len() + keys_count(path@, 0) + node_count(
            *value,
        ),
        Expr::Lambda { parameter, body } => 1 + pattern_count(parameter) + node_count(*body),
        Expr::Apply { function, argument } => 1 + node_count(*function) + node_count(*argument),
        Expr::Negate(v) => 1 + node_count(*v),
        Expr::Not(v) => 1 + node_count(*v),
        Expr::Binary { left, right, .. } => 1 + node_count(*left) + node_count(*right),
        _ => 1,
    }
}

pub open spec fn parts_count(s: Seq<StringPart>, i: int) -> nat
    decreases s, s.len() - i,
{
    if i < 0 || i >= s.len() {
        0
    } else {
        (match s[i] {
            StringPart::Literal(_) => 0,
            StringPart::Interpolation(e) => node_count(e),
        }) + parts_count(s, i + 1)
    }
}

pub open spec fn items_count(s: Seq<Expr>, i: int) -> nat
    decreases s, s.len() - i,
{
    if i < 0 || i >= s.len() {
        0
    } else {
        node_count(s[i]) + items_count(s, i + 1)
    }
}

pub open spec fn keys_count(s: Seq<AttrName>, i: int) -> nat
    decreases s, s.len() - i,
{
    if i < 0 || i >= s.len() {
        0
    } else {
        (match s[i] {
            AttrName::Static(_) => 0,
            AttrName::Dynamic(k) => node_count(*k),
        }) + keys_count(s, i + 1)
    }
}

pub open spec fn binding_count(b: Binding) -> nat
    decreases b, 0int,
{
    match b {
        Binding::Assign { path, value } => path@.len() + keys_count(path@, 0) + node_count(value),
        Binding::Inherit { source, names } => names@.len() + match source {
            Some(v) => node_count(v),
            None => 0,
        },
    }
}

pub open spec fn bindings_count(s: Seq<Binding>, i: int) -> nat
    decreases s, s.len() - i,
{
    if i < 0 || i >= s.len() {
        0
    } else {
        binding_count(s[i]) + bindings_count(s, i + 1)
    }
}

pub open spec fn formals_count(s: Seq<Formal>, i: int) -> nat
    decreases s, s.len() - i,
{
    if i < 0 || i >= s.len() {
        0
    } else {
        (match s[i].default {
            Some(d) => node_count(d),
            None => 0,
        }) + formals_count(s, i + 1)
    }
}

pub open spec fn pattern_count(p: Pattern) -> nat
    decreases p, 0int,
{
    match p {
        Pattern::Ident(_) => 0,
        Pattern::AttrSet { fields, .. } => fields@.len() + formals_count(fields@, 0),
    }
}

// ---------------------------------------------------------------------------
// Literal bytes: path spellings, string literal text, static attribute names
// and inherited names.

pub open spec fn node_bytes(e: Expr) -> nat
    decreases e, 0int,
{
    match e {
        Expr::RelativePath(p) => byte_len(p@),
        Expr::AbsolutePath(p) => byte_len(p@),
        Expr::HomePath(p) => byte_len(p@),
        Expr::SearchPath(p) => byte_len(p@),
        Expr::InterpolatedPath(parts) => parts_bytes(parts@, 0),
        Expr::String(parts) => parts_bytes(parts@, 0),
        Expr::List(items) => items_bytes(items@, 0),
        Expr::AttrSet { bindings, .. } => bindings_bytes(bindings@, 0),
        Expr::Let { bindings, body } => bindings_bytes(bindings@, 0) + node_bytes(*body),
        Expr::With { scope, body } => node_bytes(*scope) + node_bytes(*body),
        Expr::Assert { condition, body } => node_bytes(*condition) + node_bytes(*body),
        Expr::If { condition, then_branch, else_branch } => node_bytes(*condition) + node_bytes(
            *then_branch,
        ) + node_bytes(*else_branch),
        Expr::Select { value, path, default } => keys_bytes(path@, 0) + node_bytes(*value)
            + match default {
            Some(d) => node_bytes(*d),
            None => 0,
        },
        Expr::HasAttr { value, path } => keys_bytes(path@, 0) + node_bytes(*value),
        Expr::Lambda { parameter, body } => pattern_bytes(parameter) + node_bytes(*body),
        Expr::Apply { function, argument } => node_bytes(*function) + node_bytes(*argument),
        Expr::Negate(v) => node_bytes(*v),
        Expr::Not(v) => node_bytes(*v),
        Expr::Binary { left, right, .. } => node_bytes(*left) + node_bytes(*right),
        _ => 0,
    }
}

pub open spec fn parts_bytes(s: Seq<StringPart>, i: int) -> nat
    decreases s, s.len() - i,
{
    if i < 0 || i >= s.len() {
        0
    } else {
        (match s[i] {
            StringPart::Literal(t) => byte_len(t@),
            StringPart::Interpolation(e) => node_bytes(e),
        }) + parts_bytes(s, i + 1)
    }
}

pub open spec fn items_bytes(s: Seq<Expr>, i: int) -> nat
    decreases s, s.len() - i,
{
    if i < 0 || i >= s.len() {
        0
    } else {
        node_bytes(s[i]) + items_bytes(s, i + 1)
    }
}

pub open spec fn keys_bytes(s: Seq<AttrName>, i: int) -> nat
    decreases s, s.len() - i,
{
    if i < 0 || i >= s.len() {
        0
    } else {
        (match s[i] {
            AttrName::Static(n) => byte_len(n@),
            AttrName::Dynamic(k) => node_bytes(*k),
        }) + keys_bytes(s, i + 1)
    }
}

pub open spec fn names_bytes(s: Seq<String>, i: int) -> nat
    decreases s.len() - i,
{
    if i < 0 || i >= s.len() {
        0
    } else {
        byte_len(s[i]@) + names_bytes(s, i + 1)
    }
}

pub open spec fn binding_bytes(b: Binding) -> nat
    decreases b, 0int,
{
    match b {
        Binding::Assign { path, value } => keys_bytes(path@, 0) + node_bytes(value),
        Binding::Inherit { source, names } => names_bytes(names@, 0) + match source {
            Some(v) => node_bytes(v),
            None => 0,
        },
    }
}

pub open spec fn bindings_bytes(s: Seq<Binding>, i: int) -> nat
    decreases s, s.len() - i,
{
    if i < 0 || i >= s.len() {
        0
    } else {
        binding_bytes(s[i]) + bindings_bytes(s, i + 1)
    }
}

pub open spec fn formals_bytes(s: Seq<Formal>, i: int) -> nat
    decreases s, s.len() - i,
{
    if i < 0 || i >= s.len() {
        0
    } else {
        (match s[i].default {
            Some(d) => node_bytes(d),
            None => 0,
        }) + formals_bytes(s, i + 1)
    }
}

pub open spec fn pattern_bytes(p: Pattern) -> nat
    decreases p, 0int,
{
    match p {
        Pattern::Ident(_) => 0,
        Pattern::AttrSet { fields, .. } => formals_bytes(fields@, 0),
    }
}

// ---------------------------------------------------------------------------
// Structural validity. `d` is the semantic depth of the node: the root is at
// depth 1 and every child is one level deeper, except that a binding's value
// sits below every element of its attribute path and a binding key at index
// `i` sits `i + 1` levels below its set.

pub open spec fn no_nul(t: Seq<char>) -> bool {
    !t.contains('\0')
}

/// Literal string parts hold nonempty, nonadjacent, NUL-free text.
pub open spec fn literal_parts_ok(parts: Seq<StringPart>) -> bool {
    &&& parts_normalized(parts)
    &&& forall|i: int| 0 <= i < parts.len() ==> part_text_ok(#[trigger] parts[i])
}

pub open spec fn part_text_ok(p: StringPart) -> bool {
    p matches StringPart::Literal(t) ==> no_nul(t@)
}

pub open spec fn valid_at(e: Expr, d: int) -> bool
    decreases e, 0int,
{
    &&& d <= MAX_DEPTH
    &&& match e {
        Expr::Integer(v) => v <= 0x7fff_ffff_ffff_ffff,
        Expr::Float(_) => false,
        Expr::Variable(n) => variable_name_ok(n@),
        Expr::CurrentPosition => true,
        Expr::RelativePath(p) => relative_path_ok(p@),
        Expr::AbsolutePath(p) => absolute_path_ok(p@),
        Expr::HomePath(p) => home_path_ok(p@),
        Expr::SearchPath(p) => search_path_ok(p@),
        Expr::InterpolatedPath(parts) => literal_parts_ok(parts@) && parts_valid(parts@, 0, d)
            && interpolated_path_ok(parts@),
        Expr::String(parts) => literal_parts_ok(parts@) && parts_valid(parts@, 0, d),
        Expr::List(items) => items_valid(items@, 0, d),
        Expr::AttrSet { recursive, bindings } => bindings_valid(bindings@, 0, d, false, recursive)
            && shapes_ok(bindings@),
        Expr::Let { bindings, body } => bindings_valid(bindings@, 0, d, true, false) && shapes_ok(
            bindings@,
        ) && valid_at(*body, d + 1),
        Expr::With { scope, body } => valid_at(*scope, d + 1) && valid_at(*body, d + 1),
        Expr::Assert { condition, body } => valid_at(*condition, d + 1) && valid_at(*body, d + 1),
        Expr::If { condition, then_branch, else_branch } => valid_at(*condition, d + 1)
            && valid_at(*then_branch, d + 1) && valid_at(*else_branch, d + 1),
        Expr::Select { value, path, default } => 1 <= path@.len() <= MAX_DEPTH && keys_valid(
            path@,
            0,
            d,
        ) && valid_at(*value, d + 1) && match default {
            Some(v) => valid_at(*v, d + 1),
            None => true,
        },
        Expr::HasAttr { value, path } => 1 <= path@.len() <= MAX_DEPTH && keys_valid(path@, 0, d)
            && valid_at(*value, d + 1),
        Expr::Lambda { parameter, body } => pattern_valid(parameter, d) && valid_at(*body, d + 1),
        Expr::Apply { function, argument } => valid_at(*function, d + 1) && valid_at(
            *argument,
            d + 1,
        ),
        Expr::Negate(v) => valid_at(*v, d + 1),
        Expr::Not(v) => valid_at(*v, d + 1),
        Expr::Binary { left, right, .. } => valid_at(*left, d + 1) && valid_at(*right, d + 1),
    }
}

/// Interpolations of a string or path, one level below it.
pub open spec fn parts_valid(s: Seq<StringPart>, i: int, d: int) -> bool
    decreases s, s.len() - i,
{
    i < 0 || i >= s.len() || (match s[i] {
        StringPart::Literal(_) => true,
        StringPart::Interpolation(e) => valid_at(e, d + 1),
    } && parts_valid(s, i + 1, d))
}

pub open spec fn items_valid(s: Seq<Expr>, i: int, d: int) -> bool
    decreases s, s.len() - i,
{
    i < 0 || i >= s.len() || (valid_at(s[i], d + 1) && items_valid(s, i + 1, d))
}

/// Selection keys: static names without NUL, dynamic keys one level down.
pub open spec fn keys_valid(s: Seq<AttrName>, i: int, d: int) -> bool
    decreases s, s.len() - i,
{
    i < 0 || i >= s.len() || (match s[i] {
        AttrName::Static(n) => no_nul(n@),
        AttrName::Dynamic(k) => valid_at(*k, d + 1),
    } && keys_valid(s, i + 1, d))
}

/// Binding keys: the key at index `i` sits `i + 1` levels down.
pub open spec fn binding_keys_valid(s: Seq<AttrName>, i: int, d: int) -> bool
    decreases s, s.len() - i,
{
    i < 0 || i >= s.len() || (match s[i] {
        AttrName::Static(n) => no_nul(n@),
        AttrName::Dynamic(k) => valid_at(*k, d + i + 1),
    } && binding_keys_valid(s, i + 1, d))
}

/// The keys of a selection path, or of a binding path when `binding` holds.
pub open spec fn keys_ok(path: Seq<AttrName>, binding: bool, i: int, d: int) -> bool {
    if binding {
        binding_keys_valid(path, i, d)
    } else {
        keys_valid(path, i, d)
    }
}

/// Inherited names hold no NUL; names that are looked up lexically are scoped
/// names, and names bound in a `let` or a recursive set are bindable names.
pub open spec fn inherit_names_ok(names: Seq<String>, lexical: bool, bound: bool) -> bool {
    forall|i: int| 0 <= i < names.len() ==> inherit_name_ok(#[trigger] names[i], lexical, bound)
}

pub open spec fn inherit_name_ok(name: String, lexical: bool, bound: bool) -> bool {
    no_nul(name@) && (lexical ==> scoped_name_ok(name@)) && (bound ==> bindable_name_ok(name@))
}

pub open spec fn binding_valid(b: Binding, d: int, local: bool, recursive: bool) -> bool
    decreases b, 0int,
{
    match b {
        Binding::Assign { path, value } => {
            &&& 1 <= path@.len() <= MAX_DEPTH
            &&& local ==> (spec_literal_name(path@[0]) matches Some(n) && bindable_name_ok(n))
            &&& binding_keys_valid(path@, 0, d)
            &&& valid_at(value, d + path@.len())
        },
        Binding::Inherit { source, names } => {
            &&& inherit_names_ok(
                names@,
                source is None || local,
                local || (recursive && source is None),
            )
            &&& match source {
                Some(v) => valid_at(v, d + 1),
                None => true,
            }
        },
    }
}

pub open spec fn bindings_valid(s: Seq<Binding>, i: int, d: int, local: bool, recursive: bool) -> bool
    decreases s, s.len() - i,
{
    i < 0 || i >= s.len() || (binding_valid(s[i], d, local, recursive) && bindings_valid(
        s,
        i + 1,
        d,
        local,
        recursive,
    ))
}

pub open spec fn formals_valid(s: Seq<Formal>, i: int, d: int) -> bool
    decreases s, s.len() - i,
{
    i < 0 || i >= s.len() || (parameter_name_ok(s[i].name@) && match s[i].default {
        Some(v) => valid_at(v, d + 1),
        None => true,
    } && formals_valid(s, i + 1, d))
}

/// No name is bound twice by one pattern.
pub open spec fn pattern_names_distinct(fields: Seq<Formal>, bind: Option<String>) -> bool {
    &&& forall|i: int, j: int|
        0 <= i < j < fields.len() ==> #[trigger] fields[i].name@ != #[trigger] fields[j].name@
    &&& bind matches Some(b) ==> forall|i: int|
        0 <= i < fields.len() ==> #[trigger] fields[i].name@ != b@
}

pub open spec fn pattern_valid(p: Pattern, d: int) -> bool
    decreases p, 0int,
{
    match p {
        Pattern::Ident(n) => parameter_name_ok(n@),
        Pattern::AttrSet { fields, bind, .. } => {
            &&& bind matches Some(b) ==> parameter_name_ok(b@)
            &&& formals_valid(fields@, 0, d)
            &&& pattern_names_distinct(fields@, bind)
        },
    }
}

// ---------------------------------------------------------------------------
// Binding shapes. Each binding declares a sequence of statically known paths,
// each either a set (mergeable with other literal sets) or a leaf.

/// The number of consecutive keys from index `i` with a statically known name.
pub open spec fn literal_run(path: Seq<AttrName>, i: int) -> nat
    decreases path.len() - i,
{
    if i < 0 || i >= path.len() || spec_literal_name(path[i]) is None {
        0
    } else {
        1 + literal_run(path, i + 1)
    }
}

/// The number of leading keys with a statically known name.
pub open spec fn literal_prefix_len(path: Seq<AttrName>) -> nat {
    literal_run(path, 0)
}

/// The statically known names of the leading keys.
pub open spec fn literal_prefix(path: Seq<AttrName>) -> Seq<Seq<char>> {
    Seq::new(literal_prefix_len(path), |i: int| spec_literal_name(path[i])->0)
}

/// A declared path and whether it declares a set.
pub type ShapeEvent = (Seq<Seq<char>>, bool);

pub open spec fn assign_events(
    prefix: Seq<Seq<char>>,
    path: Seq<AttrName>,
    value_is_set: bool,
) -> Seq<ShapeEvent> {
    let names = literal_prefix(path);
    Seq::new(
        names.len(),
        |i: int| (prefix + names.subrange(0, i + 1), i + 1 < path.len() || value_is_set),
    )
}

pub open spec fn binding_events(b: Binding, prefix: Seq<Seq<char>>) -> Seq<ShapeEvent>
    decreases b, 0int,
{
    match b {
        Binding::Assign { path, value } => {
            let own = assign_events(prefix, path@, value is AttrSet);
            if literal_prefix_len(path@) == path@.len() {
                match value {
                    Expr::AttrSet { bindings, .. } => own + bindings_events(
                        bindings@,
                        0,
                        prefix + literal_prefix(path@),
                    ),
                    _ => own,
                }
            } else {
                own
            }
        },
        Binding::Inherit { names, .. } => Seq::new(
            names@.len(),
            |i: int| (prefix.push(names@[i]@), false),
        ),
    }
}

pub open spec fn bindings_events(s: Seq<Binding>, i: int, prefix: Seq<Seq<char>>) -> Seq<
    ShapeEvent,
>
    decreases s, s.len() - i,
{
    if i < 0 || i >= s.len() {
        Seq::empty()
    } else {
        binding_events(s[i], prefix) + bindings_events(s, i + 1, prefix)
    }
}

/// A path declared twice must be a set both times.
pub open spec fn no_conflicts(ev: Seq<ShapeEvent>) -> bool {
    forall|i: int, j: int|
        0 <= i < j < ev.len() && (#[trigger] ev[i]).0 == (#[trigger] ev[j]).0 ==> ev[i].1 && ev[j].1
}

pub open spec fn shapes_ok(s: Seq<Binding>) -> bool {
    no_conflicts(bindings_events(s, 0, Seq::empty()))
}

/// An expression that both emitters accept and both frontends produce, under
/// the given budgets.
pub open spec fn expr_valid(e: Expr, limits: Limits) -> bool {
    &&& valid_at(e, 1)
    &&& node_count(e) <= limits.spec_tokens()
    &&& node_bytes(e) <= limits.spec_source_bytes()
}

// ---------------------------------------------------------------------------
// Checking.

/// The outcome of a check that adds `cadd` nodes and `badd` literal bytes to
/// running counts: success means the property holds and both counts grew by
/// exactly that much within budget; failure means the property fails or a
/// budget would be exceeded.
pub open spec fn accounted(
    ok: bool,
    property: bool,
    c0: int,
    c1: int,
    cadd: int,
    b0: int,
    b1: int,
    badd: int,
    limits: Limits,
) -> bool {
    if ok {
        &&& property
        &&& c1 == c0 + cadd
        &&& b1 == b0 + badd
        &&& c1 <= limits.spec_tokens()
        &&& b1 <= limits.spec_source_bytes()
    } else {
        !property || c0 + cadd > limits.spec_tokens() || b0 + badd > limits.spec_source_bytes()
    }
}

/// A depth-limit failure, observed above the limit and at most `hi`.
pub open spec fn depth_reported(r: Result<(), Diagnostic>, hi: int) -> bool {
    r matches Err(d) && exists|x: int|
        MAX_DEPTH < x <= hi && #[trigger] exceeded_message(
            "semantic depth"@,
            x,
            MAX_DEPTH as int,
        ) == d.message@
}

/// A node-budget failure, observed above the budget and at most `hi`.
pub open spec fn nodes_reported(r: Result<(), Diagnostic>, hi: int, limits: Limits) -> bool {
    r matches Err(d) && exists|x: int|
        limits.spec_tokens() < x <= hi && #[trigger] exceeded_message(
            "semantic node"@,
            x,
            limits.spec_tokens() as int,
        ) == d.message@
}

/// A literal-byte budget failure, observed above the budget and at most `hi`.
pub open spec fn bytes_reported(r: Result<(), Diagnostic>, hi: int, limits: Limits) -> bool {
    r matches Err(d) && exists|x: int|
        limits.spec_source_bytes() < x <= hi && #[trigger] exceeded_message(
            "semantic literal byte"@,
            x,
            limits.spec_source_bytes() as int,
        ) == d.message@
}

/// Both running counts stay within budget after adding `cadd` nodes and
/// `badd` literal bytes.
pub open spec fn fits(c0: int, cadd: int, b0: int, badd: int, limits: Limits) -> bool {
    c0 + cadd <= limits.spec_tokens() && b0 + badd <= limits.spec_source_bytes()
}

/// Only the depth bound can fail: the checks pass when the root sits higher
/// (`relaxed`), not where it sits (`strict`), and both budgets suffice.
pub open spec fn only_depth_fails(
    relaxed: bool,
    strict: bool,
    c0: int,
    cadd: int,
    b0: int,
    badd: int,
    limits: Limits,
) -> bool {
    relaxed && !strict && fits(c0, cadd, b0, badd, limits)
}

/// Every check but the depth bound passes: the expression is valid when its
/// root is placed at some depth no greater than the root's own.
pub open spec fn valid_but_for_depth(e: Expr) -> bool {
    exists|s: int| s <= 1 && #[trigger] valid_at(e, s)
}

proof fn lemma_depth_widen(r: Result<(), Diagnostic>, lo: int, hi: int)
    requires
        depth_reported(r, lo),
        lo <= hi,
    ensures
        depth_reported(r, hi),
{
    let d = r->Err_0;
    let x = choose|x: int|
        MAX_DEPTH < x <= lo && #[trigger] exceeded_message("semantic depth"@, x, MAX_DEPTH as int)
            == d.message@;
    assert(exceeded_message("semantic depth"@, x, MAX_DEPTH as int) == d.message@);
}

/// A failed part whose only possible fault is its depth passes its depth
/// report up, with a wider bound.
proof fn lemma_passes(
    r: Result<(), Diagnostic>,
    relaxed: bool,
    strict: bool,
    c1: int,
    cadd: int,
    b1: int,
    badd: int,
    lo: int,
    hi: int,
    limits: Limits,
)
    requires
        r is Err,
        relaxed,
        fits(c1, cadd, b1, badd, limits),
        !strict || c1 + cadd > limits.spec_tokens() || b1 + badd > limits.spec_source_bytes(),
        only_depth_fails(relaxed, strict, c1, cadd, b1, badd, limits) ==> depth_reported(r, lo),
        lo <= hi,
    ensures
        depth_reported(r, hi),
{
    lemma_depth_widen(r, lo, hi);
}

pub proof fn lemma_node_count_positive(e: Expr)
    ensures
        node_count(e) >= 1,
{
}

fn error(message: &str) -> (d: Diagnostic)
    ensures
        d.span.start == 0 && d.span.end == 0,
        d.message@ == message@,
{
    Diagnostic::new(0, 0, message)
}

/// Count `n` more literal bytes and check the budget.
fn count_bytes(bytes: &mut usize, n: usize, limits: Limits) -> (r: Result<(), Diagnostic>)
    requires
        *old(bytes) <= limits.spec_source_bytes(),
    ensures
        r is Ok ==> *final(bytes) == *old(bytes) + n && *final(bytes)
            <= limits.spec_source_bytes(),
        r is Err ==> *old(bytes) + n > limits.spec_source_bytes(),
        r is Err ==> bytes_reported(r, *old(bytes) + n, limits),
{
    let s = limits.source_bytes();
    let r = consume("semantic literal byte", bytes, n, s);
    proof {
        if r is Err {
            let x = *bytes as int;
            assert(limits.spec_source_bytes() < x <= *old(bytes) + n);
            assert(exceeded_message("semantic literal byte"@, x, limits.spec_source_bytes() as int)
                == r->Err_0.message@);
        }
    }
    r
}

/// Count `n` more semantic nodes and check the budget.
fn count_nodes(count: &mut usize, n: usize, limits: Limits) -> (r: Result<(), Diagnostic>)
    requires
        *old(count) <= limits.spec_tokens(),
    ensures
        r is Ok ==> *final(count) == *old(count) + n && *final(count) <= limits.spec_tokens(),
        r is Err ==> *old(count) + n > limits.spec_tokens(),
        r is Err ==> nodes_reported(r, *old(count) + n, limits),
{
    let t = limits.tokens();
    let r = consume("semantic node", count, n, t);
    proof {
        if r is Err {
            let x = *count as int;
            assert(limits.spec_tokens() < x <= *old(count) + n);
            assert(exceeded_message("semantic node"@, x, limits.spec_tokens() as int)
                == r->Err_0.message@);
        }
    }
    r
}

/// A static attribute name or inherited name: its bytes count, and it holds no NUL.
fn check_attr_text(name: &String, bytes: &mut usize, limits: Limits) -> (r: Result<(), Diagnostic>)
    requires
        *old(bytes) <= limits.spec_source_bytes(),
    ensures
        r is Ok ==> no_nul(name@) && *final(bytes) == *old(bytes) + byte_len(name@) && *final(bytes)
            <= limits.spec_source_bytes(),
        r is Err ==> !no_nul(name@) || *old(bytes) + byte_len(name@) > limits.spec_source_bytes(),
        no_nul(name@) && *old(bytes) + byte_len(name@) > limits.spec_source_bytes()
            ==> bytes_reported(r, *old(bytes) + byte_len(name@), limits),
{
    count_bytes(bytes, name.as_str().len(), limits)?;
    let chars = chars_of(name.as_str());
    if contains_char(&chars, '\0') {
        return Err(error("attribute names cannot contain null bytes"));
    }
    Ok(())
}

/// Check a literal path: its bytes count, and its spelling is valid.
fn check_path_text(
    path: &String,
    valid: bool,
    bytes: &mut usize,
    limits: Limits,
) -> (r: Result<(), Diagnostic>)
    requires
        *old(bytes) <= limits.spec_source_bytes(),
    ensures
        r is Ok ==> valid && *final(bytes) == *old(bytes) + byte_len(path@) && *final(bytes)
            <= limits.spec_source_bytes(),
        r is Err ==> !valid || *old(bytes) + byte_len(path@) > limits.spec_source_bytes(),
        valid && *old(bytes) + byte_len(path@) > limits.spec_source_bytes() ==> bytes_reported(
            r,
            *old(bytes) + byte_len(path@),
            limits,
        ),
{
    count_bytes(bytes, path.as_str().len(), limits)?;
    if !valid {
        return Err(error("invalid literal path"));
    }
    Ok(())
}

#[verifier::rlimit(100)]
#[verifier::spinoff_prover]
fn check_node(
    e: &Expr,
    depth: usize,
    limits: Limits,
    count: &mut usize,
    bytes: &mut usize,
) -> (r: Result<(), Diagnostic>)
    requires
        *old(count) <= limits.spec_tokens(),
        *old(bytes) <= limits.spec_source_bytes(),
    ensures
        accounted(
            r is Ok,
            valid_at(*e, depth as int),
            *old(count) as int,
            *final(count) as int,
            node_count(*e) as int,
            *old(bytes) as int,
            *final(bytes) as int,
            node_bytes(*e) as int,
            limits,
        ),
        depth <= MAX_DEPTH && *old(count) < limits.spec_tokens() ==> (*e matches Expr::Integer(v)
            ==> (v > 0x7fff_ffff_ffff_ffff ==> (r matches Err(d) && d.message@
            == "integer literal exceeds the Nix signed 64-bit range"@))),
        depth > MAX_DEPTH ==> (r matches Err(d) && d.message@ == exceeded_message(
            "semantic depth"@,
            depth as int,
            MAX_DEPTH as int,
        )),
        forall|s: int|
            only_depth_fails(
                #[trigger] valid_at(*e, s),
                valid_at(*e, depth as int),
                *old(count) as int,
                node_count(*e) as int,
                *old(bytes) as int,
                node_bytes(*e) as int,
                limits,
            ) ==> depth_reported(r, depth + node_count(*e) - 1),
        valid_at(*e, depth as int) && *old(bytes) + node_bytes(*e) <= limits.spec_source_bytes()
            && *old(count) + node_count(*e) > limits.spec_tokens() ==> nodes_reported(
            r,
            *old(count) + node_count(*e),
            limits,
        ),
        valid_at(*e, depth as int) && *old(count) + node_count(*e) <= limits.spec_tokens() && *old(bytes) + node_bytes(*e)
            > limits.spec_source_bytes() ==> bytes_reported(r, *old(bytes) + node_bytes(*e), limits),
    decreases e,
{
    let ghost c0 = *count as int;
    let ghost b0 = *bytes as int;
    let ghost nc = node_count(*e) as int;
    let ghost nb = node_bytes(*e) as int;
    proof {
        lemma_node_count_positive(*e);
    }
    check("semantic depth", depth, MAX_DEPTH)?;
    count_nodes(count, 1, limits)?;
    match e {
        Expr::Integer(value) => {
            if *value > 0x7fff_ffff_ffff_ffff {
                return Err(error("integer literal exceeds the Nix signed 64-bit range"));
            }
            Ok(())
        },
        Expr::Float(_) => Err(error("float literals are not supported")),
        Expr::Variable(name) => match validate_name(name.as_str()) {
            Ok(()) => Ok(()),
            Err(m) => Err(error(m)),
        },
        Expr::CurrentPosition => Ok(()),
        Expr::RelativePath(path) => {
            let valid = validate_relative_path(path.as_str()).is_ok();
            check_path_text(path, valid, bytes, limits)
        },
        Expr::AbsolutePath(path) => {
            let valid = validate_absolute_path(path.as_str()).is_ok();
            check_path_text(path, valid, bytes, limits)
        },
        Expr::HomePath(path) => {
            let valid = validate_home_path(path.as_str()).is_ok();
            check_path_text(path, valid, bytes, limits)
        },
        Expr::SearchPath(path) => {
            let valid = validate_search_path(path.as_str()).is_ok();
            check_path_text(path, valid, bytes, limits)
        },
        Expr::InterpolatedPath(parts) => {
            let ghost c1 = *count as int;
            let ghost b1 = *bytes as int;
            let r0 = check_parts(parts, true, depth, limits, count, bytes);
            proof {
                assert forall|s: int| only_depth_fails(#[trigger] valid_at(*e, s), valid_at(*e, depth as int), c0, nc, b0, nb, limits) implies depth_reported(r0, depth + nc - 1) by {
                    if r0.is_err() {
                        lemma_passes(r0, literal_parts_ok(parts@) && parts_valid(parts@, 0, s) && interpolated_path_ok(parts@), literal_parts_ok(parts@) && parts_valid(parts@, 0, depth as int) && interpolated_path_ok(parts@), c1, (parts@.len() + parts_count(parts@, 0)) as int, b1, parts_bytes(parts@, 0) as int, depth + parts@.len() + parts_count(parts@, 0), depth + nc - 1, limits);
                    }
                }
            }
            r0
        },
        Expr::String(parts) => {
            let ghost c1 = *count as int;
            let ghost b1 = *bytes as int;
            let r0 = check_parts(parts, false, depth, limits, count, bytes);
            proof {
                assert forall|s: int| only_depth_fails(#[trigger] valid_at(*e, s), valid_at(*e, depth as int), c0, nc, b0, nb, limits) implies depth_reported(r0, depth + nc - 1) by {
                    if r0.is_err() {
                        lemma_passes(r0, literal_parts_ok(parts@) && parts_valid(parts@, 0, s), literal_parts_ok(parts@) && parts_valid(parts@, 0, depth as int), c1, (parts@.len() + parts_count(parts@, 0)) as int, b1, parts_bytes(parts@, 0) as int, depth + parts@.len() + parts_count(parts@, 0), depth + nc - 1, limits);
                    }
                }
            }
            r0
        },
        Expr::List(items) => {
            let ghost c1 = *count as int;
            let ghost b1 = *bytes as int;
            let r0 = check_items(items, depth, limits, count, bytes);
            proof {
                assert forall|s: int| only_depth_fails(#[trigger] valid_at(*e, s), valid_at(*e, depth as int), c0, nc, b0, nb, limits) implies depth_reported(r0, depth + nc - 1) by {
                    if r0.is_err() {
                        lemma_passes(r0, items_valid(items@, 0, s), items_valid(items@, 0, depth as int), c1, items_count(items@, 0) as int, b1, items_bytes(items@, 0) as int, depth + items_count(items@, 0), depth + nc - 1, limits);
                    }
                }
            }
            r0
        },
        Expr::AttrSet { recursive, bindings } => {
            let ghost c1 = *count as int;
            let ghost b1 = *bytes as int;
            let r0 = check_set(bindings, false, *recursive, depth, limits, count, bytes);
            proof {
                assert forall|s: int| only_depth_fails(#[trigger] valid_at(*e, s), valid_at(*e, depth as int), c0, nc, b0, nb, limits) implies depth_reported(r0, depth + nc - 1) by {
                    if r0.is_err() {
                        lemma_passes(r0, bindings_valid(bindings@, 0, s, false, *recursive) && shapes_ok(bindings@), bindings_valid(bindings@, 0, depth as int, false, *recursive) && shapes_ok(bindings@), c1, (bindings@.len() + bindings_count(bindings@, 0)) as int, b1, bindings_bytes(bindings@, 0) as int, depth + bindings@.len() + bindings_count(bindings@, 0), depth + nc - 1, limits);
                    }
                }
            }
            r0
        },
        Expr::Let { bindings, body } => {
            let ghost c1 = *count as int;
            let ghost b1 = *bytes as int;
            let r0 = check_set(bindings, true, false, depth, limits, count, bytes);
            if r0.is_err() {
                proof {
                    assert forall|s: int| only_depth_fails(#[trigger] valid_at(*e, s), valid_at(*e, depth as int), c0, nc, b0, nb, limits) implies depth_reported(r0, depth + nc - 1) by {
                        lemma_passes(r0, bindings_valid(bindings@, 0, s, true, false) && shapes_ok(bindings@), bindings_valid(bindings@, 0, depth as int, true, false) && shapes_ok(bindings@), c1, (bindings@.len() + bindings_count(bindings@, 0)) as int, b1, bindings_bytes(bindings@, 0) as int, depth + bindings@.len() + bindings_count(bindings@, 0), depth + nc - 1, limits);
                    }
                }
                return r0;
            }
            {
            let ghost c1 = *count as int;
            let ghost b1 = *bytes as int;
            let r0 = check_node(body, depth + 1, limits, count, bytes);
            proof {
                assert forall|s: int| only_depth_fails(#[trigger] valid_at(*e, s), valid_at(*e, depth as int), c0, nc, b0, nb, limits) implies depth_reported(r0, depth + nc - 1) by {
                    if r0.is_err() {
                        lemma_passes(r0, valid_at(**body, s + 1), valid_at(**body, depth + 1), c1, node_count(**body) as int, b1, node_bytes(**body) as int, depth + node_count(**body), depth + nc - 1, limits);
                    }
                }
            }
            r0
        }
        },
        Expr::With { scope, body } => {
            let ghost c1 = *count as int;
            let ghost b1 = *bytes as int;
            let r0 = check_node(scope, depth + 1, limits, count, bytes);
            if r0.is_err() {
                proof {
                    assert forall|s: int| only_depth_fails(#[trigger] valid_at(*e, s), valid_at(*e, depth as int), c0, nc, b0, nb, limits) implies depth_reported(r0, depth + nc - 1) by {
                        lemma_passes(r0, valid_at(**scope, s + 1), valid_at(**scope, depth + 1), c1, node_count(**scope) as int, b1, node_bytes(**scope) as int, depth + node_count(**scope), depth + nc - 1, limits);
                    }
                }
                return r0;
            }
            {
            let ghost c1 = *count as int;
            let ghost b1 = *bytes as int;
            let r0 = check_node(body, depth + 1, limits, count, bytes);
            proof {
                assert forall|s: int| only_depth_fails(#[trigger] valid_at(*e, s), valid_at(*e, depth as int), c0, nc, b0, nb, limits) implies depth_reported(r0, depth + nc - 1) by {
                    if r0.is_err() {
                        lemma_passes(r0, valid_at(**body, s + 1), valid_at(**body, depth + 1), c1, node_count(**body) as int, b1, node_bytes(**body) as int, depth + node_count(**body), depth + nc - 1, limits);
                    }
                }
            }
            r0
        }
        },
        Expr::Assert { condition, body } => {
            let ghost c1 = *count as int;
            let ghost b1 = *bytes as int;
            let r0 = check_node(condition, depth + 1, limits, count, bytes);
            if r0.is_err() {
                proof {
                    assert forall|s: int| only_depth_fails(#[trigger] valid_at(*e, s), valid_at(*e, depth as int), c0, nc, b0, nb, limits) implies depth_reported(r0, depth + nc - 1) by {
                        lemma_passes(r0, valid_at(**condition, s + 1), valid_at(**condition, depth + 1), c1, node_count(**condition) as int, b1, node_bytes(**condition) as int, depth + node_count(**condition), depth + nc - 1, limits);
                    }
                }
                return r0;
            }
            {
            let ghost c1 = *count as int;
            let ghost b1 = *bytes as int;
            let r0 = check_node(body, depth + 1, limits, count, bytes);
            proof {
                assert forall|s: int| only_depth_fails(#[trigger] valid_at(*e, s), valid_at(*e, depth as int), c0, nc, b0, nb, limits) implies depth_reported(r0, depth + nc - 1) by {
                    if r0.is_err() {
                        lemma_passes(r0, valid_at(**body, s + 1), valid_at(**body, depth + 1), c1, node_count(**body) as int, b1, node_bytes(**body) as int, depth + node_count(**body), depth + nc - 1, limits);
                    }
                }
            }
            r0
        }
        },
        Expr::If { condition, then_branch, else_branch } => {
            let ghost c1 = *count as int;
            let ghost b1 = *bytes as int;
            let r0 = check_node(condition, depth + 1, limits, count, bytes);
            if r0.is_err() {
                proof {
                    assert forall|s: int| only_depth_fails(#[trigger] valid_at(*e, s), valid_at(*e, depth as int), c0, nc, b0, nb, limits) implies depth_reported(r0, depth + nc - 1) by {
                        lemma_passes(r0, valid_at(**condition, s + 1), valid_at(**condition, depth + 1), c1, node_count(**condition) as int, b1, node_bytes(**condition) as int, depth + node_count(**condition), depth + nc - 1, limits);
                    }
                }
                return r0;
            }
            {
            let ghost c1 = *count as int;
            let ghost b1 = *bytes as int;
            let r0 = check_node(then_branch, depth + 1, limits, count, bytes);
            if r0.is_err() {
                proof {
                    assert forall|s: int| only_depth_fails(#[trigger] valid_at(*e, s), valid_at(*e, depth as int), c0, nc, b0, nb, limits) implies depth_reported(r0, depth + nc - 1) by {
                        lemma_passes(r0, valid_at(**then_branch, s + 1), valid_at(**then_branch, depth + 1), c1, node_count(**then_branch) as int, b1, node_bytes(**then_branch) as int, depth + node_count(**then_branch), depth + nc - 1, limits);
                    }
                }
                return r0;
            }
            }
            {
            let ghost c1 = *count as int;
            let ghost b1 = *bytes as int;
            let r0 = check_node(else_branch, depth + 1, limits, count, bytes);
            proof {
                assert forall|s: int| only_depth_fails(#[trigger] valid_at(*e, s), valid_at(*e, depth as int), c0, nc, b0, nb, limits) implies depth_reported(r0, depth + nc - 1) by {
                    if r0.is_err() {
                        lemma_passes(r0, valid_at(**else_branch, s + 1), valid_at(**else_branch, depth + 1), c1, node_count(**else_branch) as int, b1, node_bytes(**else_branch) as int, depth + node_count(**else_branch), depth + nc - 1, limits);
                    }
                }
            }
            r0
        }
        },
        Expr::Select { value, path, default } => {
            let r0 = check_path_length(path.len(), limits, count);
            if r0.is_err() {
                proof {
                    assert forall|s: int| only_depth_fails(#[trigger] valid_at(*e, s), valid_at(*e, depth as int), c0, nc, b0, nb, limits) implies depth_reported(r0, depth + nc - 1) by {
                        assert(valid_at(*e, s));
                    }
                }
                return r0;
            }
            {
            let ghost c1 = *count as int;
            let ghost b1 = *bytes as int;
            let r0 = check_keys(path, false, depth, limits, count, bytes);
            if r0.is_err() {
                proof {
                    assert forall|s: int| only_depth_fails(#[trigger] valid_at(*e, s), valid_at(*e, depth as int), c0, nc, b0, nb, limits) implies depth_reported(r0, depth + nc - 1) by {
                        lemma_passes(r0, keys_ok(path@, false, 0, s), keys_ok(path@, false, 0, depth as int), c1, keys_count(path@, 0) as int, b1, keys_bytes(path@, 0) as int, depth + path@.len() + keys_count(path@, 0), depth + nc - 1, limits);
                    }
                }
                return r0;
            }
            }
            {
            let ghost c1 = *count as int;
            let ghost b1 = *bytes as int;
            let r0 = check_node(value, depth + 1, limits, count, bytes);
            if r0.is_err() {
                proof {
                    assert forall|s: int| only_depth_fails(#[trigger] valid_at(*e, s), valid_at(*e, depth as int), c0, nc, b0, nb, limits) implies depth_reported(r0, depth + nc - 1) by {
                        lemma_passes(r0, valid_at(**value, s + 1), valid_at(**value, depth + 1), c1, node_count(**value) as int, b1, node_bytes(**value) as int, depth + node_count(**value), depth + nc - 1, limits);
                    }
                }
                return r0;
            }
            }
            match default {
                Some(d) => {
                    let ghost c1 = *count as int;
                    let ghost b1 = *bytes as int;
                    let r0 = check_node(d, depth + 1, limits, count, bytes);
                    proof {
                        assert forall|s: int| only_depth_fails(#[trigger] valid_at(*e, s), valid_at(*e, depth as int), c0, nc, b0, nb, limits) implies depth_reported(r0, depth + nc - 1) by {
                            if r0.is_err() {
                                lemma_passes(r0, valid_at(**d, s + 1), valid_at(**d, depth + 1), c1, node_count(**d) as int, b1, node_bytes(**d) as int, depth + node_count(**d), depth + nc - 1, limits);
                            }
                        }
                    }
                    r0
                },
                None => Ok(()),
            }
        },
        Expr::HasAttr { value, path } => {
            let r0 = check_path_length(path.len(), limits, count);
            if r0.is_err() {
                proof {
                    assert forall|s: int| only_depth_fails(#[trigger] valid_at(*e, s), valid_at(*e, depth as int), c0, nc, b0, nb, limits) implies depth_reported(r0, depth + nc - 1) by {
                        assert(valid_at(*e, s));
                    }
                }
                return r0;
            }
            {
            let ghost c1 = *count as int;
            let ghost b1 = *bytes as int;
            let r0 = check_keys(path, false, depth, limits, count, bytes);
            if r0.is_err() {
                proof {
                    assert forall|s: int| only_depth_fails(#[trigger] valid_at(*e, s), valid_at(*e, depth as int), c0, nc, b0, nb, limits) implies depth_reported(r0, depth + nc - 1) by {
                        lemma_passes(r0, keys_ok(path@, false, 0, s), keys_ok(path@, false, 0, depth as int), c1, keys_count(path@, 0) as int, b1, keys_bytes(path@, 0) as int, depth + path@.len() + keys_count(path@, 0), depth + nc - 1, limits);
                    }
                }
                return r0;
            }
            }
            {
            let ghost c1 = *count as int;
            let ghost b1 = *bytes as int;
            let r0 = check_node(value, depth + 1, limits, count, bytes);
            proof {
                assert forall|s: int| only_depth_fails(#[trigger] valid_at(*e, s), valid_at(*e, depth as int), c0, nc, b0, nb, limits) implies depth_reported(r0, depth + nc - 1) by {
                    if r0.is_err() {
                        lemma_passes(r0, valid_at(**value, s + 1), valid_at(**value, depth + 1), c1, node_count(**value) as int, b1, node_bytes(**value) as int, depth + node_count(**value), depth + nc - 1, limits);
                    }
                }
            }
            r0
        }
        },
        Expr::Lambda { parameter, body } => {
            let ghost c1 = *count as int;
            let ghost b1 = *bytes as int;
            let r0 = check_pattern(parameter, depth, limits, count, bytes);
            if r0.is_err() {
                proof {
                    assert forall|s: int| only_depth_fails(#[trigger] valid_at(*e, s), valid_at(*e, depth as int), c0, nc, b0, nb, limits) implies depth_reported(r0, depth + nc - 1) by {
                        lemma_passes(r0, pattern_valid(*parameter, s), pattern_valid(*parameter, depth as int), c1, pattern_count(*parameter) as int, b1, pattern_bytes(*parameter) as int, depth + pattern_count(*parameter), depth + nc - 1, limits);
                    }
                }
                return r0;
            }
            {
            let ghost c1 = *count as int;
            let ghost b1 = *bytes as int;
            let r0 = check_node(body, depth + 1, limits, count, bytes);
            proof {
                assert forall|s: int| only_depth_fails(#[trigger] valid_at(*e, s), valid_at(*e, depth as int), c0, nc, b0, nb, limits) implies depth_reported(r0, depth + nc - 1) by {
                    if r0.is_err() {
                        lemma_passes(r0, valid_at(**body, s + 1), valid_at(**body, depth + 1), c1, node_count(**body) as int, b1, node_bytes(**body) as int, depth + node_count(**body), depth + nc - 1, limits);
                    }
                }
            }
            r0
        }
        },
        Expr::Apply { function, argument } => {
            let ghost c1 = *count as int;
            let ghost b1 = *bytes as int;
            let r0 = check_node(function, depth + 1, limits, count, bytes);
            if r0.is_err() {
                proof {
                    assert forall|s: int| only_depth_fails(#[trigger] valid_at(*e, s), valid_at(*e, depth as int), c0, nc, b0, nb, limits) implies depth_reported(r0, depth + nc - 1) by {
                        lemma_passes(r0, valid_at(**function, s + 1), valid_at(**function, depth + 1), c1, node_count(**function) as int, b1, node_bytes(**function) as int, depth + node_count(**function), depth + nc - 1, limits);
                    }
                }
                return r0;
            }
            {
            let ghost c1 = *count as int;
            let ghost b1 = *bytes as int;
            let r0 = check_node(argument, depth + 1, limits, count, bytes);
            proof {
                assert forall|s: int| only_depth_fails(#[trigger] valid_at(*e, s), valid_at(*e, depth as int), c0, nc, b0, nb, limits) implies depth_reported(r0, depth + nc - 1) by {
                    if r0.is_err() {
                        lemma_passes(r0, valid_at(**argument, s + 1), valid_at(**argument, depth + 1), c1, node_count(**argument) as int, b1, node_bytes(**argument) as int, depth + node_count(**argument), depth + nc - 1, limits);
                    }
                }
            }
            r0
        }
        },
        Expr::Negate(v) => {
            let ghost c1 = *count as int;
            let ghost b1 = *bytes as int;
            let r0 = check_node(v, depth + 1, limits, count, bytes);
            proof {
                assert forall|s: int| only_depth_fails(#[trigger] valid_at(*e, s), valid_at(*e, depth as int), c0, nc, b0, nb, limits) implies depth_reported(r0, depth + nc - 1) by {
                    if r0.is_err() {
                        lemma_passes(r0, valid_at(**v, s + 1), valid_at(**v, depth + 1), c1, node_count(**v) as int, b1, node_bytes(**v) as int, depth + node_count(**v), depth + nc - 1, limits);
                    }
                }
            }
            r0
        },
        Expr::Not(v) => {
            let ghost c1 = *count as int;
            let ghost b1 = *bytes as int;
            let r0 = check_node(v, depth + 1, limits, count, bytes);
            proof {
                assert forall|s: int| only_depth_fails(#[trigger] valid_at(*e, s), valid_at(*e, depth as int), c0, nc, b0, nb, limits) implies depth_reported(r0, depth + nc - 1) by {
                    if r0.is_err() {
                        lemma_passes(r0, valid_at(**v, s + 1), valid_at(**v, depth + 1), c1, node_count(**v) as int, b1, node_bytes(**v) as int, depth + node_count(**v), depth + nc - 1, limits);
                    }
                }
            }
            r0
        },
        Expr::Binary { left, right, .. } => {
            let ghost c1 = *count as int;
            let ghost b1 = *bytes as int;
            let r0 = check_node(left, depth + 1, limits, count, bytes);
            if r0.is_err() {
                proof {
                    assert forall|s: int| only_depth_fails(#[trigger] valid_at(*e, s), valid_at(*e, depth as int), c0, nc, b0, nb, limits) implies depth_reported(r0, depth + nc - 1) by {
                        lemma_passes(r0, valid_at(**left, s + 1), valid_at(**left, depth + 1), c1, node_count(**left) as int, b1, node_bytes(**left) as int, depth + node_count(**left), depth + nc - 1, limits);
                    }
                }
                return r0;
            }
            {
            let ghost c1 = *count as int;
            let ghost b1 = *bytes as int;
            let r0 = check_node(right, depth + 1, limits, count, bytes);
            proof {
                assert forall|s: int| only_depth_fails(#[trigger] valid_at(*e, s), valid_at(*e, depth as int), c0, nc, b0, nb, limits) implies depth_reported(r0, depth + nc - 1) by {
                    if r0.is_err() {
                        lemma_passes(r0, valid_at(**right, s + 1), valid_at(**right, depth + 1), c1, node_count(**right) as int, b1, node_bytes(**right) as int, depth + node_count(**right), depth + nc - 1, limits);
                    }
                }
            }
            r0
        }
        },
    }
}

/// An attribute path is nonempty, at most `MAX_DEPTH` long, and counts one
/// node per element.
fn check_path_length(len: usize, limits: Limits, count: &mut usize) -> (r: Result<(), Diagnostic>)
    requires
        *old(count) <= limits.spec_tokens(),
    ensures
        r is Ok ==> 1 <= len <= MAX_DEPTH && *final(count) == *old(count) + len && *final(count)
            <= limits.spec_tokens(),
        r is Err ==> !(1 <= len <= MAX_DEPTH) || *old(count) + len > limits.spec_tokens(),
        r is Err && 1 <= len <= MAX_DEPTH ==> nodes_reported(r, *old(count) + len, limits),
{
    if len == 0 {
        return Err(error("attribute path must not be empty"));
    }
    check("attribute path depth", len, MAX_DEPTH)?;
    count_nodes(count, len, limits)
}

#[verifier::loop_isolation(false)]
fn check_items(
    items: &Vec<Expr>,
    depth: usize,
    limits: Limits,
    count: &mut usize,
    bytes: &mut usize,
) -> (r: Result<(), Diagnostic>)
    requires
        depth <= MAX_DEPTH,
        *old(count) <= limits.spec_tokens(),
        *old(bytes) <= limits.spec_source_bytes(),
    ensures
        accounted(
            r is Ok,
            items_valid(items@, 0, depth as int),
            *old(count) as int,
            *final(count) as int,
            items_count(items@, 0) as int,
            *old(bytes) as int,
            *final(bytes) as int,
            items_bytes(items@, 0) as int,
            limits,
        ),
        forall|s: int|
            only_depth_fails(
                #[trigger] items_valid(items@, 0, s),
                items_valid(items@, 0, depth as int),
                *old(count) as int,
                items_count(items@, 0) as int,
                *old(bytes) as int,
                items_bytes(items@, 0) as int,
                limits,
            ) ==> depth_reported(r, depth + items_count(items@, 0)),
        items_valid(items@, 0, depth as int) && *old(bytes) + items_bytes(items@, 0)
            <= limits.spec_source_bytes() && *old(count) + items_count(items@, 0)
            > limits.spec_tokens() ==> nodes_reported(r, *old(count) + items_count(items@, 0), limits),
        items_valid(items@, 0, depth as int) && *old(count) + items_count(items@, 0) <= limits.spec_tokens() && *old(bytes) + items_bytes(items@, 0)
            > limits.spec_source_bytes() ==> bytes_reported(r, *old(bytes) + items_bytes(items@, 0), limits),
    decreases items,
{
    let ghost c0 = *count;
    let ghost b0 = *bytes;
    let mut i: usize = 0;
    while i < items.len()
        invariant
            0 <= i <= items.len(),
            depth <= MAX_DEPTH,
            *count <= limits.spec_tokens(),
            *bytes <= limits.spec_source_bytes(),
            c0 + items_count(items@, 0) == *count + items_count(items@, i as int),
            b0 + items_bytes(items@, 0) == *bytes + items_bytes(items@, i as int),
            items_valid(items@, 0, depth as int) == items_valid(items@, i as int, depth as int),
            forall|s: int| #[trigger] items_valid(items@, 0, s) ==> items_valid(items@, i as int, s),
            c0 <= *count,
            b0 <= *bytes,
        decreases items.len() - i,
    {
        proof {
            assert(items_count(items@, i as int) == node_count(items@[i as int]) + items_count(
                items@,
                i + 1,
            ));
            assert(items_bytes(items@, i as int) == node_bytes(items@[i as int]) + items_bytes(
                items@,
                i + 1,
            ));
            assert(items_valid(items@, i as int, depth as int) == (valid_at(
                items@[i as int],
                depth + 1,
            ) && items_valid(items@, i + 1, depth as int)));
        }
        let ghost c1 = *count as int;
        let ghost b1 = *bytes as int;
        let r0 = check_node(&items[i], depth + 1, limits, count, bytes);
        if r0.is_err() {
            proof {
                assert forall|s: int| only_depth_fails(#[trigger] items_valid(items@, 0, s), items_valid(items@, 0, depth as int), *old(count) as int, items_count(items@, 0) as int, *old(bytes) as int, items_bytes(items@, 0) as int, limits) implies depth_reported(r0, depth + items_count(items@, 0)) by {
                    assert(items_valid(items@, i as int, s));
                    lemma_passes(r0, valid_at(items@[i as int], s + 1), valid_at(items@[i as int], depth + 1), c1, node_count(items@[i as int]) as int, b1, node_bytes(items@[i as int]) as int, depth + node_count(items@[i as int]), depth + items_count(items@, 0), limits);
                }
            }
            return r0;
        }
        i += 1;
    }
    Ok(())
}

#[verifier::loop_isolation(false)]
fn check_parts(
    parts: &Vec<StringPart>,
    path: bool,
    depth: usize,
    limits: Limits,
    count: &mut usize,
    bytes: &mut usize,
) -> (r: Result<(), Diagnostic>)
    requires
        depth <= MAX_DEPTH,
        *old(count) <= limits.spec_tokens(),
        *old(bytes) <= limits.spec_source_bytes(),
    ensures
        accounted(
            r is Ok,
            literal_parts_ok(parts@) && parts_valid(parts@, 0, depth as int) && (path
                ==> interpolated_path_ok(parts@)),
            *old(count) as int,
            *final(count) as int,
            (parts@.len() + parts_count(parts@, 0)) as int,
            *old(bytes) as int,
            *final(bytes) as int,
            parts_bytes(parts@, 0) as int,
            limits,
        ),
        forall|s: int|
            only_depth_fails(
                literal_parts_ok(parts@) && #[trigger] parts_valid(parts@, 0, s) && (path ==> interpolated_path_ok(parts@)),
                literal_parts_ok(parts@) && parts_valid(parts@, 0, depth as int) && (path ==> interpolated_path_ok(parts@)),
                *old(count) as int,
                (parts@.len() + parts_count(parts@, 0)) as int,
                *old(bytes) as int,
                parts_bytes(parts@, 0) as int,
                limits,
            ) ==> depth_reported(r, depth + parts@.len() + parts_count(parts@, 0)),
        literal_parts_ok(parts@) && parts_valid(parts@, 0, depth as int) && (path
            ==> interpolated_path_ok(parts@)) && *old(bytes) + parts_bytes(parts@, 0)
            <= limits.spec_source_bytes() && *old(count) + parts@.len() + parts_count(parts@, 0)
            > limits.spec_tokens() ==> nodes_reported(
            r,
            *old(count) + parts@.len() + parts_count(parts@, 0),
            limits,
        ),
        literal_parts_ok(parts@) && parts_valid(parts@, 0, depth as int) && (path ==> interpolated_path_ok(parts@)) && *old(count) + parts@.len() + parts_count(parts@, 0) <= limits.spec_tokens() && *old(bytes) + parts_bytes(parts@, 0)
            > limits.spec_source_bytes() ==> bytes_reported(r, *old(bytes) + parts_bytes(parts@, 0), limits),
    decreases parts,
{
    count_nodes(count, parts.len(), limits)?;
    let ghost c0 = *count;
    let ghost b0 = *bytes;
    let mut previous_literal = false;
    let mut i: usize = 0;
    while i < parts.len()
        invariant
            0 <= i <= parts.len(),
            depth <= MAX_DEPTH,
            *count <= limits.spec_tokens(),
            *bytes <= limits.spec_source_bytes(),
            c0 + parts_count(parts@, 0) == *count + parts_count(parts@, i as int),
            b0 + parts_bytes(parts@, 0) == *bytes + parts_bytes(parts@, i as int),
            parts_valid(parts@, 0, depth as int) == parts_valid(parts@, i as int, depth as int),
            forall|s: int| #[trigger] parts_valid(parts@, 0, s) ==> parts_valid(parts@, i as int, s),
            c0 <= *count,
            b0 <= *bytes,
            *old(count) + parts@.len() == c0,
            *old(bytes) == b0,
            forall|j: int|
                0 <= j < i ==> nonempty_unless_interpolated(#[trigger] parts@[j]) && part_text_ok(
                    parts@[j],
                ),
            forall|j: int|
                0 <= j < i - 1 ==> !(is_literal(#[trigger] parts@[j]) && is_literal(parts@[j + 1])),
            previous_literal == (i > 0 && is_literal(parts@[i - 1])),
        decreases parts.len() - i,
    {
        proof {
            assert(parts_count(parts@, i as int) == (match parts@[i as int] {
                StringPart::Literal(_) => 0,
                StringPart::Interpolation(e) => node_count(e),
            }) + parts_count(parts@, i + 1));
            assert(parts_bytes(parts@, i as int) == (match parts@[i as int] {
                StringPart::Literal(t) => byte_len(t@),
                StringPart::Interpolation(e) => node_bytes(e),
            }) + parts_bytes(parts@, i + 1));
            assert(parts_valid(parts@, i as int, depth as int) == ((match parts@[i as int] {
                StringPart::Literal(_) => true,
                StringPart::Interpolation(e) => valid_at(e, depth + 1),
            }) && parts_valid(parts@, i + 1, depth as int)));
        }
        match &parts[i] {
            StringPart::Literal(text) => {
                if text.as_str().is_empty() || previous_literal {
                    assert(!parts_normalized(parts@)) by {
                        if text@.len() == 0 {
                            assert(!nonempty_unless_interpolated(parts@[i as int]));
                        } else {
                            assert(is_literal(parts@[i - 1]) && is_literal(parts@[i - 1 + 1]));
                        }
                    }
                    return Err(error("string literals must be nonempty and nonadjacent"));
                }
                let chars = chars_of(text.as_str());
                if contains_char(&chars, '\0') {
                    assert(!part_text_ok(parts@[i as int]));
                    return Err(error("Nix strings cannot contain null bytes"));
                }
                count_bytes(bytes, text.as_str().len(), limits)?;
                previous_literal = true;
            },
            StringPart::Interpolation(value) => {
                let ghost c1 = *count as int;
                let ghost b1 = *bytes as int;
                let r0 = check_node(value, depth + 1, limits, count, bytes);
                if r0.is_err() {
                    proof {
                        assert forall|s: int| only_depth_fails(literal_parts_ok(parts@) && #[trigger] parts_valid(parts@, 0, s) && (path ==> interpolated_path_ok(parts@)), literal_parts_ok(parts@) && parts_valid(parts@, 0, depth as int) && (path ==> interpolated_path_ok(parts@)), *old(count) as int, (parts@.len() + parts_count(parts@, 0)) as int, *old(bytes) as int, parts_bytes(parts@, 0) as int, limits) implies depth_reported(r0, depth + parts@.len() + parts_count(parts@, 0)) by {
                            assert(parts_valid(parts@, i as int, s));
                            lemma_passes(r0, valid_at(*value, s + 1), valid_at(*value, depth + 1), c1, node_count(*value) as int, b1, node_bytes(*value) as int, depth + node_count(*value), depth + parts@.len() + parts_count(parts@, 0), limits);
                        }
                    }
                    return r0;
                }
                previous_literal = false;
            },
        }
        i += 1;
    }
    if path {
        match validate_interpolated_path(parts) {
            Ok(()) => {},
            Err(m) => {
                return Err(error(m));
            },
        }
    }
    Ok(())
}

#[verifier::loop_isolation(false)]
fn check_keys(
    path: &Vec<AttrName>,
    binding: bool,
    depth: usize,
    limits: Limits,
    count: &mut usize,
    bytes: &mut usize,
) -> (r: Result<(), Diagnostic>)
    requires
        depth <= MAX_DEPTH,
        path.len() <= MAX_DEPTH,
        *old(count) <= limits.spec_tokens(),
        *old(bytes) <= limits.spec_source_bytes(),
    ensures
        accounted(
            r is Ok,
            if binding {
                binding_keys_valid(path@, 0, depth as int)
            } else {
                keys_valid(path@, 0, depth as int)
            },
            *old(count) as int,
            *final(count) as int,
            keys_count(path@, 0) as int,
            *old(bytes) as int,
            *final(bytes) as int,
            keys_bytes(path@, 0) as int,
            limits,
        ),
        forall|s: int|
            only_depth_fails(
                #[trigger] keys_ok(path@, binding, 0, s),
                keys_ok(path@, binding, 0, depth as int),
                *old(count) as int,
                keys_count(path@, 0) as int,
                *old(bytes) as int,
                keys_bytes(path@, 0) as int,
                limits,
            ) ==> depth_reported(r, depth + path@.len() + keys_count(path@, 0)),
        keys_ok(path@, binding, 0, depth as int) && *old(bytes) + keys_bytes(path@, 0)
            <= limits.spec_source_bytes() && *old(count) + keys_count(path@, 0)
            > limits.spec_tokens() ==> nodes_reported(r, *old(count) + keys_count(path@, 0), limits),
        keys_ok(path@, binding, 0, depth as int) && *old(count) + keys_count(path@, 0) <= limits.spec_tokens() && *old(bytes) + keys_bytes(path@, 0)
            > limits.spec_source_bytes() ==> bytes_reported(r, *old(bytes) + keys_bytes(path@, 0), limits),
    decreases path,
{
    let ghost c0 = *count;
    let ghost b0 = *bytes;
    let mut i: usize = 0;
    while i < path.len()
        invariant
            0 <= i <= path.len() <= MAX_DEPTH,
            depth <= MAX_DEPTH,
            *count <= limits.spec_tokens(),
            *bytes <= limits.spec_source_bytes(),
            c0 + keys_count(path@, 0) == *count + keys_count(path@, i as int),
            b0 + keys_bytes(path@, 0) == *bytes + keys_bytes(path@, i as int),
            binding ==> binding_keys_valid(path@, 0, depth as int) == binding_keys_valid(
                path@,
                i as int,
                depth as int,
            ),
            !binding ==> keys_valid(path@, 0, depth as int) == keys_valid(
                path@,
                i as int,
                depth as int,
            ),
            forall|s: int| #[trigger] keys_ok(path@, binding, 0, s) ==> keys_ok(path@, binding, i as int, s),
            c0 <= *count,
            b0 <= *bytes,
        decreases path.len() - i,
    {
        proof {
            assert(keys_count(path@, i as int) == (match path@[i as int] {
                AttrName::Static(_) => 0,
                AttrName::Dynamic(k) => node_count(*k),
            }) + keys_count(path@, i + 1));
            assert(keys_bytes(path@, i as int) == (match path@[i as int] {
                AttrName::Static(n) => byte_len(n@),
                AttrName::Dynamic(k) => node_bytes(*k),
            }) + keys_bytes(path@, i + 1));
        }
        match &path[i] {
            AttrName::Static(name) => {
                check_attr_text(name, bytes, limits)?;
            },
            AttrName::Dynamic(key) => {
                let key_depth = if binding {
                    depth + i + 1
                } else {
                    depth + 1
                };
                let ghost c1 = *count as int;
                let ghost b1 = *bytes as int;
                let r0 = check_node(key, key_depth, limits, count, bytes);
                if r0.is_err() {
                    proof {
                        assert forall|s: int| only_depth_fails(#[trigger] keys_ok(path@, binding, 0, s), keys_ok(path@, binding, 0, depth as int), *old(count) as int, keys_count(path@, 0) as int, *old(bytes) as int, keys_bytes(path@, 0) as int, limits) implies depth_reported(r0, depth + path@.len() + keys_count(path@, 0)) by {
                            assert(keys_ok(path@, binding, i as int, s));
                            lemma_passes(r0, valid_at(**key, s + (key_depth - depth)), valid_at(**key, key_depth as int), c1, node_count(**key) as int, b1, node_bytes(**key) as int, key_depth + node_count(**key) - 1, depth + path@.len() + keys_count(path@, 0), limits);
                        }
                    }
                    return r0;
                }
            },
        }
        i += 1;
    }
    Ok(())
}

#[verifier::loop_isolation(false)]
fn check_binding(
    b: &Binding,
    local: bool,
    recursive: bool,
    depth: usize,
    limits: Limits,
    count: &mut usize,
    bytes: &mut usize,
) -> (r: Result<(), Diagnostic>)
    requires
        depth <= MAX_DEPTH,
        *old(count) <= limits.spec_tokens(),
        *old(bytes) <= limits.spec_source_bytes(),
    ensures
        accounted(
            r is Ok,
            binding_valid(*b, depth as int, local, recursive),
            *old(count) as int,
            *final(count) as int,
            binding_count(*b) as int,
            *old(bytes) as int,
            *final(bytes) as int,
            binding_bytes(*b) as int,
            limits,
        ),
        forall|s: int|
            only_depth_fails(
                #[trigger] binding_valid(*b, s, local, recursive),
                binding_valid(*b, depth as int, local, recursive),
                *old(count) as int,
                binding_count(*b) as int,
                *old(bytes) as int,
                binding_bytes(*b) as int,
                limits,
            ) ==> depth_reported(r, depth + binding_count(*b)),
        binding_valid(*b, depth as int, local, recursive) && *old(bytes) + binding_bytes(*b)
            <= limits.spec_source_bytes() && *old(count) + binding_count(*b)
            > limits.spec_tokens() ==> nodes_reported(r, *old(count) + binding_count(*b), limits),
        binding_valid(*b, depth as int, local, recursive) && *old(count) + binding_count(*b) <= limits.spec_tokens() && *old(bytes) + binding_bytes(*b)
            > limits.spec_source_bytes() ==> bytes_reported(r, *old(bytes) + binding_bytes(*b), limits),
    decreases b,
{
    match b {
        Binding::Assign { path, value } => {
            check_path_length(path.len(), limits, count)?;
            if local {
                match path[0].literal_name() {
                    Some(name) => {
                        if validate_bindable_name(name).is_err() {
                            return Err(error("reserved form is not supported yet"));
                        }
                    },
                    None => {
                        return Err(
                            error("dynamic attributes are not allowed at the root of let bindings"),
                        );
                    },
                }
            }
            let ghost c1 = *count as int;
            let ghost b1 = *bytes as int;
            let r0 = check_keys(path, true, depth, limits, count, bytes);
            if r0.is_err() {
                proof {
                    assert forall|s: int| only_depth_fails(#[trigger] binding_valid(*b, s, local, recursive), binding_valid(*b, depth as int, local, recursive), *old(count) as int, binding_count(*b) as int, *old(bytes) as int, binding_bytes(*b) as int, limits) implies depth_reported(r0, depth + binding_count(*b)) by {
                        lemma_passes(r0, keys_ok(path@, true, 0, s), keys_ok(path@, true, 0, depth as int), c1, keys_count(path@, 0) as int, b1, keys_bytes(path@, 0) as int, depth + path@.len() + keys_count(path@, 0), depth + binding_count(*b), limits);
                    }
                }
                return r0;
            }
            {
                let ghost c1 = *count as int;
                let ghost b1 = *bytes as int;
                let r0 = check_node(value, depth + path.len(), limits, count, bytes);
                proof {
                    assert forall|s: int| only_depth_fails(#[trigger] binding_valid(*b, s, local, recursive), binding_valid(*b, depth as int, local, recursive), *old(count) as int, binding_count(*b) as int, *old(bytes) as int, binding_bytes(*b) as int, limits) implies depth_reported(r0, depth + binding_count(*b)) by {
                        if r0.is_err() {
                            lemma_passes(r0, valid_at(*value, s + path@.len()), valid_at(*value, depth + path@.len()), c1, node_count(*value) as int, b1, node_bytes(*value) as int, depth + path@.len() + node_count(*value) - 1, depth + binding_count(*b), limits);
                        }
                    }
                }
                r0
            }
        },
        Binding::Inherit { source, names } => {
            count_nodes(count, names.len(), limits)?;
            let lexical = source.is_none() || local;
            let bound = local || (recursive && source.is_none());
            let ghost b0 = *bytes;
            let mut i: usize = 0;
            while i < names.len()
                invariant
                    0 <= i <= names.len(),
                    *bytes <= limits.spec_source_bytes(),
                    b0 + names_bytes(names@, 0) == *bytes + names_bytes(names@, i as int),
                    forall|j: int| 0 <= j < i ==> inherit_name_ok(#[trigger] names@[j], lexical, bound),
                decreases names.len() - i,
            {
                proof {
                    assert(names_bytes(names@, i as int) == byte_len(names@[i as int]@)
                        + names_bytes(names@, i + 1));
                }
                check_attr_text(&names[i], bytes, limits)?;
                if lexical && validate_scoped_name(names[i].as_str()).is_err() {
                    assert(!inherit_name_ok(names@[i as int], lexical, bound));
                    return Err(error("reserved form is not supported yet"));
                }
                if bound && validate_bindable_name(names[i].as_str()).is_err() {
                    assert(!inherit_name_ok(names@[i as int], lexical, bound));
                    return Err(error("reserved form is not supported yet"));
                }
                i += 1;
            }
            match source {
                Some(src) => {
                    let ghost c1 = *count as int;
                    let ghost b1 = *bytes as int;
                    let r0 = check_node(src, depth + 1, limits, count, bytes);
                    proof {
                        assert forall|s: int| only_depth_fails(#[trigger] binding_valid(*b, s, local, recursive), binding_valid(*b, depth as int, local, recursive), *old(count) as int, binding_count(*b) as int, *old(bytes) as int, binding_bytes(*b) as int, limits) implies depth_reported(r0, depth + binding_count(*b)) by {
                            if r0.is_err() {
                                lemma_passes(r0, valid_at(*src, s + 1), valid_at(*src, depth + 1), c1, node_count(*src) as int, b1, node_bytes(*src) as int, depth + node_count(*src), depth + binding_count(*b), limits);
                            }
                        }
                    }
                    r0
                },
                None => Ok(()),
            }
        },
    }
}

#[verifier::loop_isolation(false)]
fn check_set(
    bindings: &Vec<Binding>,
    local: bool,
    recursive: bool,
    depth: usize,
    limits: Limits,
    count: &mut usize,
    bytes: &mut usize,
) -> (r: Result<(), Diagnostic>)
    requires
        depth <= MAX_DEPTH,
        *old(count) <= limits.spec_tokens(),
        *old(bytes) <= limits.spec_source_bytes(),
    ensures
        accounted(
            r is Ok,
            bindings_valid(bindings@, 0, depth as int, local, recursive) && shapes_ok(bindings@),
            *old(count) as int,
            *final(count) as int,
            (bindings@.len() + bindings_count(bindings@, 0)) as int,
            *old(bytes) as int,
            *final(bytes) as int,
            bindings_bytes(bindings@, 0) as int,
            limits,
        ),
        forall|s: int|
            only_depth_fails(
                #[trigger] bindings_valid(bindings@, 0, s, local, recursive) && shapes_ok(bindings@),
                bindings_valid(bindings@, 0, depth as int, local, recursive) && shapes_ok(bindings@),
                *old(count) as int,
                (bindings@.len() + bindings_count(bindings@, 0)) as int,
                *old(bytes) as int,
                bindings_bytes(bindings@, 0) as int,
                limits,
            ) ==> depth_reported(r, depth + bindings@.len() + bindings_count(bindings@, 0)),
        bindings_valid(bindings@, 0, depth as int, local, recursive) && shapes_ok(bindings@)
            && *old(bytes) + bindings_bytes(bindings@, 0) <= limits.spec_source_bytes() && *old(
            count,
        ) + bindings@.len() + bindings_count(bindings@, 0) > limits.spec_tokens()
            ==> nodes_reported(r, *old(count) + bindings@.len() + bindings_count(bindings@, 0), limits),
        bindings_valid(bindings@, 0, depth as int, local, recursive) && shapes_ok(bindings@) && *old(count) + bindings@.len() + bindings_count(bindings@, 0) <= limits.spec_tokens() && *old(bytes) + bindings_bytes(bindings@, 0)
            > limits.spec_source_bytes() ==> bytes_reported(r, *old(bytes) + bindings_bytes(bindings@, 0), limits),
    decreases bindings,
{
    count_nodes(count, bindings.len(), limits)?;
    let ghost c0 = *count;
    let ghost b0 = *bytes;
    let mut i: usize = 0;
    while i < bindings.len()
        invariant
            0 <= i <= bindings.len(),
            depth <= MAX_DEPTH,
            *count <= limits.spec_tokens(),
            *bytes <= limits.spec_source_bytes(),
            c0 + bindings_count(bindings@, 0) == *count + bindings_count(bindings@, i as int),
            b0 + bindings_bytes(bindings@, 0) == *bytes + bindings_bytes(bindings@, i as int),
            bindings_valid(bindings@, 0, depth as int, local, recursive) == bindings_valid(
                bindings@,
                i as int,
                depth as int,
                local,
                recursive,
            ),
            forall|s: int| #[trigger] bindings_valid(bindings@, 0, s, local, recursive) ==> bindings_valid(bindings@, i as int, s, local, recursive),
            c0 <= *count,
            b0 <= *bytes,
            *old(count) + bindings@.len() == c0,
            *old(bytes) == b0,
        decreases bindings.len() - i,
    {
        proof {
            assert(bindings_count(bindings@, i as int) == binding_count(bindings@[i as int])
                + bindings_count(bindings@, i + 1));
            assert(bindings_bytes(bindings@, i as int) == binding_bytes(bindings@[i as int])
                + bindings_bytes(bindings@, i + 1));
        }
        let ghost c1 = *count as int;
        let ghost b1 = *bytes as int;
        let r0 = check_binding(&bindings[i], local, recursive, depth, limits, count, bytes);
        if r0.is_err() {
            proof {
                assert forall|s: int| only_depth_fails(#[trigger] bindings_valid(bindings@, 0, s, local, recursive) && shapes_ok(bindings@), bindings_valid(bindings@, 0, depth as int, local, recursive) && shapes_ok(bindings@), *old(count) as int, (bindings@.len() + bindings_count(bindings@, 0)) as int, *old(bytes) as int, bindings_bytes(bindings@, 0) as int, limits) implies depth_reported(r0, depth + bindings@.len() + bindings_count(bindings@, 0)) by {
                    assert(bindings_valid(bindings@, i as int, s, local, recursive));
                    lemma_passes(r0, binding_valid(bindings@[i as int], s, local, recursive), binding_valid(bindings@[i as int], depth as int, local, recursive), c1, binding_count(bindings@[i as int]) as int, b1, binding_bytes(bindings@[i as int]) as int, depth + binding_count(bindings@[i as int]), depth + bindings@.len() + bindings_count(bindings@, 0), limits);
                }
            }
            return r0;
        }
        i += 1;
    }
    match check_shapes(bindings) {
        Ok(()) => Ok(()),
        Err(m) => Err(error(m)),
    }
}

fn check_pattern(
    p: &Pattern,
    depth: usize,
    limits: Limits,
    count: &mut usize,
    bytes: &mut usize,
) -> (r: Result<(), Diagnostic>)
    requires
        depth <= MAX_DEPTH,
        *old(count) <= limits.spec_tokens(),
        *old(bytes) <= limits.spec_source_bytes(),
    ensures
        accounted(
            r is Ok,
            pattern_valid(*p, depth as int),
            *old(count) as int,
            *final(count) as int,
            pattern_count(*p) as int,
            *old(bytes) as int,
            *final(bytes) as int,
            pattern_bytes(*p) as int,
            limits,
        ),
        forall|s: int|
            only_depth_fails(
                #[trigger] pattern_valid(*p, s),
                pattern_valid(*p, depth as int),
                *old(count) as int,
                pattern_count(*p) as int,
                *old(bytes) as int,
                pattern_bytes(*p) as int,
                limits,
            ) ==> depth_reported(r, depth + pattern_count(*p)),
        pattern_valid(*p, depth as int) && *old(bytes) + pattern_bytes(*p)
            <= limits.spec_source_bytes() && *old(count) + pattern_count(*p)
            > limits.spec_tokens() ==> nodes_reported(r, *old(count) + pattern_count(*p), limits),
        pattern_valid(*p, depth as int) && *old(count) + pattern_count(*p) <= limits.spec_tokens() && *old(bytes) + pattern_bytes(*p)
            > limits.spec_source_bytes() ==> bytes_reported(r, *old(bytes) + pattern_bytes(*p), limits),
    decreases p,
{
    match p {
        Pattern::Ident(name) => match validate_parameter_name(name.as_str()) {
            Ok(()) => Ok(()),
            Err(m) => Err(error(m)),
        },
        Pattern::AttrSet { fields, bind, .. } => {
            count_nodes(count, fields.len(), limits)?;
            match bind {
                Some(b) => match validate_parameter_name(b.as_str()) {
                    Ok(()) => {},
                    Err(m) => {
                        return Err(error(m));
                    },
                },
                None => {},
            }
            {
                let ghost c1 = *count as int;
                let ghost b1 = *bytes as int;
                let r0 = check_formals(fields, bind, depth, limits, count, bytes);
                proof {
                    assert forall|s: int| only_depth_fails(#[trigger] pattern_valid(*p, s), pattern_valid(*p, depth as int), *old(count) as int, pattern_count(*p) as int, *old(bytes) as int, pattern_bytes(*p) as int, limits) implies depth_reported(r0, depth + pattern_count(*p)) by {
                        if r0.is_err() {
                            lemma_passes(r0, formals_valid(fields@, 0, s) && pattern_names_distinct(fields@, *bind), formals_valid(fields@, 0, depth as int) && pattern_names_distinct(fields@, *bind), c1, formals_count(fields@, 0) as int, b1, formals_bytes(fields@, 0) as int, depth + formals_count(fields@, 0), depth + pattern_count(*p), limits);
                        }
                    }
                }
                r0
            }
        },
    }
}

#[verifier::loop_isolation(false)]
fn check_formals(
    fields: &Vec<Formal>,
    bind: &Option<String>,
    depth: usize,
    limits: Limits,
    count: &mut usize,
    bytes: &mut usize,
) -> (r: Result<(), Diagnostic>)
    requires
        depth <= MAX_DEPTH,
        *old(count) <= limits.spec_tokens(),
        *old(bytes) <= limits.spec_source_bytes(),
    ensures
        accounted(
            r is Ok,
            formals_valid(fields@, 0, depth as int) && pattern_names_distinct(fields@, *bind),
            *old(count) as int,
            *final(count) as int,
            formals_count(fields@, 0) as int,
            *old(bytes) as int,
            *final(bytes) as int,
            formals_bytes(fields@, 0) as int,
            limits,
        ),
        forall|s: int|
            only_depth_fails(
                #[trigger] formals_valid(fields@, 0, s) && pattern_names_distinct(fields@, *bind),
                formals_valid(fields@, 0, depth as int) && pattern_names_distinct(fields@, *bind),
                *old(count) as int,
                formals_count(fields@, 0) as int,
                *old(bytes) as int,
                formals_bytes(fields@, 0) as int,
                limits,
            ) ==> depth_reported(r, depth + formals_count(fields@, 0)),
        formals_valid(fields@, 0, depth as int) && pattern_names_distinct(fields@, *bind) && *old(
            bytes,
        ) + formals_bytes(fields@, 0) <= limits.spec_source_bytes() && *old(count)
            + formals_count(fields@, 0) > limits.spec_tokens() ==> nodes_reported(
            r,
            *old(count) + formals_count(fields@, 0),
            limits,
        ),
        formals_valid(fields@, 0, depth as int) && pattern_names_distinct(fields@, *bind) && *old(count) + formals_count(fields@, 0) <= limits.spec_tokens() && *old(bytes) + formals_bytes(fields@, 0)
            > limits.spec_source_bytes() ==> bytes_reported(r, *old(bytes) + formals_bytes(fields@, 0), limits),
    decreases fields,
{
    let ghost c0 = *count;
    let ghost b0 = *bytes;
    let mut i: usize = 0;
    while i < fields.len()
        invariant
            0 <= i <= fields.len(),
            depth <= MAX_DEPTH,
            *count <= limits.spec_tokens(),
            *bytes <= limits.spec_source_bytes(),
            c0 + formals_count(fields@, 0) == *count + formals_count(fields@, i as int),
            b0 + formals_bytes(fields@, 0) == *bytes + formals_bytes(fields@, i as int),
            formals_valid(fields@, 0, depth as int) == formals_valid(
                fields@,
                i as int,
                depth as int,
            ),
            forall|s: int| #[trigger] formals_valid(fields@, 0, s) ==> formals_valid(fields@, i as int, s),
            c0 <= *count,
            b0 <= *bytes,
            forall|a: int, c: int|
                0 <= a < c < i ==> #[trigger] fields@[a].name@ != #[trigger] fields@[c].name@,
            bind matches Some(b) ==> forall|a: int| 0 <= a < i ==> #[trigger] fields@[a].name@ != b@,
        decreases fields.len() - i,
    {
        let field = &fields[i];
        proof {
            assert(formals_count(fields@, i as int) == (match fields@[i as int].default {
                Some(d) => node_count(d),
                None => 0,
            }) + formals_count(fields@, i + 1));
            assert(formals_bytes(fields@, i as int) == (match fields@[i as int].default {
                Some(d) => node_bytes(d),
                None => 0,
            }) + formals_bytes(fields@, i + 1));
        }
        match validate_parameter_name(field.name.as_str()) {
            Ok(()) => {},
            Err(m) => {
                return Err(error(m));
            },
        }
        match bind {
            Some(b) => {
                if text_eq(field.name.as_str(), b.as_str()) {
                    assert(!pattern_names_distinct(fields@, *bind)) by {
                        assert(fields@[i as int].name@ == b@);
                    }
                    return Err(error("duplicate lambda parameter"));
                }
            },
            None => {},
        }
        let mut j: usize = 0;
        while j < i
            invariant
                0 <= j <= i < fields.len(),
                *field == fields@[i as int],
                forall|a: int| 0 <= a < j ==> #[trigger] fields@[a].name@ != field.name@,
            decreases i - j,
        {
            if text_eq(fields[j].name.as_str(), field.name.as_str()) {
                assert(!pattern_names_distinct(fields@, *bind)) by {
                    assert(fields@[j as int].name@ == fields@[i as int].name@);
                }
                return Err(error("duplicate lambda parameter"));
            }
            j += 1;
        }
        match &field.default {
            Some(d) => {
                let ghost c1 = *count as int;
                let ghost b1 = *bytes as int;
                let r0 = check_node(d, depth + 1, limits, count, bytes);
                if r0.is_err() {
                    proof {
                        assert forall|s: int| only_depth_fails(#[trigger] formals_valid(fields@, 0, s) && pattern_names_distinct(fields@, *bind), formals_valid(fields@, 0, depth as int) && pattern_names_distinct(fields@, *bind), *old(count) as int, formals_count(fields@, 0) as int, *old(bytes) as int, formals_bytes(fields@, 0) as int, limits) implies depth_reported(r0, depth + formals_count(fields@, 0)) by {
                            assert(formals_valid(fields@, i as int, s));
                            lemma_passes(r0, valid_at(*d, s + 1), valid_at(*d, depth + 1), c1, node_count(*d) as int, b1, node_bytes(*d) as int, depth + node_count(*d), depth + formals_count(fields@, 0), limits);
                        }
                    }
                    return r0;
                }
            },
            None => {},
        }
        i += 1;
    }
    Ok(())
}

// ---------------------------------------------------------------------------
// Shapes.

/// One declared path, borrowing the names from the expression.
struct Shape<'a> {
    path: Vec<&'a str>,
    set: bool,
}

spec fn names_view(v: Seq<&str>) -> Seq<Seq<char>> {
    v.map_values(|s: &str| s@)
}

spec fn shape_view(e: Shape) -> ShapeEvent {
    (names_view(e.path@), e.set)
}

spec fn shapes_view(v: Seq<Shape>) -> Seq<ShapeEvent> {
    v.map_values(|e: Shape| shape_view(e))
}

fn copy_names<'a>(v: &Vec<&'a str>) -> (r: Vec<&'a str>)
    ensures
        names_view(r@) == names_view(v@),
{
    let mut out: Vec<&'a str> = Vec::new();
    let mut i: usize = 0;
    while i < v.len()
        invariant
            0 <= i <= v.len(),
            out@.len() == i,
            forall|k: int| 0 <= k < i ==> out@[k]@ == v@[k]@,
        decreases v.len() - i,
    {
        out.push(v[i]);
        i += 1;
    }
    assert(names_view(out@) =~= names_view(v@));
    out
}

#[verifier::loop_isolation(false)]
fn collect_binding<'a>(b: &'a Binding, prefix: &Vec<&'a str>, out: &mut Vec<Shape<'a>>)
    ensures
        shapes_view(final(out)@) == shapes_view(old(out)@) + binding_events(
            *b,
            names_view(prefix@),
        ),
    decreases b,
{
    let ghost pre = names_view(prefix@);
    let ghost start = shapes_view(out@);
    match b {
        Binding::Assign { path, value } => {
            let value_is_set = match value {
                Expr::AttrSet { .. } => true,
                _ => false,
            };
            let ghost own = assign_events(pre, path@, value_is_set);
            let mut names: Vec<&'a str> = copy_names(prefix);
            let mut i: usize = 0;
            let mut all_literal = true;
            while i < path.len()
                invariant
                    0 <= i <= path.len(),
                    pre == names_view(prefix@),
                    start == shapes_view(old(out)@),
                    own == assign_events(pre, path@, value_is_set),
                    literal_prefix_len(path@) == i + literal_run(path@, i as int),
                    names@.len() == pre.len() + i,
                    forall|k: int| 0 <= k < pre.len() ==> #[trigger] names@[k]@ == pre[k],
                    forall|k: int|
                        0 <= k < i ==> names@[pre.len() + k]@ == spec_literal_name(
                            #[trigger] path@[k],
                        )->0,
                    forall|k: int| 0 <= k < i ==> spec_literal_name(#[trigger] path@[k]) is Some,
                    out@.len() == start.len() + i,
                    forall|k: int| 0 <= k < start.len() ==> shape_view(#[trigger] out@[k]) == start[k],
                    forall|k: int|
                        start.len() <= k < start.len() + i ==> shape_view(#[trigger] out@[k])
                            == own[k - start.len()],
                    all_literal,
                    value_is_set == value is AttrSet,
                decreases path.len() - i,
            {
                match path[i].literal_name() {
                    Some(name) => {
                        names.push(name);
                        let copy = copy_names(&names);
                        let set = i + 1 < path.len() || value_is_set;
                        proof {
                            assert(literal_run(path@, i as int) == 1 + literal_run(path@, i + 1));
                            let lp = literal_prefix(path@);
                            assert(names_view(copy@) =~= pre + lp.subrange(0, i + 1)) by {
                                assert forall|k: int| 0 <= k < pre.len() + i + 1 implies names_view(
                                    copy@,
                                )[k] == (pre + lp.subrange(0, i + 1))[k] by {
                                    if k >= pre.len() {
                                        assert(lp[k - pre.len()] == spec_literal_name(
                                            path@[k - pre.len()],
                                        )->0);
                                    }
                                }
                            }
                        }
                        out.push(Shape { path: copy, set });
                        i += 1;
                    },
                    None => {
                        all_literal = false;
                        break;
                    },
                }
            }
            proof {
                assert(literal_run(path@, i as int) == 0);
                assert(shapes_view(out@) =~= start + own);
            }
            if all_literal && i == path.len() {
                match value {
                    Expr::AttrSet { bindings, .. } => {
                        proof {
                            let lp = literal_prefix(path@);
                            assert(names_view(names@) =~= pre + lp) by {
                                assert forall|k: int| 0 <= k < names@.len() implies names_view(
                                    names@,
                                )[k] == (pre + lp)[k] by {
                                    if k >= pre.len() {
                                        assert(lp[k - pre.len()] == spec_literal_name(
                                            path@[k - pre.len()],
                                        )->0);
                                    }
                                }
                            }
                        }
                        collect_bindings(bindings, &names, out);
                    },
                    _ => {},
                }
            }
        },
        Binding::Inherit { names, .. } => {
            let ghost own = Seq::new(names@.len(), |k: int| (pre.push(names@[k]@), false));
            let mut i: usize = 0;
            while i < names.len()
                invariant
                    0 <= i <= names.len(),
                    pre == names_view(prefix@),
                    start == shapes_view(old(out)@),
                    own == Seq::new(names@.len(), |k: int| (pre.push(names@[k]@), false)),
                    out@.len() == start.len() + i,
                    forall|k: int| 0 <= k < start.len() ==> shape_view(#[trigger] out@[k]) == start[k],
                    forall|k: int|
                        start.len() <= k < start.len() + i ==> shape_view(#[trigger] out@[k])
                            == own[k - start.len()],
                decreases names.len() - i,
            {
                let mut path = copy_names(prefix);
                let ghost p0 = names_view(path@);
                path.push(names[i].as_str());
                assert(names_view(path@) =~= p0.push(names@[i as int]@));
                out.push(Shape { path, set: false });
                i += 1;
            }
            assert(shapes_view(out@) =~= start + own);
        },
    }
}

#[verifier::loop_isolation(false)]
fn collect_bindings<'a>(bindings: &'a Vec<Binding>, prefix: &Vec<&'a str>, out: &mut Vec<Shape<'a>>)
    ensures
        shapes_view(final(out)@) == shapes_view(old(out)@) + bindings_events(
            bindings@,
            0,
            names_view(prefix@),
        ),
    decreases bindings,
{
    let ghost pre = names_view(prefix@);
    let ghost start = shapes_view(out@);
    let mut i: usize = 0;
    while i < bindings.len()
        invariant
            0 <= i <= bindings.len(),
            pre == names_view(prefix@),
            start + bindings_events(bindings@, 0, pre) =~= shapes_view(out@) + bindings_events(
                bindings@,
                i as int,
                pre,
            ),
        decreases bindings.len() - i,
    {
        let ghost before = shapes_view(out@);
        collect_binding(&bindings[i], prefix, out);
        assert(before + bindings_events(bindings@, i as int, pre) =~= shapes_view(out@)
            + bindings_events(bindings@, i + 1, pre));
        i += 1;
    }
}

fn same_names(a: &Vec<&str>, b: &Vec<&str>) -> (r: bool)
    ensures
        r == (names_view(a@) == names_view(b@)),
{
    if a.len() != b.len() {
        assert(names_view(a@).len() != names_view(b@).len());
        return false;
    }
    let mut i: usize = 0;
    while i < a.len()
        invariant
            0 <= i <= a.len() == b.len(),
            forall|k: int| 0 <= k < i ==> a@[k]@ == b@[k]@,
        decreases a.len() - i,
    {
        if !text_eq(a[i], b[i]) {
            assert(names_view(a@)[i as int] != names_view(b@)[i as int]);
            return false;
        }
        i += 1;
    }
    assert(names_view(a@) =~= names_view(b@));
    true
}

/// Reject bindings whose statically known paths conflict: a path declared
/// twice must declare a literal set both times.
#[verifier::loop_isolation(false)]
pub(crate) fn check_shapes(bindings: &Vec<Binding>) -> (r: Result<(), &'static str>)
    ensures
        r is Ok <==> shapes_ok(bindings@),
        r matches Err(m) ==> m@ == "conflicting attribute bindings"@,
{
    let mut events: Vec<Shape> = Vec::new();
    let empty: Vec<&str> = Vec::new();
    assert(names_view(empty@) =~= Seq::<Seq<char>>::empty());
    collect_bindings(bindings, &empty, &mut events);
    let ghost ev = bindings_events(bindings@, 0, Seq::empty());
    assert(shapes_view(events@) =~= ev);
    let mut j: usize = 0;
    while j < events.len()
        invariant
            0 <= j <= events.len(),
            shapes_view(events@) == ev,
            forall|a: int, c: int|
                0 <= a < c < j && (#[trigger] ev[a]).0 == (#[trigger] ev[c]).0 ==> ev[a].1 && ev[c].1,
        decreases events.len() - j,
    {
        let mut i: usize = 0;
        while i < j
            invariant
                0 <= i <= j < events.len(),
                shapes_view(events@) == ev,
                forall|a: int, c: int|
                    0 <= a < c < j && (#[trigger] ev[a]).0 == (#[trigger] ev[c]).0 ==> ev[a].1
                        && ev[c].1,
                forall|a: int| 0 <= a < i && (#[trigger] ev[a]).0 == ev[j as int].0 ==> ev[a].1 && ev[j as int].1,
            decreases j - i,
        {
            assert(ev[i as int] == shape_view(events@[i as int]));
            assert(ev[j as int] == shape_view(events@[j as int]));
            if same_names(&events[i].path, &events[j].path) && !(events[i].set && events[j].set) {
                assert(!no_conflicts(ev)) by {
                    assert(ev[i as int].0 == ev[j as int].0 && !(ev[i as int].1 && ev[j as int].1));
                }
                return Err("conflicting attribute bindings");
            }
            i += 1;
        }
        assert forall|a: int, c: int|
            0 <= a < c < j + 1 && (#[trigger] ev[a]).0 == (#[trigger] ev[c]).0 implies ev[a].1
            && ev[c].1 by {
            if c == j {
            }
        }
        j += 1;
    }
    Ok(())
}

impl Expr {
    /// Equality is already canonical for this subset; no evaluation or folding occurs.
    pub fn canonical(&self) -> (r: &Expr)
        ensures
            r == self,
    {
        self
    }

    /// Validate names, literals, binding shapes, semantic depth and the
    /// node and literal-byte budgets. Where only the depth bound fails, the
    /// diagnostic names the depth of a node past it; where only the node
    /// or only the literal-byte budget fails, the count that passed it.
    pub fn validate(&self, limits: Limits) -> (r: Result<(), Diagnostic>)
        ensures
            r is Ok <==> expr_valid(*self, limits),
            limits.spec_tokens() >= 1 ==> (*self matches Expr::Integer(v) ==> (v
                > 0x7fff_ffff_ffff_ffff ==> (r matches Err(d) && d.message@
                == "integer literal exceeds the Nix signed 64-bit range"@))),
        valid_but_for_depth(*self) && !valid_at(*self, 1) && node_count(*self)
            <= limits.spec_tokens() && node_bytes(*self) <= limits.spec_source_bytes()
            ==> depth_reported(r, node_count(*self) as int),
        valid_at(*self, 1) && node_bytes(*self) <= limits.spec_source_bytes() && node_count(*self)
            > limits.spec_tokens() ==> nodes_reported(r, node_count(*self) as int, limits),
        valid_at(*self, 1) && node_count(*self) <= limits.spec_tokens() && node_bytes(*self)
            > limits.spec_source_bytes() ==> bytes_reported(r, node_bytes(*self) as int, limits),
    {
        let mut count: usize = 0;
        let mut bytes: usize = 0;
        check_node(self, 1, limits, &mut count, &mut bytes)
    }
}

} // verus!
