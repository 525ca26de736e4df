//! The semantic expression tree shared by both dialects.
use vstd::prelude::*;

use crate::text::{chars_of, text_eq};
use vstd::string::StringExecFns;

pub mod float;
pub mod path;
pub mod validate;

pub use float::Float;

verus! {

/// Nix semantics, without source locations, trivia, or redundant parentheses.
#[derive(Debug, PartialEq, Eq)]
pub enum Expr {
    /// A nonnegative integer literal, at most `i64::MAX`. Negation is separate.
    Integer(u64),
    Float(Float),
    Variable(String),
    /// Nix's `__curPos`, which evaluates to the source location of its use.
    CurrentPosition,
    /// A literal source-relative path, retaining its spelling without resolution.
    RelativePath(String),
    /// A literal absolute path, retaining its spelling without filesystem access.
    AbsolutePath(String),
    /// A literal home-relative path, retaining `~/` without consulting the environment.
    HomePath(String),
    /// Raw path fragments and unevaluated interpolations. The first literal
    /// contains the path prefix; literals are nonempty and nonadjacent.
    /// At least one interpolation is required. No resolution or folding occurs.
    InterpolatedPath(Vec<StringPart>),
    /// An unresolved search-path expression, including its `<...>` delimiters.
    SearchPath(String),
    /// Decoded parts, with no empty or adjacent literals. An empty vector is "".
    String(Vec<StringPart>),
    /// Ordered, unevaluated elements; nesting is preserved.
    List(Vec<Expr>),
    AttrSet { recursive: bool, bindings: Vec<Binding> },
    /// Lazy, mutually recursive bindings in scope for the body.
    Let { bindings: Vec<Binding>, body: Box<Expr> },
    /// Expose the scope's attributes to the body using Nix's with semantics.
    With { scope: Box<Expr>, body: Box<Expr> },
    /// Require a true Boolean condition before evaluating the body, as in Nix.
    Assert { condition: Box<Expr>, body: Box<Expr> },
    /// Evaluate the condition, then only the selected branch, using Nix semantics.
    If { condition: Box<Expr>, then_branch: Box<Expr>, else_branch: Box<Expr> },
    Select {
        value: Box<Expr>,
        /// One ordered path, including unevaluated dynamic key expressions.
        path: Vec<AttrName>,
        default: Option<Box<Expr>>,
    },
    /// Test one complete path without forcing the final attribute's value.
    HasAttr { value: Box<Expr>, path: Vec<AttrName> },
    Lambda { parameter: Pattern, body: Box<Expr> },
    Apply { function: Box<Expr>, argument: Box<Expr> },
    Negate(Box<Expr>),
    Not(Box<Expr>),
    Binary { op: BinaryOp, left: Box<Expr>, right: Box<Expr> },
}

/// An attribute key. Quoted interpolation retains its `Expr::String` wrapper
/// to preserve Nix's string coercion; direct keys keep their original expression.
#[derive(Debug, PartialEq, Eq)]
pub enum AttrName {
    /// Decoded text; dots within a name are not path separators.
    Static(String),
    Dynamic(Box<Expr>),
}

/// Literal fragments and interpolation expressions. The containing string or
/// path determines Nix's coercion and context handling.
#[derive(Debug, PartialEq, Eq)]
pub enum StringPart {
    Literal(String),
    Interpolation(Expr),
}

/// Keep source order and grouping: literal-set merges can depend on which
/// declaration introduced a recursive set. Inheritance has its own scope.
#[derive(Debug, PartialEq, Eq)]
pub enum Binding {
    Assign {
        /// Ordered static/dynamic keys; dotted paths retain their implicit sets.
        path: Vec<AttrName>,
        value: Expr,
    },
    Inherit { source: Option<Expr>, names: Vec<String> },
}

/// A single Nix argument, optionally destructured into named attributes.
#[derive(Debug, PartialEq, Eq)]
pub enum Pattern {
    Ident(String),
    AttrSet { fields: Vec<Formal>, ellipsis: bool, bind: Option<String> },
}

#[derive(Debug, PartialEq, Eq)]
pub struct Formal {
    pub name: String,
    /// Evaluated lazily in the parameter scope when the attribute is absent.
    pub default: Option<Expr>,
}

#[derive(Debug, Clone, Copy, PartialEq, Eq)]
pub enum BinaryOp {
    Add,
    Subtract,
    Multiply,
    Divide,
    Equal,
    NotEqual,
    Less,
    LessOrEqual,
    Greater,
    GreaterOrEqual,
    And,
    Or,
    Update,
    Concat,
}

/// `b` is a deep copy of `a`: the same tree, each vector holding copies of
/// the same elements in the same order.
pub open spec fn copy_of(a: Expr, b: Expr) -> bool
    decreases a,
{
    match a {
        Expr::InterpolatedPath(ps) => b matches Expr::InterpolatedPath(qs) && parts_copy(ps@, qs@),
        Expr::String(ps) => b matches Expr::String(qs) && parts_copy(ps@, qs@),
        Expr::List(xs) => b matches Expr::List(ys) && items_copy(xs@, ys@),
        Expr::AttrSet { recursive, bindings } => b matches Expr::AttrSet {
            recursive: r2,
            bindings: b2,
        } && r2 == recursive && bindings_copy(bindings@, b2@),
        Expr::Let { bindings, body } => b matches Expr::Let { bindings: b2, body: y }
            && bindings_copy(bindings@, b2@) && copy_of(*body, *y),
        Expr::With { scope, body } => b matches Expr::With { scope: s2, body: y } && copy_of(
            *scope,
            *s2,
        ) && copy_of(*body, *y),
        Expr::Assert { condition, body } => b matches Expr::Assert { condition: c2, body: y }
            && copy_of(*condition, *c2) && copy_of(*body, *y),
        Expr::If { condition, then_branch, else_branch } => b matches Expr::If {
            condition: c2,
            then_branch: t2,
            else_branch: e2,
        } && copy_of(*condition, *c2) && copy_of(*then_branch, *t2) && copy_of(
            *else_branch,
            *e2,
        ),
        Expr::Select { value, path, default } => b matches Expr::Select {
            value: v2,
            path: p2,
            default: d2,
        } && copy_of(*value, *v2) && path_copy(path@, p2@) && match default {
            Some(d) => d2 matches Some(y) && copy_of(*d, *y),
            None => d2 is None,
        },
        Expr::HasAttr { value, path } => b matches Expr::HasAttr { value: v2, path: p2 } && copy_of(
            *value,
            *v2,
        ) && path_copy(path@, p2@),
        Expr::Lambda { parameter, body } => b matches Expr::Lambda { parameter: q, body: y }
            && pattern_copy(parameter, q) && copy_of(*body, *y),
        Expr::Apply { function, argument } => b matches Expr::Apply { function: f2, argument: y }
            && copy_of(*function, *f2) && copy_of(*argument, *y),
        Expr::Negate(v) => b matches Expr::Negate(y) && copy_of(*v, *y),
        Expr::Not(v) => b matches Expr::Not(y) && copy_of(*v, *y),
        Expr::Binary { op, left, right } => b matches Expr::Binary { op: o, left: l, right: r }
            && o == op && copy_of(*left, *l) && copy_of(*right, *r),
        _ => b == a,
    }
}

/// Element by element deep copies.
pub open spec fn items_copy(a: Seq<Expr>, b: Seq<Expr>) -> bool
    decreases a,
{
    if a.len() != b.len() {
        false
    } else if a.len() == 0 {
        true
    } else {
        items_copy(a.subrange(0, a.len() - 1), b.subrange(0, b.len() - 1)) && copy_of(
            a[a.len() - 1],
            b[b.len() - 1],
        )
    }
}

pub open spec fn part_copy(a: StringPart, b: StringPart) -> bool
    decreases a,
{
    match a {
        StringPart::Literal(_) => b == a,
        StringPart::Interpolation(e) => b matches StringPart::Interpolation(f) && copy_of(e, f),
    }
}

pub open spec fn parts_copy(a: Seq<StringPart>, b: Seq<StringPart>) -> bool
    decreases a,
{
    if a.len() != b.len() {
        false
    } else if a.len() == 0 {
        true
    } else {
        parts_copy(a.subrange(0, a.len() - 1), b.subrange(0, b.len() - 1)) && part_copy(
            a[a.len() - 1],
            b[b.len() - 1],
        )
    }
}

pub open spec fn attr_copy(a: AttrName, b: AttrName) -> bool
    decreases a,
{
    match a {
        AttrName::Static(_) => b == a,
        AttrName::Dynamic(k) => b matches AttrName::Dynamic(k2) && copy_of(*k, *k2),
    }
}

pub open spec fn path_copy(a: Seq<AttrName>, b: Seq<AttrName>) -> bool
    decreases a,
{
    if a.len() != b.len() {
        false
    } else if a.len() == 0 {
        true
    } else {
        path_copy(a.subrange(0, a.len() - 1), b.subrange(0, b.len() - 1)) && attr_copy(
            a[a.len() - 1],
            b[b.len() - 1],
        )
    }
}

pub open spec fn binding_copy(a: Binding, b: Binding) -> bool
    decreases a,
{
    match a {
        Binding::Assign { path, value } => b matches Binding::Assign { path: p2, value: v2 }
            && path_copy(path@, p2@) && copy_of(value, v2),
        Binding::Inherit { source, names } => b matches Binding::Inherit { source: s2, names: n2 }
            && n2@ == names@ && match source {
            Some(v) => s2 matches Some(y) && copy_of(v, y),
            None => s2 is None,
        },
    }
}

pub open spec fn bindings_copy(a: Seq<Binding>, b: Seq<Binding>) -> bool
    decreases a,
{
    if a.len() != b.len() {
        false
    } else if a.len() == 0 {
        true
    } else {
        bindings_copy(a.subrange(0, a.len() - 1), b.subrange(0, b.len() - 1)) && binding_copy(
            a[a.len() - 1],
            b[b.len() - 1],
        )
    }
}

pub open spec fn formal_copy(a: Formal, b: Formal) -> bool
    decreases a,
{
    b.name == a.name && match a.default {
        Some(d) => b.default matches Some(y) && copy_of(d, y),
        None => b.default is None,
    }
}

pub open spec fn formals_copy(a: Seq<Formal>, b: Seq<Formal>) -> bool
    decreases a,
{
    if a.len() != b.len() {
        false
    } else if a.len() == 0 {
        true
    } else {
        formals_copy(a.subrange(0, a.len() - 1), b.subrange(0, b.len() - 1)) && formal_copy(
            a[a.len() - 1],
            b[b.len() - 1],
        )
    }
}

pub open spec fn pattern_copy(a: Pattern, b: Pattern) -> bool
    decreases a,
{
    match a {
        Pattern::Ident(_) => b == a,
        Pattern::AttrSet { fields, ellipsis, bind } => b matches Pattern::AttrSet {
            fields: f2,
            ellipsis: e2,
            bind: b2,
        } && e2 == ellipsis && b2 == bind && formals_copy(fields@, f2@),
    }
}

/// A deep copy of an expression.
pub(crate) fn clone_expr(e: &Expr) -> (r: Expr)
    ensures
        copy_of(*e, r),
    decreases e,
{
    match e {
        Expr::Integer(v) => Expr::Integer(*v),
        Expr::Float(f) => Expr::Float(*f),
        Expr::Variable(n) => Expr::Variable(n.clone()),
        Expr::CurrentPosition => Expr::CurrentPosition,
        Expr::RelativePath(p) => Expr::RelativePath(p.clone()),
        Expr::AbsolutePath(p) => Expr::AbsolutePath(p.clone()),
        Expr::HomePath(p) => Expr::HomePath(p.clone()),
        Expr::InterpolatedPath(parts) => Expr::InterpolatedPath(clone_parts(parts)),
        Expr::SearchPath(p) => Expr::SearchPath(p.clone()),
        Expr::String(parts) => Expr::String(clone_parts(parts)),
        Expr::List(items) => Expr::List(clone_items(items)),
        Expr::AttrSet { recursive, bindings } => Expr::AttrSet {
            recursive: *recursive,
            bindings: clone_bindings(bindings),
        },
        Expr::Let { bindings, body } => Expr::Let {
            bindings: clone_bindings(bindings),
            body: Box::new(clone_expr(body)),
        },
        Expr::With { scope, body } => Expr::With {
            scope: Box::new(clone_expr(scope)),
            body: Box::new(clone_expr(body)),
        },
        Expr::Assert { condition, body } => Expr::Assert {
            condition: Box::new(clone_expr(condition)),
            body: Box::new(clone_expr(body)),
        },
        Expr::If { condition, then_branch, else_branch } => Expr::If {
            condition: Box::new(clone_expr(condition)),
            then_branch: Box::new(clone_expr(then_branch)),
            else_branch: Box::new(clone_expr(else_branch)),
        },
        Expr::Select { value, path, default } => Expr::Select {
            value: Box::new(clone_expr(value)),
            path: clone_path(path),
            default: match default {
                Some(d) => Some(Box::new(clone_expr(d))),
                None => None,
            },
        },
        Expr::HasAttr { value, path } => Expr::HasAttr {
            value: Box::new(clone_expr(value)),
            path: clone_path(path),
        },
        Expr::Lambda { parameter, body } => Expr::Lambda {
            parameter: clone_pattern(parameter),
            body: Box::new(clone_expr(body)),
        },
        Expr::Apply { function, argument } => Expr::Apply {
            function: Box::new(clone_expr(function)),
            argument: Box::new(clone_expr(argument)),
        },
        Expr::Negate(v) => Expr::Negate(Box::new(clone_expr(v))),
        Expr::Not(v) => Expr::Not(Box::new(clone_expr(v))),
        Expr::Binary { op, left, right } => Expr::Binary {
            op: *op,
            left: Box::new(clone_expr(left)),
            right: Box::new(clone_expr(right)),
        },
    }
}

fn clone_items(items: &Vec<Expr>) -> (r: Vec<Expr>)
    ensures
        items_copy(items@, r@),
    decreases items,
{
    let mut out: Vec<Expr> = Vec::new();
    let mut i: usize = 0;
    while i < items.len()
        invariant
            i <= items@.len(),
            items_copy(items@.subrange(0, i as int), out@),
        decreases items.len() - i,
    {
        let c = clone_expr(&items[i]);
        let ghost before = out@;
        let ghost gc = c;
        out.push(c);
        proof {
            assert(items@.subrange(0, i + 1).subrange(0, i as int) =~= items@.subrange(0, i as int));
            assert(out@.subrange(0, i as int) =~= before);
            assert(items@.subrange(0, i + 1)[i as int] == items@[i as int]);
            assert(out@[i as int] == gc);
        }
        i += 1;
    }
    proof {
        assert(items@.subrange(0, items@.len() as int) =~= items@);
    }
    out
}

fn clone_formals(fields: &Vec<Formal>) -> (r: Vec<Formal>)
    ensures
        formals_copy(fields@, r@),
    decreases fields,
{
    let mut out: Vec<Formal> = Vec::new();
    let mut i: usize = 0;
    while i < fields.len()
        invariant
            i <= fields@.len(),
            formals_copy(fields@.subrange(0, i as int), out@),
        decreases fields.len() - i,
    {
        let c = clone_formal(&fields[i]);
        let ghost before = out@;
        let ghost gc = c;
        out.push(c);
        proof {
            assert(fields@.subrange(0, i + 1).subrange(0, i as int) =~= fields@.subrange(0, i as int));
            assert(out@.subrange(0, i as int) =~= before);
            assert(fields@.subrange(0, i + 1)[i as int] == fields@[i as int]);
            assert(out@[i as int] == gc);
        }
        i += 1;
    }
    proof {
        assert(fields@.subrange(0, fields@.len() as int) =~= fields@);
    }
    out
}

fn clone_parts(parts: &Vec<StringPart>) -> (r: Vec<StringPart>)
    ensures
        parts_copy(parts@, r@),
    decreases parts,
{
    let mut out: Vec<StringPart> = Vec::new();
    let mut i: usize = 0;
    while i < parts.len()
        invariant
            i <= parts@.len(),
            parts_copy(parts@.subrange(0, i as int), out@),
        decreases parts.len() - i,
    {
        let c = match &parts[i] {
            StringPart::Literal(t) => StringPart::Literal(t.clone()),
            StringPart::Interpolation(e) => StringPart::Interpolation(clone_expr(e)),
        };
        assert(part_copy(parts@[i as int], c));
        let ghost before = out@;
        let ghost gc = c;
        out.push(c);
        proof {
            assert(parts@.subrange(0, i + 1).subrange(0, i as int) =~= parts@.subrange(0, i as int));
            assert(out@.subrange(0, i as int) =~= before);
            assert(parts@.subrange(0, i + 1)[i as int] == parts@[i as int]);
            assert(out@[i as int] == gc);
        }
        i += 1;
    }
    proof {
        assert(parts@.subrange(0, parts@.len() as int) =~= parts@);
    }
    out
}

fn clone_attr_name(name: &AttrName) -> (r: AttrName)
    ensures
        attr_copy(*name, r),
    decreases name,
{
    match name {
        AttrName::Static(n) => AttrName::Static(n.clone()),
        AttrName::Dynamic(k) => AttrName::Dynamic(Box::new(clone_expr(k))),
    }
}

fn clone_path(path: &Vec<AttrName>) -> (r: Vec<AttrName>)
    ensures
        path_copy(path@, r@),
    decreases path,
{
    let mut out: Vec<AttrName> = Vec::new();
    let mut i: usize = 0;
    while i < path.len()
        invariant
            i <= path@.len(),
            path_copy(path@.subrange(0, i as int), out@),
        decreases path.len() - i,
    {
        let c = clone_attr_name(&path[i]);
        let ghost before = out@;
        let ghost gc = c;
        out.push(c);
        proof {
            assert(path@.subrange(0, i + 1).subrange(0, i as int) =~= path@.subrange(0, i as int));
            assert(out@.subrange(0, i as int) =~= before);
            assert(path@.subrange(0, i + 1)[i as int] == path@[i as int]);
            assert(out@[i as int] == gc);
        }
        i += 1;
    }
    proof {
        assert(path@.subrange(0, path@.len() as int) =~= path@);
    }
    out
}

fn clone_strings(names: &Vec<String>) -> (r: Vec<String>)
    ensures
        r@ == names@,
{
    let mut out: Vec<String> = Vec::new();
    let mut i: usize = 0;
    while i < names.len()
        invariant
            i <= names@.len(),
            out@ == names@.subrange(0, i as int),
        decreases names.len() - i,
    {
        out.push(names[i].clone());
        i += 1;
    }
    proof {
        assert(names@.subrange(0, names@.len() as int) =~= names@);
    }
    out
}

fn clone_binding(b: &Binding) -> (r: Binding)
    ensures
        binding_copy(*b, r),
    decreases b,
{
    match b {
        Binding::Assign { path, value } => Binding::Assign {
            path: clone_path(path),
            value: clone_expr(value),
        },
        Binding::Inherit { source, names } => Binding::Inherit {
            source: match source {
                Some(s) => Some(clone_expr(s)),
                None => None,
            },
            names: clone_strings(names),
        },
    }
}

fn clone_bindings(bindings: &Vec<Binding>) -> (r: Vec<Binding>)
    ensures
        bindings_copy(bindings@, r@),
    decreases bindings,
{
    let mut out: Vec<Binding> = Vec::new();
    let mut i: usize = 0;
    while i < bindings.len()
        invariant
            i <= bindings@.len(),
            bindings_copy(bindings@.subrange(0, i as int), out@),
        decreases bindings.len() - i,
    {
        let c = clone_binding(&bindings[i]);
        let ghost before = out@;
        let ghost gc = c;
        out.push(c);
        proof {
            assert(bindings@.subrange(0, i + 1).subrange(0, i as int) =~= bindings@.subrange(0, i as int));
            assert(out@.subrange(0, i as int) =~= before);
            assert(bindings@.subrange(0, i + 1)[i as int] == bindings@[i as int]);
            assert(out@[i as int] == gc);
        }
        i += 1;
    }
    proof {
        assert(bindings@.subrange(0, bindings@.len() as int) =~= bindings@);
    }
    out
}

fn clone_formal(f: &Formal) -> (r: Formal)
    ensures
        formal_copy(*f, r),
    decreases f,
{
    Formal {
        name: f.name.clone(),
        default: match &f.default {
            Some(d) => Some(clone_expr(d)),
            None => None,
        },
    }
}

fn clone_pattern(p: &Pattern) -> (r: Pattern)
    ensures
        pattern_copy(*p, r),
    decreases p,
{
    match p {
        Pattern::Ident(n) => Pattern::Ident(n.clone()),
        Pattern::AttrSet { fields, ellipsis, bind } => {
            Pattern::AttrSet {
                fields: clone_formals(fields),
                ellipsis: *ellipsis,
                bind: match bind {
                    Some(b) => Some(b.clone()),
                    None => None,
                },
            }
        },
    }
}

impl Clone for Expr {
    fn clone(&self) -> Expr {
        clone_expr(self)
    }
}

impl Clone for StringPart {
    fn clone(&self) -> StringPart {
        match self {
            StringPart::Literal(t) => StringPart::Literal(t.clone()),
            StringPart::Interpolation(e) => StringPart::Interpolation(clone_expr(e)),
        }
    }
}

impl Clone for AttrName {
    fn clone(&self) -> AttrName {
        clone_attr_name(self)
    }
}

impl Clone for Binding {
    fn clone(&self) -> Binding {
        clone_binding(self)
    }
}

impl Clone for Pattern {
    fn clone(&self) -> Pattern {
        clone_pattern(self)
    }
}

impl Clone for Formal {
    fn clone(&self) -> Formal {
        clone_formal(self)
    }
}

impl From<String> for AttrName {
    fn from(name: String) -> (r: AttrName)
        ensures
            r == AttrName::Static(name),
    {
        AttrName::Static(name)
    }
}

impl<'a> From<&'a str> for AttrName {
    fn from(name: &'a str) -> (r: AttrName)
        ensures
            r matches AttrName::Static(n) && n@ == name@,
    {
        AttrName::Static(name.to_owned())
    }
}

impl<'a> vstd::std_specs::convert::FromSpecImpl<&'a str> for AttrName {
    open spec fn obeys_from_spec() -> bool {
        false
    }

    open spec fn from_spec(v: &'a str) -> AttrName {
        choose|a: AttrName| #[trigger] spec_literal_name(a) == Some(v@) && a is Static
    }
}

impl vstd::std_specs::convert::FromSpecImpl<String> for AttrName {
    open spec fn obeys_from_spec() -> bool {
        true
    }

    open spec fn from_spec(v: String) -> AttrName {
        AttrName::Static(v)
    }
}

/// The native spelling of a binary operator.
pub open spec fn spec_spelling(op: BinaryOp) -> Seq<char> {
    match op {
        BinaryOp::Add => "+"@,
        BinaryOp::Subtract => "-"@,
        BinaryOp::Multiply => "*"@,
        BinaryOp::Divide => "/"@,
        BinaryOp::Equal => "=="@,
        BinaryOp::NotEqual => "!="@,
        BinaryOp::Less => "<"@,
        BinaryOp::LessOrEqual => "<="@,
        BinaryOp::Greater => ">"@,
        BinaryOp::GreaterOrEqual => ">="@,
        BinaryOp::And => "&&"@,
        BinaryOp::Or => "||"@,
        BinaryOp::Update => "//"@,
        BinaryOp::Concat => "++"@,
    }
}

impl BinaryOp {
    /// The native spelling of the operator.
    pub fn spelling(self) -> (s: &'static str)
        ensures
            s@ == spec_spelling(self),
    {
        match self {
            BinaryOp::Add => "+",
            BinaryOp::Subtract => "-",
            BinaryOp::Multiply => "*",
            BinaryOp::Divide => "/",
            BinaryOp::Equal => "==",
            BinaryOp::NotEqual => "!=",
            BinaryOp::Less => "<",
            BinaryOp::LessOrEqual => "<=",
            BinaryOp::Greater => ">",
            BinaryOp::GreaterOrEqual => ">=",
            BinaryOp::And => "&&",
            BinaryOp::Or => "||",
            BinaryOp::Update => "//",
            BinaryOp::Concat => "++",
        }
    }
}

// ---------------------------------------------------------------------------
// Character classes and name rules.

pub open spec fn is_ascii_alpha(c: char) -> bool {
    ('a' <= c && c <= 'z') || ('A' <= c && c <= 'Z')
}

pub open spec fn is_ascii_digit(c: char) -> bool {
    '0' <= c && c <= '9'
}

pub open spec fn is_ident_start(c: char) -> bool {
    is_ascii_alpha(c) || c == '_'
}

pub open spec fn is_ident_char(c: char) -> bool {
    is_ascii_alpha(c) || is_ascii_digit(c) || c == '_' || c == '\'' || c == '-'
}

/// A character allowed in a path component.
pub open spec fn is_path_char(c: char) -> bool {
    is_ascii_alpha(c) || is_ascii_digit(c) || c == '.' || c == '_' || c == '-' || c == '+'
}

/// Identifier-shaped text: a letter or underscore, then identifier characters.
pub open spec fn is_identifier(n: Seq<char>) -> bool {
    &&& n.len() > 0
    &&& is_ident_start(n[0])
    &&& forall|i: int| 1 <= i < n.len() ==> is_ident_char(#[trigger] n[i])
}

/// Native Nix keywords, which cannot be bare attribute names.
pub open spec fn is_native_keyword(n: Seq<char>) -> bool {
    n == "assert"@ || n == "else"@ || n == "if"@ || n == "in"@ || n == "inherit"@ || n
        == "let"@ || n == "rec"@ || n == "then"@ || n == "with"@
}

/// A name that both dialects spell without quotes in attribute position.
pub open spec fn bare_attr_name_ok(n: Seq<char>) -> bool {
    is_identifier(n) && !is_native_keyword(n)
}

pub open spec fn starts_with(s: Seq<char>, prefix: Seq<char>) -> bool {
    prefix.len() <= s.len() && s.subrange(0, prefix.len() as int) == prefix
}

/// Names that cannot be bound or looked up lexically: the library's private
/// `__nxc_` namespace and `or`.
pub open spec fn scoped_name_ok(n: Seq<char>) -> bool {
    !starts_with(n, "__nxc_"@) && n != "or"@
}

/// Names that a `let`, a recursive set or a lambda may bind: scoped names
/// other than `__curPos`, which is its own expression.
pub open spec fn bindable_name_ok(n: Seq<char>) -> bool {
    scoped_name_ok(n) && n != "__curPos"@
}

/// A lambda parameter or pattern name.
pub open spec fn parameter_name_ok(n: Seq<char>) -> bool {
    bare_attr_name_ok(n) && bindable_name_ok(n)
}

/// A variable name. `__curPos` is its own expression, not a variable.
pub open spec fn variable_name_ok(n: Seq<char>) -> bool {
    parameter_name_ok(n) && n != "__curPos"@
}

fn is_ident_start_char(c: char) -> (r: bool)
    ensures
        r == is_ident_start(c),
{
    ('a' <= c && c <= 'z') || ('A' <= c && c <= 'Z') || c == '_'
}

fn is_ident_continue_char(c: char) -> (r: bool)
    ensures
        r == is_ident_char(c),
{
    ('a' <= c && c <= 'z') || ('A' <= c && c <= 'Z') || ('0' <= c && c <= '9') || c == '_' || c
        == '\'' || c == '-'
}

/// Whether the characters form an identifier.
pub(crate) fn identifier_chars(chars: &Vec<char>) -> (r: bool)
    ensures
        r == is_identifier(chars@),
{
    if chars.len() == 0 || !is_ident_start_char(chars[0]) {
        return false;
    }
    let mut i: usize = 1;
    while i < chars.len()
        invariant
            1 <= i <= chars.len(),
            forall|j: int| 1 <= j < i ==> is_ident_char(#[trigger] chars@[j]),
        decreases chars.len() - i,
    {
        if !is_ident_continue_char(chars[i]) {
            return false;
        }
        i += 1;
    }
    true
}

fn is_native_keyword_text(name: &str) -> (r: bool)
    ensures
        r == is_native_keyword(name@),
{
    text_eq(name, "assert") || text_eq(name, "else") || text_eq(name, "if") || text_eq(name, "in")
        || text_eq(name, "inherit") || text_eq(name, "let") || text_eq(name, "rec") || text_eq(
        name,
        "then",
    ) || text_eq(name, "with")
}

/// Whether `s` begins with `prefix`.
pub(crate) fn has_prefix(s: &Vec<char>, prefix: &str) -> (r: bool)
    ensures
        r == starts_with(s@, prefix@),
{
    let p = chars_of(prefix);
    if p.len() > s.len() {
        return false;
    }
    let mut i: usize = 0;
    while i < p.len()
        invariant
            p@ == prefix@,
            p.len() <= s.len(),
            0 <= i <= p.len(),
            forall|j: int| 0 <= j < i ==> s@[j] == p@[j],
        decreases p.len() - i,
    {
        if s[i] != p[i] {
            assert(s@.subrange(0, p@.len() as int)[i as int] != p@[i as int]);
            return false;
        }
        i += 1;
    }
    assert(s@.subrange(0, p@.len() as int) =~= p@);
    true
}

/// Accept a name that needs no quotes in attribute position.
pub(crate) fn validate_bare_attr_name(name: &str) -> (r: Result<(), &'static str>)
    ensures
        r is Ok <==> bare_attr_name_ok(name@),
{
    let chars = chars_of(name);
    if !identifier_chars(&chars) {
        return Err("invalid identifier");
    }
    if is_native_keyword_text(name) {
        return Err("reserved form is not supported yet");
    }
    Ok(())
}

/// Accept a name that may be bound or looked up lexically.
pub(crate) fn validate_scoped_name(name: &str) -> (r: Result<(), &'static str>)
    ensures
        r is Ok <==> scoped_name_ok(name@),
{
    let chars = chars_of(name);
    if has_prefix(&chars, "__nxc_") || text_eq(name, "or") {
        return Err("reserved form is not supported yet");
    }
    Ok(())
}

/// Accept a name that may be bound by a `let`, a recursive set or a lambda.
pub(crate) fn validate_bindable_name(name: &str) -> (r: Result<(), &'static str>)
    ensures
        r is Ok <==> bindable_name_ok(name@),
{
    validate_scoped_name(name)?;
    if text_eq(name, "__curPos") {
        return Err("reserved form is not supported yet");
    }
    Ok(())
}

/// Accept a lambda parameter or pattern name.
pub(crate) fn validate_parameter_name(name: &str) -> (r: Result<(), &'static str>)
    ensures
        r is Ok <==> parameter_name_ok(name@),
{
    validate_bare_attr_name(name)?;
    validate_bindable_name(name)
}

/// Accept a variable name.
pub(crate) fn validate_name(name: &str) -> (r: Result<(), &'static str>)
    ensures
        r is Ok <==> variable_name_ok(name@),
{
    validate_parameter_name(name)
}

// ---------------------------------------------------------------------------
// Paths.

/// Nonempty path components separated by single slashes.
pub open spec fn components_ok(p: Seq<char>) -> bool {
    &&& p.len() > 0
    &&& forall|i: int|
        0 <= i < p.len() ==> (if #[trigger] p[i] == '/' {
            0 < i < p.len() - 1 && p[i - 1] != '/'
        } else {
            is_path_char(p[i])
        })
}

/// `<component/...>`.
pub open spec fn search_path_ok(p: Seq<char>) -> bool {
    p.len() >= 2 && p[0] == '<' && p[p.len() - 1] == '>' && components_ok(
        p.subrange(1, p.len() - 1),
    )
}

/// `/component/...`.
pub open spec fn absolute_path_ok(p: Seq<char>) -> bool {
    p.len() >= 1 && p[0] == '/' && components_ok(p.subrange(1, p.len() as int))
}

/// `~/component/...`.
pub open spec fn home_path_ok(p: Seq<char>) -> bool {
    starts_with(p, "~/"@) && components_ok(p.subrange(2, p.len() as int))
}

/// `component/...` with at least one slash, not beginning with `...`.
pub open spec fn relative_path_ok(p: Seq<char>) -> bool {
    !starts_with(p, "..."@) && p.contains('/') && components_ok(p)
}

fn is_path_component_char(c: char) -> (r: bool)
    ensures
        r == is_path_char(c),
{
    ('a' <= c && c <= 'z') || ('A' <= c && c <= 'Z') || ('0' <= c && c <= '9') || c == '.' || c
        == '_' || c == '-' || c == '+'
}

/// Whether `chars[start..end]` holds nonempty components separated by single slashes.
pub(crate) fn components_in(chars: &Vec<char>, start: usize, end: usize) -> (r: bool)
    requires
        start <= end <= chars.len(),
    ensures
        r == components_ok(chars@.subrange(start as int, end as int)),
{
    let ghost p = chars@.subrange(start as int, end as int);
    if start == end {
        return false;
    }
    let mut i = start;
    while i < end
        invariant
            start <= i <= end <= chars.len(),
            start < end,
            p == chars@.subrange(start as int, end as int),
            forall|j: int|
                0 <= j < i - start ==> (if #[trigger] p[j] == '/' {
                    0 < j < p.len() - 1 && p[j - 1] != '/'
                } else {
                    is_path_char(p[j])
                }),
        decreases end - i,
    {
        let c = chars[i];
        assert(p[i - start] == c);
        if c == '/' {
            if i == start || i + 1 == end || chars[i - 1] == '/' {
                assert(!(0 < i - start < p.len() - 1 && p[i - start - 1] != '/'));
                return false;
            }
        } else if !is_path_component_char(c) {
            return false;
        }
        i += 1;
    }
    true
}

/// Accept `<component/...>`.
pub(crate) fn validate_search_path(path: &str) -> (r: Result<(), &'static str>)
    ensures
        r is Ok <==> search_path_ok(path@),
{
    let chars = chars_of(path);
    let n = chars.len();
    if n < 2 || chars[0] != '<' || chars[n - 1] != '>' || !components_in(&chars, 1, n - 1) {
        return Err("expected a search path with nonempty components inside '<...>'");
    }
    Ok(())
}

/// Whether the characters spell a literal absolute path.
pub(crate) fn absolute_path_chars(chars: &Vec<char>) -> (r: bool)
    ensures
        r == absolute_path_ok(chars@),
{
    let n = chars.len();
    n >= 1 && chars[0] == '/' && components_in(chars, 1, n)
}

/// Whether the characters spell a literal home-relative path.
pub(crate) fn home_path_chars(chars: &Vec<char>) -> (r: bool)
    ensures
        r == home_path_ok(chars@),
{
    let n = chars.len();
    proof {
        reveal_strlit("~/");
    }
    has_prefix(chars, "~/") && components_in(chars, 2, n)
}

/// Whether the characters spell a literal relative path.
pub(crate) fn relative_path_chars(chars: &Vec<char>) -> (r: bool)
    ensures
        r == relative_path_ok(chars@),
{
    let n = chars.len();
    let ok = !has_prefix(chars, "...") && contains_char(chars, '/') && components_in(chars, 0, n);
    assert(chars@.subrange(0, n as int) =~= chars@);
    ok
}

/// Accept a literal absolute path.
pub(crate) fn validate_absolute_path(path: &str) -> (r: Result<(), &'static str>)
    ensures
        r is Ok <==> absolute_path_ok(path@),
{
    let chars = chars_of(path);
    if !absolute_path_chars(&chars) {
        return Err("expected a literal absolute path with nonempty components");
    }
    Ok(())
}

/// Accept a literal home-relative path.
pub(crate) fn validate_home_path(path: &str) -> (r: Result<(), &'static str>)
    ensures
        r is Ok <==> home_path_ok(path@),
{
    let chars = chars_of(path);
    if !home_path_chars(&chars) {
        return Err("expected a literal home-relative path with nonempty components");
    }
    Ok(())
}

pub(crate) fn contains_char(chars: &Vec<char>, c: char) -> (r: bool)
    ensures
        r == chars@.contains(c),
{
    let mut i: usize = 0;
    while i < chars.len()
        invariant
            0 <= i <= chars.len(),
            forall|j: int| 0 <= j < i ==> chars@[j] != c,
        decreases chars.len() - i,
    {
        if chars[i] == c {
            return true;
        }
        i += 1;
    }
    false
}

/// Accept a literal relative path.
pub(crate) fn validate_relative_path(path: &str) -> (r: Result<(), &'static str>)
    ensures
        r is Ok <==> relative_path_ok(path@),
{
    let chars = chars_of(path);
    // rnix recognizes a leading ellipsis before checking for a longer path.
    // Keep emitted literals readable by both frontends without rewriting them.
    if has_prefix(&chars, "...") {
        return Err("relative paths starting with '...' require a './' prefix");
    }
    if !relative_path_chars(&chars) {
        return Err("expected a literal relative path with nonempty components");
    }
    Ok(())
}

// ---------------------------------------------------------------------------
// Attribute names and string parts.

/// The statically known name of a key: a static name, or a dynamic key that
/// is a direct string literal without interpolation.
pub open spec fn spec_literal_name(a: AttrName) -> Option<Seq<char>> {
    match a {
        AttrName::Static(n) => Some(n@),
        AttrName::Dynamic(k) => match *k {
            Expr::String(parts) => if parts@.len() == 0 {
                Some(Seq::empty())
            } else if parts@.len() == 1 {
                match parts@[0] {
                    StringPart::Literal(n) => Some(n@),
                    StringPart::Interpolation(_) => None,
                }
            } else {
                None
            },
            _ => None,
        },
    }
}

impl AttrName {
    /// Nix treats a direct string literal inside `${...}` as a static binding
    /// name, but keeps interpolated strings dynamic. No evaluation is involved.
    pub fn literal_name(&self) -> (r: Option<&str>)
        ensures
            match r {
                Some(n) => spec_literal_name(*self) == Some(n@),
                None => spec_literal_name(*self) is None,
            },
    {
        match self {
            AttrName::Static(name) => Some(name.as_str()),
            AttrName::Dynamic(key) => match &**key {
                Expr::String(parts) => {
                    if parts.len() == 0 {
                        let empty = "";
                        proof {
                            reveal_strlit("");
                        }
                        assert(empty@ =~= Seq::<char>::empty());
                        Some(empty)
                    } else if parts.len() == 1 {
                        match &parts[0] {
                            StringPart::Literal(name) => Some(name.as_str()),
                            StringPart::Interpolation(_) => None,
                        }
                    } else {
                        None
                    }
                },
                _ => None,
            },
        }
    }
}

pub open spec fn is_literal(p: StringPart) -> bool {
    p is Literal
}

/// A literal part holds text; an interpolation is unconstrained here.
pub open spec fn nonempty_unless_interpolated(p: StringPart) -> bool {
    p matches StringPart::Literal(t) ==> t@.len() > 0
}

/// No empty literal and no two adjacent literals.
pub open spec fn parts_normalized(parts: Seq<StringPart>) -> bool {
    &&& forall|i: int| 0 <= i < parts.len() ==> nonempty_unless_interpolated(#[trigger] parts[i])
    &&& forall|i: int|
        0 <= i < parts.len() - 1 ==> !(is_literal(#[trigger] parts[i]) && is_literal(parts[i + 1]))
}

/// A string part seen as its text or as its interpolated expression.
pub enum Piece {
    Text(Seq<char>),
    Code(Expr),
}

pub open spec fn piece_of(p: StringPart) -> Piece {
    match p {
        StringPart::Literal(t) => Piece::Text(t@),
        StringPart::Interpolation(e) => Piece::Code(e),
    }
}

pub open spec fn pieces_of(s: Seq<StringPart>) -> Seq<Piece> {
    s.map_values(|p: StringPart| piece_of(p))
}

/// Text appended to pieces: dropped when empty, merged into a trailing text.
pub open spec fn push_text(out: Seq<Piece>, t: Seq<char>) -> Seq<Piece> {
    if t.len() == 0 {
        out
    } else if out.len() > 0 && out.last() is Text {
        out.drop_last().push(
            Piece::Text(
                match out.last() {
                    Piece::Text(p) => p,
                    Piece::Code(_) => Seq::empty(),
                } + t,
            ),
        )
    } else {
        out.push(Piece::Text(t))
    }
}

/// Append literal text, merging it into a trailing literal and dropping empty text.
pub(crate) fn push_string_literal(parts: &mut Vec<StringPart>, text: String)
    ensures
        pieces_of(final(parts)@) == push_text(pieces_of(old(parts)@), text@),
        text@.len() == 0 ==> final(parts)@ == old(parts)@,
        text@.len() > 0 && old(parts)@.len() > 0 && old(parts)@.last() is Literal ==> {
            &&& final(parts)@.len() == old(parts)@.len()
            &&& final(parts)@.drop_last() == old(parts)@.drop_last()
            &&& final(parts)@.last() matches StringPart::Literal(t) && old(parts)@.last() matches StringPart::Literal(p) && t@ == p@ + text@
        },
        text@.len() > 0 && !(old(parts)@.len() > 0 && old(parts)@.last() is Literal)
            ==> final(parts)@ == old(parts)@.push(StringPart::Literal(text)),
        parts_normalized(old(parts)@) ==> parts_normalized(final(parts)@),
{
    if text.as_str().is_empty() {
        return ;
    }
    let n = parts.len();
    if n > 0 {
        let is_literal = match &parts[n - 1] {
            StringPart::Literal(_) => true,
            StringPart::Interpolation(_) => false,
        };
        if is_literal {
            let last = parts.pop().unwrap();
            match last {
                StringPart::Literal(mut previous) => {
                    let ghost p = previous@;
                    previous.append(text.as_str());
                    parts.push(StringPart::Literal(previous));
                    assert(parts@.drop_last() =~= old(parts)@.drop_last());
                },
                StringPart::Interpolation(e) => {
                    parts.push(StringPart::Interpolation(e));
                },
            }
            return ;
        }
    }
    parts.push(StringPart::Literal(text));
}


// ---------------------------------------------------------------------------
// Laws of the name and path rules.

/// No character of the text is a hyphen.
pub open spec fn hyphen_free(s: Seq<char>) -> bool {
    forall|i: int| 0 <= i < s.len() ==> s[i] != '-'
}

/// The reserved spellings that the name rules refuse hold no hyphen.
proof fn lemma_reserved_hyphen_free()
    ensures
        hyphen_free("assert"@),
        hyphen_free("else"@),
        hyphen_free("if"@),
        hyphen_free("in"@),
        hyphen_free("inherit"@),
        hyphen_free("let"@),
        hyphen_free("rec"@),
        hyphen_free("then"@),
        hyphen_free("with"@),
        hyphen_free("or"@),
        hyphen_free("__curPos"@),
        hyphen_free("__nxc_"@),
{
    reveal_strlit("assert");
    reveal_strlit("else");
    reveal_strlit("if");
    reveal_strlit("in");
    reveal_strlit("inherit");
    reveal_strlit("let");
    reveal_strlit("rec");
    reveal_strlit("then");
    reveal_strlit("with");
    reveal_strlit("or");
    reveal_strlit("__curPos");
    reveal_strlit("__nxc_");
}

/// Two variable names joined by a hyphen form a variable name (`foo-bar`,
/// `home-manager`): after its first character an identifier may hold
/// letters, digits, `_`, `'` and `-`.
pub proof fn lemma_hyphenated_names(a: Seq<char>, b: Seq<char>)
    requires
        variable_name_ok(a),
        variable_name_ok(b),
    ensures
        variable_name_ok(a + seq!['-'] + b),
        parameter_name_ok(a + seq!['-'] + b),
        bare_attr_name_ok(a + seq!['-'] + b),
{
    let n = a + seq!['-'] + b;
    let h = a.len() as int;
    assert(n[h] == '-');
    assert forall|i: int| 1 <= i < n.len() implies is_ident_char(#[trigger] n[i]) by {
        if i < h {
            assert(n[i] == a[i]);
        } else if i > h {
            assert(n[i] == b[i - h - 1]);
        }
    }
    assert(n[0] == a[0]);
    lemma_reserved_hyphen_free();
    assert(!is_native_keyword(n));
    assert(n != "or"@);
    assert(n != "__curPos"@);
    reveal_strlit("__nxc_");
    if starts_with(n, "__nxc_"@) {
        if h < 6 {
            assert(n.subrange(0, 6)[h] == n[h]);
            assert(n.subrange(0, 6)[h] == '-');
        } else {
            assert(a.subrange(0, 6) =~= n.subrange(0, 6));
        }
    }
}

/// Search paths compose: `<p>` and `<q>` valid make `<p/q>` valid, so a
/// search path may have many components (`<nixpkgs/lib>`).
pub proof fn lemma_search_paths_compose(p: Seq<char>, q: Seq<char>)
    requires
        search_path_ok(seq!['<'] + p + seq!['>']),
        search_path_ok(seq!['<'] + q + seq!['>']),
    ensures
        search_path_ok(seq!['<'] + p + seq!['/'] + q + seq!['>']),
{
    let sp = seq!['<'] + p + seq!['>'];
    let sq = seq!['<'] + q + seq!['>'];
    assert(sp.subrange(1, sp.len() - 1) =~= p);
    assert(sq.subrange(1, sq.len() - 1) =~= q);
    let r = p + seq!['/'] + q;
    let h = p.len() as int;
    assert(p[h - 1] != '/');
    assert forall|i: int| 0 <= i < r.len() implies (if #[trigger] r[i] == '/' {
        0 < i < r.len() - 1 && r[i - 1] != '/'
    } else {
        is_path_char(r[i])
    }) by {
        if i < h {
            assert(r[i] == p[i]);
            if i > 0 {
                assert(r[i - 1] == p[i - 1]);
            }
        } else if i == h {
            assert(r[i - 1] == p[h - 1]);
        } else {
            let j = i - h - 1;
            assert(r[i] == q[j]);
            if j > 0 {
                assert(r[i - 1] == q[j - 1]);
            }
        }
    }
    let s = seq!['<'] + p + seq!['/'] + q + seq!['>'];
    assert(s.subrange(1, s.len() - 1) =~= r);
}

} // verus!
