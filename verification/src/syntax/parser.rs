//! The nxc parser: significant tokens to a semantic expression.
//!
//! Binding powers, loosest first: `||`; `&&`; `==` `!=` (not associative);
//! `<` `<=` `>` `>=` (not associative); prefix `!`; `+` `-`; `*` `/`; `++`
//! (right associative); postfix `?`; prefix `-`; calls and selections.
//! Conditionals and lambdas extend to the right and appear only where a whole
//! expression may.
use vstd::prelude::*;

use super::grammar;
use super::grammar::{
    at, decimal_digits, decimal_value, infix_power, paren_pass, significant, token_bytes,
    token_text, token_word, Stream,
};
use super::ident::decode;
use super::kind::SyntaxKind;
use super::lexer::{ascii_text, lex, lex_clean, measure, nxc_budget_message, nxc_within, spec_lex, tokens_partition, Token};
use crate::ir::path::{literal_path_ok, lower_path};
use crate::ir::{
    bare_attr_name_ok, push_string_literal, validate_bare_attr_name, AttrName, BinaryOp, Binding, Expr, Formal,
    Pattern, StringPart,
};
use crate::ir::validate::expr_valid;
use crate::limits::{check, exceeded, exceeded_message, Limits, MAX_DIAGNOSTICS};
use crate::string::lower_indented;
use vstd::string::StringSliceAdditionalSpecFns;
use crate::text::{text_eq, utf8_text};
use crate::{Diagnostic, MAX_DEPTH};

verus! {

/// Recursion budget of one parse. Semantic depth and delimiter nesting are
/// both bounded by `MAX_DEPTH` before it can run out.
const PARSE_FUEL: usize = 8192;

/// The significant tokens of a source and its bytes.
struct Ctx<'a> {
    bytes: &'a [u8],
    toks: Vec<Token>,
    /// For each opening parenthesis, the index of its closing one (or the
    /// token count when unmatched).
    closing: Vec<usize>,
}

/// The grammar's view of a parser context.
spec fn view(c: &Ctx) -> Stream {
    Stream { toks: c.toks@, bytes: c.bytes@, closing: c.closing@ }
}

spec fn ctx_ok(c: &Ctx) -> bool {
    &&& c.bytes@.len() <= usize::MAX
    &&& c.toks@.len() <= crate::MAX_SOURCE_BYTES
    &&& c.closing@.len() == c.toks@.len()
    &&& forall|i: int|
        0 <= i < c.toks@.len() ==> (#[trigger] c.toks@[i]).span.start <= c.toks@[i].span.end
            <= c.bytes@.len()
}

/// A parsed expression, the position after it and its height in semantic levels.
struct Node {
    expr: Expr,
    next: usize,
    height: usize,
}

spec fn advanced(c: &Ctx, pos: usize, r: Result<Node, Diagnostic>) -> bool {
    r matches Ok(n) ==> pos < n.next <= c.toks@.len() && n.height <= MAX_DEPTH
}

fn kind(c: &Ctx, i: usize) -> (k: Option<SyntaxKind>)
    ensures
        k is Some <==> i < c.toks@.len(),
        k matches Some(k) ==> k == c.toks@[i as int].kind,
{
    if i < c.toks.len() {
        Some(c.toks[i].kind)
    } else {
        None
    }
}

fn at_kind(c: &Ctx, i: usize, k: SyntaxKind) -> (r: bool)
    ensures
        r ==> i < c.toks@.len() && c.toks@[i as int].kind == k,
        r == at(view(c), i as int, k),
{
    i < c.toks.len() && c.toks[i].kind == k
}

/// An error at token `i`, or at the end of the source.
fn error_at(c: &Ctx, i: usize, message: &str) -> (d: Diagnostic)
    requires
        ctx_ok(c),
    ensures
        d.message@ == message@,
        i < c.toks@.len() ==> d.span.start == c.toks@[i as int].span.start && d.span.end
            == c.toks@[i as int].span.end,
        i >= c.toks@.len() ==> d.span.start == c.bytes@.len() && d.span.end == c.bytes@.len(),
{
    if i < c.toks.len() {
        Diagnostic::new(c.toks[i].span.start, c.toks[i].span.end, message)
    } else {
        Diagnostic::new(c.bytes.len(), c.bytes.len(), message)
    }
}

fn expect(c: &Ctx, i: usize, k: SyntaxKind, message: &str) -> (r: Result<usize, Diagnostic>)
    requires
        ctx_ok(c),
    ensures
        r matches Ok(j) ==> j == i + 1 && i < c.toks@.len() && at(view(c), i as int, k),
        r is Ok <==> at(view(c), i as int, k),
        r matches Err(d) ==> d.message@ == message@,
{
    if at_kind(c, i, k) {
        Ok(i + 1)
    } else {
        Err(error_at(c, i, message))
    }
}

/// The ASCII text of token `i`.
fn word(c: &Ctx, i: usize) -> (w: String)
    requires
        ctx_ok(c),
        i < c.toks@.len(),
    ensures
        w@ == token_word(view(c), i as int),
{
    let t = &c.toks[i];
    let w = ascii_text(c.bytes, t.span.start, t.span.end - t.span.start);
    assert(w@ =~= token_word(view(c), i as int));
    w
}

/// The UTF-8 text of token `i`.
fn text(c: &Ctx, i: usize) -> (r: Result<String, Diagnostic>)
    requires
        ctx_ok(c),
        i < c.toks@.len(),
    ensures
        r matches Ok(t) ==> token_text(view(c), i as int) == Some(t@),
        r is Ok <==> token_text(view(c), i as int) is Some,
{
    let t = &c.toks[i];
    let slice = &c.bytes[t.span.start..t.span.end];
    assert(slice@ == token_bytes(view(c), i as int));
    match utf8_text(slice) {
        Some(s) => Ok(s),
        None => Err(error_at(c, i, "invalid UTF-8 in token")),
    }
}

fn depth_error(c: &Ctx, i: usize, observed: usize) -> (e: Diagnostic)
    requires
        ctx_ok(c),
    ensures
        e.message@ == exceeded_message("semantic depth"@, observed as int, MAX_DEPTH as int),
        i < c.toks@.len() ==> e.span.start == c.toks@[i as int].span.start && e.span.end
            == c.toks@[i as int].span.end,
        i >= c.toks@.len() ==> e.span.start == 0 && e.span.end == 0,
{
    let mut e = exceeded("semantic depth", observed, MAX_DEPTH);
    if i < c.toks.len() {
        e.span = core::ops::Range { start: c.toks[i].span.start, end: c.toks[i].span.end };
    }
    e
}

spec fn max_spec(a: usize, b: usize) -> int {
    if a > b {
        a as int
    } else {
        b as int
    }
}

fn max(a: usize, b: usize) -> (r: usize)
    ensures
        r == if a > b {
            a
        } else {
            b
        },
{
    if a > b {
        a
    } else {
        b
    }
}

/// Wrap a left operand at depth `d`: the new node is one level taller than
/// its tallest child and must still fit below `MAX_DEPTH`.
fn wrapped_height(c: &Ctx, i: usize, d: usize, left: usize, right: usize) -> (r: Result<
    usize,
    Diagnostic,
>)
    requires
        ctx_ok(c),
        1 <= d <= MAX_DEPTH,
        left <= MAX_DEPTH,
        right <= MAX_DEPTH,
    ensures
        r is Ok <==> d - 1 + max_spec(left, right) + 1 <= MAX_DEPTH,
        r matches Ok(h) ==> h == max_spec(left, right) + 1 && h <= MAX_DEPTH,
{
    let h = max(left, right) + 1;
    if d - 1 + h > MAX_DEPTH {
        return Err(depth_error(c, i, d - 1 + h));
    }
    Ok(h)
}

/// A node at depth `d` holding a child of the given height: its height
/// grows to one more than the child's, within `MAX_DEPTH`.
fn grow(c: &Ctx, i: usize, d: usize, height: usize, child: usize) -> (r: Result<usize, Diagnostic>)
    requires
        ctx_ok(c),
        1 <= d <= MAX_DEPTH,
        height <= MAX_DEPTH,
        child <= MAX_DEPTH,
    ensures
        r is Ok <==> child + 1 <= height || d + child <= MAX_DEPTH,
        r matches Ok(h) ==> h == (if child + 1 <= height {
            height as int
        } else {
            child + 1
        }),
        r matches Ok(h) ==> h <= MAX_DEPTH && h >= height,
{
    if child + 1 <= height {
        return Ok(height);
    }
    if d + child > MAX_DEPTH {
        return Err(depth_error(c, i, d + child));
    }
    Ok(child + 1)
}

/// Whether tokens from `i` start a lambda: `x =>`, `(…) =>` or `fn(…) =>`.
fn lambda_ahead(c: &Ctx, i: usize) -> (r: bool)
    requires
        ctx_ok(c),
        i <= c.toks@.len(),
    ensures
        r == grammar::lambda_ahead(view(c), i as int),
{
    if at_kind(c, i, SyntaxKind::Ident) && i + 1 < c.toks.len() {
        return at_kind(c, i + 1, SyntaxKind::Arrow);
    }
    let open = if at_kind(c, i, SyntaxKind::Fn) {
        i + 1
    } else {
        i
    };
    if at_kind(c, open, SyntaxKind::LParen) {
        let close = c.closing[open];
        close < c.toks.len() && close + 1 < c.toks.len() && at_kind(c, close + 1, SyntaxKind::Arrow)
    } else {
        false
    }
}

/// A whole expression at semantic depth `d`.
fn expr(c: &Ctx, pos: usize, d: usize, fuel: usize) -> (r: Result<Node, Diagnostic>)
    requires
        ctx_ok(c),
        pos <= c.toks@.len(),
    ensures
        advanced(c, pos, r),
        r matches Ok(n) ==> grammar::derives_expr(view(c), pos as int, n.expr, n.next as int),
    decreases fuel,
{
    if fuel == 0 {
        return Err(error_at(c, pos, "expression nesting exceeds the supported limit"));
    }
    if d > MAX_DEPTH {
        return Err(depth_error(c, pos, d));
    }
    if d == 0 {
        return Err(error_at(c, pos, "invalid semantic depth"));
    }
    if at_kind(c, pos, SyntaxKind::If) {
        let cond = expr(c, pos + 1, d + 1, fuel - 1)?;
        let p = expect(c, cond.next, SyntaxKind::Then, "expected 'then'")?;
        let yes = expr(c, p, d + 1, fuel - 1)?;
        let p = expect(c, yes.next, SyntaxKind::Else, "expected 'else'")?;
        let no = expr(c, p, d + 1, fuel - 1)?;
        let h = max(max(cond.height, yes.height), no.height) + 1;
        if d - 1 + h > MAX_DEPTH {
            return Err(depth_error(c, pos, d - 1 + h));
        }
        proof {
            assert(grammar::chosen(cond.next as int) && grammar::chosen(yes.next as int));
        }
        return Ok(
            Node {
                expr: Expr::If {
                    condition: Box::new(cond.expr),
                    then_branch: Box::new(yes.expr),
                    else_branch: Box::new(no.expr),
                },
                next: no.next,
                height: h,
            },
        );
    }
    if lambda_ahead(c, pos) {
        return lambda(c, pos, d, fuel - 1);
    }
    operators(c, pos, 0, d, fuel - 1)
}

/// A lambda: `x => body`, `(pattern) => body` or `fn(pattern) => body`.
fn lambda(c: &Ctx, pos: usize, d: usize, fuel: usize) -> (r: Result<Node, Diagnostic>)
    requires
        ctx_ok(c),
        pos <= c.toks@.len(),
        1 <= d <= MAX_DEPTH,
    ensures
        advanced(c, pos, r),
        r matches Ok(n) ==> grammar::derives_lambda(view(c), pos as int, n.expr, n.next as int),
    decreases fuel,
{
    if fuel == 0 {
        return Err(error_at(c, pos, "expression nesting exceeds the supported limit"));
    }
    let ghost mut close: int = 0;
    let (parameter, after, ph) = if at_kind(c, pos, SyntaxKind::Ident) {
        let w = word(c, pos);
        (Pattern::Ident(decode(w.as_str()).to_owned()), pos + 1, 0usize)
    } else {
        let open = if at_kind(c, pos, SyntaxKind::Fn) {
            pos + 1
        } else {
            pos
        };
        let p = expect(c, open, SyntaxKind::LParen, "expected a lambda parameter")?;
        let (pattern, q, h) = pattern(c, p, d, fuel - 1)?;
        proof {
            close = q as int;
        }
        let q = expect(c, q, SyntaxKind::RParen, "expected ')' after the lambda parameter")?;
        (pattern, q, h)
    };
    let p = expect(c, after, SyntaxKind::Arrow, "expected '=>'")?;
    let body = expr(c, p, d + 1, fuel - 1)?;
    let h = max(ph, body.height) + 1;
    if d - 1 + h > MAX_DEPTH {
        return Err(depth_error(c, pos, d - 1 + h));
    }
    proof {
        assert(grammar::chosen(after as int) && grammar::chosen(close));
    }
    Ok(Node { expr: Expr::Lambda { parameter, body: Box::new(body.expr) }, next: body.next, height: h })
}

/// A parameter pattern inside parentheses: `x`, `x@{ … }`, `{ … }` or `{ … }@x`.
fn pattern(c: &Ctx, pos: usize, d: usize, fuel: usize) -> (r: Result<(Pattern, usize, usize), Diagnostic>)
    requires
        ctx_ok(c),
        pos <= c.toks@.len(),
        1 <= d <= MAX_DEPTH,
    ensures
        r matches Ok((_, q, h)) ==> pos < q <= c.toks@.len() && h <= MAX_DEPTH,
        r matches Ok((p, q, _)) ==> grammar::derives_pattern(view(c), pos as int, p, q as int),
        fuel > 0 && at(view(c), pos as int, SyntaxKind::Ident) && !at(
            view(c),
            pos + 1,
            SyntaxKind::At,
        ) ==> (r matches Ok((Pattern::Ident(_), q, _)) && q == pos + 1),
    decreases fuel,
{
    if fuel == 0 {
        return Err(error_at(c, pos, "expression nesting exceeds the supported limit"));
    }
    if at_kind(c, pos, SyntaxKind::Ident) {
        let name = decode(word(c, pos).as_str()).to_owned();
        if at_kind(c, pos + 1, SyntaxKind::At) {
            let (fields, ellipsis, q, h) = formals(c, pos + 2, d, fuel - 1)?;
            return Ok((Pattern::AttrSet { fields, ellipsis, bind: Some(name) }, q, h));
        }
        return Ok((Pattern::Ident(name), pos + 1, 0));
    }
    let (fields, ellipsis, q, h) = formals(c, pos, d, fuel - 1)?;
    assert(grammar::chosen(q as int));
    if at_kind(c, q, SyntaxKind::At) {
        if at_kind(c, q + 1, SyntaxKind::Ident) {
            let name = decode(word(c, q + 1).as_str()).to_owned();
            return Ok((Pattern::AttrSet { fields, ellipsis, bind: Some(name) }, q + 2, h));
        }
        return Err(error_at(c, q + 1, "expected a name after '@'"));
    }
    Ok((Pattern::AttrSet { fields, ellipsis, bind: None }, q, h))
}

/// Pattern fields: `{ a, b ? default, ... }`.
fn formals(c: &Ctx, pos: usize, d: usize, fuel: usize) -> (r: Result<
    (Vec<Formal>, bool, usize, usize),
    Diagnostic,
>)
    requires
        ctx_ok(c),
        pos <= c.toks@.len(),
        1 <= d <= MAX_DEPTH,
    ensures
        r matches Ok((_, _, q, h)) ==> pos < q <= c.toks@.len() && h <= MAX_DEPTH,
        r matches Ok((fields, ellipsis, q, _)) ==> grammar::derives_formals(
            view(c),
            pos as int,
            fields@,
            ellipsis,
            q as int,
        ),
    decreases fuel,
{
    if fuel == 0 {
        return Err(error_at(c, pos, "expression nesting exceeds the supported limit"));
    }
    let mut p = expect(c, pos, SyntaxKind::LBrace, "expected '{'")?;
    let ghost s = view(c);
    let mut fields: Vec<Formal> = Vec::new();
    let mut ellipsis = false;
    let mut height: usize = 1;
    let ghost mut end: int = p as int;
    loop
        invariant
            ctx_ok(c),
            s == view(c),
            pos < p <= c.toks@.len(),
            at(s, pos as int, SyntaxKind::LBrace),
            grammar::derives_fields(s, pos + 1, fields@, end),
            pos < end,
            ellipsis ==> at(s, end, SyntaxKind::Ellipsis) && p == end + 1,
            !ellipsis ==> p == end,
            1 <= d <= MAX_DEPTH,
            height <= MAX_DEPTH,
            fuel > 0,
        decreases c.toks@.len() - p,
    {
        if at_kind(c, p, SyntaxKind::RBrace) {
            assert(grammar::chosen(end));
            return Ok((fields, ellipsis, p + 1, height));
        }
        if ellipsis {
            return Err(error_at(c, p, "expected '}' after '...'"));
        }
        if at_kind(c, p, SyntaxKind::Ellipsis) {
            ellipsis = true;
            p = p + 1;
            continue;
        } else if at_kind(c, p, SyntaxKind::Ident) {
            let p0 = p;
            let name = decode(word(c, p).as_str()).to_owned();
            p = p + 1;
            let default = if at_kind(c, p, SyntaxKind::Question) {
                let v = expr(c, p + 1, d + 1, fuel - 1)?;
                p = v.next;
                height = grow(c, p, d, height, v.height)?;
                Some(v.expr)
            } else {
                None
            };
            let ghost q = p as int;
            let f = Formal { name, default };
            let ghost gf = f;
            let ghost before = fields@;
            fields.push(f);
            if at_kind(c, p, SyntaxKind::Comma) {
                p = p + 1;
            } else if !at_kind(c, p, SyntaxKind::RBrace) {
                return Err(error_at(c, p, "expected ',' after pattern field"));
            }
            assert(grammar::derives_field(s, p0 as int, gf, p as int)) by {
                assert(grammar::chosen(q));
            }
            assert(fields@.drop_last() =~= before);
            assert(grammar::chosen(p0 as int));
            proof {
                end = p as int;
            }
        } else {
            return Err(error_at(c, p, "expected a pattern field"));
        }
    }
}

/// Binding powers of infix operators, scaled by two: (left, right, operator).
fn infix(k: SyntaxKind) -> (r: Option<(usize, usize, BinaryOp)>)
    ensures
        r matches Some((l, rr, _)) ==> 1 <= l <= 16 && rr <= 17,
        r == infix_power(k),
{
    match k {
        SyntaxKind::OrOr => Some((2, 3, BinaryOp::Or)),
        SyntaxKind::AndAnd => Some((4, 5, BinaryOp::And)),
        SyntaxKind::EqualEqual => Some((6, 7, BinaryOp::Equal)),
        SyntaxKind::NotEqual => Some((6, 7, BinaryOp::NotEqual)),
        SyntaxKind::Less => Some((8, 9, BinaryOp::Less)),
        SyntaxKind::LessEqual => Some((8, 9, BinaryOp::LessOrEqual)),
        SyntaxKind::Greater => Some((8, 9, BinaryOp::Greater)),
        SyntaxKind::GreaterEqual => Some((8, 9, BinaryOp::GreaterOrEqual)),
        SyntaxKind::Plus => Some((12, 13, BinaryOp::Add)),
        SyntaxKind::Minus => Some((12, 13, BinaryOp::Subtract)),
        SyntaxKind::Star => Some((14, 15, BinaryOp::Multiply)),
        SyntaxKind::Slash => Some((14, 15, BinaryOp::Divide)),
        SyntaxKind::PlusPlus => Some((16, 16, BinaryOp::Concat)),
        _ => None,
    }
}

/// Every tail derivation from `left` at `p` (with `last` the level of the
/// last comparison) is one from the operand `v0` at `p0`.
spec fn reaches(s: Stream, min: int, p0: int, v0: Expr, p: int, last: int, left: Expr) -> bool {
    forall|e: Expr, n: int|
        #![trigger grammar::derives_tail(s, p, min, last, left, e, n)]
        n <= s.toks.len() && grammar::derives_tail(s, p, min, last, left, e, n)
            ==> grammar::derives_tail(s, p0, min, 0, v0, e, n)
}

/// A tail derivation ends no earlier than it starts.
proof fn lemma_tail_ends_after(s: Stream, p: int, min: int, last: int, left: Expr, e: Expr, n: int)
    requires
        0 <= p <= s.toks.len(),
        grammar::derives_tail(s, p, min, last, left, e, n),
    ensures
        p <= n,
{
}

/// Operators of binding power at least `min`, over prefix and postfix forms.
#[verifier::rlimit(50)]
#[verifier::spinoff_prover]
fn operators(c: &Ctx, pos: usize, min: usize, d: usize, fuel: usize) -> (r: Result<
    Node,
    Diagnostic,
>)
    requires
        ctx_ok(c),
        pos <= c.toks@.len(),
        1 <= d <= MAX_DEPTH,
    ensures
        advanced(c, pos, r),
        r matches Ok(n) ==> grammar::derives_operators(
            view(c),
            pos as int,
            min as int,
            n.expr,
            n.next as int,
        ),
    decreases fuel,
{
    if fuel == 0 {
        return Err(error_at(c, pos, "expression nesting exceeds the supported limit"));
    }
    let ghost s = view(c);
    let mut left = if at_kind(c, pos, SyntaxKind::Minus) {
        if d + 1 > MAX_DEPTH {
            return Err(depth_error(c, pos + 1, d + 1));
        }
        let v = operators(c, pos + 1, 18, d + 1, fuel - 1)?;
        Node { expr: Expr::Negate(Box::new(v.expr)), next: v.next, height: v.height + 1 }
    } else if at_kind(c, pos, SyntaxKind::Bang) {
        if d + 1 > MAX_DEPTH {
            return Err(depth_error(c, pos + 1, d + 1));
        }
        let v = operators(c, pos + 1, 10, d + 1, fuel - 1)?;
        Node { expr: Expr::Not(Box::new(v.expr)), next: v.next, height: v.height + 1 }
    } else {
        primary(c, pos, d, fuel - 1)?
    };
    let ghost v0 = left.expr;
    let ghost p0 = left.next as int;
    assert(grammar::derives_operand(s, pos as int, v0, p0));
    if d - 1 + left.height > MAX_DEPTH {
        return Err(depth_error(c, pos, d - 1 + left.height));
    }
    let mut last_level: usize = 0;
    loop
        invariant
            ctx_ok(c),
            s == view(c),
            pos < p0 <= left.next <= c.toks@.len(),
            grammar::derives_operand(s, pos as int, v0, p0),
            reaches(s, min as int, p0, v0, left.next as int, last_level as int, left.expr),
            1 <= d <= MAX_DEPTH,
            left.height <= MAX_DEPTH,
            fuel > 0,
        decreases c.toks@.len() - left.next,
    {
        let p = left.next;
        let ghost lo = left.expr;
        let ghost last0 = last_level as int;
        let k = match kind(c, p) {
            Some(k) => k,
            None => {
                assert(grammar::derives_tail(s, p as int, min as int, last0, lo, lo, p as int));
                assert(grammar::chosen(v0) && grammar::chosen(p0));
                return Ok(left);
            },
        };
        if k == SyntaxKind::LParen && 20 >= min {
            let (args, q, ah) = arguments(c, p, d, fuel - 1)?;
            let ghost all = args@;
            let mut e = left.expr;
            let mut h = left.height;
            let mut i: usize = 0;
            while i < args.len()
                invariant
                    ctx_ok(c),
                    1 <= d <= MAX_DEPTH,
                    h <= MAX_DEPTH,
                    ah <= MAX_DEPTH,
                decreases args.len() - i,
            {
                h = wrapped_height(c, p, d, h, ah)?;
                i += 1;
            }
            let mut args = args;
            let ghost mut taken: int = 0;
            assert(all.take(0) =~= Seq::<Expr>::empty());
            assert(all.skip(0) =~= all);
            while args.len() > 0
                invariant
                    ctx_ok(c),
                    0 <= taken <= all.len(),
                    args@ == all.skip(taken),
                    e == grammar::applied(lo, all.take(taken)),
                decreases args.len(),
            {
                let a = args.remove(0);
                e = Expr::Apply { function: Box::new(e), argument: Box::new(a) };
                proof {
                    assert(a == all[taken]);
                    assert(all.take(taken + 1).drop_last() =~= all.take(taken));
                    assert(all.take(taken + 1).last() == all[taken]);
                    taken = taken + 1;
                    assert(args@ =~= all.skip(taken));
                }
            }
            assert(all.take(all.len() as int) =~= all);
            let ghost ne = e;
            assert forall|x: Expr, n: int|
                n <= s.toks.len() && grammar::derives_tail(s, q as int, min as int, last0, ne, x, n)
                    implies grammar::derives_tail(s, p as int, min as int, last0, lo, x, n) by {
                lemma_tail_ends_after(s, q as int, min as int, last0, ne, x, n);
                assert(grammar::chosen(all) && grammar::chosen(q as int));
            }
            left = Node { expr: e, next: q, height: h };
        } else if k == SyntaxKind::Dot && 20 >= min {
            let (path, q1, kh) = attr_path(c, p + 1, d, false, fuel - 1)?;
            let (default, q, dh) = if at_kind(c, q1, SyntaxKind::Or) {
                let v = simple(c, q1 + 1, d + 1, fuel - 1)?;
                (Some(Box::new(v.expr)), v.next, v.height)
            } else {
                (None, q1, 0)
            };
            let h = wrapped_height(c, p, d, left.height, max(kh, dh))?;
            let ne = Expr::Select { value: Box::new(left.expr), path, default };
            let ghost gne = ne;
            assert(grammar::derives_selection(s, p + 1, lo, gne, q as int)) by {
                assert(grammar::chosen(q1 as int));
            }
            assert forall|x: Expr, n: int|
                n <= s.toks.len() && grammar::derives_tail(s, q as int, min as int, last0, gne, x, n)
                    implies grammar::derives_tail(s, p as int, min as int, last0, lo, x, n) by {
                lemma_tail_ends_after(s, q as int, min as int, last0, gne, x, n);
                assert(grammar::chosen(gne) && grammar::chosen(q as int));
            }
            left = Node { expr: ne, next: q, height: h };
        } else if k == SyntaxKind::Question && 17 >= min {
            let (path, q, kh) = attr_path(c, p + 1, d, false, fuel - 1)?;
            let h = wrapped_height(c, p, d, left.height, kh)?;
            let ne = Expr::HasAttr { value: Box::new(left.expr), path };
            let ghost gne = ne;
            assert forall|x: Expr, n: int|
                n <= s.toks.len() && grammar::derives_tail(s, q as int, min as int, last0, gne, x, n)
                    implies grammar::derives_tail(s, p as int, min as int, last0, lo, x, n) by {
                lemma_tail_ends_after(s, q as int, min as int, last0, gne, x, n);
                assert(grammar::chosen(gne) && grammar::chosen(q as int));
            }
            left = Node { expr: ne, next: q, height: h };
        } else {
            match infix(k) {
                Some((lbp, rbp, op)) => {
                    if lbp < min {
                        assert(grammar::derives_tail(s, p as int, min as int, last0, lo, lo, p as int));
                        assert(grammar::chosen(v0) && grammar::chosen(p0));
                        return Ok(left);
                    }
                    if (lbp == 6 || lbp == 8) && last_level == lbp {
                        return Err(error_at(c, p, "comparison operators are not associative"));
                    }
                    if d + 1 > MAX_DEPTH {
                        return Err(depth_error(c, p, d + 1));
                    }
                    let right = operators(c, p + 1, rbp, d + 1, fuel - 1)?;
                    let h = wrapped_height(c, p, d, left.height, right.height)?;
                    let ghost gr = right.expr;
                    let ghost q = right.next as int;
                    let ne = Expr::Binary { op, left: Box::new(left.expr), right: Box::new(right.expr) };
                    let ghost gne = ne;
                    assert forall|x: Expr, n: int|
                        n <= s.toks.len() && grammar::derives_tail(s, q, min as int, lbp as int, gne, x, n)
                            implies grammar::derives_tail(s, p as int, min as int, last0, lo, x, n) by {
                        lemma_tail_ends_after(s, q, min as int, lbp as int, gne, x, n);
                        assert(grammar::chosen(gr) && grammar::chosen(q));
                    }
                    left = Node { expr: ne, next: right.next, height: h };
                    last_level = lbp;
                },
                None => {
                    assert(grammar::derives_tail(s, p as int, min as int, last0, lo, lo, p as int));
                    assert(grammar::chosen(v0) && grammar::chosen(p0));
                    return Ok(left);
                },
            }
        }
    }
}

/// A selection default: a primary with an optional selection of its own.
fn simple(c: &Ctx, pos: usize, d: usize, fuel: usize) -> (r: Result<Node, Diagnostic>)
    requires
        ctx_ok(c),
        pos <= c.toks@.len(),
    ensures
        advanced(c, pos, r),
        r matches Ok(n) ==> grammar::derives_simple(view(c), pos as int, n.expr, n.next as int),
    decreases fuel,
{
    if fuel == 0 {
        return Err(error_at(c, pos, "expression nesting exceeds the supported limit"));
    }
    if d > MAX_DEPTH || d == 0 {
        return Err(depth_error(c, pos, d));
    }
    let ghost s = view(c);
    let v = primary(c, pos, d, fuel - 1)?;
    let ghost gv = v.expr;
    let ghost p = v.next as int;
    assert(grammar::chosen(gv) && grammar::chosen(p));
    if at_kind(c, v.next, SyntaxKind::Dot) {
        let (path, q1, kh) = attr_path(c, v.next + 1, d, false, fuel - 1)?;
        let (default, q, dh) = if at_kind(c, q1, SyntaxKind::Or) {
            let w = simple(c, q1 + 1, d + 1, fuel - 1)?;
            (Some(Box::new(w.expr)), w.next, w.height)
        } else {
            (None, q1, 0)
        };
        let h = wrapped_height(c, v.next, d, v.height, max(kh, dh))?;
        let ne = Expr::Select { value: Box::new(v.expr), path, default };
        assert(grammar::derives_selection(s, p + 1, gv, ne, q as int)) by {
            assert(grammar::chosen(q1 as int));
        }
        return Ok(Node { expr: ne, next: q, height: h });
    }
    Ok(v)
}

/// Parenthesized, comma-separated arguments with an optional trailing comma.
/// Each argument sits one level below `d`.
fn arguments(c: &Ctx, pos: usize, d: usize, fuel: usize) -> (r: Result<
    (Vec<Expr>, usize, usize),
    Diagnostic,
>)
    requires
        ctx_ok(c),
        pos <= c.toks@.len(),
        1 <= d <= MAX_DEPTH,
    ensures
        r matches Ok((args, q, h)) ==> pos < q <= c.toks@.len() && h <= MAX_DEPTH && args@.len()
            >= 1,
        r matches Ok((args, q, _)) ==> grammar::derives_arguments(view(c), pos as int, args@, q as int),
    decreases fuel,
{
    if fuel == 0 {
        return Err(error_at(c, pos, "expression nesting exceeds the supported limit"));
    }
    let mut p = expect(c, pos, SyntaxKind::LParen, "expected '('")?;
    let ghost s = view(c);
    let mut args: Vec<Expr> = Vec::new();
    let mut height: usize = 0;
    loop
        invariant
            ctx_ok(c),
            s == view(c),
            pos < p <= c.toks@.len(),
            at(s, pos as int, SyntaxKind::LParen),
            grammar::derives_argument_list(s, pos + 1, args@, p as int),
            1 <= d <= MAX_DEPTH,
            height <= MAX_DEPTH,
            fuel > 0,
        decreases c.toks@.len() - p,
    {
        if at_kind(c, p, SyntaxKind::RParen) && args.len() > 0 {
            assert(grammar::chosen(p as int));
            return Ok((args, p + 1, height));
        }
        let p0 = p;
        let v = expr(c, p, d + 1, fuel - 1)?;
        if v.height > height {
            height = v.height;
        }
        let ghost before = args@;
        let ghost item = v.expr;
        let ghost q = v.next as int;
        args.push(v.expr);
        p = v.next;
        if at_kind(c, p, SyntaxKind::Comma) {
            p = p + 1;
        } else if !at_kind(c, p, SyntaxKind::RParen) {
            return Err(error_at(c, p, "expected ',' or ')'"));
        }
        assert(grammar::derives_argument(s, p0 as int, item, p as int)) by {
            assert(grammar::chosen(q));
        }
        assert(args@.drop_last() =~= before);
        assert(grammar::chosen(p0 as int));
    }
}

/// An attribute name: an identifier, `or`, `fn`, `yield`, a string or `${…}`.
/// `key_depth` is the depth of a dynamic key.
fn attr_name(c: &Ctx, pos: usize, key_depth: usize, fuel: usize) -> (r: Result<
    (AttrName, usize, usize),
    Diagnostic,
>)
    requires
        ctx_ok(c),
        pos <= c.toks@.len(),
    ensures
        r matches Ok((_, q, h)) ==> pos < q <= c.toks@.len() && h <= MAX_DEPTH,
        r matches Ok((a, q, _)) ==> grammar::derives_attr_name(view(c), pos as int, a, q as int),
        fuel > 0 && (at(view(c), pos as int, SyntaxKind::Ident) || at(
            view(c),
            pos as int,
            SyntaxKind::Or,
        ) || at(view(c), pos as int, SyntaxKind::Fn) || at(view(c), pos as int, SyntaxKind::Yield))
            ==> (r is Ok <==> (token_text(view(c), pos as int) matches Some(t)
            && bare_attr_name_ok(t))),
        !(at(view(c), pos as int, SyntaxKind::Ident) || at(view(c), pos as int, SyntaxKind::Or)
            || at(view(c), pos as int, SyntaxKind::Fn) || at(view(c), pos as int, SyntaxKind::Yield)
            || at(view(c), pos as int, SyntaxKind::InterpolationStart) || at(
            view(c),
            pos as int,
            SyntaxKind::StringStart,
        )) ==> r is Err,
    decreases fuel,
{
    if fuel == 0 {
        return Err(error_at(c, pos, "expression nesting exceeds the supported limit"));
    }
    match kind(c, pos) {
        Some(SyntaxKind::Ident) | Some(SyntaxKind::Or) | Some(SyntaxKind::Fn) | Some(
            SyntaxKind::Yield,
        ) => {
            let name = text(c, pos)?;
            match validate_bare_attr_name(name.as_str()) {
                Ok(()) => Ok((AttrName::Static(name), pos + 1, 0)),
                Err(m) => Err(error_at(c, pos, m)),
            }
        },
        Some(SyntaxKind::InterpolationStart) => {
            let v = expr(c, pos + 1, key_depth, fuel - 1)?;
            let q = expect(c, v.next, SyntaxKind::InterpolationEnd, "expected '}'")?;
            assert(grammar::chosen(v.next as int));
            Ok((AttrName::Dynamic(Box::new(v.expr)), q, v.height))
        },
        Some(SyntaxKind::StringStart) => {
            if c.toks[pos].span.end - c.toks[pos].span.start != 1 {
                return Err(error_at(c, pos, "attribute names require double quotes"));
            }
            let v = string(c, pos, key_depth, fuel - 1)?;
            let ghost gv = v.expr;
            let name = match v.expr {
                Expr::String(mut parts) => {
                    let ghost all = parts@;
                    if parts.len() == 0 {
                        AttrName::Static(String::new())
                    } else if parts.len() == 1 {
                        let part = parts.pop().unwrap();
                        assert(part == all[0]);
                        match part {
                            StringPart::Literal(t) => AttrName::Static(t),
                            StringPart::Interpolation(e) => {
                                let single = vec![StringPart::Interpolation(e)];
                                assert(single@ =~= all);
                                AttrName::Dynamic(Box::new(Expr::String(single)))
                            },
                        }
                    } else {
                        AttrName::Dynamic(Box::new(Expr::String(parts)))
                    }
                },
                other => AttrName::Dynamic(Box::new(other)),
            };
            assert(grammar::string_key(gv, name));
            assert(grammar::chosen(gv));
            Ok((name, v.next, v.height))
        },
        _ => Err(error_at(c, pos, "expected an attribute name")),
    }
}

/// A dotted attribute path. In a binding, the key at index `i` sits at
/// `d + i + 1`; in a selection every key sits at `d + 1`.
fn attr_path(c: &Ctx, pos: usize, d: usize, binding: bool, fuel: usize) -> (r: Result<
    (Vec<AttrName>, usize, usize),
    Diagnostic,
>)
    requires
        ctx_ok(c),
        pos <= c.toks@.len(),
        1 <= d <= MAX_DEPTH,
    ensures
        r matches Ok((path, q, h)) ==> pos < q <= c.toks@.len() && h <= MAX_DEPTH && path@.len()
            <= MAX_DEPTH,
        r matches Ok((path, q, _)) ==> grammar::derives_attr_path(view(c), pos as int, path@, q as int),
    decreases fuel,
{
    if fuel == 0 {
        return Err(error_at(c, pos, "expression nesting exceeds the supported limit"));
    }
    let mut path: Vec<AttrName> = Vec::new();
    let mut height: usize = 0;
    let (first, mut p, h0) = attr_name(c, pos, d + 1, fuel - 1)?;
    path.push(first);
    if h0 > height {
        height = h0;
    }
    while at_kind(c, p, SyntaxKind::Dot)
        invariant
            ctx_ok(c),
            pos < p <= c.toks@.len(),
            1 <= d <= MAX_DEPTH,
            height <= MAX_DEPTH,
            1 <= path@.len() <= MAX_DEPTH,
            fuel > 0,
            grammar::derives_keys(view(c), pos as int, path@, p as int),
        decreases c.toks@.len() - p,
    {
        if path.len() >= MAX_DEPTH {
            return Err(error_at(c, p, "attribute path exceeds the nesting limit"));
        }
        let key_depth = if binding {
            d + path.len() + 1
        } else {
            d + 1
        };
        let (name, q, h) = attr_name(c, p + 1, key_depth, fuel - 1)?;
        let ghost before = path@;
        path.push(name);
        proof {
            assert(path@.drop_last() =~= before);
            assert(grammar::chosen(p as int));
        }
        if h > height {
            height = h;
        }
        p = q;
    }
    Ok((path, p, height))
}

/// Bindings up to `}` (or, in a `let`, up to `yield`).
fn bindings(c: &Ctx, pos: usize, d: usize, local: bool, fuel: usize) -> (r: Result<
    (Vec<Binding>, usize, usize),
    Diagnostic,
>)
    requires
        ctx_ok(c),
        pos <= c.toks@.len(),
        1 <= d <= MAX_DEPTH,
    ensures
        r matches Ok((_, q, h)) ==> pos <= q <= c.toks@.len() && h <= MAX_DEPTH,
        r matches Ok((bs, q, _)) ==> grammar::derives_bindings(
            view(c),
            pos as int,
            local,
            bs@,
            q as int,
        ),
    decreases fuel,
{
    if fuel == 0 {
        return Err(error_at(c, pos, "expression nesting exceeds the supported limit"));
    }
    let mut p = pos;
    let mut out: Vec<Binding> = Vec::new();
    let mut height: usize = 0;
    loop
        invariant
            ctx_ok(c),
            pos <= p <= c.toks@.len(),
            1 <= d <= MAX_DEPTH,
            height <= MAX_DEPTH,
            fuel > 0,
            grammar::derives_binding_list(view(c), pos as int, local, out@, p as int),
        decreases c.toks@.len() - p,
    {
        let done = if local {
            at_kind(c, p, SyntaxKind::Yield)
        } else {
            at_kind(c, p, SyntaxKind::RBrace)
        };
        if done || p >= c.toks.len() {
            return Ok((out, p, height));
        }
        let ghost before = out@;
        if at_kind(c, p, SyntaxKind::Inherit) {
            let mut q = p + 1;
            let mut source = None;
            let ghost mut close: int = 0;
            if at_kind(c, q, SyntaxKind::LParen) {
                let v = expr(c, q + 1, d + 1, fuel - 1)?;
                proof {
                    close = v.next as int;
                }
                q = expect(c, v.next, SyntaxKind::RParen, "expected ')' after the inherit source")?;
                if v.height > height {
                    height = v.height;
                }
                source = Some(v.expr);
            }
            let ghost names_start = q as int;
            let mut names: Vec<String> = Vec::new();
            while !at_kind(c, q, SyntaxKind::Semicolon)
                invariant
                    ctx_ok(c),
                    p < names_start <= q <= c.toks@.len(),
                    1 <= d <= MAX_DEPTH,
                    fuel > 0,
                    grammar::derives_inherited(view(c), names_start, names@, q as int),
                decreases c.toks@.len() - q,
            {
                let (name, r, _) = attr_name(c, q, d + 1, fuel - 1)?;
                let ghost names_before = names@;
                match name.literal_name() {
                    Some(n) => names.push(n.to_owned()),
                    None => {
                        return Err(error_at(c, q, "dynamic attributes are not allowed in inherit"));
                    },
                }
                proof {
                    assert(names@.drop_last() =~= names_before);
                    assert(grammar::chosen(q as int) && grammar::chosen(name));
                }
                q = r;
            }
            out.push(Binding::Inherit { source, names });
            proof {
                assert(out@.drop_last() =~= before);
                assert(grammar::chosen(close));
                assert(grammar::chosen(names_start) && grammar::chosen(q as int));
                assert(grammar::chosen(p as int));
                assert(grammar::derives_binding(view(c), p as int, out@.last(), q + 1));
            }
            p = q + 1;
        } else {
            let (path, q, kh) = attr_path(c, p, d, true, fuel - 1)?;
            let ghost path_end = q as int;
            let q = expect(c, q, SyntaxKind::Assign, "expected '='")?;
            if d + path.len() > MAX_DEPTH {
                return Err(depth_error(c, q, d + path.len()));
            }
            let v = expr(c, q, d + path.len(), fuel - 1)?;
            let q = expect(c, v.next, SyntaxKind::Semicolon, "expected ';' after a binding")?;
            if kh > height {
                height = kh;
            }
            if v.height > height {
                height = v.height;
            }
            out.push(Binding::Assign { path, value: v.expr });
            proof {
                assert(out@.drop_last() =~= before);
                assert(grammar::chosen(path_end) && grammar::chosen(v.next as int));
                assert(grammar::chosen(p as int));
                assert(grammar::derives_binding(view(c), p as int, out@.last(), q as int));
            }
            p = q;
        }
    }
}

/// A string: double-quoted, or indented (`''…''`) with its indentation rules.
fn string(c: &Ctx, pos: usize, d: usize, fuel: usize) -> (r: Result<Node, Diagnostic>)
    requires
        ctx_ok(c),
        pos <= c.toks@.len(),
    ensures
        advanced(c, pos, r),
        r matches Ok(n) ==> grammar::derives_string(view(c), pos as int, n.expr, n.next as int),
    decreases fuel,
{
    if fuel == 0 {
        return Err(error_at(c, pos, "expression nesting exceeds the supported limit"));
    }
    if d == 0 || d > MAX_DEPTH {
        return Err(depth_error(c, pos, d));
    }
    let open = expect(c, pos, SyntaxKind::StringStart, "expected a string")?;
    let indented = c.toks[pos].span.end - c.toks[pos].span.start != 1;
    let mut p = open;
    let mut parts: Vec<StringPart> = Vec::new();
    let mut height: usize = 1;
    let ghost mut items: Seq<crate::ir::Piece> = Seq::empty();
    proof {
        assert(crate::ir::pieces_of(parts@) =~= items);
    }
    loop
        invariant
            ctx_ok(c),
            pos < p <= c.toks@.len(),
            1 <= d <= MAX_DEPTH,
            1 <= height <= MAX_DEPTH,
            fuel > 0,
            indented == grammar::opens_indented(view(c), pos as int),
            at(view(c), pos as int, SyntaxKind::StringStart),
            grammar::derives_fragments(view(c), pos + 1, indented, items, p as int),
            indented ==> crate::ir::pieces_of(parts@) == items,
            !indented ==> crate::ir::pieces_of(parts@) == grammar::gathered(Seq::empty(), items),
        decreases c.toks@.len() - p,
    {
        match kind(c, p) {
            Some(SyntaxKind::StringEnd) => {
                proof {
                    assert(grammar::chosen(items) && grammar::chosen(p as int));
                }
                if indented {
                    return match lower_indented(parts) {
                        Ok(lowered) => Ok(Node { expr: Expr::String(lowered), next: p + 1, height }),
                        Err(m) => Err(error_at(c, pos, m)),
                    };
                }
                return Ok(Node { expr: Expr::String(parts), next: p + 1, height });
            },
            Some(SyntaxKind::StringContent) => {
                let raw = text(c, p)?;
                let ghost old_parts = parts@;
                let ghost old_items = items;
                if indented {
                    let ghost t = raw@;
                    parts.push(StringPart::Literal(raw));
                    proof {
                        items = items.push(crate::ir::Piece::Text(t));
                        assert(crate::ir::pieces_of(parts@) =~= crate::ir::pieces_of(old_parts).push(
                            crate::ir::Piece::Text(t),
                        ));
                    }
                } else {
                    match crate::string::decode(raw.as_str()) {
                        Ok(t) => {
                            let ghost tv = t@;
                            push_string_literal(&mut parts, t);
                            proof {
                                items = items.push(crate::ir::Piece::Text(tv));
                            }
                        },
                        Err(m) => {
                            return Err(error_at(c, p, m));
                        },
                    }
                }
                proof {
                    assert(items.drop_last() =~= old_items);
                    assert(grammar::chosen(p as int));
                }
                p = p + 1;
            },
            Some(SyntaxKind::InterpolationStart) => {
                let v = expr(c, p + 1, d + 1, fuel - 1)?;
                let q = expect(c, v.next, SyntaxKind::InterpolationEnd, "expected '}'")?;
                height = grow(c, p, d, height, v.height)?;
                let ghost ve = v.expr;
                let ghost old_parts = parts@;
                let ghost old_items = items;
                parts.push(StringPart::Interpolation(v.expr));
                proof {
                    items = items.push(crate::ir::Piece::Code(ve));
                    assert(crate::ir::pieces_of(parts@) =~= crate::ir::pieces_of(old_parts).push(
                        crate::ir::Piece::Code(ve),
                    ));
                    assert(items.drop_last() =~= old_items);
                    assert(grammar::chosen(p as int) && grammar::chosen(v.next as int));
                }
                p = q;
            },
            _ => {
                return Err(error_at(c, p, "unterminated string"));
            },
        }
    }
}

/// A path with interpolations: a prefix, then interpolations and literal path
/// text without gaps.
fn interpolated_path(c: &Ctx, pos: usize, d: usize, fuel: usize) -> (r: Result<Node, Diagnostic>)
    requires
        ctx_ok(c),
        pos <= c.toks@.len(),
        1 <= d <= MAX_DEPTH,
        pos < c.toks@.len(),
    ensures
        advanced(c, pos, r),
        r matches Ok(n) ==> grammar::derives_interpolated_path(
            view(c),
            pos as int,
            n.expr,
            n.next as int,
        ),
    decreases fuel,
{
    if fuel == 0 {
        return Err(error_at(c, pos, "expression nesting exceeds the supported limit"));
    }
    let first = text(c, pos)?;
    let ghost prefix = first@;
    let ghost init = seq![crate::ir::Piece::Text(prefix)];
    let mut parts: Vec<StringPart> = Vec::new();
    parts.push(StringPart::Literal(first));
    let mut p = pos + 1;
    let mut height: usize = 1;
    let ghost mut items: Seq<crate::ir::Piece> = Seq::empty();
    proof {
        assert(crate::ir::pieces_of(parts@) =~= init);
    }
    loop
        invariant
            ctx_ok(c),
            pos < p <= c.toks@.len(),
            1 <= d <= MAX_DEPTH,
            1 <= height <= MAX_DEPTH,
            fuel > 0,
            token_text(view(c), pos as int) == Some(prefix),
            init == seq![crate::ir::Piece::Text(prefix)],
            grammar::derives_path_fragments(view(c), pos + 1, items, p as int),
            crate::ir::pieces_of(parts@) == grammar::gathered(init, items),
        decreases c.toks@.len() - p,
    {
        let adjacent = p < c.toks.len() && c.toks[p].span.start == c.toks[p - 1].span.end;
        assert(adjacent == grammar::adjacent(view(c), p as int));
        let ghost old_items = items;
        if adjacent && at_kind(c, p, SyntaxKind::InterpolationStart) {
            let v = expr(c, p + 1, d + 1, fuel - 1)?;
            let q = expect(c, v.next, SyntaxKind::InterpolationEnd, "expected '}'")?;
            height = grow(c, p, d, height, v.height)?;
            let ghost ve = v.expr;
            let ghost old_parts = parts@;
            parts.push(StringPart::Interpolation(v.expr));
            proof {
                items = items.push(crate::ir::Piece::Code(ve));
                assert(crate::ir::pieces_of(parts@) =~= crate::ir::pieces_of(old_parts).push(
                    crate::ir::Piece::Code(ve),
                ));
                assert(items.drop_last() =~= old_items);
                assert(grammar::chosen(p as int) && grammar::chosen(v.next as int));
            }
            p = q;
        } else if adjacent && at_kind(c, p, SyntaxKind::PathContent) {
            let t = text(c, p)?;
            let ghost tv = t@;
            push_string_literal(&mut parts, t);
            proof {
                items = items.push(crate::ir::Piece::Text(tv));
                assert(items.drop_last() =~= old_items);
                assert(grammar::chosen(p as int));
            }
            p = p + 1;
        } else {
            proof {
                assert(grammar::chosen(items));
            }
            return match lower_path(parts) {
                Ok(e) => Ok(Node { expr: e, next: p, height }),
                Err(m) => Err(error_at(c, pos, m)),
            };
        }
    }
}

/// `with(scope, body)`, `assert(condition, body)` and `__nxc_update(left, right)`:
/// exactly two arguments.
fn pair(c: &Ctx, pos: usize, d: usize, message: &str, fuel: usize) -> (r: Result<
    (Expr, Expr, usize, usize),
    Diagnostic,
>)
    requires
        ctx_ok(c),
        pos <= c.toks@.len(),
        1 <= d <= MAX_DEPTH,
    ensures
        r matches Ok((_, _, q, h)) ==> pos < q <= c.toks@.len() && h <= MAX_DEPTH,
        r matches Ok((a, b, q, _)) ==> grammar::derives_pair(view(c), pos as int, a, b, q as int),
    decreases fuel,
{
    if fuel == 0 {
        return Err(error_at(c, pos, "expression nesting exceeds the supported limit"));
    }
    let (mut args, q, h) = arguments(c, pos, d, fuel - 1)?;
    if args.len() != 2 {
        return Err(error_at(c, pos, message));
    }
    let ghost all = args@;
    let second = args.pop().unwrap();
    let first = args.pop().unwrap();
    assert(first == all[0] && second == all[1]);
    assert(grammar::chosen(all));
    Ok((first, second, q, h))
}

/// Whether a primary can start at token `i`.
spec fn starts_primary(s: Stream, i: int) -> bool {
    0 <= i < s.toks.len() && {
        let k = s.toks[i].kind;
        k == SyntaxKind::Integer || k == SyntaxKind::Ident || k == SyntaxKind::RelativePath || k
            == SyntaxKind::AbsolutePath || k == SyntaxKind::HomePath || k == SyntaxKind::SearchPath
            || k == SyntaxKind::PathStart || k == SyntaxKind::StringStart || k == SyntaxKind::LParen
            || k == SyntaxKind::LBracket || k == SyntaxKind::Rec || k == SyntaxKind::LBrace || k
            == SyntaxKind::Let || k == SyntaxKind::With || k == SyntaxKind::Assert
    }
}

/// A list: expressions up to `]`, each optionally followed by a comma.
fn list(c: &Ctx, pos: usize, d: usize, fuel: usize) -> (r: Result<Node, Diagnostic>)
    requires
        ctx_ok(c),
        at(view(c), pos as int, SyntaxKind::LBracket),
        1 <= d <= MAX_DEPTH,
    ensures
        advanced(c, pos, r),
        r matches Ok(n) ==> grammar::derives_primary(view(c), pos as int, n.expr, n.next as int),
    decreases fuel,
{
    if fuel == 0 {
        return Err(error_at(c, pos, "expression nesting exceeds the supported limit"));
    }
    let mut p = pos + 1;
    let mut items: Vec<Expr> = Vec::new();
    let mut height: usize = 1;
    loop
        invariant
            ctx_ok(c),
            pos < p <= c.toks@.len(),
            1 <= d <= MAX_DEPTH,
            1 <= height <= MAX_DEPTH,
            fuel > 0,
            at(view(c), pos as int, SyntaxKind::LBracket),
            grammar::derives_items(view(c), pos + 1, items@, p as int),
        decreases c.toks@.len() - p,
    {
        if at_kind(c, p, SyntaxKind::RBracket) {
            proof {
                assert(grammar::chosen(p as int));
            }
            return Ok(Node { expr: Expr::List(items), next: p + 1, height });
        }
        let v = expr(c, p, d + 1, fuel - 1)?;
        height = grow(c, p, d, height, v.height)?;
        let ghost before = items@;
        let ghost start = p as int;
        items.push(v.expr);
        p = v.next;
        if at_kind(c, p, SyntaxKind::Comma) {
            p = p + 1;
        }
        proof {
            assert(items@.drop_last() =~= before);
            assert(grammar::chosen(start) && grammar::chosen(v.next as int));
        }
    }
}

/// An attribute set, `{ … }` or `rec { … }`.
fn attr_set(c: &Ctx, pos: usize, d: usize, recursive: bool, fuel: usize) -> (r: Result<Node, Diagnostic>)
    requires
        ctx_ok(c),
        pos < c.toks@.len(),
        recursive ==> at(view(c), pos as int, SyntaxKind::Rec),
        !recursive ==> at(view(c), pos as int, SyntaxKind::LBrace),
        1 <= d <= MAX_DEPTH,
    ensures
        advanced(c, pos, r),
        r matches Ok(n) ==> grammar::derives_primary(view(c), pos as int, n.expr, n.next as int),
    decreases fuel,
{
    if fuel == 0 {
        return Err(error_at(c, pos, "expression nesting exceeds the supported limit"));
    }
    let open = if recursive {
        pos + 1
    } else {
        pos
    };
    let p = expect(c, open, SyntaxKind::LBrace, "expected '{'")?;
    let (bs, q, h) = bindings(c, p, d, false, fuel - 1)?;
    let ghost close = q as int;
    let q = expect(c, q, SyntaxKind::RBrace, "expected '}'")?;
    if d + h > MAX_DEPTH {
        return Err(depth_error(c, pos, d + h));
    }
    proof {
        assert(grammar::chosen(close));
    }
    Ok(Node { expr: Expr::AttrSet { recursive, bindings: bs }, next: q, height: h + 1 })
}

/// `let { bindings yield body; }`.
fn let_in(c: &Ctx, pos: usize, d: usize, fuel: usize) -> (r: Result<Node, Diagnostic>)
    requires
        ctx_ok(c),
        at(view(c), pos as int, SyntaxKind::Let),
        1 <= d <= MAX_DEPTH,
    ensures
        advanced(c, pos, r),
        r matches Ok(n) ==> grammar::derives_primary(view(c), pos as int, n.expr, n.next as int),
    decreases fuel,
{
    if fuel == 0 {
        return Err(error_at(c, pos, "expression nesting exceeds the supported limit"));
    }
    let p = expect(c, pos + 1, SyntaxKind::LBrace, "expected '{' after 'let'")?;
    let (bs, q, h) = bindings(c, p, d, true, fuel - 1)?;
    let ghost yield_at = q as int;
    let q = expect(c, q, SyntaxKind::Yield, "expected 'yield'")?;
    let body = expr(c, q, d + 1, fuel - 1)?;
    let q = expect(c, body.next, SyntaxKind::Semicolon, "expected ';' after the result")?;
    let q = expect(c, q, SyntaxKind::RBrace, "expected '}'")?;
    let h = max(h, body.height);
    if d + h > MAX_DEPTH {
        return Err(depth_error(c, pos, d + h));
    }
    proof {
        assert(grammar::chosen(yield_at) && grammar::chosen(body.next as int));
    }
    Ok(Node { expr: Expr::Let { bindings: bs, body: Box::new(body.expr) }, next: q, height: h + 1 })
}

/// Atoms: literals, names, paths, strings, lists, sets, `let`, `with`,
/// `assert`, `__nxc_update` and parenthesized expressions.
fn primary(c: &Ctx, pos: usize, d: usize, fuel: usize) -> (r: Result<Node, Diagnostic>)
    requires
        ctx_ok(c),
        pos <= c.toks@.len(),
        1 <= d <= MAX_DEPTH,
    ensures
        advanced(c, pos, r),
        r matches Ok(n) ==> grammar::derives_primary(view(c), pos as int, n.expr, n.next as int),
        fuel > 0 && at(view(c), pos as int, SyntaxKind::Integer) ==> (r is Ok <==> decimal_digits(
            token_word(view(c), pos as int),
        ) && decimal_value(token_word(view(c), pos as int)) <= 0x7fff_ffff_ffff_ffff),
        fuel > 0 && at(view(c), pos as int, SyntaxKind::Ident) && !(token_text(view(c), pos as int)
            == Some("__nxc_update"@) && at(view(c), pos + 1, SyntaxKind::LParen)) ==> (r is Ok
            <==> token_text(view(c), pos as int) is Some),
        fuel > 0 && (at(view(c), pos as int, SyntaxKind::RelativePath) || at(
            view(c),
            pos as int,
            SyntaxKind::AbsolutePath,
        ) || at(view(c), pos as int, SyntaxKind::HomePath)) ==> (r is Ok <==> (token_text(
            view(c),
            pos as int,
        ) matches Some(t) && literal_path_ok(t))),
        fuel > 0 && at(view(c), pos as int, SyntaxKind::SearchPath) ==> (r is Ok <==> token_text(
            view(c),
            pos as int,
        ) is Some),
        !starts_primary(view(c), pos as int) ==> r is Err,
    decreases fuel,
{
    if fuel == 0 {
        return Err(error_at(c, pos, "expression nesting exceeds the supported limit"));
    }
    let k = match kind(c, pos) {
        Some(k) => k,
        None => {
            return Err(error_at(c, pos, "expected an expression"));
        },
    };
    match k {
        SyntaxKind::Integer => {
            let w = word(c, pos);
            match parse_integer(w.as_str()) {
                Some(v) => Ok(Node { expr: Expr::Integer(v), next: pos + 1, height: 1 }),
                None => Err(error_at(c, pos, "integer literal exceeds the Nix signed 64-bit range")),
            }
        },
        SyntaxKind::Float => Err(error_at(c, pos, "float literals are not supported")),
        SyntaxKind::Ident => {
            let w = text(c, pos)?;
            if text_eq(w.as_str(), "__curPos") {
                return Ok(Node { expr: Expr::CurrentPosition, next: pos + 1, height: 1 });
            }
            if text_eq(w.as_str(), "__nxc_update") && at_kind(c, pos + 1, SyntaxKind::LParen) {
                let (l, r, q, h) = pair(c, pos + 1, d, "__nxc_update requires two operands", fuel - 1)?;
                if h + 1 > MAX_DEPTH {
                    return Err(depth_error(c, pos, d + h));
                }
                proof {
                    assert(grammar::chosen(l) && grammar::chosen(r));
                }
                return Ok(
                    Node {
                        expr: Expr::Binary { op: BinaryOp::Update, left: Box::new(l), right: Box::new(r) },
                        next: q,
                        height: h + 1,
                    },
                );
            }
            Ok(Node { expr: Expr::Variable(decode(w.as_str()).to_owned()), next: pos + 1, height: 1 })
        },
        SyntaxKind::RelativePath | SyntaxKind::AbsolutePath | SyntaxKind::HomePath => {
            let t = text(c, pos)?;
            let mut parts: Vec<StringPart> = Vec::new();
            parts.push(StringPart::Literal(t));
            match lower_path(parts) {
                Ok(e) => Ok(Node { expr: e, next: pos + 1, height: 1 }),
                Err(m) => Err(error_at(c, pos, m)),
            }
        },
        SyntaxKind::SearchPath => {
            let t = text(c, pos)?;
            Ok(Node { expr: Expr::SearchPath(t), next: pos + 1, height: 1 })
        },
        SyntaxKind::PathStart => interpolated_path(c, pos, d, fuel - 1),
        SyntaxKind::StringStart => string(c, pos, d, fuel - 1),
        SyntaxKind::LParen => {
            let v = expr(c, pos + 1, d, fuel - 1)?;
            let q = expect(c, v.next, SyntaxKind::RParen, "expected ')'")?;
            proof {
                assert(grammar::chosen(v.next as int));
            }
            Ok(Node { expr: v.expr, next: q, height: v.height })
        },
        SyntaxKind::LBracket => list(c, pos, d, fuel - 1),
        SyntaxKind::Rec | SyntaxKind::LBrace => attr_set(c, pos, d, k == SyntaxKind::Rec, fuel - 1),
        SyntaxKind::Let => let_in(c, pos, d, fuel - 1),
        SyntaxKind::With => {
            let (scope, body, q, h) = pair(c, pos + 1, d, "with requires a context and a body", fuel - 1)?;
            if d + h > MAX_DEPTH {
                return Err(depth_error(c, pos, d + h));
            }
            proof {
                assert(grammar::chosen(scope) && grammar::chosen(body));
            }
            Ok(Node { expr: Expr::With { scope: Box::new(scope), body: Box::new(body) }, next: q, height: h + 1 })
        },
        SyntaxKind::Assert => {
            let (condition, body, q, h) = pair(c, pos + 1, d, "assert requires a condition and a body", fuel - 1)?;
            if d + h > MAX_DEPTH {
                return Err(depth_error(c, pos, d + h));
            }
            proof {
                assert(grammar::chosen(condition) && grammar::chosen(body));
            }
            Ok(
                Node {
                    expr: Expr::Assert { condition: Box::new(condition), body: Box::new(body) },
                    next: q,
                    height: h + 1,
                },
            )
        },
        _ => Err(error_at(c, pos, "expected an expression")),
    }
}

/// A digit string's value is at least that of any of its prefixes.
proof fn lemma_decimal_prefix(s: Seq<char>, k: int)
    requires
        0 <= k <= s.len(),
        forall|i: int| 0 <= i < s.len() ==> '0' <= #[trigger] s[i] <= '9',
    ensures
        decimal_value(s.take(k)) <= decimal_value(s),
    decreases s.len() - k,
{
    if k < s.len() {
        lemma_decimal_prefix(s, k + 1);
        assert(s.take(k + 1).drop_last() =~= s.take(k));
        assert(s.take(k + 1).last() == s[k]);
    } else {
        assert(s.take(k) =~= s);
    }
}

/// The value of a decimal literal that fits Nix's signed 64-bit range.
pub(crate) fn parse_integer(digits: &str) -> (r: Option<u64>)
    ensures
        r is Some <==> decimal_digits(digits@) && decimal_value(digits@) <= 0x7fff_ffff_ffff_ffff,
        r matches Some(v) ==> v == decimal_value(digits@),
{
    let chars = crate::text::chars_of(digits);
    if chars.len() == 0 {
        return None;
    }
    let ghost s = chars@;
    let mut v: u64 = 0;
    let mut i: usize = 0;
    while i < chars.len()
        invariant
            s == chars@,
            s == digits@,
            i <= s.len(),
            v == decimal_value(s.take(i as int)),
            v <= 0x7fff_ffff_ffff_ffff,
            forall|k: int| 0 <= k < i ==> '0' <= #[trigger] s[k] <= '9',
        decreases s.len() - i,
    {
        let ch = chars[i];
        if !('0' <= ch && ch <= '9') {
            assert(!decimal_digits(s)) by {
                assert(!('0' <= s[i as int] <= '9'));
            }
            return None;
        }
        let digit = (ch as u32 - '0' as u32) as u64;
        assert(s.take(i + 1).drop_last() =~= s.take(i as int));
        assert(s.take(i + 1).last() == ch);
        if v > (0x7fff_ffff_ffff_ffff - digit) / 10 {
            assert(v * 10 + digit > 0x7fff_ffff_ffff_ffff) by (nonlinear_arith)
                requires
                    v > (0x7fff_ffff_ffff_ffff - digit) / 10,
                    digit <= 9,
            ;
            proof {
                if decimal_digits(s) {
                    lemma_decimal_prefix(s, i + 1);
                }
            }
            return None;
        }
        assert(v * 10 + digit <= 0x7fff_ffff_ffff_ffff) by (nonlinear_arith)
            requires
                v <= (0x7fff_ffff_ffff_ffff - digit) / 10,
                digit <= 9,
        ;
        v = v * 10 + digit;
        i += 1;
    }
    assert(s.take(s.len() as int) =~= s);
    Some(v)
}

/// The significant tokens and, for each opening parenthesis, its partner.
fn context<'a>(bytes: &'a [u8], tokens: &Vec<Token>) -> (c: Ctx<'a>)
    requires
        bytes@.len() <= usize::MAX,
        tokens@.len() <= crate::MAX_SOURCE_BYTES,
        forall|i: int|
            0 <= i < tokens@.len() ==> (#[trigger] tokens@[i]).span.start <= tokens@[i].span.end
                <= bytes@.len(),
    ensures
        ctx_ok(&c),
        c.bytes@ == bytes@,
        c.toks@ == significant(tokens@, tokens@.len() as int),
        c.closing@ == paren_pass(c.toks@, c.toks@.len() as int).0,
{
    let mut toks: Vec<Token> = Vec::new();
    let mut i: usize = 0;
    while i < tokens.len()
        invariant
            i <= tokens@.len(),
            tokens@.len() <= crate::MAX_SOURCE_BYTES,
            toks@.len() <= i,
            toks@ == significant(tokens@, i as int),
            forall|j: int|
                0 <= j < tokens@.len() ==> (#[trigger] tokens@[j]).span.start <= tokens@[j].span.end
                    <= bytes@.len(),
            forall|j: int|
                0 <= j < toks@.len() ==> (#[trigger] toks@[j]).span.start <= toks@[j].span.end
                    <= bytes@.len(),
        decreases tokens@.len() - i,
    {
        if !tokens[i].kind.is_trivia() {
            toks.push(tokens[i].clone());
        }
        i += 1;
    }
    let n = toks.len();
    let mut closing: Vec<usize> = Vec::new();
    let mut open: Vec<usize> = Vec::new();
    let mut j: usize = 0;
    while j < n
        invariant
            n == toks@.len(),
            j <= n,
            closing@.len() == j,
            forall|k: int| 0 <= k < open@.len() ==> #[trigger] open@[k] < j,
            (closing@, open@) == paren_pass(toks@, j as int),
        decreases n - j,
    {
        closing.push(n);
        if toks[j].kind == SyntaxKind::LParen {
            open.push(j);
        } else if toks[j].kind == SyntaxKind::RParen {
            let ghost before = open@;
            match open.pop() {
                Some(o) => {
                    closing.set(o, j);
                },
                None => {},
            }
        }
        j += 1;
    }
    Ctx { bytes, toks, closing }
}

fn whole(source: &str, message: &str) -> (d: Diagnostic)
    ensures
        d.span.start == 0,
        d.span.end == source.spec_bytes().len() as usize,
{
    Diagnostic::new(0, source.len(), message)
}

/// Parse and lower nxc source under the given budgets: the source byte
/// budget, then the significant-token budget and delimiter nesting, then
/// invalid tokens, then the grammar, then validation of the result.
pub(crate) fn parse_source(source: &str, limits: Limits) -> (r: Result<Expr, Vec<Diagnostic>>)
    ensures
        r matches Ok(e) ==> expr_valid(e, limits),
        r is Ok ==> nxc_within(source@, limits) && lex_clean(spec_lex(source.spec_bytes())),
        r matches Ok(e) ==> grammar::source_derives(source.spec_bytes(), e),
        r matches Err(ds) ==> 1 <= ds@.len() <= MAX_DIAGNOSTICS,
        source.spec_bytes().len() > limits.spec_source_bytes() ==> (r matches Err(ds) && ds@.len()
            == 1 && ds@[0].message@ == exceeded_message(
            "source byte"@,
            source.spec_bytes().len() as int,
            limits.spec_source_bytes() as int,
        )),
        source.spec_bytes().len() <= limits.spec_source_bytes() && nxc_budget_message(
            source@,
            limits,
        ) != Seq::<char>::empty() ==> (r matches Err(ds) && ds@.len() == 1 && ds@[0].message@
            == nxc_budget_message(source@, limits)),
{
    let bytes = source.as_bytes();
    match limits.check_source_bytes(bytes.len()) {
        Ok(()) => {},
        Err(e) => {
            return Err(vec![e]);
        },
    }
    let cap = limits.source_bytes();
    let tokens = lex(source);
    let (count, peak) = measure(&tokens);
    match check("source token", count, limits.tokens()) {
        Ok(()) => {},
        Err(mut e) => {
            e.span = core::ops::Range { start: 0, end: source.len() };
            return Err(vec![e]);
        },
    }
    match check("delimiter depth", peak, MAX_DEPTH) {
        Ok(()) => {},
        Err(mut e) => {
            e.span = core::ops::Range { start: 0, end: source.len() };
            return Err(vec![e]);
        },
    }
    let mut errors: Vec<Diagnostic> = Vec::new();
    let mut i: usize = 0;
    while i < tokens.len() && errors.len() < MAX_DIAGNOSTICS
        invariant
            i <= tokens@.len(),
            errors@.len() <= MAX_DIAGNOSTICS,
            errors@.len() == 0 ==> forall|k: int|
                0 <= k < i ==> (#[trigger] tokens@[k]).kind != SyntaxKind::ErrorToken,
        decreases tokens@.len() - i,
    {
        if tokens[i].kind == SyntaxKind::ErrorToken {
            errors.push(
                Diagnostic::new(tokens[i].span.start, tokens[i].span.end, "invalid or unsupported token"),
            );
        }
        i += 1;
    }
    if errors.len() > 0 {
        return Err(errors);
    }
    proof {
        lemma_partition_bounds(tokens@, bytes@.len());
        lemma_partition_count(tokens@, bytes@.len());
    }
    let c = context(bytes, &tokens);
    if c.toks.len() == 0 {
        return Err(vec![whole(source, "missing expression")]);
    }
    let node = match expr(&c, 0, 1, PARSE_FUEL) {
        Ok(n) => n,
        Err(e) => {
            return Err(vec![e]);
        },
    };
    if node.next < c.toks.len() {
        return Err(vec![error_at(&c, node.next, "unexpected token after the expression")]);
    }
    proof {
        assert(view(&c) == grammar::stream_of(source.spec_bytes()));
    }
    match node.expr.validate(limits) {
        Ok(()) => Ok(node.expr),
        Err(mut e) => {
            e.span = core::ops::Range { start: 0, end: source.len() };
            Err(vec![e])
        },
    }
}

/// Token spans of a partition lie within the source.
pub(crate) proof fn lemma_partition_bounds(t: Seq<Token>, n: nat)
    requires
        tokens_partition(t, n),
    ensures
        forall|i: int| 0 <= i < t.len() ==> (#[trigger] t[i]).span.start <= t[i].span.end <= n,
{
    assert forall|i: int| 0 <= i < t.len() implies (#[trigger] t[i]).span.start <= t[i].span.end
        <= n by {
        lemma_partition_end(t, n, i);
    }
}

/// A partition of `0..n` has at most `n` tokens.
proof fn lemma_partition_count(t: Seq<Token>, n: nat)
    requires
        tokens_partition(t, n),
    ensures
        t.len() <= n,
{
    if t.len() > 0 {
        lemma_partition_start(t, n, t.len() - 1);
    }
}

proof fn lemma_partition_start(t: Seq<Token>, n: nat, i: int)
    requires
        tokens_partition(t, n),
        0 <= i < t.len(),
    ensures
        t[i].span.start >= i,
        t[i].span.end <= n,
    decreases i,
{
    lemma_partition_end(t, n, i);
    if i > 0 {
        lemma_partition_start(t, n, i - 1);
        assert(t[i - 1].span.end == t[i].span.start);
    }
}

proof fn lemma_partition_end(t: Seq<Token>, n: nat, i: int)
    requires
        tokens_partition(t, n),
        0 <= i < t.len(),
    ensures
        t[i].span.end <= n,
    decreases t.len() - i,
{
    if i + 1 < t.len() {
        lemma_partition_end(t, n, i + 1);
        assert(t[i].span.end == t[i + 1].span.start);
    }
}

} // verus!
