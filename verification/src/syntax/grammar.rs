//! The nxc grammar over the significant tokens of a source. Each relation
//! holds when the tokens from a position derive the given form and the form
//! ends at the given position. Resource limits are not part of the grammar:
//! they only refuse derivations.
use vstd::prelude::*;

use super::ident::spec_decode as identifier;
use super::kind::{spec_is_trivia, SyntaxKind};
use super::lexer::{spec_lex, Token};
use crate::ir::path::{interpolated_path_ok, literal_path_ok};
use crate::ir::{
    bare_attr_name_ok, pieces_of, push_text, spec_literal_name, starts_with, AttrName, BinaryOp,
    Binding, Expr, Formal, Pattern, Piece, StringPart,
};
use crate::string::{indented_pieces, spec_decode as string_text};
use crate::MAX_DEPTH;
use vstd::utf8::{decode_utf8, valid_utf8};

verus! {

/// The significant tokens of a source, its bytes, and for each opening
/// parenthesis the index of its partner (the token count when unmatched).
pub struct Stream {
    pub toks: Seq<Token>,
    pub bytes: Seq<u8>,
    pub closing: Seq<usize>,
}

/// The tokens among the first `n` that are not trivia.
pub open spec fn significant(t: Seq<Token>, n: int) -> Seq<Token>
    decreases n,
{
    if n <= 0 || n > t.len() {
        Seq::empty()
    } else if spec_is_trivia(t[n - 1].kind) {
        significant(t, n - 1)
    } else {
        significant(t, n - 1).push(t[n - 1])
    }
}

/// Parentheses matched over the first `j` tokens: each token's partner so
/// far (the token count by default), and the parentheses still open.
pub open spec fn paren_pass(t: Seq<Token>, j: int) -> (Seq<usize>, Seq<usize>)
    decreases j,
{
    if j <= 0 || j > t.len() {
        (Seq::empty(), Seq::empty())
    } else {
        let (closing, open) = paren_pass(t, j - 1);
        let closing = closing.push(t.len() as usize);
        if t[j - 1].kind == SyntaxKind::LParen {
            (closing, open.push((j - 1) as usize))
        } else if t[j - 1].kind == SyntaxKind::RParen && open.len() > 0 {
            (closing.update(open.last() as int, (j - 1) as usize), open.drop_last())
        } else {
            (closing, open)
        }
    }
}

/// The token stream of a source's bytes.
pub open spec fn stream_of(bytes: Seq<u8>) -> Stream {
    let lexed = spec_lex(bytes);
    let toks = significant(lexed, lexed.len() as int);
    Stream { toks, bytes, closing: paren_pass(toks, toks.len() as int).0 }
}

// ---------------------------------------------------------------------------
// Tokens.

/// Nonempty text of ASCII digits.
pub open spec fn decimal_digits(s: Seq<char>) -> bool {
    s.len() > 0 && forall|i: int| 0 <= i < s.len() ==> '0' <= #[trigger] s[i] <= '9'
}

/// The value of a digit string.
pub open spec fn decimal_value(s: Seq<char>) -> nat
    decreases s.len(),
{
    if s.len() == 0 {
        0
    } else {
        decimal_value(s.drop_last()) * 10 + ((s.last() as int - '0' as int) as nat)
    }
}


pub open spec fn at(s: Stream, i: int, k: SyntaxKind) -> bool {
    0 <= i < s.toks.len() && s.toks[i].kind == k
}

pub open spec fn token_bytes(s: Stream, i: int) -> Seq<u8> {
    s.bytes.subrange(s.toks[i].span.start as int, s.toks[i].span.end as int)
}

/// A token's text, where its bytes are UTF-8.
pub open spec fn token_text(s: Stream, i: int) -> Option<Seq<char>> {
    if valid_utf8(token_bytes(s, i)) {
        Some(decode_utf8(token_bytes(s, i)))
    } else {
        None
    }
}

/// A token's bytes read as ASCII characters.
pub open spec fn token_word(s: Stream, i: int) -> Seq<char> {
    Seq::new(token_bytes(s, i).len(), |k: int| token_bytes(s, i)[k] as char)
}

/// Whether tokens from `i` start a lambda: `x =>`, `(…) =>` or `fn(…) =>`.
pub open spec fn lambda_ahead(s: Stream, i: int) -> bool {
    if at(s, i, SyntaxKind::Ident) && i + 1 < s.toks.len() {
        at(s, i + 1, SyntaxKind::Arrow)
    } else {
        let open = if at(s, i, SyntaxKind::Fn) {
            i + 1
        } else {
            i
        };
        at(s, open, SyntaxKind::LParen) && s.closing[open] < s.toks.len() && s.closing[open] + 1
            < s.toks.len() && at(s, s.closing[open] + 1, SyntaxKind::Arrow)
    }
}

/// Binding powers of infix operators, scaled by two: (left, right, operator).
pub open spec fn infix_power(k: SyntaxKind) -> Option<(usize, usize, BinaryOp)> {
    match k {
        SyntaxKind::OrOr => Some((2, 3, BinaryOp::Or)),
        SyntaxKind::AndAnd => Some((4, 5, BinaryOp::And)),
        SyntaxKind::EqualEqual => Some((6, 7, BinaryOp::Equal)),
        SyntaxKind::NotEqual => Some((6, 7, BinaryOp::NotEqual)),
        SyntaxKind::Less => Some((8, 9, BinaryOp::Less)),
        SyntaxKind::LessEqual => Some((8, 9, BinaryOp::LessOrEqual)),
        SyntaxKind::Greater => Some((8, 9, BinaryOp::Greater)),
        SyntaxKind::GreaterEqual => Some((8, 9, BinaryOp::GreaterOrEqual)),
        SyntaxKind::Plus => Some((12, 13, BinaryOp::Add)),
        SyntaxKind::Minus => Some((12, 13, BinaryOp::Subtract)),
        SyntaxKind::Star => Some((14, 15, BinaryOp::Multiply)),
        SyntaxKind::Slash => Some((14, 15, BinaryOp::Divide)),
        SyntaxKind::PlusPlus => Some((16, 16, BinaryOp::Concat)),
        _ => None,
    }
}

/// Whether token `p` follows token `p - 1` without a gap.
pub open spec fn adjacent(s: Stream, p: int) -> bool {
    0 < p < s.toks.len() && s.toks[p].span.start == s.toks[p - 1].span.end
}

/// Pieces gathered one by one: text merges into trailing text, empty text is
/// dropped, and each interpolation stands alone.
pub open spec fn gathered(init: Seq<Piece>, items: Seq<Piece>) -> Seq<Piece>
    decreases items.len(),
{
    if items.len() == 0 {
        init
    } else {
        match items.last() {
            Piece::Text(t) => push_text(gathered(init, items.drop_last()), t),
            Piece::Code(v) => gathered(init, items.drop_last()).push(Piece::Code(v)),
        }
    }
}

/// The expression a path's pieces lower to: a single literal is a plain path
/// of the kind its prefix selects; anything else is an interpolated path.
pub open spec fn path_lowered(pieces: Seq<Piece>, e: Expr) -> bool {
    if pieces.len() == 1 && pieces[0] is Text {
        let t = match pieces[0] {
            Piece::Text(t) => t,
            Piece::Code(_) => Seq::empty(),
        };
        &&& literal_path_ok(t)
        &&& if starts_with(t, "~/"@) {
            e matches Expr::HomePath(x) && x@ == t
        } else if starts_with(t, "/"@) {
            e matches Expr::AbsolutePath(x) && x@ == t
        } else {
            e matches Expr::RelativePath(x) && x@ == t
        }
    } else {
        e matches Expr::InterpolatedPath(ps) && pieces_of(ps@) == pieces && interpolated_path_ok(ps@)
    }
}

/// Arguments applied one by one.
pub open spec fn applied(f: Expr, args: Seq<Expr>) -> Expr
    decreases args.len(),
{
    if args.len() == 0 {
        f
    } else {
        Expr::Apply { function: Box::new(applied(f, args.drop_last())), argument: Box::new(args.last()) }
    }
}

/// The attribute name a string key stands for: a literal is a static name,
/// a lone interpolation stays a dynamic string, anything else is dynamic.
pub open spec fn string_key(v: Expr, a: AttrName) -> bool {
    match v {
        Expr::String(parts) => if parts@.len() == 0 {
            a matches AttrName::Static(n) && n@ == Seq::<char>::empty()
        } else if parts@.len() == 1 && parts@[0] is Literal {
            a matches AttrName::Static(n) && parts@[0] matches StringPart::Literal(t) && n@ == t@
        } else if parts@.len() == 1 {
            a matches AttrName::Dynamic(k) && *k matches Expr::String(ps) && ps@ == parts@
        } else {
            a matches AttrName::Dynamic(k) && *k == v
        },
        _ => a matches AttrName::Dynamic(k) && *k == v,
    }
}

/// A neutral term naming a witness of the grammar's existentials; it holds
/// of every value.
pub open spec fn chosen<A>(x: A) -> bool {
    true
}

// ---------------------------------------------------------------------------
// The grammar. Measures: the tokens left, then a rank that falls along the
// calls made at one position, then the length of a list being derived.

/// A whole expression: a conditional, a lambda, or operators.
pub open spec fn derives_expr(s: Stream, pos: int, e: Expr, next: int) -> bool
    decreases s.toks.len() - pos, 40int, 0int,
{
    if pos < 0 || pos >= s.toks.len() {
        false
    } else if at(s, pos, SyntaxKind::If) {
        e matches Expr::If { condition, then_branch, else_branch } && exists|n1: int, n2: int|
            #![trigger chosen(n1), chosen(n2)]
            pos < n1 < n2 < next <= s.toks.len() && derives_expr(s, pos + 1, *condition, n1) && at(
                s,
                n1,
                SyntaxKind::Then,
            ) && derives_expr(s, n1 + 1, *then_branch, n2) && at(s, n2, SyntaxKind::Else)
                && derives_expr(s, n2 + 1, *else_branch, next)
    } else if lambda_ahead(s, pos) {
        derives_lambda(s, pos, e, next)
    } else {
        derives_operators(s, pos, 0, e, next)
    }
}

/// A lambda: `x => body`, `(pattern) => body` or `fn(pattern) => body`.
pub open spec fn derives_lambda(s: Stream, pos: int, e: Expr, next: int) -> bool
    decreases s.toks.len() - pos, 39int, 0int,
{
    if pos < 0 || pos >= s.toks.len() {
        false
    } else {
        e matches Expr::Lambda { parameter, body } && exists|after: int|
            #![trigger chosen(after)]
            pos < after < next <= s.toks.len() && (if at(s, pos, SyntaxKind::Ident) {
                parameter matches Pattern::Ident(n) && n@ == identifier(token_word(s, pos))
                    && after == pos + 1
            } else {
                let open = if at(s, pos, SyntaxKind::Fn) {
                    pos + 1
                } else {
                    pos
                };
                at(s, open, SyntaxKind::LParen) && exists|q: int|
                    #![trigger chosen(q)]
                    open + 1 < q < after && derives_pattern(s, open + 1, parameter, q) && at(
                        s,
                        q,
                        SyntaxKind::RParen,
                    ) && after == q + 1
            }) && at(s, after, SyntaxKind::Arrow) && derives_expr(s, after + 1, *body, next)
    }
}

/// A parameter pattern: `x`, `x@{ … }`, `{ … }` or `{ … }@x`.
pub open spec fn derives_pattern(s: Stream, pos: int, p: Pattern, next: int) -> bool
    decreases s.toks.len() - pos, 38int, 0int,
{
    if pos < 0 || pos >= s.toks.len() {
        false
    } else if at(s, pos, SyntaxKind::Ident) {
        let name = identifier(token_word(s, pos));
        if at(s, pos + 1, SyntaxKind::At) {
            p matches Pattern::AttrSet { fields, ellipsis, bind } && bind matches Some(b) && b@
                == name && derives_formals(s, pos + 2, fields@, ellipsis, next)
        } else {
            p matches Pattern::Ident(n) && n@ == name && next == pos + 1
        }
    } else {
        p matches Pattern::AttrSet { fields, ellipsis, bind } && exists|q: int|
            #![trigger chosen(q)]
            pos < q <= next && derives_formals(s, pos, fields@, ellipsis, q) && if at(
                s,
                q,
                SyntaxKind::At,
            ) {
                bind matches Some(b) && b@ == identifier(token_word(s, q + 1)) && at(
                    s,
                    q + 1,
                    SyntaxKind::Ident,
                ) && next == q + 2
            } else {
                bind is None && next == q
            }
    }
}

/// Pattern fields in braces, with an optional final `...`.
pub open spec fn derives_formals(
    s: Stream,
    pos: int,
    fields: Seq<Formal>,
    ellipsis: bool,
    next: int,
) -> bool
    decreases s.toks.len() - pos, 37int, 0int,
{
    if pos < 0 || pos >= s.toks.len() {
        false
    } else {
        at(s, pos, SyntaxKind::LBrace) && exists|p: int|
            #![trigger chosen(p)]
            pos < p < next && derives_fields(s, pos + 1, fields, p) && if ellipsis {
                at(s, p, SyntaxKind::Ellipsis) && at(s, p + 1, SyntaxKind::RBrace) && next == p + 2
            } else {
                at(s, p, SyntaxKind::RBrace) && next == p + 1
            }
    }
}

/// Pattern fields from `start`, each followed by a comma or the closing brace.
pub open spec fn derives_fields(s: Stream, start: int, fields: Seq<Formal>, p: int) -> bool
    decreases s.toks.len() - start, 60int, fields.len(),
{
    if start < 0 || start > s.toks.len() {
        false
    } else if fields.len() == 0 {
        p == start
    } else {
        exists|p0: int|
            #![trigger chosen(p0)]
            start <= p0 < p <= s.toks.len() && derives_fields(s, start, fields.drop_last(), p0)
                && derives_field(
                s,
                p0,
                fields.last(),
                p,
            )
    }
}

pub open spec fn derives_field(s: Stream, pos: int, f: Formal, next: int) -> bool
    decreases s.toks.len() - pos, 59int, 0int,
{
    if pos < 0 || pos >= s.toks.len() {
        false
    } else {
        at(s, pos, SyntaxKind::Ident) && f.name@ == identifier(token_word(s, pos)) && exists|q: int|
            #![trigger chosen(q)]
            pos < q <= next && (if at(s, pos + 1, SyntaxKind::Question) {
                f.default matches Some(v) && derives_expr(s, pos + 2, v, q)
            } else {
                f.default is None && q == pos + 1
            }) && if at(s, q, SyntaxKind::Comma) {
                next == q + 1
            } else {
                at(s, q, SyntaxKind::RBrace) && next == q
            }
    }
}

/// Operators of binding power at least `min` over an operand.
pub open spec fn derives_operators(s: Stream, pos: int, min: int, e: Expr, next: int) -> bool
    decreases s.toks.len() - pos, 36int, 0int,
{
    if pos < 0 || pos >= s.toks.len() {
        false
    } else {
        exists|left: Expr, p: int|
            #![trigger chosen(left), chosen(p)]
            pos < p <= next <= s.toks.len() && derives_operand(s, pos, left, p) && derives_tail(
                s,
                p,
                min,
                0,
                left,
                e,
                next,
            )
    }
}

/// An operand: a prefix `-` or `!` over operators, or a primary.
pub open spec fn derives_operand(s: Stream, pos: int, e: Expr, next: int) -> bool
    decreases s.toks.len() - pos, 35int, 0int,
{
    if pos < 0 || pos >= s.toks.len() {
        false
    } else if at(s, pos, SyntaxKind::Minus) {
        e matches Expr::Negate(v) && derives_operators(s, pos + 1, 18, *v, next)
    } else if at(s, pos, SyntaxKind::Bang) {
        e matches Expr::Not(v) && derives_operators(s, pos + 1, 10, *v, next)
    } else {
        derives_primary(s, pos, e, next)
    }
}

/// What follows an operand at `p`: calls, selections, attribute tests and
/// infix operators extend `left` until one does not apply. Comparisons do
/// not associate.
pub open spec fn derives_tail(
    s: Stream,
    p: int,
    min: int,
    last: int,
    left: Expr,
    e: Expr,
    next: int,
) -> bool
    decreases s.toks.len() - p, 32int, 0int,
{
    if p < 0 {
        false
    } else if p >= s.toks.len() {
        e == left && next == p
    } else {
        let k = s.toks[p].kind;
        if k == SyntaxKind::LParen && 20 >= min {
            exists|args: Seq<Expr>, q: int|
                #![trigger chosen(args), chosen(q)]
                p < q <= next <= s.toks.len() && derives_arguments(s, p, args, q) && derives_tail(
                    s,
                    q,
                    min,
                    last,
                    applied(left, args),
                    e,
                    next,
                )
        } else if k == SyntaxKind::Dot && 20 >= min {
            exists|selected: Expr, q: int|
                #![trigger chosen(selected), chosen(q)]
                p < q <= next <= s.toks.len() && derives_selection(s, p + 1, left, selected, q)
                    && derives_tail(
                    s,
                    q,
                    min,
                    last,
                    selected,
                    e,
                    next,
                )
        } else if k == SyntaxKind::Question && 17 >= min {
            exists|tested: Expr, q: int|
                #![trigger chosen(tested), chosen(q)]
                p < q <= next <= s.toks.len() && (tested matches Expr::HasAttr { value, path } && *value == left
                    && derives_attr_path(s, p + 1, path@, q)) && derives_tail(
                    s,
                    q,
                    min,
                    last,
                    tested,
                    e,
                    next,
                )
        } else {
            match infix_power(k) {
                Some((lbp, rbp, op)) => if lbp < min {
                    e == left && next == p
                } else if (lbp == 6 || lbp == 8) && last == lbp {
                    false
                } else {
                    exists|right: Expr, q: int|
                        #![trigger chosen(right), chosen(q)]
                        p < q <= next <= s.toks.len() && derives_operators(s, p + 1, rbp as int, right, q)
                            && derives_tail(
                            s,
                            q,
                            min,
                            lbp as int,
                            Expr::Binary { op, left: Box::new(left), right: Box::new(right) },
                            e,
                            next,
                        )
                },
                None => e == left && next == p,
            }
        }
    }
}

/// A selection of `value` after its `.`: a path and an optional `or` default.
pub open spec fn derives_selection(s: Stream, pos: int, value: Expr, e: Expr, next: int) -> bool
    decreases s.toks.len() - pos, 28int, 0int,
{
    if pos < 0 || pos >= s.toks.len() {
        false
    } else {
        e matches Expr::Select { value: v, path, default } && *v == value && exists|q: int|
            #![trigger chosen(q)]
            pos < q <= next && derives_attr_path(s, pos, path@, q) && if at(s, q, SyntaxKind::Or) {
                default matches Some(d) && derives_simple(s, q + 1, *d, next)
            } else {
                default is None && next == q
            }
    }
}

/// A selection default: a primary with an optional selection of its own.
pub open spec fn derives_simple(s: Stream, pos: int, e: Expr, next: int) -> bool
    decreases s.toks.len() - pos, 34int, 0int,
{
    if pos < 0 || pos >= s.toks.len() {
        false
    } else {
        exists|v: Expr, p: int|
            #![trigger chosen(v), chosen(p)]
            pos < p <= next && derives_primary(s, pos, v, p) && if at(s, p, SyntaxKind::Dot) {
                derives_selection(s, p + 1, v, e, next)
            } else {
                e == v && next == p
            }
    }
}

/// Parenthesized, comma-separated arguments with an optional trailing comma.
pub open spec fn derives_arguments(s: Stream, pos: int, args: Seq<Expr>, next: int) -> bool
    decreases s.toks.len() - pos, 29int, 0int,
{
    if pos < 0 || pos >= s.toks.len() {
        false
    } else {
        at(s, pos, SyntaxKind::LParen) && args.len() >= 1 && exists|r: int|
            #![trigger chosen(r)]
            pos < r < next && derives_argument_list(s, pos + 1, args, r) && at(
                s,
                r,
                SyntaxKind::RParen,
            ) && next == r + 1
    }
}

/// Arguments from `start`, each followed by a comma or the closing parenthesis.
pub open spec fn derives_argument_list(s: Stream, start: int, args: Seq<Expr>, p: int) -> bool
    decreases s.toks.len() - start, 70int, args.len(),
{
    if start < 0 || start > s.toks.len() {
        false
    } else if args.len() == 0 {
        p == start
    } else {
        exists|p0: int|
            #![trigger chosen(p0)]
            start <= p0 < p <= s.toks.len() && derives_argument_list(s, start, args.drop_last(), p0)
                && derives_argument(s, p0, args.last(), p)
    }
}

pub open spec fn derives_argument(s: Stream, pos: int, a: Expr, next: int) -> bool
    decreases s.toks.len() - pos, 69int, 0int,
{
    if pos < 0 || pos >= s.toks.len() {
        false
    } else {
        exists|q: int|
            #![trigger chosen(q)]
            pos < q <= next && derives_expr(s, pos, a, q) && if at(s, q, SyntaxKind::Comma) {
                next == q + 1
            } else {
                at(s, q, SyntaxKind::RParen) && next == q
            }
    }
}

/// An attribute name: an identifier, `or`, `fn`, `yield`, a double-quoted
/// string or `${…}`.
pub open spec fn derives_attr_name(s: Stream, pos: int, a: AttrName, next: int) -> bool
    decreases s.toks.len() - pos, 23int, 0int,
{
    if pos < 0 || pos >= s.toks.len() {
        false
    } else if at(s, pos, SyntaxKind::Ident) || at(s, pos, SyntaxKind::Or) || at(
        s,
        pos,
        SyntaxKind::Fn,
    ) || at(s, pos, SyntaxKind::Yield) {
        token_text(s, pos) matches Some(t) && (a matches AttrName::Static(n) && n@ == t)
            && bare_attr_name_ok(t) && next == pos + 1
    } else if at(s, pos, SyntaxKind::InterpolationStart) {
        a matches AttrName::Dynamic(k) && exists|q: int|
            #![trigger chosen(q)]
            pos + 1 < q < next && derives_expr(s, pos + 1, *k, q) && at(
                s,
                q,
                SyntaxKind::InterpolationEnd,
            ) && next == q + 1
    } else if at(s, pos, SyntaxKind::StringStart) {
        s.toks[pos].span.end - s.toks[pos].span.start == 1 && exists|v: Expr|
            #![trigger chosen(v)]
            derives_string(s, pos, v, next) && string_key(v, a)
    } else {
        false
    }
}

/// A dotted attribute path of at most `MAX_DEPTH` names.
pub open spec fn derives_attr_path(s: Stream, pos: int, path: Seq<AttrName>, next: int) -> bool
    decreases s.toks.len() - pos, 26int, 0int,
{
    if pos < 0 || pos >= s.toks.len() {
        false
    } else {
        1 <= path.len() <= MAX_DEPTH && derives_keys(s, pos, path, next) && !at(
            s,
            next,
            SyntaxKind::Dot,
        )
    }
}

/// Attribute names from `start` joined by dots.
pub open spec fn derives_keys(s: Stream, start: int, keys: Seq<AttrName>, p: int) -> bool
    decreases s.toks.len() - start, 25int, keys.len(),
{
    if start < 0 || start >= s.toks.len() || keys.len() == 0 {
        false
    } else if keys.len() == 1 {
        derives_attr_name(s, start, keys[0], p)
    } else {
        exists|p0: int|
            #![trigger chosen(p0)]
            start < p0 < p && derives_keys(s, start, keys.drop_last(), p0) && at(
                s,
                p0,
                SyntaxKind::Dot,
            ) && derives_attr_name(s, p0 + 1, keys.last(), p)
    }
}

/// Bindings up to `}` (or, in a `let`, up to `yield`) or the end.
pub open spec fn derives_bindings(s: Stream, pos: int, local: bool, bs: Seq<Binding>, next: int) -> bool
    decreases s.toks.len() - pos, 67int, bs.len() + 1,
{
    derives_binding_list(s, pos, local, bs, next) && bindings_end(s, next, local)
}

pub open spec fn bindings_end(s: Stream, p: int, local: bool) -> bool {
    p >= s.toks.len() || if local {
        at(s, p, SyntaxKind::Yield)
    } else {
        at(s, p, SyntaxKind::RBrace)
    }
}

pub open spec fn derives_binding_list(s: Stream, start: int, local: bool, bs: Seq<Binding>, p: int) -> bool
    decreases s.toks.len() - start, 67int, bs.len(),
{
    if start < 0 || start > s.toks.len() {
        false
    } else if bs.len() == 0 {
        p == start
    } else {
        exists|p0: int|
            #![trigger chosen(p0)]
            start <= p0 < p <= s.toks.len() && derives_binding_list(s, start, local, bs.drop_last(), p0)
                && !bindings_end(s, p0, local) && derives_binding(s, p0, bs.last(), p)
    }
}

/// One binding: `inherit [(source)] names;` or `path = value;`.
pub open spec fn derives_binding(s: Stream, pos: int, b: Binding, next: int) -> bool
    decreases s.toks.len() - pos, 66int, 0int,
{
    if pos < 0 || pos >= s.toks.len() {
        false
    } else if at(s, pos, SyntaxKind::Inherit) {
        b matches Binding::Inherit { source, names } && exists|q: int, r: int|
            #![trigger chosen(q), chosen(r)]
            pos < q <= r < next && (if at(s, pos + 1, SyntaxKind::LParen) {
                source matches Some(v) && exists|t: int|
                    #![trigger chosen(t)]
                    pos + 2 < t < q && derives_expr(s, pos + 2, v, t) && at(s, t, SyntaxKind::RParen)
                        && q == t + 1
            } else {
                source is None && q == pos + 1
            }) && derives_inherited(s, q, names@, r) && at(s, r, SyntaxKind::Semicolon) && next
                == r + 1
    } else {
        b matches Binding::Assign { path, value } && exists|q: int, r: int|
            #![trigger chosen(q), chosen(r)]
            pos < q < r < next && derives_attr_path(s, pos, path@, q) && at(s, q, SyntaxKind::Assign)
                && derives_expr(s, q + 1, value, r) && at(s, r, SyntaxKind::Semicolon) && next == r
                + 1
    }
}

/// Inherited names from `start`, each an attribute name with a literal spelling.
pub open spec fn derives_inherited(s: Stream, start: int, names: Seq<String>, p: int) -> bool
    decreases s.toks.len() - start, 65int, names.len(),
{
    if start < 0 || start > s.toks.len() {
        false
    } else if names.len() == 0 {
        p == start
    } else {
        exists|p0: int|
            #![trigger chosen(p0)]
            start <= p0 < p <= s.toks.len() && derives_inherited(s, start, names.drop_last(), p0) && !at(
                s,
                p0,
                SyntaxKind::Semicolon,
            ) && exists|a: AttrName|
                #![trigger chosen(a)]
                derives_attr_name(s, p0, a, p) && spec_literal_name(a) == Some(
                    names.last()@,
                )
    }
}

/// Whether a string token at `pos` opens an indented string.
pub open spec fn opens_indented(s: Stream, pos: int) -> bool {
    s.toks[pos].span.end - s.toks[pos].span.start != 1
}

/// A string: its fragments, decoded (double-quoted) or lowered by the
/// indentation rules (indented).
pub open spec fn derives_string(s: Stream, pos: int, e: Expr, next: int) -> bool
    decreases s.toks.len() - pos, 22int, 0int,
{
    if pos < 0 || pos >= s.toks.len() {
        false
    } else {
        e matches Expr::String(parts) && at(s, pos, SyntaxKind::StringStart) && exists|
            items: Seq<Piece>,
            p: int,
        |
            #![trigger chosen(items), chosen(p)]
            pos < p < next && derives_fragments(s, pos + 1, opens_indented(s, pos), items, p)
                && at(s, p, SyntaxKind::StringEnd) && next == p + 1 && if opens_indented(s, pos) {
                indented_pieces(items) == Some(pieces_of(parts@))
            } else {
                pieces_of(parts@) == gathered(Seq::empty(), items)
            }
    }
}

/// String fragments from `start`: text (raw when indented, decoded
/// otherwise) and interpolations.
pub open spec fn derives_fragments(
    s: Stream,
    start: int,
    indented: bool,
    items: Seq<Piece>,
    p: int,
) -> bool
    decreases s.toks.len() - start, 21int, items.len(),
{
    if start < 0 || start > s.toks.len() {
        false
    } else if items.len() == 0 {
        p == start
    } else {
        exists|p0: int|
            #![trigger chosen(p0)]
            start <= p0 < p <= s.toks.len() && derives_fragments(s, start, indented, items.drop_last(), p0)
                && match items.last() {
                Piece::Text(t) => token_text(s, p0) matches Some(raw) && at(
                    s,
                    p0,
                    SyntaxKind::StringContent,
                ) && p == p0 + 1 && if indented {
                    t == raw
                } else {
                    string_text(raw) == Ok::<Seq<char>, Seq<char>>(t)
                },
                Piece::Code(v) => at(s, p0, SyntaxKind::InterpolationStart) && exists|q: int|
                    #![trigger chosen(q)]
                    p0 + 1 < q && q + 1 == p && derives_expr(s, p0 + 1, v, q) && at(
                        s,
                        q,
                        SyntaxKind::InterpolationEnd,
                    ),
            }
    }
}

/// A path with interpolations: its prefix, then interpolations and literal
/// path text without gaps.
pub open spec fn derives_interpolated_path(s: Stream, pos: int, e: Expr, next: int) -> bool
    decreases s.toks.len() - pos, 19int, 0int,
{
    if pos < 0 || pos >= s.toks.len() {
        false
    } else {
        token_text(s, pos) matches Some(prefix) && exists|items: Seq<Piece>|
            #![trigger chosen(items)]
            pos < next && derives_path_fragments(s, pos + 1, items, next) && !(adjacent(s, next) && (
            at(s, next, SyntaxKind::InterpolationStart) || at(s, next, SyntaxKind::PathContent)))
                && path_lowered(gathered(seq![Piece::Text(prefix)], items), e)
    }
}

pub open spec fn derives_path_fragments(s: Stream, start: int, items: Seq<Piece>, p: int) -> bool
    decreases s.toks.len() - start, 18int, items.len(),
{
    if start < 0 || start > s.toks.len() {
        false
    } else if items.len() == 0 {
        p == start
    } else {
        exists|p0: int|
            #![trigger chosen(p0)]
            start <= p0 < p <= s.toks.len() && derives_path_fragments(s, start, items.drop_last(), p0) && adjacent(
                s,
                p0,
            ) && match items.last() {
                Piece::Text(t) => at(s, p0, SyntaxKind::PathContent) && token_text(s, p0) == Some(t)
                    && p == p0 + 1,
                Piece::Code(v) => at(s, p0, SyntaxKind::InterpolationStart) && exists|q: int|
                    #![trigger chosen(q)]
                    p0 + 1 < q && q + 1 == p && derives_expr(s, p0 + 1, v, q) && at(
                        s,
                        q,
                        SyntaxKind::InterpolationEnd,
                    ),
            }
    }
}

/// Exactly two parenthesized arguments.
pub open spec fn derives_pair(s: Stream, pos: int, a: Expr, b: Expr, next: int) -> bool
    decreases s.toks.len() - pos, 30int, 0int,
{
    if pos < 0 || pos >= s.toks.len() {
        false
    } else {
        exists|args: Seq<Expr>|
            #![trigger chosen(args)]
            derives_arguments(s, pos, args, next) && args.len() == 2 && a == args[0] && b == args[1]
    }
}

/// List items from `start`, each optionally followed by a comma.
pub open spec fn derives_items(s: Stream, start: int, items: Seq<Expr>, p: int) -> bool
    decreases s.toks.len() - start, 68int, items.len(),
{
    if start < 0 || start > s.toks.len() {
        false
    } else if items.len() == 0 {
        p == start
    } else {
        exists|p0: int, q: int|
            #![trigger chosen(p0), chosen(q)]
            start <= p0 < q <= p <= s.toks.len() && derives_items(s, start, items.drop_last(), p0) && !at(
                s,
                p0,
                SyntaxKind::RBracket,
            ) && derives_expr(s, p0, items.last(), q) && p == if at(s, q, SyntaxKind::Comma) {
                q + 1
            } else {
                q
            }
    }
}

/// Atoms: literals, names, paths, strings, lists, sets, `let`, `with`,
/// `assert`, `__nxc_update` and parenthesized expressions.
pub open spec fn derives_primary(s: Stream, pos: int, e: Expr, next: int) -> bool
    decreases s.toks.len() - pos, 33int, 0int,
{
    if pos < 0 || pos >= s.toks.len() {
        false
    } else {
        let k = s.toks[pos].kind;
        if k == SyntaxKind::Integer {
            let w = token_word(s, pos);
            decimal_digits(w) && decimal_value(w) <= 0x7fff_ffff_ffff_ffff && e == Expr::Integer(
                decimal_value(w) as u64,
            ) && next == pos + 1
        } else if k == SyntaxKind::Ident {
            token_text(s, pos) matches Some(w) && if w == "__curPos"@ {
                e == Expr::CurrentPosition && next == pos + 1
            } else if w == "__nxc_update"@ && at(s, pos + 1, SyntaxKind::LParen) {
                exists|l: Expr, r: Expr|
                    #![trigger chosen(l), chosen(r)]
                    derives_pair(s, pos + 1, l, r, next) && e == Expr::Binary {
                        op: BinaryOp::Update,
                        left: Box::new(l),
                        right: Box::new(r),
                    }
            } else {
                e matches Expr::Variable(n) && n@ == identifier(w) && next == pos + 1
            }
        } else if k == SyntaxKind::RelativePath || k == SyntaxKind::AbsolutePath || k
            == SyntaxKind::HomePath {
            token_text(s, pos) matches Some(t) && path_lowered(seq![Piece::Text(t)], e) && next == pos
                + 1
        } else if k == SyntaxKind::SearchPath {
            token_text(s, pos) matches Some(t) && e matches Expr::SearchPath(x) && x@ == t && next
                == pos + 1
        } else if k == SyntaxKind::PathStart {
            derives_interpolated_path(s, pos, e, next)
        } else if k == SyntaxKind::StringStart {
            derives_string(s, pos, e, next)
        } else if k == SyntaxKind::LParen {
            exists|q: int|
                #![trigger chosen(q)]
                pos + 1 < q < next && derives_expr(s, pos + 1, e, q) && at(s, q, SyntaxKind::RParen)
                    && next == q + 1
        } else if k == SyntaxKind::LBracket {
            e matches Expr::List(items) && exists|p: int|
                #![trigger chosen(p)]
                pos < p < next && derives_items(s, pos + 1, items@, p) && at(
                    s,
                    p,
                    SyntaxKind::RBracket,
                ) && next == p + 1
        } else if k == SyntaxKind::Rec || k == SyntaxKind::LBrace {
            let open = if k == SyntaxKind::Rec {
                pos + 1
            } else {
                pos
            };
            e matches Expr::AttrSet { recursive, bindings } && at(s, open, SyntaxKind::LBrace)
                && recursive == (k == SyntaxKind::Rec) && exists|q: int|
                #![trigger chosen(q)]
                open < q < next && derives_bindings(s, open + 1, false, bindings@, q) && at(
                    s,
                    q,
                    SyntaxKind::RBrace,
                ) && next == q + 1
        } else if k == SyntaxKind::Let {
            e matches Expr::Let { bindings, body } && at(s, pos + 1, SyntaxKind::LBrace) && exists|
                q: int,
                r: int,
            |
                #![trigger chosen(q), chosen(r)]
                pos + 1 < q < r && r + 2 == next && derives_bindings(
                    s,
                    pos + 2,
                    true,
                    bindings@,
                    q,
                ) && at(s, q, SyntaxKind::Yield) && derives_expr(s, q + 1, *body, r) && at(
                    s,
                    r,
                    SyntaxKind::Semicolon,
                ) && at(s, r + 1, SyntaxKind::RBrace)
        } else if k == SyntaxKind::With {
            exists|a: Expr, b: Expr|
                #![trigger chosen(a), chosen(b)]
                derives_pair(s, pos + 1, a, b, next) && e == Expr::With {
                    scope: Box::new(a),
                    body: Box::new(b),
                }
        } else if k == SyntaxKind::Assert {
            exists|a: Expr, b: Expr|
                #![trigger chosen(a), chosen(b)]
                derives_pair(s, pos + 1, a, b, next) && e == Expr::Assert {
                    condition: Box::new(a),
                    body: Box::new(b),
                }
        } else {
            false
        }
    }
}

/// A source whose significant tokens derive `e` as one whole expression.
pub open spec fn source_derives(bytes: Seq<u8>, e: Expr) -> bool {
    let s = stream_of(bytes);
    derives_expr(s, 0, e, s.toks.len() as int)
}

} // verus!

