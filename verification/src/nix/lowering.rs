//! What the native lowering computes, stated over the preorder walk of rnix's
//! syntax tree: each relation holds when the element entered at an event
//! lowers to the given form. Resource limits are not part of the relations:
//! they only refuse lowerings.
use vstd::prelude::*;

use super::native::{
    spec_is_attr_kind, spec_is_expr_kind, NODE_APPLY, NODE_ASSERT, NODE_ATTRPATH,
    NODE_ATTRPATH_VALUE, NODE_ATTR_SET, NODE_BIN_OP, NODE_DYNAMIC, NODE_HAS_ATTR, NODE_IDENT,
    NODE_IDENT_PARAM, NODE_IF_ELSE, NODE_INHERIT, NODE_INHERIT_FROM, NODE_INTERPOL, NODE_LAMBDA,
    NODE_LET_IN, NODE_LIST, NODE_LITERAL, NODE_PAREN, NODE_PATH, NODE_PATTERN, NODE_PAT_BIND,
    NODE_PAT_ENTRY, NODE_ROOT, NODE_SELECT, NODE_STRING, NODE_UNARY_OP, NODE_WITH, TOKEN_ADD,
    TOKEN_AND_AND, TOKEN_CONCAT, TOKEN_DIV, TOKEN_ELLIPSIS, TOKEN_EQUAL, TOKEN_IMPLICATION,
    TOKEN_INTEGER, TOKEN_INVERT, TOKEN_LESS, TOKEN_LESS_OR_EQ, TOKEN_MORE, TOKEN_MORE_OR_EQ,
    TOKEN_MUL, TOKEN_NOT_EQUAL, TOKEN_OR_OR, TOKEN_PATH, TOKEN_PIPE_LEFT, TOKEN_PIPE_RIGHT,
    TOKEN_REC, TOKEN_STRING_CONTENT, TOKEN_STRING_END, TOKEN_STRING_START, TOKEN_SUB, TOKEN_UPDATE,
};
use crate::ir::{
    bare_attr_name_ok, pieces_of, spec_literal_name, AttrName, BinaryOp, Binding, Expr, Formal,
    Pattern, Piece,
};
use crate::string::{indented_pieces, spec_decode as string_text};
use crate::syntax::grammar::{chosen, decimal_digits, decimal_value, gathered, path_lowered, string_key};
use crate::MAX_DEPTH;
use vstd::utf8::{decode_utf8, encode_utf8, valid_utf8};

verus! {

/// A walk of a syntax tree over its source bytes, with, for each entry
/// event, the index of the event that leaves it.
pub struct Walk {
    pub ev: Seq<(u8, u16, usize, usize)>,
    pub bytes: Seq<u8>,
    pub close: Seq<usize>,
}

/// Entries paired with exits over the first `j` events: each event's
/// partner so far (itself by default), and the entries still open.
pub open spec fn event_pass(ev: Seq<(u8, u16, usize, usize)>, j: int) -> (Seq<usize>, Seq<usize>)
    decreases j,
{
    if j <= 0 || j > ev.len() {
        (Seq::empty(), Seq::empty())
    } else {
        let (close, open) = event_pass(ev, j - 1);
        let close = close.push((j - 1) as usize);
        if ev[j - 1].0 == 0 {
            (close, open.push((j - 1) as usize))
        } else if open.len() > 0 {
            (close.update(open.last() as int, (j - 1) as usize), open.drop_last())
        } else {
            (close, open)
        }
    }
}

/// The entries left open after the first `j` events of a walk over `n`
/// bytes, or `None` once the walk leaves its bytes, leaves an element it did
/// not enter last, or holds an event that neither enters nor leaves.
pub open spec fn open_after(ev: Seq<(u8, u16, usize, usize)>, j: int, n: nat) -> Option<Seq<usize>>
    decreases j,
{
    if j <= 0 {
        Some(Seq::empty())
    } else {
        match open_after(ev, j - 1, n) {
            None => None,
            Some(open) => {
                let e = ev[j - 1];
                if !(e.2 <= e.3 && e.3 <= n) {
                    None
                } else if e.0 == 0 {
                    Some(open.push((j - 1) as usize))
                } else if e.0 == 1 && open.len() > 0 && ev[open.last() as int].1 == e.1 {
                    Some(open.drop_last())
                } else {
                    None
                }
            },
        }
    }
}

/// A walk over `n` bytes whose exits each close the element entered last,
/// with nothing left open.
pub open spec fn well_nested(ev: Seq<(u8, u16, usize, usize)>, n: nat) -> bool {
    open_after(ev, ev.len() as int, n) == Some(Seq::<usize>::empty())
}

/// Once a walk breaks nesting, it stays broken.
pub proof fn lemma_broken_stays(ev: Seq<(u8, u16, usize, usize)>, j: int, k: int, n: nat)
    requires
        0 <= j <= k,
        open_after(ev, j, n) is None,
    ensures
        open_after(ev, k, n) is None,
    decreases k - j,
{
    if j < k {
        lemma_broken_stays(ev, j, k - 1, n);
    }
}

/// The walk of a source's syntax tree.
pub open spec fn walk_of(source: Seq<char>, ev: Seq<(u8, u16, usize, usize)>) -> Walk {
    Walk { ev, bytes: encode_utf8(source), close: event_pass(ev, ev.len() as int).0 }
}

pub open spec fn entered_at(w: Walk, i: int) -> bool {
    0 <= i < w.ev.len() && w.ev[i].0 == 0
}

/// The elements entered from event `j` up to event `end`, each directly
/// after the exit of the one before.
pub open spec fn kids_from(w: Walk, j: int, end: int) -> Option<Seq<usize>>
    decreases end - j,
{
    if j >= end {
        Some(Seq::empty())
    } else if !entered_at(w, j) || w.close[j] >= end || w.close[j] < j {
        None
    } else {
        match kids_from(w, w.close[j] + 1, end) {
            Some(rest) => Some(seq![j as usize] + rest),
            None => None,
        }
    }
}

/// `o` with `p` put before what it holds.
pub open spec fn prefixed(p: Seq<usize>, o: Option<Seq<usize>>) -> Option<Seq<usize>> {
    match o {
        Some(rest) => Some(p + rest),
        None => None,
    }
}

/// The children of the element entered at `i`.
pub open spec fn kids(w: Walk, i: int) -> Option<Seq<usize>> {
    kids_from(w, i + 1, w.close[i] as int)
}

/// The `n`-th child expression among `ks`.
pub open spec fn nth_from(w: Walk, ks: Seq<usize>, n: int) -> Option<usize>
    decreases ks.len(),
{
    if ks.len() == 0 {
        None
    } else if spec_is_expr_kind(w.ev[ks[0] as int].1) {
        if n == 0 {
            Some(ks[0])
        } else {
            nth_from(w, ks.drop_first(), n - 1)
        }
    } else {
        nth_from(w, ks.drop_first(), n)
    }
}

/// The first of `ks` of the given kind.
pub open spec fn first_from(w: Walk, ks: Seq<usize>, kind: u16) -> Option<usize>
    decreases ks.len(),
{
    if ks.len() == 0 {
        None
    } else if w.ev[ks[0] as int].1 == kind {
        Some(ks[0])
    } else {
        first_from(w, ks.drop_first(), kind)
    }
}

/// The text of element `i`, where its bytes are UTF-8.
pub open spec fn node_text(w: Walk, i: int) -> Option<Seq<char>> {
    let b = w.bytes.subrange(w.ev[i].2 as int, w.ev[i].3 as int);
    if valid_utf8(b) {
        Some(decode_utf8(b))
    } else {
        None
    }
}

/// The operator an operator token stands for; implication is `||` over a
/// negated left operand.
pub open spec fn binary_of(k: u16) -> Option<(BinaryOp, bool)> {
    if k == TOKEN_CONCAT {
        Some((BinaryOp::Concat, false))
    } else if k == TOKEN_UPDATE {
        Some((BinaryOp::Update, false))
    } else if k == TOKEN_ADD {
        Some((BinaryOp::Add, false))
    } else if k == TOKEN_SUB {
        Some((BinaryOp::Subtract, false))
    } else if k == TOKEN_MUL {
        Some((BinaryOp::Multiply, false))
    } else if k == TOKEN_DIV {
        Some((BinaryOp::Divide, false))
    } else if k == TOKEN_AND_AND {
        Some((BinaryOp::And, false))
    } else if k == TOKEN_EQUAL {
        Some((BinaryOp::Equal, false))
    } else if k == TOKEN_IMPLICATION {
        Some((BinaryOp::Or, true))
    } else if k == TOKEN_LESS {
        Some((BinaryOp::Less, false))
    } else if k == TOKEN_LESS_OR_EQ {
        Some((BinaryOp::LessOrEqual, false))
    } else if k == TOKEN_MORE {
        Some((BinaryOp::Greater, false))
    } else if k == TOKEN_MORE_OR_EQ {
        Some((BinaryOp::GreaterOrEqual, false))
    } else if k == TOKEN_NOT_EQUAL {
        Some((BinaryOp::NotEqual, false))
    } else if k == TOKEN_OR_OR {
        Some((BinaryOp::Or, false))
    } else {
        None
    }
}

/// The operator of a binary node: its first operator token, unless a pipe
/// comes first.
pub open spec fn bin_op_of(w: Walk, ks: Seq<usize>) -> Option<(BinaryOp, bool)>
    decreases ks.len(),
{
    if ks.len() == 0 {
        None
    } else {
        let k = w.ev[ks[0] as int].1;
        if binary_of(k) is Some {
            binary_of(k)
        } else if k == TOKEN_PIPE_RIGHT || k == TOKEN_PIPE_LEFT {
            None
        } else {
            bin_op_of(w, ks.drop_first())
        }
    }
}

/// Whether a unary node negates (`Some(true)`) or inverts (`Some(false)`),
/// by the first of its `-` and `!` tokens.
pub open spec fn unary_negates(neg: Option<usize>, inv: Option<usize>) -> Option<bool> {
    match (neg, inv) {
        (Some(a), Some(b)) => Some(a < b),
        (Some(_), None) => Some(true),
        (None, Some(_)) => Some(false),
        (None, None) => None,
    }
}

/// The text of a path whose pieces are one literal starting with `<`.
pub open spec fn search_text(pieces: Seq<Piece>) -> Option<Seq<char>> {
    if pieces.len() == 1 {
        match pieces[0] {
            Piece::Text(t) => if t.len() > 0 && t[0] == '<' {
                Some(t)
            } else {
                None
            },
            Piece::Code(_) => None,
        }
    } else {
        None
    }
}

/// Whether a name or literal element lowers: its text is UTF-8, and a
/// literal is an integer within the Nix signed 64-bit range.
pub open spec fn leaf_lowers(w: Walk, i: int) -> bool {
    kids(w, i) matches Some(ks) && if w.ev[i].1 == NODE_IDENT {
        node_text(w, i) is Some
    } else {
        &&& ks.len() > 0
        &&& w.ev[ks[0] as int].1 == TOKEN_INTEGER
        &&& node_text(w, ks[0] as int) matches Some(dg)
        &&& decimal_digits(dg)
        &&& decimal_value(dg) <= 0x7fff_ffff_ffff_ffff
    }
}

/// The element kinds the lowering supports.
pub open spec fn lowered_kind(k: u16) -> bool {
    k == NODE_PAREN || k == NODE_ROOT || k == NODE_IDENT || k == NODE_LITERAL || k == NODE_PATH
        || k == NODE_STRING || k == NODE_LIST || k == NODE_ATTR_SET || k == NODE_LET_IN || k
        == NODE_WITH || k == NODE_ASSERT || k == NODE_IF_ELSE || k == NODE_SELECT || k
        == NODE_HAS_ATTR || k == NODE_LAMBDA || k == NODE_UNARY_OP || k == NODE_BIN_OP || k
        == NODE_APPLY
}

// ---------------------------------------------------------------------------
// The lowering. Measures: the events after the element, then a rank that
// falls along the relations used at one element, then a list's length.

/// A present child that lowers to `e`.
pub open spec fn lowers_child(w: Walk, i: int, child: Option<usize>, e: Expr) -> bool
    decreases w.ev.len() - i, 5int, 0int,
{
    child matches Some(j) && i < j < w.ev.len() && lowers(w, j as int, e)
}

/// A present child that is no lambda and lowers to `e`.
pub open spec fn lowers_operand(w: Walk, i: int, child: Option<usize>, e: Expr) -> bool
    decreases w.ev.len() - i, 5int, 0int,
{
    child matches Some(j) && i < j < w.ev.len() && w.ev[j as int].1 != NODE_LAMBDA && lowers(
        w,
        j as int,
        e,
    )
}

/// The element entered at `i` lowers to `e`. Parentheses and the root are
/// unwrapped.
pub open spec fn lowers(w: Walk, i: int, e: Expr) -> bool
    decreases w.ev.len() - i, 50int, 0int,
{
    if !(0 <= i < w.ev.len()) {
        false
    } else {
        let k = w.ev[i].1;
        kids(w, i) matches Some(ks) && if k == NODE_PAREN || k == NODE_ROOT {
            lowers_child(w, i, nth_from(w, ks, 0), e)
        } else if k == NODE_IDENT {
            node_text(w, i) matches Some(n) && if n == "__curPos"@ {
                e == Expr::CurrentPosition
            } else {
                e matches Expr::Variable(x) && x@ == n
            }
        } else if k == NODE_LITERAL {
            &&& ks.len() > 0
            &&& w.ev[ks[0] as int].1 == TOKEN_INTEGER
            &&& node_text(w, ks[0] as int) matches Some(dg)
            &&& decimal_digits(dg)
            &&& decimal_value(dg) <= 0x7fff_ffff_ffff_ffff
            &&& e == Expr::Integer(decimal_value(dg) as u64)
        } else if k == NODE_PATH {
            lowers_path(w, i, ks, e)
        } else if k == NODE_STRING {
            lowers_string(w, i, ks, e)
        } else if k == NODE_LIST {
            e matches Expr::List(items) && lowers_items(w, i, ks, items@)
        } else if k == NODE_ATTR_SET {
            e matches Expr::AttrSet { recursive, bindings } && recursive == (first_from(
                w,
                ks,
                TOKEN_REC,
            ) is Some) && lowers_bindings(w, i, ks, bindings@)
        } else if k == NODE_LET_IN {
            e matches Expr::Let { bindings, body } && lowers_bindings(w, i, ks, bindings@)
                && lowers_child(w, i, nth_from(w, ks, 0), *body)
        } else if k == NODE_WITH {
            e matches Expr::With { scope, body } && lowers_child(w, i, nth_from(w, ks, 0), *scope)
                && lowers_child(w, i, nth_from(w, ks, 1), *body)
        } else if k == NODE_ASSERT {
            e matches Expr::Assert { condition, body } && lowers_child(
                w,
                i,
                nth_from(w, ks, 0),
                *condition,
            ) && lowers_child(w, i, nth_from(w, ks, 1), *body)
        } else if k == NODE_IF_ELSE {
            e matches Expr::If { condition, then_branch, else_branch } && lowers_child(
                w,
                i,
                nth_from(w, ks, 0),
                *condition,
            ) && lowers_child(w, i, nth_from(w, ks, 1), *then_branch) && lowers_child(
                w,
                i,
                nth_from(w, ks, 2),
                *else_branch,
            )
        } else if k == NODE_SELECT {
            &&& e matches Expr::Select { value, path, default }
            &&& lowers_child(w, i, nth_from(w, ks, 0), *value)
            &&& first_from(w, ks, NODE_ATTRPATH) matches Some(p)
            &&& i < p < w.ev.len()
            &&& lowers_attr_path(w, p as int, path@)
            &&& match nth_from(w, ks, 1) {
                Some(j) => default matches Some(dv) && lowers_operand(w, i, Some(j), *dv),
                None => default is None,
            }
        } else if k == NODE_HAS_ATTR {
            &&& e matches Expr::HasAttr { value, path }
            &&& lowers_operand(w, i, nth_from(w, ks, 0), *value)
            &&& first_from(w, ks, NODE_ATTRPATH) matches Some(p)
            &&& i < p < w.ev.len()
            &&& lowers_attr_path(w, p as int, path@)
        } else if k == NODE_LAMBDA {
            e matches Expr::Lambda { parameter, body } && lowers_parameter(w, i, ks, parameter)
                && lowers_child(w, i, nth_from(w, ks, 0), *body)
        } else if k == NODE_UNARY_OP {
            unary_negates(first_from(w, ks, TOKEN_SUB), first_from(w, ks, TOKEN_INVERT)) matches Some(
                negates,
            ) && if negates {
                e matches Expr::Negate(v) && lowers_operand(w, i, nth_from(w, ks, 0), *v)
            } else {
                e matches Expr::Not(v) && lowers_operand(w, i, nth_from(w, ks, 0), *v)
            }
        } else if k == NODE_BIN_OP {
            bin_op_of(w, ks) matches Some((op, implication)) && e matches Expr::Binary {
                op: o,
                left,
                right,
            } && o == op && lowers_operand(w, i, nth_from(w, ks, 1), *right) && if implication {
                *left matches Expr::Not(l) && lowers_operand(w, i, nth_from(w, ks, 0), *l)
            } else {
                lowers_operand(w, i, nth_from(w, ks, 0), *left)
            }
        } else if k == NODE_APPLY {
            e matches Expr::Apply { function, argument } && lowers_child(
                w,
                i,
                nth_from(w, ks, 0),
                *function,
            ) && lowers_operand(w, i, nth_from(w, ks, 1), *argument)
        } else {
            false
        }
    }
}

/// List items: the child expressions among `ks`, each no lambda.
pub open spec fn lowers_items(w: Walk, i: int, ks: Seq<usize>, items: Seq<Expr>) -> bool
    decreases w.ev.len() - i, 45int, ks.len(),
{
    if ks.len() == 0 {
        items.len() == 0
    } else if spec_is_expr_kind(w.ev[ks.last() as int].1) {
        items.len() > 0 && lowers_operand(w, i, Some(ks.last()), items.last()) && lowers_items(
            w,
            i,
            ks.drop_last(),
            items.drop_last(),
        )
    } else {
        lowers_items(w, i, ks.drop_last(), items)
    }
}

/// The entries among `ks`: assignments and inherits, in order.
pub open spec fn lowers_bindings(w: Walk, i: int, ks: Seq<usize>, bs: Seq<Binding>) -> bool
    decreases w.ev.len() - i, 45int, ks.len(),
{
    if ks.len() == 0 {
        bs.len() == 0
    } else {
        let j = ks.last();
        let k = w.ev[j as int].1;
        if k == NODE_ATTRPATH_VALUE || k == NODE_INHERIT {
            bs.len() > 0 && i < j < w.ev.len() && lowers_binding(w, j as int, bs.last())
                && lowers_bindings(w, i, ks.drop_last(), bs.drop_last())
        } else {
            lowers_bindings(w, i, ks.drop_last(), bs)
        }
    }
}

/// One entry: `path = value;` or `inherit [(source)] names;`.
pub open spec fn lowers_binding(w: Walk, j: int, b: Binding) -> bool
    decreases w.ev.len() - j, 44int, 0int,
{
    kids(w, j) matches Some(inner) && if w.ev[j].1 == NODE_ATTRPATH_VALUE {
        b matches Binding::Assign { path, value } && first_from(w, inner, NODE_ATTRPATH) matches Some(
            p,
        ) && j < p < w.ev.len() && lowers_attr_path(w, p as int, path@) && lowers_child(
            w,
            j,
            nth_from(w, inner, 0),
            value,
        )
    } else {
        &&& b matches Binding::Inherit { source, names }
        &&& match first_from(w, inner, NODE_INHERIT_FROM) {
            Some(f) => {
                &&& j < f < w.ev.len()
                &&& kids(w, f as int) matches Some(from)
                &&& source matches Some(v)
                &&& lowers_child(w, f as int, nth_from(w, from, 0), v)
            },
            None => source is None,
        }
        &&& lowers_inherited(w, j, inner, names@)
    }
}

/// Inherited names: the attribute names among `ks`, each with a literal spelling.
pub open spec fn lowers_inherited(w: Walk, j: int, ks: Seq<usize>, names: Seq<String>) -> bool
    decreases w.ev.len() - j, 30int, ks.len(),
{
    if ks.len() == 0 {
        names.len() == 0
    } else {
        let a = ks.last();
        if spec_is_attr_kind(w.ev[a as int].1) {
            names.len() > 0 && j < a < w.ev.len() && (exists|n: AttrName|
                #![trigger chosen(n)]
                lowers_attr(w, a as int, n) && spec_literal_name(n) == Some(names.last()@))
                && lowers_inherited(w, j, ks.drop_last(), names.drop_last())
        } else {
            lowers_inherited(w, j, ks.drop_last(), names)
        }
    }
}

/// An attribute path of at most `MAX_DEPTH` names.
pub open spec fn lowers_attr_path(w: Walk, p: int, path: Seq<AttrName>) -> bool
    decreases w.ev.len() - p, 25int, 0int,
{
    kids(w, p) matches Some(ks) && path.len() <= MAX_DEPTH && lowers_keys(w, p, ks, path)
}

/// The attribute names among `ks`.
pub open spec fn lowers_keys(w: Walk, p: int, ks: Seq<usize>, path: Seq<AttrName>) -> bool
    decreases w.ev.len() - p, 24int, ks.len(),
{
    if ks.len() == 0 {
        path.len() == 0
    } else {
        let a = ks.last();
        if spec_is_attr_kind(w.ev[a as int].1) {
            path.len() > 0 && p < a < w.ev.len() && lowers_attr(w, a as int, path.last())
                && lowers_keys(w, p, ks.drop_last(), path.drop_last())
        } else {
            lowers_keys(w, p, ks.drop_last(), path)
        }
    }
}

/// One attribute name: an identifier, `${…}` or a double-quoted string.
pub open spec fn lowers_attr(w: Walk, a: int, n: AttrName) -> bool
    decreases w.ev.len() - a, 20int, 0int,
{
    if !(0 <= a < w.ev.len()) {
        false
    } else {
        let k = w.ev[a].1;
        if k == NODE_IDENT {
            node_text(w, a) matches Some(t) && n matches AttrName::Static(s) && s@ == t
                && bare_attr_name_ok(t)
        } else if k == NODE_DYNAMIC {
            kids(w, a) matches Some(ks) && n matches AttrName::Dynamic(v) && lowers_child(
                w,
                a,
                nth_from(w, ks, 0),
                *v,
            )
        } else if k == NODE_STRING {
            kids(w, a) matches Some(ks) && ks.len() > 0 && node_text(w, ks[0] as int) == Some(
                "\""@,
            ) && exists|v: Expr| #![trigger chosen(v)] lowers_string(w, a, ks, v) && string_key(v, n)
        } else {
            false
        }
    }
}

/// A path: literal path text and interpolations; a lone literal starting
/// with `<` is a search path.
pub open spec fn lowers_path(w: Walk, i: int, ks: Seq<usize>, e: Expr) -> bool
    decreases w.ev.len() - i, 44int, 0int,
{
    exists|items: Seq<Piece>|
        #![trigger chosen(items)]
        path_items(w, i, ks, items) && match search_text(gathered(Seq::empty(), items)) {
            Some(t) => e matches Expr::SearchPath(x) && x@ == t,
            None => path_lowered(gathered(Seq::empty(), items), e),
        }
}

pub open spec fn path_items(w: Walk, i: int, ks: Seq<usize>, items: Seq<Piece>) -> bool
    decreases w.ev.len() - i, 43int, ks.len(),
{
    if ks.len() == 0 {
        items.len() == 0
    } else {
        let j = ks.last();
        let k = w.ev[j as int].1;
        items.len() > 0 && path_items(w, i, ks.drop_last(), items.drop_last()) && if k
            == TOKEN_PATH {
            items.last() matches Piece::Text(t) && node_text(w, j as int) == Some(t)
        } else if k == NODE_INTERPOL {
            &&& items.last() matches Piece::Code(v)
            &&& i < j < w.ev.len()
            &&& kids(w, j as int) matches Some(inner)
            &&& lowers_child(w, j as int, nth_from(w, inner, 0), v)
        } else {
            false
        }
    }
}

/// A string: decoded literal text (raw when indented) and interpolations,
/// lowered by the indentation rules when the opening quote is not `"`.
pub open spec fn lowers_string(w: Walk, i: int, ks: Seq<usize>, e: Expr) -> bool
    decreases w.ev.len() - i, 19int, 0int,
{
    &&& ks.len() > 0
    &&& w.ev[ks[0] as int].1 == TOKEN_STRING_START
    &&& node_text(w, ks[0] as int) matches Some(open)
    &&& e matches Expr::String(parts)
    &&& exists|items: Seq<Piece>|
        #![trigger chosen(items)]
        string_items(w, i, ks.drop_first(), open != "\""@, items) && if open != "\""@ {
            indented_pieces(items) == Some(pieces_of(parts@))
        } else {
            pieces_of(parts@) == gathered(Seq::empty(), items)
        }
}

pub open spec fn string_items(
    w: Walk,
    i: int,
    ks: Seq<usize>,
    indented: bool,
    items: Seq<Piece>,
) -> bool
    decreases w.ev.len() - i, 18int, ks.len(),
{
    if ks.len() == 0 {
        items.len() == 0
    } else {
        let j = ks.last();
        let k = w.ev[j as int].1;
        if k == TOKEN_STRING_END {
            string_items(w, i, ks.drop_last(), indented, items)
        } else {
            items.len() > 0 && string_items(w, i, ks.drop_last(), indented, items.drop_last()) && if k
                == TOKEN_STRING_CONTENT {
                items.last() matches Piece::Text(t) && node_text(w, j as int) matches Some(raw)
                    && if indented {
                    t == raw
                } else {
                    string_text(raw) == Ok::<Seq<char>, Seq<char>>(t)
                }
            } else if k == NODE_INTERPOL {
                &&& items.last() matches Piece::Code(v)
                &&& i < j < w.ev.len()
                &&& kids(w, j as int) matches Some(inner)
                &&& lowers_child(w, j as int, nth_from(w, inner, 0), v)
            } else {
                false
            }
        }
    }
}

/// A lambda's parameter: a name, or a pattern with fields, `...` and a bind.
pub open spec fn lowers_parameter(w: Walk, i: int, ks: Seq<usize>, p: Pattern) -> bool
    decreases w.ev.len() - i, 44int, 0int,
{
    match first_from(w, ks, NODE_IDENT_PARAM) {
        Some(ip) => p matches Pattern::Ident(n) && kids(w, ip as int) matches Some(inner) && first_from(
            w,
            inner,
            NODE_IDENT,
        ) matches Some(id) && node_text(w, id as int) == Some(n@),
        None => {
            &&& first_from(w, ks, NODE_PATTERN) matches Some(pt)
            &&& i < pt < w.ev.len()
            &&& kids(w, pt as int) matches Some(inner)
            &&& p matches Pattern::AttrSet { fields, ellipsis, bind }
            &&& lowers_fields(w, pt as int, inner, fields@)
            &&& ellipsis == (first_from(w, inner, TOKEN_ELLIPSIS) is Some)
            &&& match first_from(w, inner, NODE_PAT_BIND) {
                Some(b) => {
                    &&& kids(w, b as int) matches Some(bk)
                    &&& first_from(w, bk, NODE_IDENT) matches Some(id)
                    &&& bind matches Some(x)
                    &&& node_text(w, id as int) == Some(x@)
                },
                None => bind is None,
            }
        },
    }
}

/// Pattern fields: the entries among `ks`, each a name with an optional default.
pub open spec fn lowers_fields(w: Walk, pt: int, ks: Seq<usize>, fields: Seq<Formal>) -> bool
    decreases w.ev.len() - pt, 30int, ks.len(),
{
    if ks.len() == 0 {
        fields.len() == 0
    } else {
        let e = ks.last();
        if w.ev[e as int].1 == NODE_PAT_ENTRY {
            &&& fields.len() > 0
            &&& lowers_fields(w, pt, ks.drop_last(), fields.drop_last())
            &&& pt < e < w.ev.len()
            &&& kids(w, e as int) matches Some(entry)
            &&& first_from(w, entry, NODE_IDENT) matches Some(id)
            &&& node_text(w, id as int) == Some(fields.last().name@)
            &&& match nth_from(w, entry, 1) {
                Some(v) => fields.last().default matches Some(dv) && lowers_child(
                    w,
                    e as int,
                    Some(v),
                    dv,
                ),
                None => fields.last().default is None,
            }
        } else {
            lowers_fields(w, pt, ks.drop_last(), fields)
        }
    }
}

} // verus!
