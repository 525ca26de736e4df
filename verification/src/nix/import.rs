//! Lowering of rnix's syntax tree to the semantic IR. The tree arrives as a
//! preorder walk; its shape is checked as it is read, so any walk yields
//! either an error or a valid expression.
use vstd::prelude::*;

use super::native::{
    NODE_APPLY, NODE_ASSERT, NODE_ATTRPATH, NODE_ATTRPATH_VALUE, NODE_ATTR_SET, NODE_BIN_OP, NODE_DYNAMIC, NODE_HAS_ATTR, NODE_IDENT, NODE_IDENT_PARAM, NODE_IF_ELSE, NODE_INHERIT, NODE_INHERIT_FROM, NODE_INTERPOL, NODE_LAMBDA, NODE_LET_IN, NODE_LIST, NODE_LITERAL, NODE_PAREN, NODE_PATH, NODE_PATTERN, NODE_ROOT, NODE_PAT_BIND, NODE_PAT_ENTRY, NODE_SELECT, NODE_STRING, NODE_UNARY_OP, NODE_WITH, TOKEN_ADD, TOKEN_AND_AND, TOKEN_CONCAT, TOKEN_DIV, TOKEN_ELLIPSIS, TOKEN_EQUAL, TOKEN_FLOAT, TOKEN_IMPLICATION, TOKEN_INTEGER, TOKEN_INVERT, TOKEN_LESS, TOKEN_LESS_OR_EQ, TOKEN_MORE, TOKEN_MORE_OR_EQ, TOKEN_MUL, TOKEN_NOT_EQUAL, TOKEN_OR_OR, TOKEN_PATH, TOKEN_PIPE_LEFT, TOKEN_PIPE_RIGHT, TOKEN_REC, TOKEN_STRING_CONTENT, TOKEN_STRING_END, TOKEN_STRING_START, TOKEN_SUB, TOKEN_UPDATE, is_attr_kind, is_expr_kind,
};
use super::native::spec_is_attr_kind;
use super::lowering::{leaf_lowers, lowered_kind, bin_op_of, binary_of, event_pass, lemma_broken_stays, open_after, well_nested, first_from, lowers, lowers_child, lowers_items, lowers_operand, lowers_attr, lowers_attr_path, lowers_binding, lowers_bindings, lowers_fields, lowers_inherited, lowers_keys, lowers_parameter, lowers_path, lowers_string, path_items, string_items, kids_from, node_text, nth_from, prefixed, Walk};
use crate::ir::path::lower_path;
use crate::ir::{
    bare_attr_name_ok, pieces_of, Piece, push_string_literal, validate_bare_attr_name, AttrName, BinaryOp, Binding, Expr, Formal,
    Pattern, StringPart,
};
use crate::limits::{exceeded, exceeded_message};
use crate::string::lower_indented;
use crate::syntax::grammar::{chosen, gathered, string_key};
use crate::syntax::parser::parse_integer;
use crate::text::{text_eq, utf8_text};
use crate::{Diagnostic, MAX_DEPTH};

verus! {

/// Recursion budget of one lowering; semantic depth runs out first.
pub(crate) const LOWER_FUEL: usize = 8192;

/// The walk of a native syntax tree over its source, with, for each entered
/// element, the index of the event that leaves it.
pub(crate) struct Tree<'a> {
    pub(crate) bytes: &'a [u8],
    pub(crate) ev: &'a Vec<(u8, u16, usize, usize)>,
    pub(crate) close: Vec<usize>,
}

pub(crate) open spec fn tree_ok(t: &Tree) -> bool {
    &&& t.bytes@.len() <= usize::MAX
    &&& t.close@.len() == t.ev@.len()
    &&& forall|i: int|
        0 <= i < t.ev@.len() ==> (#[trigger] t.ev@[i]).2 <= t.ev@[i].3 <= t.bytes@.len()
    &&& forall|i: int|
        0 <= i < t.ev@.len() && (#[trigger] t.ev@[i]).0 == 0 ==> i < t.close@[i] < t.ev@.len()
}

/// The walk a tree holds.
pub(crate) open spec fn walk(t: &Tree) -> Walk {
    Walk { ev: t.ev@, bytes: t.bytes@, close: t.close@ }
}

pub(crate) open spec fn entered(t: &Tree, i: usize) -> bool {
    i < t.ev@.len() && t.ev@[i as int].0 == 0
}

fn malformed() -> (d: Diagnostic)
    ensures
        d.span.start == 0 && d.span.end == 0,
        d.message@ == "malformed native syntax tree"@,
{
    Diagnostic::new(0, 0, "malformed native syntax tree")
}

/// Pair each entry event with its exit, checking that the walk is well nested.
pub(crate) fn tree<'a>(bytes: &'a [u8], ev: &'a Vec<(u8, u16, usize, usize)>) -> (r: Result<
    Tree<'a>,
    Diagnostic,
>)
    requires
        bytes@.len() <= usize::MAX,
    ensures
        r matches Ok(t) ==> tree_ok(&t) && t.bytes@ == bytes@ && t.ev@ == ev@,
        r matches Ok(t) ==> t.close@ == event_pass(ev@, ev@.len() as int).0,
        r is Ok <==> well_nested(ev@, bytes@.len()),
{
    let n = ev.len();
    let mut close: Vec<usize> = Vec::new();
    let mut stack: Vec<usize> = Vec::new();
    let mut i: usize = 0;
    while i < n
        invariant
            n == ev@.len(),
            i <= n,
            close@.len() == i,
            forall|k: int| 0 <= k < i ==> (#[trigger] ev@[k]).2 <= ev@[k].3 <= bytes@.len(),
            forall|k: int| 0 <= k < stack@.len() ==> #[trigger] stack@[k] < i && ev@[stack@[k] as int].0 == 0,
            forall|k: int|
                0 <= k < i && (#[trigger] ev@[k]).0 == 0 ==> stack@.contains(k as usize) || (k
                    < close@[k] < i),
            (close@, stack@) == event_pass(ev@, i as int),
            open_after(ev@, i as int, bytes@.len()) == Some(stack@),
        decreases n - i,
    {
        let (tag, kind, start, end) = ev[i];
        if !(start <= end && end <= bytes.len()) {
            proof {
                lemma_broken_stays(ev@, i + 1, n as int, bytes@.len());
            }
            return Err(malformed());
        }
        if tag == 0 {
            let ghost before = stack@;
            let ghost closed = close@;
            stack.push(i);
            close.push(i);
            proof {
                assert(stack@[stack@.len() - 1] == i);
                assert forall|k: int|
                    0 <= k < i + 1 && (#[trigger] ev@[k]).0 == 0 implies stack@.contains(k as usize)
                    || (k < close@[k] < i + 1) by {
                    if k < i {
                        if before.contains(k as usize) {
                            let x = choose|x: int| 0 <= x < before.len() && before[x] == k as usize;
                            assert(stack@[x] == k as usize);
                        } else {
                            assert(close@[k] == closed[k]);
                        }
                    } else {
                        assert(stack@[stack@.len() - 1] == k as usize);
                    }
                }
            }
        } else if tag == 1 {
            let ghost before = stack@;
            let ghost closed = close@;
            let o = match stack.pop() {
                Some(o) => o,
                None => {
                    proof {
                        lemma_broken_stays(ev@, i + 1, n as int, bytes@.len());
                    }
                    return Err(malformed());
                },
            };
            if ev[o].1 != kind {
                proof {
                    lemma_broken_stays(ev@, i + 1, n as int, bytes@.len());
                }
                return Err(malformed());
            }
            close.push(i);
            close.set(o, i);
            proof {
                assert(before == stack@.push(o));
                assert forall|k: int|
                    0 <= k < i + 1 && (#[trigger] ev@[k]).0 == 0 implies stack@.contains(k as usize)
                    || (k < close@[k] < i + 1) by {
                    if k < i && k != o {
                        if before.contains(k as usize) {
                            let x = choose|x: int| 0 <= x < before.len() && before[x] == k as usize;
                            assert(x < stack@.len());
                            assert(stack@[x] == k as usize);
                        } else {
                            assert(close@[k] == closed[k]);
                        }
                    }
                }
            }
        } else {
            proof {
                lemma_broken_stays(ev@, i + 1, n as int, bytes@.len());
            }
            return Err(malformed());
        }
        i += 1;
    }
    if stack.len() > 0 {
        return Err(malformed());
    }
    proof {
        assert(stack@ =~= Seq::<usize>::empty());
    }
    Ok(Tree { bytes, ev, close })
}

fn span_error(t: &Tree, i: usize, message: &str) -> (d: Diagnostic)
    requires
        tree_ok(t),
    ensures
        d.message@ == message@,
        i < t.ev@.len() ==> d.span.start == t.ev@[i as int].2 && d.span.end == t.ev@[i as int].3,
        i >= t.ev@.len() ==> d.span.start == 0 && d.span.end == 0,
{
    if i < t.ev.len() {
        Diagnostic::new(t.ev[i].2, t.ev[i].3, message)
    } else {
        Diagnostic::new(0, 0, message)
    }
}

fn depth_error(t: &Tree, i: usize, observed: usize) -> (e: Diagnostic)
    requires
        tree_ok(t),
    ensures
        e.message@ == exceeded_message("semantic depth"@, observed as int, MAX_DEPTH as int),
        i < t.ev@.len() ==> e.span.start == t.ev@[i as int].2 && e.span.end == t.ev@[i as int].3,
        i >= t.ev@.len() ==> e.span.start == 0 && e.span.end == 0,
{
    let mut e = exceeded("semantic depth", observed, MAX_DEPTH);
    if i < t.ev.len() {
        e.span = core::ops::Range { start: t.ev[i].2, end: t.ev[i].3 };
    }
    e
}

/// The entered children of element `i`, nodes and tokens, in order.
fn children(t: &Tree, i: usize) -> (r: Result<Vec<usize>, Diagnostic>)
    requires
        tree_ok(t),
        entered(t, i),
    ensures
        r matches Ok(kids) ==> forall|k: int|
            0 <= k < kids@.len() ==> i < #[trigger] kids@[k] && entered(t, kids@[k]),
        r matches Ok(ks) ==> super::lowering::kids(walk(t), i as int) == Some(ks@),
        r is Ok <==> super::lowering::kids(walk(t), i as int) is Some,
{
    let end = t.close[i];
    let mut kids: Vec<usize> = Vec::new();
    let mut j = i + 1;
    proof {
        assert(prefixed(kids@, kids_from(walk(t), j as int, end as int)) == kids_from(
            walk(t),
            j as int,
            end as int,
        )) by {
            match kids_from(walk(t), j as int, end as int) {
                Some(rest) => assert(kids@ + rest =~= rest),
                None => {},
            }
        }
    }
    while j < end
        invariant
            tree_ok(t),
            entered(t, i),
            end == t.close@[i as int],
            i < j,
            forall|k: int| 0 <= k < kids@.len() ==> i < #[trigger] kids@[k] && entered(t, kids@[k]),
            super::lowering::kids(walk(t), i as int) == prefixed(kids@, kids_from(walk(t), j as int, end as int)),
        decreases end - j,
    {
        if t.ev[j].0 != 0 {
            return Err(malformed());
        }
        let c = t.close[j];
        if c >= end {
            return Err(malformed());
        }
        let ghost before = kids@;
        kids.push(j);
        proof {
            match kids_from(walk(t), c + 1, end as int) {
                Some(rest) => {
                    assert(before + (seq![j] + rest) =~= kids@ + rest);
                },
                None => {},
            }
        }
        j = c + 1;
    }
    proof {
        assert(kids@ + Seq::<usize>::empty() =~= kids@);
    }
    Ok(kids)
}

/// The `n`-th child expression, as rnix's `nth` counts them.
fn nth_expr(t: &Tree, kids: &Vec<usize>, n: usize) -> (r: Option<usize>)
    requires
        tree_ok(t),
        forall|k: int| 0 <= k < kids@.len() ==> entered(t, #[trigger] kids@[k]),
    ensures
        r matches Some(j) ==> entered(t, j) && kids@.contains(j),
        r == nth_from(walk(t), kids@, n as int),
{
    let mut seen: usize = 0;
    let mut k: usize = 0;
    proof {
        assert(kids@.skip(0) =~= kids@);
    }
    while k < kids.len()
        invariant
            tree_ok(t),
            forall|q: int| 0 <= q < kids@.len() ==> entered(t, #[trigger] kids@[q]),
            k <= kids@.len(),
            seen <= k,
            seen <= n,
            nth_from(walk(t), kids@, n as int) == nth_from(walk(t), kids@.skip(k as int), n - seen),
        decreases kids@.len() - k,
    {
        let j = kids[k];
        proof {
            assert(kids@.skip(k as int).drop_first() =~= kids@.skip(k + 1));
            assert(kids@.skip(k as int)[0] == j);
        }
        if is_expr_kind(t.ev[j].1) {
            if seen == n {
                assert(kids@[k as int] == j);
                return Some(j);
            }
            seen += 1;
        }
        k += 1;
    }
    None
}

/// The first child of kind `kind`.
fn first_of(t: &Tree, kids: &Vec<usize>, kind: u16) -> (r: Option<usize>)
    requires
        tree_ok(t),
        forall|k: int| 0 <= k < kids@.len() ==> entered(t, #[trigger] kids@[k]),
    ensures
        r matches Some(j) ==> entered(t, j) && kids@.contains(j),
        r == first_from(walk(t), kids@, kind),
{
    let mut k: usize = 0;
    proof {
        assert(kids@.skip(0) =~= kids@);
    }
    while k < kids.len()
        invariant
            tree_ok(t),
            forall|q: int| 0 <= q < kids@.len() ==> entered(t, #[trigger] kids@[q]),
            k <= kids@.len(),
            first_from(walk(t), kids@, kind) == first_from(walk(t), kids@.skip(k as int), kind),
        decreases kids@.len() - k,
    {
        let j = kids[k];
        proof {
            assert(kids@.skip(k as int).drop_first() =~= kids@.skip(k + 1));
            assert(kids@.skip(k as int)[0] == j);
        }
        if t.ev[j].1 == kind {
            assert(kids@[k as int] == j);
            return Some(j);
        }
        k += 1;
    }
    None
}

/// The UTF-8 text of element `i`.
fn text(t: &Tree, i: usize) -> (r: Result<String, Diagnostic>)
    requires
        tree_ok(t),
        i < t.ev@.len(),
    ensures
        r matches Ok(s) ==> node_text(walk(t), i as int) == Some(s@),
        r is Ok <==> node_text(walk(t), i as int) is Some,
{
    let (_, _, start, end) = t.ev[i];
    let slice = &t.bytes[start..end];
    assert(slice@ == walk(t).bytes.subrange(start as int, end as int));
    match utf8_text(slice) {
        Some(s) => Ok(s),
        None => Err(span_error(t, i, "invalid UTF-8 in native source")),
    }
}

fn required(t: &Tree, i: usize, child: Option<usize>, message: &str) -> (r: Result<usize, Diagnostic>)
    requires
        tree_ok(t),
    ensures
        r matches Ok(j) ==> child == Some(j),
        r is Ok <==> child is Some,
        r matches Err(d) ==> d.message@ == message@,
{
    match child {
        Some(j) => Ok(j),
        None => Err(span_error(t, i, message)),
    }
}

/// An operand that native Nix requires to be parenthesized when it is a lambda.
fn operand(t: &Tree, i: usize, child: Option<usize>, d: usize, message: &str, fuel: usize) -> (r:
    Result<Expr, Diagnostic>)
    requires
        tree_ok(t),
        child matches Some(j) ==> entered(t, j) && i < j,
    ensures
        r matches Ok(e) ==> lowers_operand(walk(t), i as int, child, e),
        child is None ==> r is Err,
        child matches Some(j) && t.ev@[j as int].1 == NODE_LAMBDA ==> r is Err,
        child matches Some(j) ==> (fuel > 1 && 1 <= d <= MAX_DEPTH && (t.ev@[j as int].1
            == NODE_IDENT || t.ev@[j as int].1 == NODE_LITERAL) ==> (r is Ok <==> leaf_lowers(
            walk(t),
            j as int,
        ))),
    decreases fuel, 0nat,
{
    if fuel == 0 {
        return Err(span_error(t, i, "native expression nesting exceeds the supported limit"));
    }
    let j = required(t, i, child, "missing native Nix operand")?;
    if t.ev[j].1 == NODE_LAMBDA {
        return Err(span_error(t, j, message));
    }
    lower(t, j, d, fuel - 1)
}

fn child_expr(t: &Tree, i: usize, child: Option<usize>, d: usize, fuel: usize) -> (r: Result<
    Expr,
    Diagnostic,
>)
    requires
        tree_ok(t),
        child matches Some(j) ==> entered(t, j) && i < j,
    ensures
        r matches Ok(e) ==> lowers_child(walk(t), i as int, child, e),
        child is None ==> r is Err,
        child matches Some(j) ==> (fuel > 1 && 1 <= d <= MAX_DEPTH && (t.ev@[j as int].1
            == NODE_IDENT || t.ev@[j as int].1 == NODE_LITERAL) ==> (r is Ok <==> leaf_lowers(
            walk(t),
            j as int,
        ))),
    decreases fuel, 0nat,
{
    if fuel == 0 {
        return Err(span_error(t, i, "native expression nesting exceeds the supported limit"));
    }
    let j = required(t, i, child, "missing native Nix operand")?;
    lower(t, j, d, fuel - 1)
}

/// Lower the expression entered at event `i`, at semantic depth `d`.
/// Parentheses add no depth.
pub(crate) fn lower(t: &Tree, i: usize, d: usize, fuel: usize) -> (r: Result<Expr, Diagnostic>)
    requires
        tree_ok(t),
        entered(t, i),
    ensures
        r matches Ok(e) ==> lowers(walk(t), i as int, e),
        fuel > 0 && 1 <= d <= MAX_DEPTH && (t.ev@[i as int].1 == NODE_IDENT || t.ev@[i as int].1
            == NODE_LITERAL) ==> (r is Ok <==> leaf_lowers(walk(t), i as int)),
        !lowered_kind(t.ev@[i as int].1) ==> r is Err,
    decreases fuel, 1nat,
{
    if fuel == 0 {
        return Err(span_error(t, i, "native expression nesting exceeds the supported limit"));
    }
    let ghost i0 = i as int;
    let mut node = i;
    while t.ev[node].1 == NODE_PAREN || t.ev[node].1 == NODE_ROOT
        invariant
            tree_ok(t),
            entered(t, node),
            i0 == i,
            forall|e: Expr| #[trigger] lowers(walk(t), node as int, e) ==> lowers(walk(t), i0, e),
            t.ev@[i0].1 != NODE_PAREN && t.ev@[i0].1 != NODE_ROOT ==> node == i,
        decreases t.ev@.len() - node,
    {
        let kids = children(t, node)?;
        let inner = nth_expr(t, &kids, 0);
        let j = required(t, node, inner, "missing parenthesized expression")?;
        assert(kids@.contains(j));
        proof {
            assert forall|e: Expr| #[trigger] lowers(walk(t), j as int, e) implies lowers(
                walk(t),
                i0,
                e,
            ) by {
                assert(lowers_child(walk(t), node as int, Some(j), e));
                assert(lowers(walk(t), node as int, e));
            }
        }
        node = j;
    }
    if d > MAX_DEPTH || d == 0 {
        return Err(depth_error(t, node, d));
    }
    lower_node(t, node, d, fuel)
}

/// Lower the element entered at `i`, which is no parenthesis.
fn lower_node(t: &Tree, i: usize, d: usize, fuel: usize) -> (r: Result<Expr, Diagnostic>)
    requires
        tree_ok(t),
        entered(t, i),
        t.ev@[i as int].1 != NODE_PAREN && t.ev@[i as int].1 != NODE_ROOT,
        1 <= d <= MAX_DEPTH,
        fuel > 0,
    ensures
        r matches Ok(e) ==> lowers(walk(t), i as int, e),
        t.ev@[i as int].1 == NODE_IDENT || t.ev@[i as int].1 == NODE_LITERAL ==> (r is Ok
            <==> leaf_lowers(walk(t), i as int)),
        !lowered_kind(t.ev@[i as int].1) ==> r is Err,
    decreases fuel, 0nat,
{
    let kind = t.ev[i].1;
    let kids = children(t, i)?;
    if kind == NODE_IDENT {
        let name = text(t, i)?;
        if text_eq(name.as_str(), "__curPos") {
            return Ok(Expr::CurrentPosition);
        }
        Ok(Expr::Variable(name))
    } else if kind == NODE_LITERAL {
        if kids.len() == 0 {
            return Err(span_error(t, i, "missing literal"));
        }
        let token = kids[0];
        let k = t.ev[token].1;
        if k == TOKEN_INTEGER {
            let digits = text(t, token)?;
            match parse_integer(digits.as_str()) {
                Some(v) => Ok(Expr::Integer(v)),
                None => Err(span_error(t, i, "integer literal exceeds the Nix signed 64-bit range")),
            }
        } else if k == TOKEN_FLOAT {
            Err(span_error(t, i, "float literals are not supported"))
        } else {
            Err(span_error(t, i, "native literal is not supported yet"))
        }
    } else if kind == NODE_PATH {
        lower_native_path(t, i, &kids, d, fuel - 1)
    } else if kind == NODE_STRING {
        lower_string(t, i, &kids, d, fuel - 1)
    } else if kind == NODE_LIST {
        let mut items: Vec<Expr> = Vec::new();
        let mut k: usize = 0;
        proof {
            assert(kids@.take(0) =~= Seq::<usize>::empty());
        }
        while k < kids.len()
            invariant
                tree_ok(t),
                forall|q: int| 0 <= q < kids@.len() ==> i < #[trigger] kids@[q] && entered(t, kids@[q]),
                k <= kids@.len(),
                d <= MAX_DEPTH,
                fuel > 0,
                lowers_items(walk(t), i as int, kids@.take(k as int), items@),
                t.ev@[i as int].1 == NODE_LIST,
            decreases kids@.len() - k,
        {
            let j = kids[k];
            let ghost before = items@;
            proof {
                assert(kids@.take(k + 1).drop_last() =~= kids@.take(k as int));
                assert(kids@.take(k + 1).last() == j);
            }
            if is_expr_kind(t.ev[j].1) {
                let item = operand(
                    t,
                    i,
                    Some(j),
                    d + 1,
                    "native lambda list elements require parentheses",
                    fuel - 1,
                )?;
                items.push(item);
                proof {
                    assert(items@.drop_last() =~= before);
                }
            }
            k += 1;
        }
        proof {
            assert(kids@.take(kids@.len() as int) =~= kids@);
        }
        Ok(Expr::List(items))
    } else if kind == NODE_ATTR_SET {
        let recursive = first_of(t, &kids, TOKEN_REC).is_some();
        let bindings = lower_bindings(t, i, &kids, d, fuel - 1)?;
        Ok(Expr::AttrSet { recursive, bindings })
    } else if kind == NODE_LET_IN {
        let bindings = lower_bindings(t, i, &kids, d, fuel - 1)?;
        let body = child_expr(t, i, nth_expr(t, &kids, 0), d + 1, fuel - 1)?;
        Ok(Expr::Let { bindings, body: Box::new(body) })
    } else if kind == NODE_WITH {
        let scope = child_expr(t, i, nth_expr(t, &kids, 0), d + 1, fuel - 1)?;
        let body = child_expr(t, i, nth_expr(t, &kids, 1), d + 1, fuel - 1)?;
        Ok(Expr::With { scope: Box::new(scope), body: Box::new(body) })
    } else if kind == NODE_ASSERT {
        let condition = child_expr(t, i, nth_expr(t, &kids, 0), d + 1, fuel - 1)?;
        let body = child_expr(t, i, nth_expr(t, &kids, 1), d + 1, fuel - 1)?;
        Ok(Expr::Assert { condition: Box::new(condition), body: Box::new(body) })
    } else if kind == NODE_IF_ELSE {
        let condition = child_expr(t, i, nth_expr(t, &kids, 0), d + 1, fuel - 1)?;
        let then_branch = child_expr(t, i, nth_expr(t, &kids, 1), d + 1, fuel - 1)?;
        let else_branch = child_expr(t, i, nth_expr(t, &kids, 2), d + 1, fuel - 1)?;
        Ok(
            Expr::If {
                condition: Box::new(condition),
                then_branch: Box::new(then_branch),
                else_branch: Box::new(else_branch),
            },
        )
    } else if kind == NODE_SELECT {
        let value = child_expr(t, i, nth_expr(t, &kids, 0), d + 1, fuel - 1)?;
        let path_node = required(t, i, first_of(t, &kids, NODE_ATTRPATH), "missing native attribute path")?;
        assert(kids@.contains(path_node));
        let path = lower_attr_path(t, path_node, d, false, fuel - 1)?;
        let default = match nth_expr(t, &kids, 1) {
            Some(j) => Some(
                Box::new(
                    operand(
                        t,
                        i,
                        Some(j),
                        d + 1,
                        "native lambda selection defaults require parentheses",
                        fuel - 1,
                    )?,
                ),
            ),
            None => None,
        };
        Ok(Expr::Select { value: Box::new(value), path, default })
    } else if kind == NODE_HAS_ATTR {
        let value = operand(
            t,
            i,
            nth_expr(t, &kids, 0),
            d + 1,
            "native lambda operator operands require parentheses",
            fuel - 1,
        )?;
        let path_node = required(t, i, first_of(t, &kids, NODE_ATTRPATH), "missing native attribute path")?;
        assert(kids@.contains(path_node));
        let path = lower_attr_path(t, path_node, d, false, fuel - 1)?;
        Ok(Expr::HasAttr { value: Box::new(value), path })
    } else if kind == NODE_LAMBDA {
        let parameter = lower_parameter(t, i, &kids, d, fuel - 1)?;
        let body = child_expr(t, i, nth_expr(t, &kids, 0), d + 1, fuel - 1)?;
        Ok(Expr::Lambda { parameter, body: Box::new(body) })
    } else if kind == NODE_UNARY_OP {
        let negate = first_of(t, &kids, TOKEN_SUB);
        let invert = first_of(t, &kids, TOKEN_INVERT);
        let value = operand(
            t,
            i,
            nth_expr(t, &kids, 0),
            d + 1,
            "native lambda operator operands require parentheses",
            fuel - 1,
        )?;
        match (negate, invert) {
            (Some(a), Some(b)) => if a < b {
                Ok(Expr::Negate(Box::new(value)))
            } else {
                Ok(Expr::Not(Box::new(value)))
            },
            (Some(_), None) => Ok(Expr::Negate(Box::new(value))),
            (None, Some(_)) => Ok(Expr::Not(Box::new(value))),
            (None, None) => Err(span_error(t, i, "missing native unary operator")),
        }
    } else if kind == NODE_BIN_OP {
        let (op, implication) = binary_operator(t, i, &kids)?;
        let left = operand(
            t,
            i,
            nth_expr(t, &kids, 0),
            d + 1,
            "native lambda operator operands require parentheses",
            fuel - 1,
        )?;
        let right = operand(
            t,
            i,
            nth_expr(t, &kids, 1),
            d + 1,
            "native lambda operator operands require parentheses",
            fuel - 1,
        )?;
        let left = if implication {
            Expr::Not(Box::new(left))
        } else {
            left
        };
        Ok(Expr::Binary { op, left: Box::new(left), right: Box::new(right) })
    } else if kind == NODE_APPLY {
        let function = child_expr(t, i, nth_expr(t, &kids, 0), d + 1, fuel - 1)?;
        let argument = operand(
            t,
            i,
            nth_expr(t, &kids, 1),
            d + 1,
            "native lambda arguments require parentheses",
            fuel - 1,
        )?;
        Ok(Expr::Apply { function: Box::new(function), argument: Box::new(argument) })
    } else {
        Err(span_error(t, i, "native Nix form is not supported yet"))
    }
}

/// The operator of a binary node: its first operator token. Implication
/// becomes `||` over a negated left operand.
fn binary_operator(t: &Tree, i: usize, kids: &Vec<usize>) -> (r: Result<(BinaryOp, bool), Diagnostic>)
    requires
        tree_ok(t),
        forall|k: int| 0 <= k < kids@.len() ==> entered(t, #[trigger] kids@[k]),
    ensures
        r matches Ok(o) ==> bin_op_of(walk(t), kids@) == Some(o),
        r is Ok <==> bin_op_of(walk(t), kids@) is Some,
{
    let mut k: usize = 0;
    proof {
        assert(kids@.skip(0) =~= kids@);
    }
    while k < kids.len()
        invariant
            tree_ok(t),
            forall|q: int| 0 <= q < kids@.len() ==> entered(t, #[trigger] kids@[q]),
            k <= kids@.len(),
            bin_op_of(walk(t), kids@) == bin_op_of(walk(t), kids@.skip(k as int)),
        decreases kids@.len() - k,
    {
        proof {
            assert(kids@.skip(k as int).drop_first() =~= kids@.skip(k + 1));
            assert(kids@.skip(k as int)[0] == kids@[k as int]);
        }
        let kind = t.ev[kids[k]].1;
        let op = if kind == TOKEN_CONCAT {
            Some((BinaryOp::Concat, false))
        } else if kind == TOKEN_UPDATE {
            Some((BinaryOp::Update, false))
        } else if kind == TOKEN_ADD {
            Some((BinaryOp::Add, false))
        } else if kind == TOKEN_SUB {
            Some((BinaryOp::Subtract, false))
        } else if kind == TOKEN_MUL {
            Some((BinaryOp::Multiply, false))
        } else if kind == TOKEN_DIV {
            Some((BinaryOp::Divide, false))
        } else if kind == TOKEN_AND_AND {
            Some((BinaryOp::And, false))
        } else if kind == TOKEN_EQUAL {
            Some((BinaryOp::Equal, false))
        } else if kind == TOKEN_IMPLICATION {
            Some((BinaryOp::Or, true))
        } else if kind == TOKEN_LESS {
            Some((BinaryOp::Less, false))
        } else if kind == TOKEN_LESS_OR_EQ {
            Some((BinaryOp::LessOrEqual, false))
        } else if kind == TOKEN_MORE {
            Some((BinaryOp::Greater, false))
        } else if kind == TOKEN_MORE_OR_EQ {
            Some((BinaryOp::GreaterOrEqual, false))
        } else if kind == TOKEN_NOT_EQUAL {
            Some((BinaryOp::NotEqual, false))
        } else if kind == TOKEN_OR_OR {
            Some((BinaryOp::Or, false))
        } else {
            None
        };
        assert(op == binary_of(kind));
        match op {
            Some(o) => {
                return Ok(o);
            },
            None => {},
        }
        if kind == TOKEN_PIPE_RIGHT || kind == TOKEN_PIPE_LEFT {
            return Err(span_error(t, i, "native Nix operator is not supported yet"));
        }
        k += 1;
    }
    Err(span_error(t, i, "native Nix operator is not supported yet"))
}

/// A path: literal path tokens and interpolations.
fn lower_native_path(t: &Tree, i: usize, kids: &Vec<usize>, d: usize, fuel: usize) -> (r: Result<
    Expr,
    Diagnostic,
>)
    requires
        tree_ok(t),
        forall|k: int| 0 <= k < kids@.len() ==> i < #[trigger] kids@[k] && entered(t, kids@[k]),
        d <= MAX_DEPTH,
    ensures
        r matches Ok(e) ==> lowers_path(walk(t), i as int, kids@, e),
    decreases fuel, 0nat,
{
    if fuel == 0 {
        return Err(span_error(t, i, "native expression nesting exceeds the supported limit"));
    }
    let mut parts: Vec<StringPart> = Vec::new();
    let mut k: usize = 0;
    let ghost mut items: Seq<Piece> = Seq::empty();
    proof {
        assert(kids@.take(0) =~= Seq::<usize>::empty());
        assert(pieces_of(parts@) =~= Seq::<Piece>::empty());
    }
    while k < kids.len()
        invariant
            tree_ok(t),
            forall|q: int| 0 <= q < kids@.len() ==> i < #[trigger] kids@[q] && entered(t, kids@[q]),
            k <= kids@.len(),
            d <= MAX_DEPTH,
            fuel > 0,
            path_items(walk(t), i as int, kids@.take(k as int), items),
            pieces_of(parts@) == gathered(Seq::empty(), items),
        decreases kids@.len() - k,
    {
        let j = kids[k];
        let kind = t.ev[j].1;
        let ghost old_items = items;
        let ghost old_parts = parts@;
        proof {
            assert(kids@.take(k + 1).drop_last() =~= kids@.take(k as int));
            assert(kids@.take(k + 1).last() == j);
        }
        if kind == TOKEN_PATH {
            let text = text(t, j)?;
            let ghost tv = text@;
            push_string_literal(&mut parts, text);
            proof {
                items = items.push(Piece::Text(tv));
            }
        } else if kind == NODE_INTERPOL {
            let inner = children(t, j)?;
            let value = child_expr(t, j, nth_expr(t, &inner, 0), d + 1, fuel - 1)?;
            let ghost v = value;
            parts.push(StringPart::Interpolation(value));
            proof {
                items = items.push(Piece::Code(v));
                assert(pieces_of(parts@) =~= pieces_of(old_parts).push(Piece::Code(v)));
            }
        } else {
            return Err(malformed());
        }
        proof {
            assert(items.drop_last() =~= old_items);
        }
        k += 1;
    }
    proof {
        assert(kids@.take(kids@.len() as int) =~= kids@);
        assert(chosen(items));
    }
    if parts.len() == 1 {
        let search = match &parts[0] {
            StringPart::Literal(p) => {
                let chars = crate::text::chars_of(p.as_str());
                chars.len() > 0 && chars[0] == '<'
            },
            StringPart::Interpolation(_) => false,
        };
        if search {
            let part = parts.pop().unwrap();
            return match part {
                StringPart::Literal(p) => Ok(Expr::SearchPath(p)),
                StringPart::Interpolation(_) => Err(malformed()),
            };
        }
    }
    match lower_path(parts) {
        Ok(e) => Ok(e),
        Err(m) => Err(span_error(t, i, m)),
    }
}

/// A string: decoded literal text and interpolations; an indented string's
/// text is lowered with its indentation rules.
fn lower_string(t: &Tree, i: usize, kids: &Vec<usize>, d: usize, fuel: usize) -> (r: Result<
    Expr,
    Diagnostic,
>)
    requires
        tree_ok(t),
        forall|k: int| 0 <= k < kids@.len() ==> i < #[trigger] kids@[k] && entered(t, kids@[k]),
        d <= MAX_DEPTH,
    ensures
        r matches Ok(e) ==> lowers_string(walk(t), i as int, kids@, e),
    decreases fuel, 0nat,
{
    if fuel == 0 {
        return Err(span_error(t, i, "native expression nesting exceeds the supported limit"));
    }
    if kids.len() == 0 || t.ev[kids[0]].1 != TOKEN_STRING_START {
        return Err(malformed());
    }
    let open = text(t, kids[0])?;
    let indented = !text_eq(open.as_str(), "\"");
    let mut parts: Vec<StringPart> = Vec::new();
    let mut k: usize = 1;
    let ghost mut items: Seq<Piece> = Seq::empty();
    proof {
        assert(kids@.subrange(1, 1) =~= Seq::<usize>::empty());
        assert(pieces_of(parts@) =~= Seq::<Piece>::empty());
    }
    while k < kids.len()
        invariant
            tree_ok(t),
            forall|q: int| 0 <= q < kids@.len() ==> i < #[trigger] kids@[q] && entered(t, kids@[q]),
            1 <= k <= kids@.len(),
            d <= MAX_DEPTH,
            fuel > 0,
            string_items(walk(t), i as int, kids@.subrange(1, k as int), indented, items),
            indented ==> pieces_of(parts@) == items,
            !indented ==> pieces_of(parts@) == gathered(Seq::empty(), items),
        decreases kids@.len() - k,
    {
        let j = kids[k];
        let kind = t.ev[j].1;
        let ghost old_items = items;
        let ghost old_parts = parts@;
        proof {
            assert(kids@.subrange(1, k + 1).drop_last() =~= kids@.subrange(1, k as int));
            assert(kids@.subrange(1, k + 1).last() == j);
        }
        if kind == TOKEN_STRING_CONTENT {
            let raw = text(t, j)?;
            if indented {
                let ghost rv = raw@;
                parts.push(StringPart::Literal(raw));
                proof {
                    items = items.push(Piece::Text(rv));
                    assert(pieces_of(parts@) =~= pieces_of(old_parts).push(Piece::Text(rv)));
                }
            } else {
                match crate::string::decode(raw.as_str()) {
                    Ok(s) => {
                        let ghost sv = s@;
                        push_string_literal(&mut parts, s);
                        proof {
                            items = items.push(Piece::Text(sv));
                        }
                    },
                    Err(m) => {
                        return Err(span_error(t, j, m));
                    },
                }
            }
            proof {
                assert(items.drop_last() =~= old_items);
            }
        } else if kind == NODE_INTERPOL {
            let inner = children(t, j)?;
            let value = child_expr(t, j, nth_expr(t, &inner, 0), d + 1, fuel - 1)?;
            let ghost v = value;
            parts.push(StringPart::Interpolation(value));
            proof {
                items = items.push(Piece::Code(v));
                assert(pieces_of(parts@) =~= pieces_of(old_parts).push(Piece::Code(v)));
                assert(items.drop_last() =~= old_items);
            }
        } else if kind != TOKEN_STRING_END {
            return Err(malformed());
        }
        k += 1;
    }
    proof {
        assert(kids@.subrange(1, kids@.len() as int) =~= kids@.drop_first());
        assert(chosen(items));
    }
    if indented {
        return match lower_indented(parts) {
            Ok(lowered) => Ok(Expr::String(lowered)),
            Err(m) => Err(span_error(t, i, m)),
        };
    }
    Ok(Expr::String(parts))
}

/// One attribute name. A dynamic key sits at `key_depth`.
fn lower_attr(t: &Tree, j: usize, key_depth: usize, fuel: usize) -> (r: Result<AttrName, Diagnostic>)
    requires
        tree_ok(t),
        entered(t, j),
    ensures
        r matches Ok(n) ==> lowers_attr(walk(t), j as int, n),
        fuel > 0 && t.ev@[j as int].1 == NODE_IDENT ==> (r is Ok <==> (node_text(
            walk(t),
            j as int,
        ) matches Some(s) && bare_attr_name_ok(s))),
        !spec_is_attr_kind(t.ev@[j as int].1) ==> r is Err,
    decreases fuel, 0nat,
{
    if fuel == 0 {
        return Err(span_error(t, j, "native expression nesting exceeds the supported limit"));
    }
    let kind = t.ev[j].1;
    if kind == NODE_IDENT {
        let name = text(t, j)?;
        match validate_bare_attr_name(name.as_str()) {
            Ok(()) => Ok(AttrName::Static(name)),
            Err(m) => Err(span_error(t, j, m)),
        }
    } else if kind == NODE_DYNAMIC {
        let kids = children(t, j)?;
        let value = child_expr(t, j, nth_expr(t, &kids, 0), key_depth, fuel - 1)?;
        Ok(AttrName::Dynamic(Box::new(value)))
    } else if kind == NODE_STRING {
        if key_depth > MAX_DEPTH {
            return Err(depth_error(t, j, key_depth));
        }
        let kids = children(t, j)?;
        if kids.len() == 0 {
            return Err(malformed());
        }
        let open = text(t, kids[0])?;
        if !text_eq(open.as_str(), "\"") {
            return Err(span_error(t, j, "attribute names require double quotes"));
        }
        let s = lower_string(t, j, &kids, key_depth, fuel - 1)?;
        let ghost sv = s;
        let name = match s {
            Expr::String(mut parts) => {
                let ghost all = parts@;
                if parts.len() == 0 {
                    AttrName::Static(String::new())
                } else if parts.len() == 1 {
                    let part = parts.pop().unwrap();
                    assert(part == all[0]);
                    match part {
                        StringPart::Literal(text) => AttrName::Static(text),
                        StringPart::Interpolation(e) => {
                            let single = vec![StringPart::Interpolation(e)];
                            assert(single@ =~= all);
                            AttrName::Dynamic(Box::new(Expr::String(single)))
                        },
                    }
                } else {
                    AttrName::Dynamic(Box::new(Expr::String(parts)))
                }
            },
            other => AttrName::Dynamic(Box::new(other)),
        };
        proof {
            assert(string_key(sv, name));
            assert(chosen(sv));
        }
        Ok(name)
    } else {
        Err(span_error(t, j, "unsupported native attribute name"))
    }
}

/// The names of an attribute path. In a binding, the key at index `k` has
/// its dynamic part at `d + k + 1`; in a selection, at `d + 1`.
fn lower_attr_path(t: &Tree, p: usize, d: usize, binding: bool, fuel: usize) -> (r: Result<
    Vec<AttrName>,
    Diagnostic,
>)
    requires
        tree_ok(t),
        entered(t, p),
        d <= MAX_DEPTH,
    ensures
        r matches Ok(path) ==> path@.len() <= MAX_DEPTH,
        r matches Ok(path) ==> lowers_attr_path(walk(t), p as int, path@),
    decreases fuel, 0nat,
{
    if fuel == 0 {
        return Err(span_error(t, p, "native expression nesting exceeds the supported limit"));
    }
    let kids = children(t, p)?;
    let mut path: Vec<AttrName> = Vec::new();
    let mut k: usize = 0;
    proof {
        assert(kids@.take(0) =~= Seq::<usize>::empty());
    }
    while k < kids.len()
        invariant
            tree_ok(t),
            forall|q: int| 0 <= q < kids@.len() ==> p < #[trigger] kids@[q] && entered(t, kids@[q]),
            k <= kids@.len(),
            d <= MAX_DEPTH,
            path@.len() <= MAX_DEPTH,
            fuel > 0,
            lowers_keys(walk(t), p as int, kids@.take(k as int), path@),
        decreases kids@.len() - k,
    {
        let j = kids[k];
        let ghost before = path@;
        proof {
            assert(kids@.take(k + 1).drop_last() =~= kids@.take(k as int));
            assert(kids@.take(k + 1).last() == j);
        }
        if is_attr_kind(t.ev[j].1) {
            if path.len() >= MAX_DEPTH {
                return Err(span_error(t, p, "attribute path exceeds the nesting limit"));
            }
            let key_depth = if binding {
                d + path.len() + 1
            } else {
                d + 1
            };
            let name = lower_attr(t, j, key_depth, fuel - 1)?;
            path.push(name);
            proof {
                assert(path@.drop_last() =~= before);
            }
        }
        k += 1;
    }
    proof {
        assert(kids@.take(kids@.len() as int) =~= kids@);
    }
    Ok(path)
}

/// The entries of a set or `let`.
fn lower_bindings(t: &Tree, i: usize, kids: &Vec<usize>, d: usize, fuel: usize) -> (r: Result<
    Vec<Binding>,
    Diagnostic,
>)
    requires
        tree_ok(t),
        forall|k: int| 0 <= k < kids@.len() ==> i < #[trigger] kids@[k] && entered(t, kids@[k]),
        d <= MAX_DEPTH,
    ensures
        r matches Ok(bs) ==> lowers_bindings(walk(t), i as int, kids@, bs@),
    decreases fuel, 0nat,
{
    if fuel == 0 {
        return Err(span_error(t, i, "native expression nesting exceeds the supported limit"));
    }
    let mut out: Vec<Binding> = Vec::new();
    let mut k: usize = 0;
    proof {
        assert(kids@.take(0) =~= Seq::<usize>::empty());
    }
    while k < kids.len()
        invariant
            tree_ok(t),
            forall|q: int| 0 <= q < kids@.len() ==> i < #[trigger] kids@[q] && entered(t, kids@[q]),
            k <= kids@.len(),
            d <= MAX_DEPTH,
            fuel > 0,
            lowers_bindings(walk(t), i as int, kids@.take(k as int), out@),
        decreases kids@.len() - k,
    {
        let j = kids[k];
        let kind = t.ev[j].1;
        let ghost before = out@;
        proof {
            assert(kids@.take(k + 1).drop_last() =~= kids@.take(k as int));
            assert(kids@.take(k + 1).last() == j);
        }
        if kind == NODE_ATTRPATH_VALUE {
            let inner = children(t, j)?;
            let path_node = required(t, j, first_of(t, &inner, NODE_ATTRPATH), "missing native attribute path")?;
            assert(inner@.contains(path_node));
            let path = lower_attr_path(t, path_node, d, true, fuel - 1)?;
            let value = child_expr(t, j, nth_expr(t, &inner, 0), d + path.len(), fuel - 1)?;
            out.push(Binding::Assign { path, value });
            proof {
                assert(out@.drop_last() =~= before);
                assert(lowers_binding(walk(t), j as int, out@.last()));
            }
        } else if kind == NODE_INHERIT {
            let inner = children(t, j)?;
            let source = match first_of(t, &inner, NODE_INHERIT_FROM) {
                Some(f) => {
                    assert(inner@.contains(f));
                    let from = children(t, f)?;
                    Some(child_expr(t, f, nth_expr(t, &from, 0), d + 1, fuel - 1)?)
                },
                None => None,
            };
            let mut names: Vec<String> = Vec::new();
            let mut q: usize = 0;
            proof {
                assert(inner@.take(0) =~= Seq::<usize>::empty());
            }
            while q < inner.len()
                invariant
                    tree_ok(t),
                    forall|r: int| 0 <= r < inner@.len() ==> j < #[trigger] inner@[r] && entered(t, inner@[r]),
                    q <= inner@.len(),
                    d <= MAX_DEPTH,
                    fuel > 0,
                    lowers_inherited(walk(t), j as int, inner@.take(q as int), names@),
                decreases inner@.len() - q,
            {
                let a = inner[q];
                let ghost names_before = names@;
                proof {
                    assert(inner@.take(q + 1).drop_last() =~= inner@.take(q as int));
                    assert(inner@.take(q + 1).last() == a);
                }
                if is_attr_kind(t.ev[a].1) {
                    let name = lower_attr(t, a, d + 1, fuel - 1)?;
                    match name.literal_name() {
                        Some(n) => names.push(n.to_owned()),
                        None => {
                            return Err(span_error(t, a, "dynamic attributes are not allowed in inherit"));
                        },
                    }
                    proof {
                        assert(names@.drop_last() =~= names_before);
                        assert(chosen(name));
                    }
                }
                q += 1;
            }
            proof {
                assert(inner@.take(inner@.len() as int) =~= inner@);
            }
            out.push(Binding::Inherit { source, names });
            proof {
                assert(out@.drop_last() =~= before);
                assert(lowers_binding(walk(t), j as int, out@.last()));
            }
        }
        k += 1;
    }
    proof {
        assert(kids@.take(kids@.len() as int) =~= kids@);
    }
    Ok(out)
}

/// A lambda's parameter: a name, or a pattern with fields, `...` and a bind.
fn lower_parameter(t: &Tree, i: usize, kids: &Vec<usize>, d: usize, fuel: usize) -> (r: Result<
    Pattern,
    Diagnostic,
>)
    requires
        tree_ok(t),
        forall|k: int| 0 <= k < kids@.len() ==> i < #[trigger] kids@[k] && entered(t, kids@[k]),
        d <= MAX_DEPTH,
    ensures
        r matches Ok(p) ==> lowers_parameter(walk(t), i as int, kids@, p),
        first_from(walk(t), kids@, NODE_IDENT_PARAM) matches Some(p) ==> (fuel > 0 ==> (r is Ok <==> (
        super::lowering::kids(walk(t), p as int) matches Some(inner) && first_from(
            walk(t),
            inner,
            NODE_IDENT,
        ) matches Some(id) && node_text(walk(t), id as int) is Some))),
        first_from(walk(t), kids@, NODE_IDENT_PARAM) is None && first_from(
            walk(t),
            kids@,
            NODE_PATTERN,
        ) is None ==> r is Err,
    decreases fuel, 0nat,
{
    if fuel == 0 {
        return Err(span_error(t, i, "native expression nesting exceeds the supported limit"));
    }
    match first_of(t, kids, NODE_IDENT_PARAM) {
        Some(p) => {
            let inner = children(t, p)?;
            let id = required(t, p, first_of(t, &inner, NODE_IDENT), "missing lambda parameter name")?;
            return Ok(Pattern::Ident(text(t, id)?));
        },
        None => {},
    }
    let p = required(t, i, first_of(t, kids, NODE_PATTERN), "missing lambda parameter")?;
    assert(kids@.contains(p));
    let inner = children(t, p)?;
    let mut fields: Vec<Formal> = Vec::new();
    let mut k: usize = 0;
    proof {
        assert(inner@.take(0) =~= Seq::<usize>::empty());
    }
    while k < inner.len()
        invariant
            tree_ok(t),
            forall|q: int| 0 <= q < inner@.len() ==> p < #[trigger] inner@[q] && entered(t, inner@[q]),
            k <= inner@.len(),
            d <= MAX_DEPTH,
            fuel > 0,
            lowers_fields(walk(t), p as int, inner@.take(k as int), fields@),
            first_from(walk(t), kids@, NODE_IDENT_PARAM) is None,
        decreases inner@.len() - k,
    {
        let e = inner[k];
        let ghost before = fields@;
        proof {
            assert(inner@.take(k + 1).drop_last() =~= inner@.take(k as int));
            assert(inner@.take(k + 1).last() == e);
        }
        if t.ev[e].1 == NODE_PAT_ENTRY {
            let entry = children(t, e)?;
            let id = required(t, e, first_of(t, &entry, NODE_IDENT), "missing lambda parameter name")?;
            let name = text(t, id)?;
            let default = match nth_expr(t, &entry, 1) {
                Some(v) => {
                    assert(entry@.contains(v));
                    Some(child_expr(t, e, Some(v), d + 1, fuel - 1)?)
                },
                None => None,
            };
            fields.push(Formal { name, default });
            proof {
                assert(fields@.drop_last() =~= before);
            }
        }
        k += 1;
    }
    proof {
        assert(inner@.take(inner@.len() as int) =~= inner@);
    }
    let ellipsis = first_of(t, &inner, TOKEN_ELLIPSIS).is_some();
    let bind = match first_of(t, &inner, NODE_PAT_BIND) {
        Some(b) => {
            let bk = children(t, b)?;
            let id = required(t, b, first_of(t, &bk, NODE_IDENT), "missing lambda parameter name")?;
            Some(text(t, id)?)
        },
        None => None,
    };
    Ok(Pattern::AttrSet { fields, ellipsis, bind })
}

} // verus!
