//! Rendering of semantic expressions as canonical nxc or conservative native
//! Nix. Both dialects share string escaping, attribute spelling and the
//! layout of bindings, selections and patterns; `native` picks the dialect.
use vstd::prelude::*;
use vstd::string::StringExecFns;

use crate::ir::{
    bare_attr_name_ok, spec_spelling, validate_bare_attr_name, AttrName, Binding, BinaryOp, Expr,
    Formal, Pattern, StringPart,
};
use crate::syntax::ident::{encode, spec_encode};
use crate::string::{decode_char, decode_step, prefixed, spec_decode};
use crate::text::{decimal, push_char, spec_decimal, text_eq};

pub mod nxc;

pub use self::nxc::emit as nxc;
pub use self::nxc::emit_with_limits as nxc_with_limits;

verus! {

// ---------------------------------------------------------------------------
// Specification of the rendered text.

/// The escaped spelling of one character inside a double-quoted string.
pub open spec fn escape_char(c: char) -> Seq<char> {
    if c == '"' {
        seq!['\\', '"']
    } else if c == '\\' {
        seq!['\\', '\\']
    } else if c == '$' {
        seq!['\\', '$']
    } else if c == '\n' {
        seq!['\\', 'n']
    } else if c == '\r' {
        seq!['\\', 'r']
    } else if c == '\t' {
        seq!['\\', 't']
    } else {
        seq![c]
    }
}

/// Literal text escaped for a double-quoted string; every `$` is escaped.
pub open spec fn escape(t: Seq<char>) -> Seq<char>
    decreases t.len(),
{
    if t.len() == 0 {
        Seq::empty()
    } else {
        escape(t.drop_last()) + escape_char(t.last())
    }
}

/// An attribute name: bare when both dialects accept it bare, quoted
/// otherwise. In nxc, `yield` is quoted too, since it ends a `let`'s bindings.
pub open spec fn attribute(n: Seq<char>, native: bool) -> Seq<char> {
    if bare_attr_name_ok(n) && (native || n != "yield"@) {
        n
    } else {
        seq!['"'] + escape(n) + seq!['"']
    }
}

/// A variable or parameter name in the chosen dialect.
pub open spec fn name_text(n: Seq<char>, native: bool) -> Seq<char> {
    if native {
        n
    } else {
        spec_encode(n)
    }
}

pub open spec fn render(e: Expr, native: bool) -> Seq<char>
    decreases e, 1int,
{
    match e {
        Expr::Integer(v) => spec_decimal(v as nat),
        Expr::Float(_) => Seq::empty(),
        Expr::Variable(n) => name_text(n@, native),
        Expr::CurrentPosition => "__curPos"@,
        Expr::RelativePath(p) => p@,
        Expr::AbsolutePath(p) => p@,
        Expr::HomePath(p) => p@,
        Expr::SearchPath(p) => p@,
        Expr::InterpolatedPath(parts) => parts_text(parts@, parts@.len() as int, false, native),
        Expr::String(parts) => seq!['"'] + parts_text(parts@, parts@.len() as int, true, native)
            + seq!['"'],
        Expr::List(items) => seq!['['] + items_text(items@, items@.len() as int, native) + seq![
            ']',
        ],
        Expr::AttrSet { recursive, bindings } => (if recursive {
            "rec {"@
        } else {
            seq!['{']
        }) + bindings_text(bindings@, bindings@.len() as int, native) + " }"@,
        Expr::Let { bindings, body } => if native {
            "(let"@ + bindings_text(bindings@, bindings@.len() as int, native) + " in "@ + render(
                *body,
                native,
            ) + seq![')']
        } else {
            "let {"@ + bindings_text(bindings@, bindings@.len() as int, native) + " yield "@
                + render(*body, native) + "; }"@
        },
        Expr::With { scope, body } => if native {
            "(with "@ + render(*scope, native) + "; "@ + render(*body, native) + seq![')']
        } else {
            "with("@ + render(*scope, native) + ", "@ + render(*body, native) + seq![')']
        },
        Expr::Assert { condition, body } => if native {
            "(assert "@ + render(*condition, native) + "; "@ + render(*body, native) + seq![')']
        } else {
            "assert("@ + render(*condition, native) + ", "@ + render(*body, native) + seq![')']
        },
        Expr::If { condition, then_branch, else_branch } => "(if "@ + render(*condition, native)
            + " then "@ + render(*then_branch, native) + " else "@ + render(*else_branch, native)
            + seq![')'],
        Expr::Select { value, path, default } => "(("@ + render(*value, native) + ")."@
            + keys_text(path@, path@.len() as int, native) + match default {
            Some(d) => " or ("@ + render(*d, native) + seq![')'],
            None => Seq::empty(),
        } + seq![')'],
        Expr::HasAttr { value, path } => "(("@ + render(*value, native) + ") ? "@ + keys_text(
            path@,
            path@.len() as int,
            native,
        ) + seq![')'],
        Expr::Lambda { parameter, body } => if native {
            seq!['('] + pattern_text(parameter, native) + ": "@ + render(*body, native) + seq![
                ')',
            ]
        } else {
            seq!['('] + match parameter {
                Pattern::Ident(_) => pattern_text(parameter, native),
                Pattern::AttrSet { .. } => seq!['('] + pattern_text(parameter, native) + seq![')'],
            } + " => "@ + render(*body, native) + seq![')']
        },
        Expr::Apply { function, argument } => if native {
            seq!['('] + render(*function, native) + seq![' '] + render(*argument, native) + seq![
                ')',
            ]
        } else {
            call_open(e) + seq![')']
        },
        Expr::Negate(v) => "(-"@ + render(*v, native) + seq![')'],
        Expr::Not(v) => "(!"@ + render(*v, native) + seq![')'],
        Expr::Binary { op, left, right } => if !native && op is Update {
            "__nxc_update("@ + render(*left, native) + ", "@ + render(*right, native) + seq![')']
        } else {
            seq!['('] + render(*left, native) + seq![' '] + spec_spelling(op) + seq![' ']
                + render(*right, native) + seq![')']
        },
    }
}

/// An nxc call without its closing parenthesis: a chain of applications is
/// flattened into one argument list.
pub open spec fn call_open(e: Expr) -> Seq<char>
    decreases e, 0int,
{
    match e {
        Expr::Apply { function, argument } => match *function {
            Expr::Apply { .. } => call_open(*function) + ", "@ + render(*argument, false),
            _ => render(*function, false) + seq!['('] + render(*argument, false),
        },
        _ => Seq::empty(),
    }
}

/// The first `n` parts of a string (escaped) or path (verbatim).
pub open spec fn parts_text(s: Seq<StringPart>, n: int, quoted: bool, native: bool) -> Seq<char>
    decreases s, n,
{
    if n <= 0 || n > s.len() {
        Seq::empty()
    } else {
        parts_text(s, n - 1, quoted, native) + match s[n - 1] {
            StringPart::Literal(t) => if quoted {
                escape(t@)
            } else {
                t@
            },
            StringPart::Interpolation(v) => "${"@ + render(v, native) + seq!['}'],
        }
    }
}

/// The first `n` list items, separated by a space or a comma.
pub open spec fn items_text(s: Seq<Expr>, n: int, native: bool) -> Seq<char>
    decreases s, n,
{
    if n <= 0 || n > s.len() {
        Seq::empty()
    } else if n == 1 {
        render(s[0], native)
    } else {
        items_text(s, n - 1, native) + (if native {
            seq![' ']
        } else {
            ", "@
        }) + render(s[n - 1], native)
    }
}

/// The first `n` bindings, each preceded by a space.
pub open spec fn bindings_text(s: Seq<Binding>, n: int, native: bool) -> Seq<char>
    decreases s, n,
{
    if n <= 0 || n > s.len() {
        Seq::empty()
    } else {
        bindings_text(s, n - 1, native) + seq![' '] + binding_text(s[n - 1], native)
    }
}

pub open spec fn binding_text(b: Binding, native: bool) -> Seq<char>
    decreases b, 1int,
{
    match b {
        Binding::Assign { path, value } => keys_text(path@, path@.len() as int, native) + " = "@
            + render(value, native) + seq![';'],
        Binding::Inherit { source, names } => "inherit"@ + match source {
            Some(v) => " ("@ + render(v, native) + seq![')'],
            None => Seq::empty(),
        } + names_text(names@, names@.len() as int, native) + seq![';'],
    }
}

/// The first `n` inherited names, each preceded by a space.
pub open spec fn names_text(s: Seq<String>, n: int, native: bool) -> Seq<char>
    decreases n,
{
    if n <= 0 || n > s.len() {
        Seq::empty()
    } else {
        names_text(s, n - 1, native) + seq![' '] + attribute(s[n - 1]@, native)
    }
}

/// The first `n` keys of an attribute path, joined by dots.
pub open spec fn keys_text(s: Seq<AttrName>, n: int, native: bool) -> Seq<char>
    decreases s, n,
{
    if n <= 0 || n > s.len() {
        Seq::empty()
    } else if n == 1 {
        key_text(s[0], native)
    } else {
        keys_text(s, n - 1, native) + seq!['.'] + key_text(s[n - 1], native)
    }
}

pub open spec fn key_text(k: AttrName, native: bool) -> Seq<char>
    decreases k, 1int,
{
    match k {
        AttrName::Static(n) => attribute(n@, native),
        AttrName::Dynamic(v) => "${"@ + render(*v, native) + seq!['}'],
    }
}

pub open spec fn pattern_text(p: Pattern, native: bool) -> Seq<char>
    decreases p, 1int,
{
    match p {
        Pattern::Ident(n) => name_text(n@, native),
        Pattern::AttrSet { fields, ellipsis, bind } => "{ "@ + formals_text(
            fields@,
            fields@.len() as int,
            native,
        ) + (if ellipsis {
            if fields@.len() > 0 {
                ", ..."@
            } else {
                "..."@
            }
        } else {
            Seq::empty()
        }) + " }"@ + match bind {
            Some(b) => seq!['@'] + name_text(b@, native),
            None => Seq::empty(),
        },
    }
}

/// The first `n` pattern fields, separated by commas.
pub open spec fn formals_text(s: Seq<Formal>, n: int, native: bool) -> Seq<char>
    decreases s, n,
{
    if n <= 0 || n > s.len() {
        Seq::empty()
    } else if n == 1 {
        formal_text(s[0], native)
    } else {
        formals_text(s, n - 1, native) + ", "@ + formal_text(s[n - 1], native)
    }
}

pub open spec fn formal_text(f: Formal, native: bool) -> Seq<char>
    decreases f, 1int,
{
    name_text(f.name@, native) + match f.default {
        Some(d) => " ? "@ + render(d, native),
        None => Seq::empty(),
    }
}

/// Escaping from the front: the first character's escape, then the rest.
pub proof fn lemma_escape_front(t: Seq<char>)
    requires
        t.len() > 0,
    ensures
        escape(t) == escape_char(t[0]) + escape(t.drop_first()),
    decreases t.len(),
{
    if t.len() == 1 {
        assert(t.drop_last() =~= Seq::<char>::empty());
        assert(t.drop_first() =~= Seq::<char>::empty());
        assert(escape(t.drop_last()) =~= Seq::<char>::empty());
        assert(escape(t.drop_first()) =~= Seq::<char>::empty());
        assert(t.last() == t[0]);
        assert(escape(t) =~= escape_char(t[0]));
    } else {
        lemma_escape_front(t.drop_last());
        assert(t.drop_last().drop_first() =~= t.drop_first().drop_last());
        assert(t.drop_first().last() == t.last());
        assert(t.drop_last()[0] == t[0]);
        assert(escape(t.drop_first()) == escape(t.drop_first().drop_last()) + escape_char(
            t.drop_first().last(),
        ));
        assert(escape(t) =~= escape_char(t[0]) + escape(t.drop_first()));
    }
}

/// Decoding an escaped string literal gives back its text, for every text
/// without NUL (which Nix strings cannot hold).
pub proof fn lemma_decode_escape(t: Seq<char>)
    requires
        !t.contains('\0'),
    ensures
        spec_decode(escape(t)) == Ok::<Seq<char>, Seq<char>>(t),
    decreases t.len(),
{
    if t.len() == 0 {
        assert(escape(t) =~= Seq::<char>::empty());
        assert(t =~= Seq::<char>::empty());
        assert(spec_decode(escape(t)) == Ok::<Seq<char>, Seq<char>>(Seq::empty()));
    } else {
        lemma_escape_front(t);
        let rest = t.drop_first();
        assert forall|i: int| 0 <= i < rest.len() implies rest[i] != '\0' by {
            assert(rest[i] == t[i + 1]);
        }
        assert(!rest.contains('\0'));
        lemma_decode_escape(rest);
        let c = t[0];
        assert(c != '\0') by {
            assert(t.contains(t[0]));
        }
        let s = escape(t);
        let e = escape_char(c);
        assert(s == e + escape(rest));
        assert(s.subrange(e.len() as int, s.len() as int) =~= escape(rest));
        assert(s[0] == e[0]);
        if e.len() == 2 {
            assert(s[1] == e[1]);
        }
        assert(decode_step(s) == e.len());
        assert(decode_char(s) == c);
        assert(!(s[0] == '\\' && s.len() == 1));
        assert(spec_decode(s) == prefixed(seq![c], spec_decode(escape(rest))));
        assert(seq![c] + rest =~= t);
        assert(spec_decode(s) == Ok::<Seq<char>, Seq<char>>(seq![c] + rest));
    }
}

// ---------------------------------------------------------------------------
// Rendering.

/// Append `t` escaped for a double-quoted string.
#[verifier::spinoff_prover]
#[verifier::rlimit(50)]
pub(crate) fn escape_into(t: &str, out: &mut String)
    ensures
        final(out)@ == old(out)@ + escape(t@),
{
    let chars = crate::text::chars_of(t);
    let ghost start = out@;
    let mut i: usize = 0;
    while i < chars.len()
        invariant
            0 <= i <= chars.len(),
            chars@ == t@,
            out@ == start + escape(chars@.take(i as int)),
        decreases chars.len() - i,
    {
        let c = chars[i];
        if c == '"' {
            out.append("\\\"");
        } else if c == '\\' {
            out.append("\\\\");
        } else if c == '$' {
            out.append("\\$");
        } else if c == '\n' {
            out.append("\\n");
        } else if c == '\r' {
            out.append("\\r");
        } else if c == '\t' {
            out.append("\\t");
        } else {
            push_char(out, c);
        }
        proof {
            reveal_strlit("\\\"");
            reveal_strlit("\\\\");
            reveal_strlit("\\$");
            reveal_strlit("\\n");
            reveal_strlit("\\r");
            reveal_strlit("\\t");
            assert(chars@.take(i + 1).drop_last() =~= chars@.take(i as int));
            assert(out@ =~= start + escape(chars@.take(i + 1)));
        }
        i += 1;
    }
    assert(chars@.take(chars@.len() as int) =~= chars@);
}

/// Append an attribute name, quoting it unless it is bare in both dialects
/// (and, in nxc, other than `yield`).
pub(crate) fn attribute_into(name: &str, native: bool, out: &mut String)
    ensures
        final(out)@ == old(out)@ + attribute(name@, native),
{
    if validate_bare_attr_name(name).is_ok() && (native || !text_eq(name, "yield")) {
        out.append(name);
    } else {
        let ghost start = out@;
        push_char(out, '"');
        escape_into(name, out);
        push_char(out, '"');
        assert(out@ =~= start + attribute(name@, native));
    }
}

fn name_into(name: &str, native: bool, out: &mut String)
    ensures
        final(out)@ == old(out)@ + name_text(name@, native),
{
    if native {
        out.append(name);
    } else {
        out.append(encode(name));
    }
}

/// Append the rendering of `e` in the chosen dialect.
#[verifier::rlimit(100)]
#[verifier::spinoff_prover]
pub(crate) fn render_into(e: &Expr, native: bool, out: &mut String)
    ensures
        final(out)@ == old(out)@ + render(*e, native),
    decreases e, 1int,
{
    let ghost start = out@;
    match e {
        Expr::Integer(v) => {
            let s = decimal(*v);
            out.append(s.as_str());
        },
        Expr::Float(_) => {
            assert(out@ =~= start + render(*e, native));
        },
        Expr::Variable(n) => name_into(n.as_str(), native, out),
        Expr::CurrentPosition => out.append("__curPos"),
        Expr::RelativePath(p) => out.append(p.as_str()),
        Expr::AbsolutePath(p) => out.append(p.as_str()),
        Expr::HomePath(p) => out.append(p.as_str()),
        Expr::SearchPath(p) => out.append(p.as_str()),
        Expr::InterpolatedPath(parts) => parts_into(parts, false, native, out),
        Expr::String(parts) => {
            push_char(out, '"');
            parts_into(parts, true, native, out);
            push_char(out, '"');
            assert(out@ =~= start + render(*e, native));
        },
        Expr::List(items) => {
            push_char(out, '[');
            items_into(items, native, out);
            push_char(out, ']');
            assert(out@ =~= start + render(*e, native));
        },
        Expr::AttrSet { recursive, bindings } => {
            if *recursive {
                out.append("rec {");
            } else {
                push_char(out, '{');
            }
            bindings_into(bindings, native, out);
            out.append(" }");
            assert(out@ =~= start + render(*e, native));
        },
        Expr::Let { bindings, body } => {
            if native {
                out.append("(let");
                bindings_into(bindings, native, out);
                out.append(" in ");
                render_into(body, native, out);
                push_char(out, ')');
            } else {
                out.append("let {");
                bindings_into(bindings, native, out);
                out.append(" yield ");
                render_into(body, native, out);
                out.append("; }");
            }
            assert(out@ =~= start + render(*e, native));
        },
        Expr::With { scope, body } => {
            if native {
                out.append("(with ");
                render_into(scope, native, out);
                out.append("; ");
            } else {
                out.append("with(");
                render_into(scope, native, out);
                out.append(", ");
            }
            render_into(body, native, out);
            push_char(out, ')');
            assert(out@ =~= start + render(*e, native));
        },
        Expr::Assert { condition, body } => {
            if native {
                out.append("(assert ");
                render_into(condition, native, out);
                out.append("; ");
            } else {
                out.append("assert(");
                render_into(condition, native, out);
                out.append(", ");
            }
            render_into(body, native, out);
            push_char(out, ')');
            assert(out@ =~= start + render(*e, native));
        },
        Expr::If { condition, then_branch, else_branch } => {
            out.append("(if ");
            render_into(condition, native, out);
            out.append(" then ");
            render_into(then_branch, native, out);
            out.append(" else ");
            render_into(else_branch, native, out);
            push_char(out, ')');
            assert(out@ =~= start + render(*e, native));
        },
        Expr::Select { value, path, default } => {
            out.append("((");
            render_into(value, native, out);
            out.append(").");
            keys_into(path, native, out);
            let ghost mid = out@;
            match default {
                Some(d) => {
                    out.append(" or (");
                    render_into(d, native, out);
                    push_char(out, ')');
                },
                None => {},
            }
            push_char(out, ')');
            assert(out@ =~= start + render(*e, native));
        },
        Expr::HasAttr { value, path } => {
            out.append("((");
            render_into(value, native, out);
            out.append(") ? ");
            keys_into(path, native, out);
            push_char(out, ')');
            assert(out@ =~= start + render(*e, native));
        },
        Expr::Lambda { parameter, body } => {
            push_char(out, '(');
            if native {
                pattern_into(parameter, native, out);
                out.append(": ");
            } else {
                match parameter {
                    Pattern::Ident(_) => pattern_into(parameter, native, out),
                    Pattern::AttrSet { .. } => {
                        push_char(out, '(');
                        pattern_into(parameter, native, out);
                        push_char(out, ')');
                    },
                }
                out.append(" => ");
            }
            render_into(body, native, out);
            push_char(out, ')');
            assert(out@ =~= start + render(*e, native));
        },
        Expr::Apply { function, argument } => {
            if native {
                push_char(out, '(');
                render_into(function, native, out);
                push_char(out, ' ');
                render_into(argument, native, out);
                push_char(out, ')');
            } else {
                call_open_into(e, out);
                push_char(out, ')');
            }
            assert(out@ =~= start + render(*e, native));
        },
        Expr::Negate(v) => {
            out.append("(-");
            render_into(v, native, out);
            push_char(out, ')');
            assert(out@ =~= start + render(*e, native));
        },
        Expr::Not(v) => {
            out.append("(!");
            render_into(v, native, out);
            push_char(out, ')');
            assert(out@ =~= start + render(*e, native));
        },
        Expr::Binary { op, left, right } => {
            let update = match op {
                BinaryOp::Update => true,
                _ => false,
            };
            if !native && update {
                out.append("__nxc_update(");
                render_into(left, native, out);
                out.append(", ");
                render_into(right, native, out);
                push_char(out, ')');
            } else {
                push_char(out, '(');
                render_into(left, native, out);
                push_char(out, ' ');
                out.append(op.spelling());
                push_char(out, ' ');
                render_into(right, native, out);
                push_char(out, ')');
            }
            assert(out@ =~= start + render(*e, native));
        },
    }
}

#[verifier::spinoff_prover]
#[verifier::rlimit(50)]
fn call_open_into(e: &Expr, out: &mut String)
    ensures
        final(out)@ == old(out)@ + call_open(*e),
    decreases e, 0int,
{
    let ghost start = out@;
    match e {
        Expr::Apply { function, argument } => {
            match &**function {
                Expr::Apply { .. } => {
                    call_open_into(function, out);
                    out.append(", ");
                },
                _ => {
                    render_into(function, false, out);
                    push_char(out, '(');
                },
            }
            render_into(argument, false, out);
            assert(out@ =~= start + call_open(*e));
        },
        _ => {
            assert(out@ =~= start + call_open(*e));
        },
    }
}

#[verifier::spinoff_prover]
#[verifier::rlimit(50)]
fn parts_into(parts: &Vec<StringPart>, quoted: bool, native: bool, out: &mut String)
    ensures
        final(out)@ == old(out)@ + parts_text(parts@, parts@.len() as int, quoted, native),
    decreases parts, 0int,
{
    let ghost start = out@;
    let mut i: usize = 0;
    while i < parts.len()
        invariant
            0 <= i <= parts.len(),
            out@ == start + parts_text(parts@, i as int, quoted, native),
        decreases parts.len() - i,
    {
        let ghost before = out@;
        match &parts[i] {
            StringPart::Literal(t) => {
                if quoted {
                    escape_into(t.as_str(), out);
                } else {
                    out.append(t.as_str());
                }
            },
            StringPart::Interpolation(v) => {
                out.append("${");
                render_into(v, native, out);
                push_char(out, '}');
            },
        }
        assert(out@ =~= start + parts_text(parts@, i + 1, quoted, native));
        i += 1;
    }
}

#[verifier::spinoff_prover]
#[verifier::rlimit(50)]
fn items_into(items: &Vec<Expr>, native: bool, out: &mut String)
    ensures
        final(out)@ == old(out)@ + items_text(items@, items@.len() as int, native),
    decreases items, 0int,
{
    let ghost start = out@;
    let mut i: usize = 0;
    while i < items.len()
        invariant
            0 <= i <= items.len(),
            out@ == start + items_text(items@, i as int, native),
        decreases items.len() - i,
    {
        if i > 0 {
            if native {
                push_char(out, ' ');
            } else {
                out.append(", ");
            }
        }
        render_into(&items[i], native, out);
        assert(out@ =~= start + items_text(items@, i + 1, native));
        i += 1;
    }
}

#[verifier::spinoff_prover]
#[verifier::rlimit(50)]
fn bindings_into(bindings: &Vec<Binding>, native: bool, out: &mut String)
    ensures
        final(out)@ == old(out)@ + bindings_text(bindings@, bindings@.len() as int, native),
    decreases bindings, 0int,
{
    let ghost start = out@;
    let mut i: usize = 0;
    while i < bindings.len()
        invariant
            0 <= i <= bindings.len(),
            out@ == start + bindings_text(bindings@, i as int, native),
        decreases bindings.len() - i,
    {
        push_char(out, ' ');
        binding_into(&bindings[i], native, out);
        assert(out@ =~= start + bindings_text(bindings@, i + 1, native));
        i += 1;
    }
}

#[verifier::spinoff_prover]
#[verifier::rlimit(50)]
fn binding_into(b: &Binding, native: bool, out: &mut String)
    ensures
        final(out)@ == old(out)@ + binding_text(*b, native),
    decreases b, 1int,
{
    let ghost start = out@;
    match b {
        Binding::Assign { path, value } => {
            keys_into(path, native, out);
            out.append(" = ");
            render_into(value, native, out);
            push_char(out, ';');
        },
        Binding::Inherit { source, names } => {
            out.append("inherit");
            match source {
                Some(v) => {
                    out.append(" (");
                    render_into(v, native, out);
                    push_char(out, ')');
                },
                None => {},
            }
            let ghost mid = out@;
            let mut i: usize = 0;
            while i < names.len()
                invariant
                    0 <= i <= names.len(),
                    out@ == mid + names_text(names@, i as int, native),
                decreases names.len() - i,
            {
                push_char(out, ' ');
                attribute_into(names[i].as_str(), native, out);
                assert(out@ =~= mid + names_text(names@, i + 1, native));
                i += 1;
            }
            push_char(out, ';');
        },
    }
    assert(out@ =~= start + binding_text(*b, native));
}

#[verifier::spinoff_prover]
#[verifier::rlimit(50)]
fn keys_into(path: &Vec<AttrName>, native: bool, out: &mut String)
    ensures
        final(out)@ == old(out)@ + keys_text(path@, path@.len() as int, native),
    decreases path, 0int,
{
    let ghost start = out@;
    let mut i: usize = 0;
    while i < path.len()
        invariant
            0 <= i <= path.len(),
            out@ == start + keys_text(path@, i as int, native),
        decreases path.len() - i,
    {
        if i > 0 {
            push_char(out, '.');
        }
        let ghost before = out@;
        match &path[i] {
            AttrName::Static(n) => attribute_into(n.as_str(), native, out),
            AttrName::Dynamic(v) => {
                out.append("${");
                render_into(v, native, out);
                push_char(out, '}');
            },
        }
        assert(out@ =~= before + key_text(path@[i as int], native));
        assert(out@ =~= start + keys_text(path@, i + 1, native));
        i += 1;
    }
}

#[verifier::spinoff_prover]
#[verifier::rlimit(50)]
fn pattern_into(p: &Pattern, native: bool, out: &mut String)
    ensures
        final(out)@ == old(out)@ + pattern_text(*p, native),
    decreases p, 1int,
{
    let ghost start = out@;
    match p {
        Pattern::Ident(n) => name_into(n.as_str(), native, out),
        Pattern::AttrSet { fields, ellipsis, bind } => {
            out.append("{ ");
            formals_into(fields, native, out);
            if *ellipsis {
                if fields.len() > 0 {
                    out.append(", ...");
                } else {
                    out.append("...");
                }
            }
            out.append(" }");
            match bind {
                Some(b) => {
                    push_char(out, '@');
                    name_into(b.as_str(), native, out);
                },
                None => {},
            }
            assert(out@ =~= start + pattern_text(*p, native));
        },
    }
}

#[verifier::spinoff_prover]
#[verifier::rlimit(50)]
fn formals_into(fields: &Vec<Formal>, native: bool, out: &mut String)
    ensures
        final(out)@ == old(out)@ + formals_text(fields@, fields@.len() as int, native),
    decreases fields, 0int,
{
    let ghost start = out@;
    let mut i: usize = 0;
    while i < fields.len()
        invariant
            0 <= i <= fields.len(),
            out@ == start + formals_text(fields@, i as int, native),
        decreases fields.len() - i,
    {
        if i > 0 {
            out.append(", ");
        }
        let ghost before = out@;
        let f = &fields[i];
        name_into(f.name.as_str(), native, out);
        match &f.default {
            Some(d) => {
                out.append(" ? ");
                render_into(d, native, out);
            },
            None => {},
        }
        assert(out@ =~= before + formal_text(fields@[i as int], native));
        assert(out@ =~= start + formals_text(fields@, i + 1, native));
        i += 1;
    }
}

/// The rendering of `e` in the chosen dialect.
pub(crate) fn render_text(e: &Expr, native: bool) -> (s: String)
    ensures
        s@ == render(*e, native),
{
    let mut out = String::new();
    render_into(e, native, &mut out);
    assert(out@ =~= render(*e, native));
    out
}

} // verus!
