//! Checks on native source before it is parsed: the byte budget, the
//! significant-token budget, delimiter nesting, and two lexical differences
//! between rnix and Nix.
use vstd::prelude::*;

use super::native::{
    native_tokens, texts_view, tokenize, TOKEN_COMMENT, TOKEN_INTERPOL_END, TOKEN_INTERPOL_START,
    TOKEN_L_BRACE, TOKEN_L_BRACK, TOKEN_L_PAREN, TOKEN_R_BRACE, TOKEN_R_BRACK, TOKEN_R_PAREN,
    TOKEN_STRING_END, TOKEN_STRING_START, TOKEN_WHITESPACE, TOKEN_SEMICOLON, TOKEN_SUB,
    TOKEN_INVERT, TOKEN_CONCAT, TOKEN_UPDATE, TOKEN_IMPLICATION, TOKEN_PIPE_LEFT,
};
use crate::ir::validate::byte_len;
use crate::limits::{exceeded, exceeded_message, Limits};
use crate::text::chars_of;
use crate::{Diagnostic, MAX_DEPTH};
use vstd::string::StringSliceAdditionalSpecFns;

verus! {

pub open spec fn native_opening(k: u16) -> bool {
    k == TOKEN_L_PAREN || k == TOKEN_L_BRACE || k == TOKEN_L_BRACK || k == TOKEN_STRING_START || k
        == TOKEN_INTERPOL_START
}

pub open spec fn native_closing(k: u16) -> bool {
    k == TOKEN_R_PAREN || k == TOKEN_R_BRACE || k == TOKEN_R_BRACK || k == TOKEN_STRING_END || k
        == TOKEN_INTERPOL_END
}

pub open spec fn native_trivia(k: u16) -> bool {
    k == TOKEN_COMMENT || k == TOKEN_WHITESPACE
}

/// Significant native tokens among the first `n`.
pub open spec fn native_count(t: Seq<(u16, Seq<char>)>, n: int) -> nat
    decreases n,
{
    if n <= 0 || n > t.len() {
        0
    } else {
        native_count(t, n - 1) + if native_trivia(t[n - 1].0) {
            0nat
        } else {
            1nat
        }
    }
}

/// Delimiter nesting after the first `n` native tokens.
pub open spec fn native_depth(t: Seq<(u16, Seq<char>)>, n: int) -> nat
    decreases n,
{
    if n <= 0 || n > t.len() {
        0
    } else {
        let d = native_depth(t, n - 1);
        if native_trivia(t[n - 1].0) {
            d
        } else if native_opening(t[n - 1].0) {
            d + 1
        } else if native_closing(t[n - 1].0) {
            if d == 0 {
                0
            } else {
                (d - 1) as nat
            }
        } else {
            d
        }
    }
}

/// Whether the significant-token count and the nesting stay within budget
/// over the first `n` tokens.
pub open spec fn native_within(t: Seq<(u16, Seq<char>)>, n: int, tokens: nat) -> bool {
    native_count(t, n) <= tokens && forall|k: int|
        0 <= k <= n ==> #[trigger] native_depth(t, k) <= MAX_DEPTH
}

/// Nix accepts only space, tab, CR and LF as whitespace; rnix accepts more.
pub open spec fn ascii_whitespace(s: Seq<char>) -> bool {
    forall|i: int|
        0 <= i < s.len() ==> (#[trigger] s[i] == ' ' || s[i] == '\t' || s[i] == '\r' || s[i]
            == '\n')
}

/// Every whitespace token among the first `n` is ASCII whitespace.
pub open spec fn whitespace_ok(t: Seq<(u16, Seq<char>)>, n: int) -> bool {
    forall|i: int|
        0 <= i < n && #[trigger] t[i].0 == TOKEN_WHITESPACE ==> ascii_whitespace(t[i].1)
}

/// A `#` comment holding a carriage return that no line feed follows: one
/// before its last character, or a last one that the next token's text does
/// not continue with a line feed.
pub open spec fn bare_cr_comment(text: Seq<char>, next: Option<Seq<char>>) -> bool {
    &&& text.len() > 0
    &&& text[0] == '#'
    &&& (exists|i: int| 0 <= i < text.len() - 1 && #[trigger] text[i] == '\r') || (text.last()
        == '\r' && !(next matches Some(n) && n.len() > 0 && n[0] == '\n'))
}

/// The text of the token after the `i`th, if there is one.
pub open spec fn next_text(t: Seq<(u16, Seq<char>)>, i: int) -> Option<Seq<char>> {
    if i + 1 < t.len() {
        Some(t[i + 1].1)
    } else {
        None
    }
}

/// No comment among the first `n` tokens is a bare-CR `#` comment.
pub open spec fn comments_ok(t: Seq<(u16, Seq<char>)>, n: int) -> bool {
    forall|i: int|
        0 <= i < n && #[trigger] t[i].0 == TOKEN_COMMENT ==> !bare_cr_comment(t[i].1, next_text(t, i))
}

/// The significant-token count never falls as tokens are added.
proof fn lemma_count_grows(t: Seq<(u16, Seq<char>)>, m: int, n: int)
    requires
        0 <= m <= n <= t.len(),
    ensures
        native_count(t, m) <= native_count(t, n),
    decreases n - m,
{
    if m < n {
        lemma_count_grows(t, m, n - 1);
    }
}

/// Tokens that rnix's parser answers with one more level of recursion
/// while a chain goes on: prefix `-` and `!`, and the right-associative
/// `++`, `//`, `->` and `<|` (binary `-` is counted too, conservatively).
pub open spec fn chain_prone(k: u16) -> bool {
    k == TOKEN_SUB || k == TOKEN_INVERT || k == TOKEN_CONCAT || k == TOKEN_UPDATE || k
        == TOKEN_IMPLICATION || k == TOKEN_PIPE_LEFT
}

/// After the first `n` native tokens, for each open delimiter level (the
/// outermost first), the number of chain-prone tokens since the level was
/// opened or since its last `;`. An operand of an operator chain holds a
/// `;` only inside delimiters, so a chain never spans one.
pub open spec fn chain_stack(t: Seq<(u16, Seq<char>)>, n: int) -> Seq<int>
    decreases n,
{
    if n <= 0 || n > t.len() {
        seq![0int]
    } else {
        let s = chain_stack(t, n - 1);
        let k = t[n - 1].0;
        if native_trivia(k) {
            s
        } else if native_opening(k) {
            s.push(0)
        } else if native_closing(k) {
            if s.len() > 1 {
                s.drop_last()
            } else {
                s
            }
        } else if k == TOKEN_SEMICOLON {
            s.update(s.len() - 1, 0)
        } else if chain_prone(k) {
            s.update(s.len() - 1, s.last() + 1)
        } else {
            s
        }
    }
}

/// No operator chain among the first `n` tokens is longer than `MAX_DEPTH`.
pub open spec fn chains_ok(t: Seq<(u16, Seq<char>)>, n: int) -> bool {
    forall|k: int| 0 <= k <= n ==> #[trigger] chain_stack(t, k).last() <= MAX_DEPTH
}

/// Native tokens that every other rule accepts but whose operator chains
/// are longer than the nesting limit.
pub open spec fn chain_overflow(t: Seq<(u16, Seq<char>)>, tokens: nat) -> bool {
    &&& whitespace_ok(t, t.len() as int)
    &&& comments_ok(t, t.len() as int)
    &&& native_within(t, t.len() as int, tokens)
    &&& !chains_ok(t, t.len() as int)
}

/// Native tokens that Nix's lexical rules and the nesting limit accept but
/// that exceed the token budget.
pub open spec fn tokens_overflow(t: Seq<(u16, Seq<char>)>, tokens: nat) -> bool {
    &&& whitespace_ok(t, t.len() as int)
    &&& comments_ok(t, t.len() as int)
    &&& forall|k: int| 0 <= k <= t.len() ==> #[trigger] native_depth(t, k) <= MAX_DEPTH
    &&& chains_ok(t, t.len() as int)
    &&& native_count(t, t.len() as int) > tokens
}

/// Native tokens that Nix's lexical rules and the token budget accept but
/// that nest deeper than the limit.
pub open spec fn depth_overflow(t: Seq<(u16, Seq<char>)>, tokens: nat) -> bool {
    &&& whitespace_ok(t, t.len() as int)
    &&& comments_ok(t, t.len() as int)
    &&& native_count(t, t.len() as int) <= tokens
    &&& chains_ok(t, t.len() as int)
    &&& !(forall|k: int| 0 <= k <= t.len() ==> #[trigger] native_depth(t, k) <= MAX_DEPTH)
}

/// Native source that passes Nix's lexical rules but exceeds the token
/// budget or the nesting limit (not both).
pub open spec fn overflowing(text: Seq<char>, limits: Limits) -> bool {
    tokens_overflow(native_tokens(text), limits.spec_tokens() as nat) || depth_overflow(
        native_tokens(text),
        limits.spec_tokens() as nat,
    ) || chain_overflow(native_tokens(text), limits.spec_tokens() as nat)
}

/// The budget message of overflowing native source.
pub open spec fn overflow_message(text: Seq<char>, limits: Limits) -> Seq<char> {
    if tokens_overflow(native_tokens(text), limits.spec_tokens() as nat) {
        exceeded_message("source token"@, limits.spec_tokens() + 1, limits.spec_tokens() as int)
    } else if depth_overflow(native_tokens(text), limits.spec_tokens() as nat) {
        exceeded_message("delimiter depth"@, MAX_DEPTH + 1, MAX_DEPTH as int)
    } else {
        exceeded_message("semantic depth"@, MAX_DEPTH + 1, MAX_DEPTH as int)
    }
}

/// Native source within the budgets and Nix's lexical rules: its bytes, and
/// the significant tokens, nesting, whitespace and comments of its rnix
/// tokens.
pub open spec fn native_source_ok(text: Seq<char>, limits: Limits) -> bool {
    let t = native_tokens(text);
    &&& byte_len(text) <= limits.spec_source_bytes()
    &&& native_within(t, t.len() as int, limits.spec_tokens() as nat)
    &&& whitespace_ok(t, t.len() as int)
    &&& comments_ok(t, t.len() as int)
    &&& chains_ok(t, t.len() as int)
}

/// A budget diagnostic over the whole source.
fn budget_error(kind: &str, observed: usize, limit: usize, source_len: usize) -> (e: Diagnostic)
    ensures
        e.message@ == exceeded_message(kind@, observed as int, limit as int),
        e.span.start == 0 && e.span.end == source_len,
{
    let mut e = exceeded(kind, observed, limit);
    e.span = core::ops::Range { start: 0, end: source_len };
    e
}

/// The first character of a whitespace token that Nix does not accept.
fn foreign_whitespace(text: &str) -> (r: Option<(usize, char)>)
    ensures
        r is None <==> ascii_whitespace(text@),
{
    let chars = chars_of(text);
    let mut i: usize = 0;
    while i < chars.len()
        invariant
            chars@ == text@,
            i <= chars@.len(),
            forall|k: int|
                0 <= k < i ==> (#[trigger] chars@[k] == ' ' || chars@[k] == '\t' || chars@[k]
                    == '\r' || chars@[k] == '\n'),
        decreases chars@.len() - i,
    {
        let c = chars[i];
        if !(c == ' ' || c == '\t' || c == '\r' || c == '\n') {
            return Some((i, c));
        }
        i += 1;
    }
    None
}

/// The number of bytes that UTF-8 spends on a character.
fn utf8_width(c: char) -> (r: usize)
    ensures
        1 <= r <= 4,
{
    let v = c as u32;
    if v < 0x80 {
        1
    } else if v < 0x800 {
        2
    } else if v < 0x10000 {
        3
    } else {
        4
    }
}

/// The byte offset of the first carriage return in a text (its length when
/// there is none).
fn first_cr(text: &str) -> (r: usize)
    ensures
        r <= text.spec_bytes().len(),
        r < text.spec_bytes().len() ==> text.spec_bytes()[r as int] == 13,
        forall|k: int| 0 <= k < r ==> text.spec_bytes()[k] != 13,
{
    let b = text.as_bytes();
    let mut i: usize = 0;
    while i < b.len()
        invariant
            b@ == text.spec_bytes(),
            i <= b@.len(),
            forall|k: int| 0 <= k < i ==> b@[k] != 13,
        decreases b@.len() - i,
    {
        if b[i] == 13 {
            return i;
        }
        i += 1;
    }
    i
}

/// Whether a `#` comment holds a carriage return that no line feed follows.
fn bare_cr(text: &str, next: Option<&str>) -> (r: bool)
    ensures
        r == bare_cr_comment(
            text@,
            match next {
                Some(n) => Some(n@),
                None => None,
            },
        ),
{
    let chars = chars_of(text);
    if chars.len() == 0 || chars[0] != '#' {
        return false;
    }
    let mut i: usize = 0;
    while i < chars.len()
        invariant
            i <= chars@.len(),
            chars@ == text@,
            chars@.len() > 0,
            chars@[0] == '#',
            forall|k: int| 0 <= k < i ==> #[trigger] chars@[k] != '\r',
        decreases chars@.len() - i,
    {
        if chars[i] == '\r' {
            if i + 1 < chars.len() {
                assert(text@[i as int] == '\r');
                return true;
            }
            return match next {
                Some(t) => {
                    let n = chars_of(t);
                    n.len() == 0 || n[0] != '\n'
                },
                None => true,
            };
        }
        i += 1;
    }
    false
}

/// Check native tokens against the budgets and Nix's lexical rules.
pub(crate) fn check_tokens(tokens: &Vec<(u16, String)>, limits: Limits, source_len: usize) -> (r: Result<
    (),
    Diagnostic,
>)
    ensures
        r is Ok <==> {
            let t = texts_view(tokens@);
            &&& native_within(t, t.len() as int, limits.spec_tokens() as nat)
            &&& whitespace_ok(t, t.len() as int)
            &&& comments_ok(t, t.len() as int)
            &&& chains_ok(t, t.len() as int)
        },
        chain_overflow(texts_view(tokens@), limits.spec_tokens() as nat) ==> (r matches Err(d)
            && d.message@ == exceeded_message(
            "semantic depth"@,
            MAX_DEPTH + 1,
            MAX_DEPTH as int,
        ) && d.span.start == 0 && d.span.end == source_len),
        tokens_overflow(texts_view(tokens@), limits.spec_tokens() as nat) ==> (r matches Err(d)
            && d.message@ == exceeded_message(
            "source token"@,
            limits.spec_tokens() + 1,
            limits.spec_tokens() as int,
        ) && d.span.start == 0 && d.span.end == source_len),
        depth_overflow(texts_view(tokens@), limits.spec_tokens() as nat) ==> (r matches Err(d)
            && d.message@ == exceeded_message(
            "delimiter depth"@,
            MAX_DEPTH + 1,
            MAX_DEPTH as int,
        ) && d.span.start == 0 && d.span.end == source_len),
{
    let ghost t = texts_view(tokens@);
    let budget = limits.tokens();
    let mut count: usize = 0;
    let mut depth: usize = 0;
    let mut chains: Vec<usize> = Vec::new();
    chains.push(0);
    let mut offset: usize = 0;
    let mut i: usize = 0;
    while i < tokens.len()
        invariant
            i <= tokens@.len(),
            texts_view(tokens@) == t,
            t.len() == tokens@.len(),
            budget == limits.spec_tokens(),
            budget <= crate::MAX_TOKENS,
            count == native_count(t, i as int),
            depth == native_depth(t, i as int),
            native_within(t, i as int, budget as nat),
            whitespace_ok(t, i as int),
            comments_ok(t, i as int),
            count <= budget,
            depth <= MAX_DEPTH,
            chains@.len() == depth + 1,
            chains@.len() == chain_stack(t, i as int).len(),
            forall|j: int| 0 <= j < chains@.len() ==> #[trigger] chains@[j] == chain_stack(t, i as int)[j],
            chains_ok(t, i as int),
            forall|j: int| 0 <= j < chains@.len() ==> #[trigger] chains@[j] <= MAX_DEPTH,
        decreases tokens@.len() - i,
    {
        let kind = tokens[i].0;
        let text = tokens[i].1.as_str();
        assert(t[i as int] == (kind, text@));
        let start = offset;
        offset = offset.saturating_add(text.len());
        if kind == TOKEN_WHITESPACE {
            match foreign_whitespace(text) {
                Some((k, c)) => {
                    assert(!whitespace_ok(t, t.len() as int)) by {
                        assert(t[i as int].0 == TOKEN_WHITESPACE);
                    }
                    let at = start.saturating_add(k);
                    return Err(
                        Diagnostic::new(
                            at,
                            at.saturating_add(utf8_width(c)),
                            "whitespace is not accepted by native Nix",
                        ),
                    );
                },
                None => {},
            }
        } else if kind == TOKEN_COMMENT {
            let next = if i + 1 < tokens.len() {
                Some(tokens[i + 1].1.as_str())
            } else {
                None
            };
            if i + 1 < tokens.len() {
                assert(t[i + 1] == (tokens@[i + 1].0, tokens@[i + 1].1@));
            }
            if bare_cr(text, next) {
                assert(!comments_ok(t, t.len() as int)) by {
                    assert(t[i as int].0 == TOKEN_COMMENT);
                }
                let at = start.saturating_add(first_cr(text));
                return Err(
                    Diagnostic::new(
                        at,
                        at.saturating_add(1),
                        "bare-CR native line comments are not supported; use LF or CRLF line endings",
                    ),
                );
            }
        } else {
            if count >= budget {
                proof {
                    assert(native_count(t, i + 1) == count + 1);
                    lemma_count_grows(t, i + 1, t.len() as int);
                }
                return Err(budget_error("source token", count.saturating_add(1), budget, source_len));
            }
            count += 1;
            if kind == TOKEN_L_PAREN || kind == TOKEN_L_BRACE || kind == TOKEN_L_BRACK || kind
                == TOKEN_STRING_START || kind == TOKEN_INTERPOL_START {
                if depth >= MAX_DEPTH {
                    assert(native_depth(t, i + 1) > MAX_DEPTH);
                    return Err(budget_error("delimiter depth", depth + 1, MAX_DEPTH, source_len));
                }
                depth += 1;
                chains.push(0);
            } else if kind == TOKEN_R_PAREN || kind == TOKEN_R_BRACE || kind == TOKEN_R_BRACK
                || kind == TOKEN_STRING_END || kind == TOKEN_INTERPOL_END {
                if depth > 0 {
                    depth -= 1;
                    chains.pop();
                }
            } else if kind == TOKEN_SEMICOLON {
                let top = chains.len() - 1;
                chains.set(top, 0);
            } else if kind == TOKEN_SUB || kind == TOKEN_INVERT || kind == TOKEN_CONCAT || kind
                == TOKEN_UPDATE || kind == TOKEN_IMPLICATION || kind == TOKEN_PIPE_LEFT {
                let top = chains.len() - 1;
                if chains[top] >= MAX_DEPTH {
                    assert(chain_stack(t, i + 1).last() > MAX_DEPTH);
                    return Err(budget_error("semantic depth", MAX_DEPTH + 1, MAX_DEPTH, source_len));
                }
                let c = chains[top] + 1;
                chains.set(top, c);
            }
        }
        assert(chains@.len() == chain_stack(t, i + 1).len());
        assert forall|j: int| 0 <= j < chains@.len() implies #[trigger] chains@[j] == chain_stack(
            t,
            i + 1,
        )[j] by {}
        assert forall|k: int| 0 <= k <= i + 1 implies #[trigger] chain_stack(t, k).last()
            <= MAX_DEPTH by {
            if k <= i {
                assert(chains_ok(t, i as int));
            } else {
                assert(chains@[chains@.len() - 1] == chain_stack(t, i + 1)[chains@.len() - 1]);
            }
        }
        assert forall|k: int| 0 <= k <= i + 1 implies #[trigger] native_depth(t, k) <= MAX_DEPTH by {
            if k <= i {
                assert(native_within(t, i as int, budget as nat));
                assert(native_depth(t, k) <= MAX_DEPTH);
            }
        }
        i += 1;
    }
    Ok(())
}

/// Check native source against the budgets and Nix's lexical rules before
/// parsing it: its bytes, then its tokens as rnix forms them.
pub(crate) fn check_source(source: &str, limits: Limits) -> (r: Result<(), Diagnostic>)
    ensures
        r is Ok <==> native_source_ok(source@, limits),
        source.spec_bytes().len() > limits.spec_source_bytes() ==> (r matches Err(d) && d.message@
            == exceeded_message(
            "source byte"@,
            source.spec_bytes().len() as int,
            limits.spec_source_bytes() as int,
        )),
        source.spec_bytes().len() <= limits.spec_source_bytes() && overflowing(source@, limits)
            ==> (r matches Err(d) && d.message@ == overflow_message(source@, limits)),
{
    let bytes = source.as_bytes();
    match limits.check_source_bytes(bytes.len()) {
        Ok(()) => {},
        Err(e) => {
            return Err(e);
        },
    }
    let tokens = tokenize(source);
    check_tokens(&tokens, limits, bytes.len())
}


/// The text with every space turned into a tab.
pub open spec fn tabs_for_spaces(s: Seq<char>) -> Seq<char> {
    s.map_values(|c: char| if c == ' ' { '\t' } else { c })
}

/// The tokens with the spaces of every whitespace token turned into tabs.
pub open spec fn tab_indented(t: Seq<(u16, Seq<char>)>) -> Seq<(u16, Seq<char>)> {
    t.map_values(
        |x: (u16, Seq<char>)|
            if x.0 == TOKEN_WHITESPACE {
                (x.0, tabs_for_spaces(x.1))
            } else {
                x
            },
    )
}

/// Tabs and spaces are interchangeable in native whitespace: turning the
/// spaces of whitespace into tabs never changes whether it is accepted, so
/// tab-indented source passes exactly where its space-indented form does.
pub proof fn lemma_tabs_indent_like_spaces(t: Seq<(u16, Seq<char>)>, n: int)
    requires
        0 <= n <= t.len(),
    ensures
        forall|s: Seq<char>| #[trigger] ascii_whitespace(tabs_for_spaces(s)) == ascii_whitespace(s),
        whitespace_ok(tab_indented(t), n) == whitespace_ok(t, n),
{
    assert forall|s: Seq<char>| #[trigger] ascii_whitespace(tabs_for_spaces(s)) == ascii_whitespace(
        s,
    ) by {
        let u = tabs_for_spaces(s);
        if ascii_whitespace(s) {
            assert forall|i: int| 0 <= i < u.len() implies (#[trigger] u[i] == ' ' || u[i] == '\t'
                || u[i] == '\r' || u[i] == '\n') by {
                assert(s[i] == ' ' || s[i] == '\t' || s[i] == '\r' || s[i] == '\n');
            }
        }
        if ascii_whitespace(u) {
            assert forall|i: int| 0 <= i < s.len() implies (#[trigger] s[i] == ' ' || s[i] == '\t'
                || s[i] == '\r' || s[i] == '\n') by {
                assert(u[i] == ' ' || u[i] == '\t' || u[i] == '\r' || u[i] == '\n');
            }
        }
    }
    let u = tab_indented(t);
    if whitespace_ok(t, n) {
        assert forall|i: int| 0 <= i < n && #[trigger] u[i].0 == TOKEN_WHITESPACE implies ascii_whitespace(
            u[i].1,
        ) by {
            assert(t[i].0 == TOKEN_WHITESPACE);
            assert(ascii_whitespace(t[i].1));
            assert(ascii_whitespace(tabs_for_spaces(t[i].1)));
        }
    }
    if whitespace_ok(u, n) {
        assert forall|i: int| 0 <= i < n && #[trigger] t[i].0 == TOKEN_WHITESPACE implies ascii_whitespace(
            t[i].1,
        ) by {
            assert(u[i].0 == TOKEN_WHITESPACE);
            assert(ascii_whitespace(tabs_for_spaces(t[i].1)));
        }
    }
}

} // verus!
