//! The nxc lexer. Every byte of the source belongs to exactly one token,
//! trivia and invalid text included; spans are UTF-8 byte offsets.
use vstd::prelude::*;

use super::kind::{spec_is_closing, spec_is_opening, spec_is_trivia, SyntaxKind};
use crate::ir::validate::byte_len;
use crate::limits::{exceeded_message, Limits};
use crate::text::{push_char, text_eq};
use crate::MAX_DEPTH;
use vstd::string::StringSliceAdditionalSpecFns;

verus! {

#[derive(Debug, PartialEq, Eq)]
pub struct Token {
    pub kind: SyntaxKind,
    pub span: core::ops::Range<usize>,
}

impl Clone for Token {
    fn clone(&self) -> (t: Token)
        ensures
            t == *self,
    {
        Token { kind: self.kind, span: core::ops::Range { start: self.span.start, end: self.span.end } }
    }
}

/// The tokens cover `0..n` in order, without gaps or overlaps, and none is empty.
pub open spec fn tokens_partition(t: Seq<Token>, n: nat) -> bool {
    &&& (n == 0 <==> t.len() == 0)
    &&& t.len() > 0 ==> t[0].span.start == 0 && t.last().span.end == n
    &&& forall|i: int| 0 <= i < t.len() ==> (#[trigger] t[i]).span.start < t[i].span.end
    &&& forall|i: int, j: int|
        0 <= i && j == i + 1 && j < t.len() ==> (#[trigger] t[i]).span.end == (#[trigger] t[j]).span.start
}

/// What the lexer is inside: a string, an interpolation (with the number of
/// braces opened in it), or a path after an interpolation.
pub enum Mode {
    Str { indented: bool },
    Interp { braces: usize },
    Path,
}

spec fn braces_bounded(modes: Seq<Mode>, bound: nat) -> bool {
    forall|i: int|
        0 <= i < modes.len() ==> (#[trigger] modes[i] matches Mode::Interp { braces } ==> braces
            <= bound)
}

// ---------------------------------------------------------------------------
// Byte classes.

pub open spec fn ws_byte(c: u8) -> bool {
    c == 32 || c == 9 || c == 13 || c == 10 || c == 12
}

pub open spec fn alpha_byte(c: u8) -> bool {
    (97 <= c && c <= 122) || (65 <= c && c <= 90)
}

pub open spec fn digit_byte(c: u8) -> bool {
    48 <= c && c <= 57
}

pub open spec fn ident_start_byte(c: u8) -> bool {
    alpha_byte(c) || c == 95
}

pub open spec fn ident_byte(c: u8) -> bool {
    alpha_byte(c) || digit_byte(c) || c == 95 || c == 39 || c == 45
}

/// A path component byte: letters, digits and `._+-`.
pub open spec fn path_byte(c: u8) -> bool {
    alpha_byte(c) || digit_byte(c) || c == 46 || c == 95 || c == 43 || c == 45
}

/// Which byte class a run extends over.
pub enum Class {
    Space,
    IdentTail,
    Digits,
    PathPart,
    PathText,
    LineText,
}

pub open spec fn class_byte(c: u8, class: Class) -> bool {
    match class {
        Class::Space => ws_byte(c),
        Class::IdentTail => ident_byte(c),
        Class::Digits => digit_byte(c),
        Class::PathPart => path_byte(c),
        Class::PathText => path_byte(c) || c == 47,
        Class::LineText => c != 10 && c != 13,
    }
}

/// The length of the longest run of `class` bytes from `p`.
pub open spec fn run_len(b: Seq<u8>, p: int, class: Class) -> nat
    decreases b.len() - p,
{
    if 0 <= p < b.len() && class_byte(b[p], class) {
        1 + run_len(b, p + 1, class)
    } else {
        0
    }
}

/// Byte `i` exists and is `c`.
pub open spec fn byte_is(b: Seq<u8>, i: int, c: u8) -> bool {
    0 <= i < b.len() && b[i] == c
}

fn is_ws(c: u8) -> (r: bool)
    ensures
        r == ws_byte(c),
{
    c == 32 || c == 9 || c == 13 || c == 10 || c == 12
}

fn is_alpha(c: u8) -> (r: bool)
    ensures
        r == alpha_byte(c),
{
    (97 <= c && c <= 122) || (65 <= c && c <= 90)
}

fn is_digit(c: u8) -> (r: bool)
    ensures
        r == digit_byte(c),
{
    48 <= c && c <= 57
}

fn is_ident_start(c: u8) -> (r: bool)
    ensures
        r == ident_start_byte(c),
{
    is_alpha(c) || c == 95
}

fn is_ident_char(c: u8) -> (r: bool)
    ensures
        r == ident_byte(c),
{
    is_alpha(c) || is_digit(c) || c == 95 || c == 39 || c == 45
}

fn is_path_byte(c: u8) -> (r: bool)
    ensures
        r == path_byte(c),
{
    is_alpha(c) || is_digit(c) || c == 46 || c == 95 || c == 43 || c == 45
}

fn in_class(c: u8, class: &Class) -> (r: bool)
    ensures
        r == class_byte(c, *class),
{
    match class {
        Class::Space => is_ws(c),
        Class::IdentTail => is_ident_char(c),
        Class::Digits => is_digit(c),
        Class::PathPart => is_path_byte(c),
        Class::PathText => is_path_byte(c) || c == 47,
        Class::LineText => c != 10 && c != 13,
    }
}

/// The length of the longest run of `class` bytes starting at `p`.
fn run(b: &[u8], p: usize, class: Class) -> (r: usize)
    requires
        p <= b@.len(),
        b@.len() <= usize::MAX,
    ensures
        p + r <= b@.len(),
        r == run_len(b@, p as int, class),
{
    let mut i = p;
    while i < b.len() && in_class(b[i], &class)
        invariant
            p <= i <= b@.len(),
            run_len(b@, p as int, class) == (i - p) + run_len(b@, i as int, class),
        decreases b@.len() - i,
    {
        i += 1;
    }
    i - p
}

/// Whether byte `i + k` exists and is `c`.
fn at(b: &[u8], i: usize, k: usize, c: u8) -> (r: bool)
    requires
        b@.len() <= usize::MAX,
    ensures
        r ==> i + k < b@.len(),
        r == byte_is(b@, i + k, c),
{
    i < b.len() && k < b.len() - i && b[i + k] == c
}


// ---------------------------------------------------------------------------
// Token shapes at a position, in the default mode: the length of the longest
// match of each pattern, or zero.

pub open spec fn ident_match(b: Seq<u8>, p: int) -> nat {
    if 0 <= p < b.len() && ident_start_byte(b[p]) {
        1 + run_len(b, p + 1, Class::IdentTail)
    } else {
        0
    }
}

/// The end of an optional exponent (`e` or `E`, a sign, digits) from `i`.
pub open spec fn exponent_end(b: Seq<u8>, i: int) -> int {
    if byte_is(b, i, 69) || byte_is(b, i, 101) {
        let j = if byte_is(b, i + 1, 43) || byte_is(b, i + 1, 45) {
            i + 2
        } else {
            i + 1
        };
        let k = run_len(b, j, Class::Digits);
        if k > 0 {
            j + k
        } else {
            i
        }
    } else {
        i
    }
}

/// A float: a nonzero digit, digits, a point and digits; or an optional
/// zero, a point and at least one digit; then an optional exponent.
pub open spec fn float_match(b: Seq<u8>, p: int) -> nat {
    let c = b[p];
    if 49 <= c <= 57 {
        let i = p + 1 + run_len(b, p + 1, Class::Digits);
        if !byte_is(b, i, 46) {
            0
        } else {
            (exponent_end(b, i + 1 + run_len(b, i + 1, Class::Digits)) - p) as nat
        }
    } else {
        let i = if c == 48 {
            p + 1
        } else {
            p
        };
        if !byte_is(b, i, 46) {
            0
        } else {
            let k = run_len(b, i + 1, Class::Digits);
            if k == 0 {
                0
            } else {
                (exponent_end(b, i + 1 + k) - p) as nat
            }
        }
    }
}

/// A relative or absolute path: path bytes, a slash, a path byte, then path
/// bytes and slashes; or path bytes and a slash right before `${` (flagged).
pub open spec fn path_match(b: Seq<u8>, p: int) -> (nat, bool) {
    let i = p + run_len(b, p, Class::PathPart);
    if !byte_is(b, i, 47) {
        (0, false)
    } else if i + 1 < b.len() && path_byte(b[i + 1]) {
        ((i + 2 + run_len(b, i + 2, Class::PathText) - p) as nat, false)
    } else if byte_is(b, i + 1, 36) && byte_is(b, i + 2, 123) {
        ((i + 1 - p) as nat, true)
    } else {
        (0, false)
    }
}

pub open spec fn home_match(b: Seq<u8>, p: int) -> nat {
    if b[p] == 126 && byte_is(b, p + 1, 47) {
        2 + run_len(b, p + 2, Class::PathText)
    } else {
        0
    }
}

/// The rest of a search path from `i`: components separated by slashes, then `>`.
pub open spec fn search_from(b: Seq<u8>, p: int, i: int) -> nat
    decreases b.len() - i,
{
    let k = run_len(b, i, Class::PathPart);
    if i < 0 || i > b.len() || k == 0 {
        0
    } else if byte_is(b, i + k, 62) {
        (i + k + 1 - p) as nat
    } else if byte_is(b, i + k, 47) {
        search_from(b, p, i + k + 1)
    } else {
        0
    }
}

pub open spec fn search_match(b: Seq<u8>, p: int) -> nat {
    if b[p] == 60 {
        search_from(b, p, p + 1)
    } else {
        0
    }
}

pub open spec fn punct_match(b: Seq<u8>, p: int) -> (SyntaxKind, nat) {
    let c = b[p];
    if c == 40 {
        (SyntaxKind::LParen, 1)
    } else if c == 41 {
        (SyntaxKind::RParen, 1)
    } else if c == 91 {
        (SyntaxKind::LBracket, 1)
    } else if c == 93 {
        (SyntaxKind::RBracket, 1)
    } else if c == 123 {
        (SyntaxKind::LBrace, 1)
    } else if c == 125 {
        (SyntaxKind::RBrace, 1)
    } else if c == 44 {
        (SyntaxKind::Comma, 1)
    } else if c == 59 {
        (SyntaxKind::Semicolon, 1)
    } else if c == 64 {
        (SyntaxKind::At, 1)
    } else if c == 63 {
        (SyntaxKind::Question, 1)
    } else if c == 42 {
        (SyntaxKind::Star, 1)
    } else if c == 43 {
        if byte_is(b, p + 1, 43) {
            (SyntaxKind::PlusPlus, 2)
        } else {
            (SyntaxKind::Plus, 1)
        }
    } else if c == 45 {
        (SyntaxKind::Minus, 1)
    } else if c == 47 {
        (SyntaxKind::Slash, 1)
    } else if c == 46 {
        if byte_is(b, p + 1, 46) && byte_is(b, p + 2, 46) {
            (SyntaxKind::Ellipsis, 3)
        } else {
            (SyntaxKind::Dot, 1)
        }
    } else if c == 61 {
        if byte_is(b, p + 1, 62) {
            (SyntaxKind::Arrow, 2)
        } else if byte_is(b, p + 1, 61) {
            (SyntaxKind::EqualEqual, 2)
        } else {
            (SyntaxKind::Assign, 1)
        }
    } else if c == 33 {
        if byte_is(b, p + 1, 61) {
            (SyntaxKind::NotEqual, 2)
        } else {
            (SyntaxKind::Bang, 1)
        }
    } else if c == 60 {
        if byte_is(b, p + 1, 61) {
            (SyntaxKind::LessEqual, 2)
        } else {
            (SyntaxKind::Less, 1)
        }
    } else if c == 62 {
        if byte_is(b, p + 1, 61) {
            (SyntaxKind::GreaterEqual, 2)
        } else {
            (SyntaxKind::Greater, 1)
        }
    } else if c == 38 && byte_is(b, p + 1, 38) {
        (SyntaxKind::AndAnd, 2)
    } else if c == 124 && byte_is(b, p + 1, 124) {
        (SyntaxKind::OrOr, 2)
    } else if c == 34 {
        (SyntaxKind::StringStart, 1)
    } else if c == 39 && byte_is(b, p + 1, 39) {
        (SyntaxKind::StringStart, 2)
    } else if c == 36 && byte_is(b, p + 1, 123) {
        (SyntaxKind::InterpolationStart, 2)
    } else {
        (SyntaxKind::ErrorToken, 0)
    }
}

/// The position of the first `*/` from `i`, or -1.
pub open spec fn block_end(b: Seq<u8>, i: int) -> int
    decreases b.len() - i,
{
    if i < 0 || i >= b.len() {
        -1
    } else if b[i] == 42 && byte_is(b, i + 1, 47) {
        i
    } else {
        block_end(b, i + 1)
    }
}

/// Comments: `//` and `#` to the end of the line, `/* */` blocks. An
/// unterminated block runs to the end as an error token.
pub open spec fn comment_match(b: Seq<u8>, p: int) -> (SyntaxKind, nat) {
    if b[p] == 35 {
        (SyntaxKind::LineComment, 1 + run_len(b, p + 1, Class::LineText))
    } else if b[p] != 47 {
        (SyntaxKind::Whitespace, 0)
    } else if byte_is(b, p + 1, 47) {
        (SyntaxKind::LineComment, 2 + run_len(b, p + 2, Class::LineText))
    } else if !byte_is(b, p + 1, 42) {
        (SyntaxKind::Whitespace, 0)
    } else if block_end(b, p + 2) >= 0 {
        (SyntaxKind::BlockComment, (block_end(b, p + 2) + 2 - p) as nat)
    } else {
        (SyntaxKind::ErrorToken, (b.len() - p) as nat)
    }
}

/// The characters of `len` bytes from `p`.
pub open spec fn word_text(b: Seq<u8>, p: int, len: nat) -> Seq<char> {
    Seq::new(len, |k: int| b[p + k] as char)
}

/// An identifier-shaped word's kind: a keyword or an identifier.
pub open spec fn word_kind_of(b: Seq<u8>, p: int, len: nat) -> SyntaxKind {
    let w = word_text(b, p, len);
    if len > 7 {
        SyntaxKind::Ident
    } else if w == "fn"@ {
        SyntaxKind::Fn
    } else if w == "rec"@ {
        SyntaxKind::Rec
    } else if w == "inherit"@ {
        SyntaxKind::Inherit
    } else if w == "or"@ {
        SyntaxKind::Or
    } else if w == "let"@ {
        SyntaxKind::Let
    } else if w == "yield"@ {
        SyntaxKind::Yield
    } else if w == "with"@ {
        SyntaxKind::With
    } else if w == "assert"@ {
        SyntaxKind::Assert
    } else if w == "if"@ {
        SyntaxKind::If
    } else if w == "then"@ {
        SyntaxKind::Then
    } else if w == "else"@ {
        SyntaxKind::Else
    } else {
        SyntaxKind::Ident
    }
}

/// Up to `budget` UTF-8 continuation bytes from `i`.
pub open spec fn continuation_len(b: Seq<u8>, i: int, budget: nat) -> nat
    decreases budget,
{
    if budget > 0 && 0 <= i < b.len() && 128 <= b[i] < 192 {
        1 + continuation_len(b, i + 1, (budget - 1) as nat)
    } else {
        0
    }
}

/// An invalid character: a UTF-8 lead byte and its continuation bytes.
pub open spec fn error_match(b: Seq<u8>, p: int) -> nat {
    if b[p] >= 192 {
        1 + continuation_len(b, p + 1, 3)
    } else {
        1
    }
}

/// The default-mode token at `p`: the longest match among whitespace,
/// comments, words, integers, floats, paths and punctuation, the earlier
/// pattern winning a tie; a byte that starts none is an error token.
pub open spec fn default_match(b: Seq<u8>, p: int) -> (SyntaxKind, nat) {
    let ws = run_len(b, p, Class::Space);
    let (k1, l1) = if ws > 0 {
        (SyntaxKind::Whitespace, ws)
    } else {
        (SyntaxKind::ErrorToken, 0nat)
    };
    let (ck, cl) = comment_match(b, p);
    let (k2, l2) = if cl > l1 {
        (ck, cl)
    } else {
        (k1, l1)
    };
    let il = ident_match(b, p);
    let (k3, l3) = if il > l2 {
        (word_kind_of(b, p, il), il)
    } else {
        (k2, l2)
    };
    let nl = run_len(b, p, Class::Digits);
    let (k4, l4) = if nl > l3 {
        (SyntaxKind::Integer, nl)
    } else {
        (k3, l3)
    };
    let fl = float_match(b, p);
    let (k5, l5) = if fl > l4 {
        (SyntaxKind::Float, fl)
    } else {
        (k4, l4)
    };
    let pl = path_match(b, p).0;
    let (k6, l6) = if pl > l5 {
        (
            if b[p] == 47 {
                SyntaxKind::AbsolutePath
            } else {
                SyntaxKind::RelativePath
            },
            pl,
        )
    } else {
        (k5, l5)
    };
    let hl = home_match(b, p);
    let (k7, l7) = if hl > l6 {
        (SyntaxKind::HomePath, hl)
    } else {
        (k6, l6)
    };
    let sl = search_match(b, p);
    let (k8, l8) = if sl > l7 {
        (SyntaxKind::SearchPath, sl)
    } else {
        (k7, l7)
    };
    let (pk, plen) = punct_match(b, p);
    let (k9, l9) = if plen > l8 {
        (pk, plen)
    } else {
        (k8, l8)
    };
    if l9 == 0 {
        (SyntaxKind::ErrorToken, error_match(b, p))
    } else {
        (k9, l9)
    }
}

/// The end of literal string text scanned from `i` for text that starts at
/// `p`: up to the closing quote or an interpolation, keeping escapes and
/// paired dollars whole.
pub open spec fn content_scan(b: Seq<u8>, p: int, i: int, indented: bool) -> nat
    decreases b.len() - i,
{
    if i < 0 || i >= b.len() {
        if b.len() > p {
            (b.len() - p) as nat
        } else {
            1
        }
    } else {
        let c = b[i];
        if c == 34 && !indented {
            if i > p {
                (i - p) as nat
            } else {
                content_scan(b, p, i + 1, indented)
            }
        } else if c == 92 && !indented {
            content_scan(
                b,
                p,
                if b.len() - i >= 2 {
                    i + 2
                } else {
                    b.len() as int
                },
                indented,
            )
        } else if c == 39 && indented && byte_is(b, i + 1, 39) {
            if byte_is(b, i + 2, 39) || byte_is(b, i + 2, 36) {
                content_scan(b, p, i + 3, indented)
            } else if byte_is(b, i + 2, 92) {
                content_scan(
                    b,
                    p,
                    if b.len() - i >= 4 {
                        i + 4
                    } else {
                        b.len() as int
                    },
                    indented,
                )
            } else if i > p {
                (i - p) as nat
            } else {
                content_scan(b, p, i + 2, indented)
            }
        } else if c == 36 {
            if byte_is(b, i + 1, 36) {
                content_scan(b, p, i + 2, indented)
            } else if byte_is(b, i + 1, 123) {
                if i > p {
                    (i - p) as nat
                } else {
                    content_scan(b, p, i + 2, indented)
                }
            } else {
                content_scan(b, p, i + 1, indented)
            }
        } else {
            content_scan(b, p, i + 1, indented)
        }
    }
}

/// An indented string closes at `p`: `''` that does not start an escape.
pub open spec fn indented_closes_at(b: Seq<u8>, p: int) -> bool {
    byte_is(b, p, 39) && byte_is(b, p + 1, 39) && !byte_is(b, p + 2, 39) && !byte_is(b, p + 2, 36)
        && !byte_is(b, p + 2, 92)
}

fn ident_len(b: &[u8], p: usize) -> (r: usize)
    requires
        p < b@.len(),
        b@.len() <= usize::MAX,
    ensures
        p + r <= b@.len(),
        r == ident_match(b@, p as int),
{
    if is_ident_start(b[p]) {
        1 + run(b, p + 1, Class::IdentTail)
    } else {
        0
    }
}

fn float_len(b: &[u8], p: usize) -> (r: usize)
    requires
        p < b@.len(),
        b@.len() <= usize::MAX,
    ensures
        p + r <= b@.len(),
        r == float_match(b@, p as int),
{
    let mut i: usize;
    let c = b[p];
    if 49 <= c && c <= 57 {
        i = p + 1 + run(b, p + 1, Class::Digits);
        if !at(b, i, 0, 46) {
            return 0;
        }
        i = i + 1;
        i = i + run(b, i, Class::Digits);
    } else {
        i = if c == 48 {
            p + 1
        } else {
            p
        };
        if !at(b, i, 0, 46) {
            return 0;
        }
        i = i + 1;
        let k = run(b, i, Class::Digits);
        if k == 0 {
            return 0;
        }
        i = i + k;
    }
    if at(b, i, 0, 69) || at(b, i, 0, 101) {
        let mut j = i + 1;
        if at(b, j, 0, 43) || at(b, j, 0, 45) {
            j = j + 1;
        }
        let k = run(b, j, Class::Digits);
        if k > 0 {
            i = j + k;
        }
    }
    i - p
}

/// A relative or absolute path: path bytes, a slash, a path byte, then path
/// bytes and slashes. The flag says whether it ends right before `${`.
fn path_len(b: &[u8], p: usize) -> (r: (usize, bool))
    requires
        p < b@.len(),
        b@.len() <= usize::MAX,
    ensures
        p + r.0 <= b@.len(),
        (r.0 as nat, r.1) == path_match(b@, p as int),
{
    let i = p + run(b, p, Class::PathPart);
    if !at(b, i, 0, 47) {
        return (0, false);
    }
    if i < b.len() && 1 < b.len() - i && is_path_byte(b[i + 1]) {
        let j = i + 2 + run(b, i + 2, Class::PathText);
        (j - p, false)
    } else if at(b, i, 1, 36) && at(b, i, 2, 123) {
        (i + 1 - p, true)
    } else {
        (0, false)
    }
}

fn home_len(b: &[u8], p: usize) -> (r: usize)
    requires
        p < b@.len(),
        b@.len() <= usize::MAX,
    ensures
        p + r <= b@.len(),
        r == home_match(b@, p as int),
{
    if b[p] == 126 && at(b, p, 1, 47) {
        2 + run(b, p + 2, Class::PathText)
    } else {
        0
    }
}

fn search_len(b: &[u8], p: usize) -> (r: usize)
    requires
        p < b@.len(),
        b@.len() <= usize::MAX,
    ensures
        p + r <= b@.len(),
        r == search_match(b@, p as int),
{
    if b[p] != 60 {
        return 0;
    }
    let mut i = p + 1;
    loop
        invariant
            p < i <= b@.len(),
            b@.len() <= usize::MAX,
            b@[p as int] == 60,
            search_match(b@, p as int) == search_from(b@, p as int, i as int),
        decreases b@.len() - i,
    {
        let k = run(b, i, Class::PathPart);
        if k == 0 {
            return 0;
        }
        i = i + k;
        if at(b, i, 0, 62) {
            return i + 1 - p;
        }
        if !at(b, i, 0, 47) {
            return 0;
        }
        i = i + 1;
    }
}

/// Fixed punctuation.
fn punct(b: &[u8], p: usize) -> (r: (SyntaxKind, usize))
    requires
        p < b@.len(),
        b@.len() <= usize::MAX,
    ensures
        p + r.1 <= b@.len(),
        (r.0, r.1 as nat) == punct_match(b@, p as int),
{
    let c = b[p];
    if c == 40 {
        (SyntaxKind::LParen, 1)
    } else if c == 41 {
        (SyntaxKind::RParen, 1)
    } else if c == 91 {
        (SyntaxKind::LBracket, 1)
    } else if c == 93 {
        (SyntaxKind::RBracket, 1)
    } else if c == 123 {
        (SyntaxKind::LBrace, 1)
    } else if c == 125 {
        (SyntaxKind::RBrace, 1)
    } else if c == 44 {
        (SyntaxKind::Comma, 1)
    } else if c == 59 {
        (SyntaxKind::Semicolon, 1)
    } else if c == 64 {
        (SyntaxKind::At, 1)
    } else if c == 63 {
        (SyntaxKind::Question, 1)
    } else if c == 42 {
        (SyntaxKind::Star, 1)
    } else if c == 43 {
        if at(b, p, 1, 43) {
            (SyntaxKind::PlusPlus, 2)
        } else {
            (SyntaxKind::Plus, 1)
        }
    } else if c == 45 {
        (SyntaxKind::Minus, 1)
    } else if c == 47 {
        (SyntaxKind::Slash, 1)
    } else if c == 46 {
        if at(b, p, 1, 46) && at(b, p, 2, 46) {
            (SyntaxKind::Ellipsis, 3)
        } else {
            (SyntaxKind::Dot, 1)
        }
    } else if c == 61 {
        if at(b, p, 1, 62) {
            (SyntaxKind::Arrow, 2)
        } else if at(b, p, 1, 61) {
            (SyntaxKind::EqualEqual, 2)
        } else {
            (SyntaxKind::Assign, 1)
        }
    } else if c == 33 {
        if at(b, p, 1, 61) {
            (SyntaxKind::NotEqual, 2)
        } else {
            (SyntaxKind::Bang, 1)
        }
    } else if c == 60 {
        if at(b, p, 1, 61) {
            (SyntaxKind::LessEqual, 2)
        } else {
            (SyntaxKind::Less, 1)
        }
    } else if c == 62 {
        if at(b, p, 1, 61) {
            (SyntaxKind::GreaterEqual, 2)
        } else {
            (SyntaxKind::Greater, 1)
        }
    } else if c == 38 && at(b, p, 1, 38) {
        (SyntaxKind::AndAnd, 2)
    } else if c == 124 && at(b, p, 1, 124) {
        (SyntaxKind::OrOr, 2)
    } else if c == 34 {
        (SyntaxKind::StringStart, 1)
    } else if c == 39 && at(b, p, 1, 39) {
        (SyntaxKind::StringStart, 2)
    } else if c == 36 && at(b, p, 1, 123) {
        (SyntaxKind::InterpolationStart, 2)
    } else {
        (SyntaxKind::ErrorToken, 0)
    }
}

/// Comments: `//` and `#` to the end of the line, `/* */` blocks. An
/// unterminated block runs to the end as an error token.
fn comment(b: &[u8], p: usize) -> (r: (SyntaxKind, usize))
    requires
        p < b@.len(),
        b@.len() <= usize::MAX,
    ensures
        p + r.1 <= b@.len(),
        (r.0, r.1 as nat) == comment_match(b@, p as int),
{
    if b[p] == 35 {
        return (SyntaxKind::LineComment, 1 + run(b, p + 1, Class::LineText));
    }
    if b[p] != 47 {
        return (SyntaxKind::Whitespace, 0);
    }
    if at(b, p, 1, 47) {
        return (SyntaxKind::LineComment, 2 + run(b, p + 2, Class::LineText));
    }
    if !at(b, p, 1, 42) {
        return (SyntaxKind::Whitespace, 0);
    }
    let mut i = p + 2;
    while i < b.len()
        invariant
            p + 2 <= i <= b@.len(),
            b@.len() <= usize::MAX,
            b@[p as int] == 47,
            byte_is(b@, p + 1, 42),
            block_end(b@, p + 2) == block_end(b@, i as int),
        decreases b@.len() - i,
    {
        if b[i] == 42 && at(b, i, 1, 47) {
            return (SyntaxKind::BlockComment, i + 2 - p);
        }
        i += 1;
    }
    (SyntaxKind::ErrorToken, b.len() - p)
}

/// The ASCII text of `len` bytes from `p`.
pub(crate) fn ascii_text(b: &[u8], p: usize, len: usize) -> (s: String)
    requires
        p + len <= b@.len(),
        b@.len() <= usize::MAX,
    ensures
        s@.len() == len,
        forall|i: int| 0 <= i < len ==> s@[i] == (b@[p + i] as char),
{
    let mut s = String::new();
    let mut i: usize = 0;
    while i < len
        invariant
            p + len <= b@.len(),
            b@.len() <= usize::MAX,
            i <= len,
            s@.len() == i,
            forall|k: int| 0 <= k < i ==> s@[k] == (b@[p + k] as char),
        decreases len - i,
    {
        push_char(&mut s, b[p + i] as char);
        i += 1;
    }
    s
}

/// The kind of an identifier-shaped word: a keyword or an identifier.
fn word_kind(b: &[u8], p: usize, len: usize) -> (k: SyntaxKind)
    requires
        p + len <= b@.len(),
        b@.len() <= usize::MAX,
    ensures
        k == word_kind_of(b@, p as int, len as nat),
{
    if len > 7 {
        return SyntaxKind::Ident;
    }
    let w = ascii_text(b, p, len);
    assert(w@ =~= word_text(b@, p as int, len as nat));
    let t = w.as_str();
    if text_eq(t, "fn") {
        SyntaxKind::Fn
    } else if text_eq(t, "rec") {
        SyntaxKind::Rec
    } else if text_eq(t, "inherit") {
        SyntaxKind::Inherit
    } else if text_eq(t, "or") {
        SyntaxKind::Or
    } else if text_eq(t, "let") {
        SyntaxKind::Let
    } else if text_eq(t, "yield") {
        SyntaxKind::Yield
    } else if text_eq(t, "with") {
        SyntaxKind::With
    } else if text_eq(t, "assert") {
        SyntaxKind::Assert
    } else if text_eq(t, "if") {
        SyntaxKind::If
    } else if text_eq(t, "then") {
        SyntaxKind::Then
    } else if text_eq(t, "else") {
        SyntaxKind::Else
    } else {
        SyntaxKind::Ident
    }
}

/// The length of an invalid character: a UTF-8 lead byte and its continuation bytes.
fn error_len(b: &[u8], p: usize) -> (r: usize)
    requires
        p < b@.len(),
        b@.len() <= usize::MAX,
    ensures
        1 <= r,
        p + r <= b@.len(),
        r == error_match(b@, p as int),
{
    let mut i = p + 1;
    if b[p] >= 192 {
        while i < b.len() && i - p < 4 && 128 <= b[i] && b[i] < 192
            invariant
                p < i <= b@.len(),
                i - p <= 4,
                b@[p as int] >= 192,
                error_match(b@, p as int) == (i - p) + continuation_len(
                    b@,
                    i as int,
                    (4 - (i - p)) as nat,
                ),
            decreases b@.len() - i,
        {
            i += 1;
        }
    }
    i - p
}

/// The longest token in the default mode. A path prefix that ends right
/// before an interpolation is reported as a path.
fn default_token(b: &[u8], p: usize) -> (r: (SyntaxKind, usize))
    requires
        p < b@.len(),
        b@.len() <= usize::MAX,
    ensures
        1 <= r.1,
        p + r.1 <= b@.len(),
        (r.0, r.1 as nat) == default_match(b@, p as int),
{
    let mut kind = SyntaxKind::ErrorToken;
    let mut len: usize = 0;
    let ws = run(b, p, Class::Space);
    if ws > len {
        kind = SyntaxKind::Whitespace;
        len = ws;
    }
    let (ck, cl) = comment(b, p);
    if cl > len {
        kind = ck;
        len = cl;
    }
    let il = ident_len(b, p);
    if il > len {
        kind = word_kind(b, p, il);
        len = il;
    }
    let nl = run(b, p, Class::Digits);
    if nl > len {
        kind = SyntaxKind::Integer;
        len = nl;
    }
    let fl = float_len(b, p);
    if fl > len {
        kind = SyntaxKind::Float;
        len = fl;
    }
    let (pl, _) = path_len(b, p);
    if pl > len {
        kind = if b[p] == 47 {
            SyntaxKind::AbsolutePath
        } else {
            SyntaxKind::RelativePath
        };
        len = pl;
    }
    let hl = home_len(b, p);
    if hl > len {
        kind = SyntaxKind::HomePath;
        len = hl;
    }
    let sl = search_len(b, p);
    if sl > len {
        kind = SyntaxKind::SearchPath;
        len = sl;
    }
    let (pk, plen) = punct(b, p);
    if plen > len {
        kind = pk;
        len = plen;
    }
    if len == 0 {
        kind = SyntaxKind::ErrorToken;
        len = error_len(b, p);
    }
    (kind, len)
}

/// The length of literal string text from `p`: up to the closing quote or an
/// interpolation, keeping escapes and Nix's paired dollars whole.
fn string_content_len(b: &[u8], p: usize, indented: bool) -> (r: usize)
    requires
        p < b@.len(),
        b@.len() <= usize::MAX,
    ensures
        1 <= r,
        p + r <= b@.len(),
        r == content_scan(b@, p as int, p as int, indented),
{
    let n = b.len();
    let mut i = p;
    while i < n
        invariant
            p <= i <= n,
            n == b@.len(),
            content_scan(b@, p as int, p as int, indented) == content_scan(
                b@,
                p as int,
                i as int,
                indented,
            ),
        decreases n - i,
    {
        let c = b[i];
        if c == 34 && !indented {
            if i > p {
                return i - p;
            }
            i += 1;
        } else if c == 92 && !indented {
            i = if n - i >= 2 {
                i + 2
            } else {
                n
            };
        } else if c == 39 && indented && at(b, i, 1, 39) {
            if at(b, i, 2, 39) || at(b, i, 2, 36) {
                i += 3;
            } else if at(b, i, 2, 92) {
                i = if n - i >= 4 {
                    i + 4
                } else {
                    n
                };
            } else {
                if i > p {
                    return i - p;
                }
                i += 2;
            }
        } else if c == 36 {
            if at(b, i, 1, 36) {
                i += 2;
            } else if at(b, i, 1, 123) {
                if i > p {
                    return i - p;
                }
                i += 2;
            } else {
                i += 1;
            }
        } else {
            i += 1;
        }
    }
    if n > p {
        n - p
    } else {
        1
    }
}

/// Whether an indented string closes at `p`: `''` that does not start an escape.
fn indented_closes(b: &[u8], p: usize) -> (r: bool)
    requires
        b@.len() <= usize::MAX,
    ensures
        r == indented_closes_at(b@, p as int),
{
    at(b, p, 0, 39) && at(b, p, 1, 39) && !at(b, p, 2, 39) && !at(b, p, 2, 36) && !at(b, p, 2, 92)
}

// ---------------------------------------------------------------------------
// The token stream, one step at a time.

/// The token of `kind` over bytes `start..end`.
pub open spec fn tok(kind: SyntaxKind, start: int, end: int) -> Token {
    Token { kind, span: core::ops::Range { start: start as usize, end: end as usize } }
}

/// What a step adds to the token stream.
pub open spec fn emitted(t: Option<Token>) -> Seq<Token> {
    match t {
        Some(x) => seq![x],
        None => Seq::empty(),
    }
}

/// One step inside a path after an interpolation: another interpolation,
/// literal path text, or the end of the path (no token; the mode is left).
pub open spec fn path_step(b: Seq<u8>, modes: Seq<Mode>, pos: int) -> (
    Option<Token>,
    Seq<Mode>,
    int,
) {
    if byte_is(b, pos, 36) && byte_is(b, pos + 1, 123) {
        (
            Some(tok(SyntaxKind::InterpolationStart, pos, pos + 2)),
            modes.push(Mode::Interp { braces: 0 }),
            pos + 2,
        )
    } else {
        let len = run_len(b, pos, Class::PathText);
        if len > 0 {
            (Some(tok(SyntaxKind::PathContent, pos, pos + len)), modes, pos + len)
        } else {
            (None, modes.drop_last(), pos)
        }
    }
}

/// One step inside a string: its end, an interpolation, or literal text.
pub open spec fn string_step(b: Seq<u8>, indented: bool, modes: Seq<Mode>, pos: int) -> (
    Option<Token>,
    Seq<Mode>,
    int,
) {
    let closing = if indented {
        indented_closes_at(b, pos)
    } else {
        b[pos] == 34
    };
    if closing && (!indented || byte_is(b, pos + 1, 39)) {
        let len: int = if indented {
            2
        } else {
            1
        };
        (Some(tok(SyntaxKind::StringEnd, pos, pos + len)), modes.drop_last(), pos + len)
    } else if byte_is(b, pos, 36) && byte_is(b, pos + 1, 123) {
        (
            Some(tok(SyntaxKind::InterpolationStart, pos, pos + 2)),
            modes.push(Mode::Interp { braces: 0 }),
            pos + 2,
        )
    } else {
        let len = content_scan(b, pos, pos, indented);
        (Some(tok(SyntaxKind::StringContent, pos, pos + len)), modes, pos + len)
    }
}

/// One step in the default mode or inside an interpolation. A path followed
/// by `${` starts an interpolated path; braces are counted inside an
/// interpolation, and the brace that closes it ends it.
pub open spec fn default_step(b: Seq<u8>, modes: Seq<Mode>, pos: int) -> (
    Option<Token>,
    Seq<Mode>,
    int,
) {
    let (kind, len) = default_match(b, pos);
    let end = pos + len;
    let is_path = kind == SyntaxKind::RelativePath || kind == SyntaxKind::AbsolutePath || kind
        == SyntaxKind::HomePath;
    if is_path && byte_is(b, end, 36) && byte_is(b, end + 1, 123) {
        (Some(tok(SyntaxKind::PathStart, pos, end)), modes.push(Mode::Path), end)
    } else if kind == SyntaxKind::InterpolationStart {
        (Some(tok(kind, pos, end)), modes.push(Mode::Interp { braces: 0 }), end)
    } else if kind == SyntaxKind::StringStart {
        (Some(tok(kind, pos, end)), modes.push(Mode::Str { indented: len == 2 }), end)
    } else if (kind == SyntaxKind::LBrace || kind == SyntaxKind::RBrace) && modes.len() > 0
        && modes.last() is Interp {
        let k = modes.last()->braces;
        let top = modes.len() - 1;
        if kind == SyntaxKind::LBrace {
            (Some(tok(kind, pos, end)), modes.update(top, Mode::Interp { braces: (k + 1) as usize }), end)
        } else if k == 0 {
            (Some(tok(SyntaxKind::InterpolationEnd, pos, end)), modes.drop_last(), end)
        } else {
            (Some(tok(kind, pos, end)), modes.update(top, Mode::Interp { braces: (k - 1) as usize }), end)
        }
    } else {
        (Some(tok(kind, pos, end)), modes, end)
    }
}

/// The step taken at `pos`, by the innermost mode.
pub open spec fn lex_step(b: Seq<u8>, modes: Seq<Mode>, pos: int) -> (Option<Token>, Seq<Mode>, int) {
    if modes.len() > 0 && modes.last() is Path {
        path_step(b, modes, pos)
    } else if modes.len() > 0 && modes.last() is Str {
        string_step(b, modes.last()->indented, modes, pos)
    } else {
        default_step(b, modes, pos)
    }
}

/// The tokens from `pos` to the end, lexing with the modes `modes` open.
pub open spec fn lex_from(b: Seq<u8>, modes: Seq<Mode>, pos: int) -> Seq<Token>
    decreases b.len() - pos, modes.len(),
{
    if pos < 0 || pos >= b.len() {
        Seq::empty()
    } else {
        let s = lex_step(b, modes, pos);
        if s.2 <= b.len() && (s.2 > pos || (s.2 == pos && s.1.len() < modes.len())) {
            emitted(s.0) + lex_from(b, s.1, s.2)
        } else {
            Seq::empty()
        }
    }
}

/// The token stream of a source's bytes.
pub open spec fn spec_lex(b: Seq<u8>) -> Seq<Token> {
    lex_from(b, Seq::empty(), 0)
}

/// The step `s` was taken: the tokens and modes are those before it, updated by it.
spec fn took(
    s: (Option<Token>, Seq<Mode>, int),
    tokens0: Seq<Token>,
    tokens1: Seq<Token>,
    modes1: Seq<Mode>,
    next: int,
) -> bool {
    &&& tokens1 == tokens0 + emitted(s.0)
    &&& modes1 == s.1
    &&& next == s.2
}

fn push_token(tokens: &mut Vec<Token>, kind: SyntaxKind, start: usize, end: usize)
    requires
        start < end,
        tokens_partition(old(tokens)@, start as nat),
    ensures
        tokens_partition(final(tokens)@, end as nat),
        final(tokens)@ == old(tokens)@ + emitted(Some(tok(kind, start as int, end as int))),
{
    let ghost t0 = tokens@;
    tokens.push(Token { kind, span: core::ops::Range { start, end } });
    let ghost t = tokens@;
    assert(t =~= t0 + emitted(Some(tok(kind, start as int, end as int))));
    assert(t.len() == t0.len() + 1);
    assert(forall|i: int| 0 <= i < t0.len() ==> t[i] == t0[i]);
    assert(forall|i: int| 0 <= i < t.len() ==> (#[trigger] t[i]).span.start < t[i].span.end);
    assert forall|i: int, j: int| 0 <= i && j == i + 1 && j < t.len() implies (#[trigger] t[i]).span.end
        == (#[trigger] t[j]).span.start by {
        if j < t0.len() {
            assert(t[i] == t0[i] && t[j] == t0[j]);
        }
    }
}

/// The state of the lexer between tokens.
spec fn lexing(b: Seq<u8>, modes: Seq<Mode>, tokens: Seq<Token>, pos: nat) -> bool {
    &&& b.len() <= usize::MAX
    &&& pos <= b.len()
    &&& tokens_partition(tokens, pos)
    &&& braces_bounded(modes, pos)
}

/// One step inside a path after an interpolation: another interpolation,
/// literal path text, or the end of the path.
fn step_path(b: &[u8], modes: &mut Vec<Mode>, tokens: &mut Vec<Token>, pos: usize) -> (next: usize)
    requires
        lexing(b@, old(modes)@, old(tokens)@, pos as nat),
        pos < b@.len(),
        old(modes)@.len() > 0,
    ensures
        lexing(b@, final(modes)@, final(tokens)@, next as nat),
        next > pos || (next == pos && final(modes)@.len() < old(modes)@.len()),
        took(path_step(b@, old(modes)@, pos as int), old(tokens)@, final(tokens)@, final(modes)@, next as int),
{
    if at(b, pos, 0, 36) && at(b, pos, 1, 123) {
        modes.push(Mode::Interp { braces: 0 });
        push_token(tokens, SyntaxKind::InterpolationStart, pos, pos + 2);
        pos + 2
    } else {
        let len = run(b, pos, Class::PathText);
        if len > 0 {
            push_token(tokens, SyntaxKind::PathContent, pos, pos + len);
            pos + len
        } else {
            let _ = modes.pop();
            pos
        }
    }
}

/// One step inside a string: its end, an interpolation, or literal text.
fn step_string(
    b: &[u8],
    indented: bool,
    modes: &mut Vec<Mode>,
    tokens: &mut Vec<Token>,
    pos: usize,
) -> (next: usize)
    requires
        lexing(b@, old(modes)@, old(tokens)@, pos as nat),
        pos < b@.len(),
        old(modes)@.len() > 0,
    ensures
        lexing(b@, final(modes)@, final(tokens)@, next as nat),
        next > pos,
        took(string_step(b@, indented, old(modes)@, pos as int), old(tokens)@, final(tokens)@, final(modes)@, next as int),
{
    let closing = if indented {
        indented_closes(b, pos)
    } else {
        b[pos] == 34
    };
    if closing && (!indented || at(b, pos, 1, 39)) {
        let _ = modes.pop();
        let len: usize = if indented {
            2
        } else {
            1
        };
        push_token(tokens, SyntaxKind::StringEnd, pos, pos + len);
        pos + len
    } else if at(b, pos, 0, 36) && at(b, pos, 1, 123) {
        modes.push(Mode::Interp { braces: 0 });
        push_token(tokens, SyntaxKind::InterpolationStart, pos, pos + 2);
        pos + 2
    } else {
        let len = string_content_len(b, pos, indented);
        push_token(tokens, SyntaxKind::StringContent, pos, pos + len);
        pos + len
    }
}

/// One step in the default mode or inside an interpolation.
fn step_default(b: &[u8], modes: &mut Vec<Mode>, tokens: &mut Vec<Token>, pos: usize) -> (next:
    usize)
    requires
        lexing(b@, old(modes)@, old(tokens)@, pos as nat),
        pos < b@.len(),
    ensures
        lexing(b@, final(modes)@, final(tokens)@, next as nat),
        next > pos,
        took(default_step(b@, old(modes)@, pos as int), old(tokens)@, final(tokens)@, final(modes)@, next as int),
{
    let (mut kind, len) = default_token(b, pos);
    let is_path = kind == SyntaxKind::RelativePath || kind == SyntaxKind::AbsolutePath || kind
        == SyntaxKind::HomePath;
    if is_path && at(b, pos + len, 0, 36) && at(b, pos + len, 1, 123) {
        kind = SyntaxKind::PathStart;
        modes.push(Mode::Path);
    } else if kind == SyntaxKind::InterpolationStart {
        modes.push(Mode::Interp { braces: 0 });
    } else if kind == SyntaxKind::StringStart {
        modes.push(Mode::Str { indented: len == 2 });
    } else if kind == SyntaxKind::LBrace || kind == SyntaxKind::RBrace {
        let t = modes.len();
        if t > 0 {
            let braces = match &modes[t - 1] {
                Mode::Interp { braces } => Some(*braces),
                _ => None,
            };
            match braces {
                Some(k) => {
                    if kind == SyntaxKind::LBrace {
                        assert(modes@[t - 1] matches Mode::Interp { braces } && braces == k);
                        modes.set(t - 1, Mode::Interp { braces: k + 1 });
                    } else if k == 0 {
                        kind = SyntaxKind::InterpolationEnd;
                        let _ = modes.pop();
                    } else {
                        modes.set(t - 1, Mode::Interp { braces: k - 1 });
                    }
                },
                None => {},
            }
        }
    }
    push_token(tokens, kind, pos, pos + len);
    pos + len
}

// ---------------------------------------------------------------------------
// Character boundaries: every token of valid UTF-8 starts and ends between
// characters.

/// Byte `i` starts a character or is the end of the bytes.
pub open spec fn starts_char(b: Seq<u8>, i: int) -> bool {
    i == b.len() || (0 <= i < b.len() && !vstd::utf8::is_continuation_byte(b[i]))
}

/// The number of bytes of the character that a leading byte starts.
pub open spec fn lead_width(c: u8) -> int {
    if c < 0x80 {
        1
    } else if 0xc0 <= c <= 0xdf {
        2
    } else if 0xe0 <= c <= 0xef {
        3
    } else if 0xf0 <= c <= 0xf7 {
        4
    } else {
        0
    }
}

/// In valid UTF-8, a byte that is no continuation byte leads a character:
/// its continuation bytes follow, then the next character or the end.
proof fn lemma_char_at(b: Seq<u8>, j: int)
    requires
        vstd::utf8::valid_utf8(b),
        0 <= j < b.len(),
        !vstd::utf8::is_continuation_byte(b[j]),
    ensures
        lead_width(b[j]) > 0,
        j + lead_width(b[j]) <= b.len(),
        forall|k: int| j < k < j + lead_width(b[j]) ==> vstd::utf8::is_continuation_byte(b[k]),
        starts_char(b, j + lead_width(b[j])),
    decreases b.len(),
{
    let l = vstd::utf8::length_of_first_scalar(b);
    let rest = vstd::utf8::pop_first_scalar(b);
    assert(vstd::utf8::valid_first_scalar(b));
    assert(vstd::utf8::valid_utf8(rest));
    assert(rest.len() == b.len() - l);
    if j == 0 {
        assert(l == lead_width(b[0]));
        if l < b.len() {
            assert(rest[0] == b[l]);
            assert(vstd::utf8::valid_first_scalar(rest));
        }
    } else if j < l {
        assert(vstd::utf8::is_continuation_byte(b[j]));
    } else {
        assert(rest[j - l] == b[j]);
        lemma_char_at(rest, j - l);
        let w = lead_width(b[j]);
        assert forall|k: int| j < k < j + w implies vstd::utf8::is_continuation_byte(b[k]) by {
            assert(rest[k - l] == b[k]);
        }
        if j + w < b.len() {
            assert(rest[j + w - l] == b[j + w]);
        }
    }
}

/// After an ASCII byte of valid UTF-8 comes a character or the end.
proof fn lemma_after_ascii(b: Seq<u8>, i: int)
    requires
        vstd::utf8::valid_utf8(b),
        0 < i <= b.len(),
        b[i - 1] < 128,
    ensures
        starts_char(b, i),
{
    lemma_char_at(b, i - 1);
}

/// A match of `n > 0` bytes from `p` whose last byte is ASCII, or that stops
/// before an ASCII byte or at the end.
pub open spec fn ascii_end(b: Seq<u8>, p: int, n: int) -> bool {
    &&& 0 < n
    &&& p + n <= b.len()
    &&& (p + n == b.len() || b[p + n] < 128 || b[p + n - 1] < 128)
}

proof fn lemma_ascii_end(b: Seq<u8>, p: int, n: int)
    requires
        vstd::utf8::valid_utf8(b),
        0 <= p,
        ascii_end(b, p, n),
    ensures
        starts_char(b, p + n),
{
    if p + n < b.len() && b[p + n - 1] < 128 {
        lemma_after_ascii(b, p + n);
    }
}

proof fn lemma_run(b: Seq<u8>, p: int, class: Class)
    requires
        0 <= p,
    ensures
        p + run_len(b, p, class) <= b.len() || run_len(b, p, class) == 0,
        run_len(b, p, class) > 0 ==> class_byte(b[p + run_len(b, p, class) - 1], class),
        p + run_len(b, p, class) < b.len() ==> !class_byte(b[p + run_len(b, p, class)], class),
    decreases b.len() - p,
{
    if 0 <= p < b.len() && class_byte(b[p], class) {
        lemma_run(b, p + 1, class);
    }
}

proof fn lemma_block_end(b: Seq<u8>, i: int)
    requires
        0 <= i,
    ensures
        block_end(b, i) >= 0 ==> i <= block_end(b, i) && block_end(b, i) + 1 < b.len() && b[block_end(
            b,
            i,
        ) + 1] == 47,
    decreases b.len() - i,
{
    if i < b.len() && !(b[i] == 42 && byte_is(b, i + 1, 47)) {
        lemma_block_end(b, i + 1);
    }
}

proof fn lemma_exponent_end(b: Seq<u8>, i: int)
    requires
        0 <= i <= b.len(),
    ensures
        i <= exponent_end(b, i) <= b.len(),
        exponent_end(b, i) > i ==> b[exponent_end(b, i) - 1] < 128,
{
    if byte_is(b, i, 69) || byte_is(b, i, 101) {
        let j = if byte_is(b, i + 1, 43) || byte_is(b, i + 1, 45) {
            i + 2
        } else {
            i + 1
        };
        lemma_run(b, j, Class::Digits);
    }
}

proof fn lemma_search_from(b: Seq<u8>, p: int, i: int)
    requires
        0 <= p < i,
    ensures
        search_from(b, p, i) > 0 ==> ascii_end(b, p, search_from(b, p, i) as int),
    decreases b.len() - i,
{
    let k = run_len(b, i, Class::PathPart);
    lemma_run(b, i, Class::PathPart);
    if i < 0 || i > b.len() || k == 0 {
    } else if byte_is(b, i + k, 62) {
    } else if byte_is(b, i + k, 47) {
        lemma_search_from(b, p, i + k + 1);
    }
}

/// Every default-mode token of valid UTF-8 that starts a character ends
/// before one or at the end.
proof fn lemma_default_match(b: Seq<u8>, p: int)
    requires
        vstd::utf8::valid_utf8(b),
        0 <= p < b.len(),
        !vstd::utf8::is_continuation_byte(b[p]),
    ensures
        default_match(b, p).1 > 0,
        p + default_match(b, p).1 <= b.len(),
        starts_char(b, p + default_match(b, p).1),
{
    lemma_run(b, p, Class::Space);
    lemma_run(b, p + 1, Class::LineText);
    lemma_run(b, p + 2, Class::LineText);
    lemma_block_end(b, p + 2);
    lemma_run(b, p + 1, Class::IdentTail);
    lemma_run(b, p, Class::Digits);
    lemma_run(b, p + 1, Class::Digits);
    let c = b[p];
    let i1 = p + 1 + run_len(b, p + 1, Class::Digits);
    lemma_run(b, i1 + 1, Class::Digits);
    if i1 + 1 <= b.len() {
        lemma_exponent_end(b, i1 + 1 + run_len(b, i1 + 1, Class::Digits));
    }
    let i2 = if c == 48 { p + 1 } else { p };
    lemma_run(b, i2 + 1, Class::Digits);
    if i2 + 1 <= b.len() {
        lemma_exponent_end(b, i2 + 1 + run_len(b, i2 + 1, Class::Digits));
    }
    lemma_run(b, p, Class::PathPart);
    let i3 = p + run_len(b, p, Class::PathPart);
    lemma_run(b, i3 + 2, Class::PathText);
    lemma_run(b, p + 2, Class::PathText);
    lemma_search_from(b, p, p + 1);
    let ws = run_len(b, p, Class::Space);
    let cl = comment_match(b, p).1;
    let il = ident_match(b, p);
    let nl = run_len(b, p, Class::Digits);
    let fl = float_match(b, p);
    let pl = path_match(b, p).0;
    let hl = home_match(b, p);
    let sl = search_match(b, p);
    let plen = punct_match(b, p).1;
    assert(ws > 0 ==> ascii_end(b, p, ws as int));
    assert(cl > 0 ==> ascii_end(b, p, cl as int));
    assert(il > 0 ==> ascii_end(b, p, il as int));
    assert(nl > 0 ==> ascii_end(b, p, nl as int));
    assert(fl > 0 ==> ascii_end(b, p, fl as int));
    assert(pl > 0 ==> ascii_end(b, p, pl as int));
    assert(hl > 0 ==> ascii_end(b, p, hl as int));
    assert(sl > 0 ==> ascii_end(b, p, sl as int));
    assert(plen > 0 ==> ascii_end(b, p, plen as int));
    let n = default_match(b, p).1;
    if n == error_match(b, p) && ws == 0 && cl == 0 && il == 0 && nl == 0 && fl == 0 && pl == 0
        && hl == 0 && sl == 0 && plen == 0 {
        if c >= 192 {
            lemma_char_at(b, p);
            reveal_with_fuel(continuation_len, 4);
        } else {
            lemma_after_ascii(b, p + 1);
        }
    } else {
        assert(ascii_end(b, p, n as int));
        lemma_ascii_end(b, p, n as int);
    }
}


proof fn lemma_content_scan(b: Seq<u8>, p: int, i: int, indented: bool)
    requires
        0 <= p < b.len(),
        p <= i,
    ensures
        p + content_scan(b, p, i, indented) <= b.len(),
        p + content_scan(b, p, i, indented) == b.len() || b[p + content_scan(b, p, i, indented)]
            < 128,
    decreases b.len() - i,
{
    if i >= b.len() {
    } else {
        let c = b[i];
        if c == 34 && !indented {
            if i <= p {
                lemma_content_scan(b, p, i + 1, indented);
            }
        } else if c == 92 && !indented {
            lemma_content_scan(
                b,
                p,
                if b.len() - i >= 2 {
                    i + 2
                } else {
                    b.len() as int
                },
                indented,
            );
        } else if c == 39 && indented && byte_is(b, i + 1, 39) {
            if byte_is(b, i + 2, 39) || byte_is(b, i + 2, 36) {
                lemma_content_scan(b, p, i + 3, indented);
            } else if byte_is(b, i + 2, 92) {
                lemma_content_scan(
                    b,
                    p,
                    if b.len() - i >= 4 {
                        i + 4
                    } else {
                        b.len() as int
                    },
                    indented,
                );
            } else if i <= p {
                lemma_content_scan(b, p, i + 2, indented);
            }
        } else if c == 36 {
            if byte_is(b, i + 1, 36) {
                lemma_content_scan(b, p, i + 2, indented);
            } else if byte_is(b, i + 1, 123) {
                if i <= p {
                    lemma_content_scan(b, p, i + 2, indented);
                }
            } else {
                lemma_content_scan(b, p, i + 1, indented);
            }
        } else {
            lemma_content_scan(b, p, i + 1, indented);
        }
    }
}

/// A step of the lexer from the start of a character ends at the start of
/// one, and the token it emits ends there.
proof fn lemma_step(b: Seq<u8>, modes: Seq<Mode>, pos: int)
    requires
        vstd::utf8::valid_utf8(b),
        0 <= pos < b.len(),
        starts_char(b, pos),
        lex_step(b, modes, pos).2 <= b.len(),
        b.len() <= usize::MAX,
    ensures
        starts_char(b, lex_step(b, modes, pos).2),
        lex_step(b, modes, pos).0 matches Some(t) ==> t.span.end == lex_step(b, modes, pos).2,
{
    let s = lex_step(b, modes, pos);
    if modes.len() > 0 && modes.last() is Path {
        lemma_run(b, pos, Class::PathText);
        if !(byte_is(b, pos, 36) && byte_is(b, pos + 1, 123)) && run_len(b, pos, Class::PathText)
            > 0 {
            lemma_ascii_end(b, pos, run_len(b, pos, Class::PathText) as int);
        } else if byte_is(b, pos, 36) && byte_is(b, pos + 1, 123) {
            lemma_ascii_end(b, pos, 2);
        }
    } else if modes.len() > 0 && modes.last() is Str {
        let indented = modes.last()->indented;
        lemma_content_scan(b, pos, pos, indented);
        if s.2 > pos {
            if s.2 == pos + content_scan(b, pos, pos, indented) {
                assert(ascii_end(b, pos, s.2 - pos));
            }
            lemma_ascii_end(b, pos, s.2 - pos);
        }
    } else {
        lemma_default_match(b, pos);
    }
}

/// Every token that lexing from the start of a character emits ends at the
/// start of one.
proof fn lemma_lex_from_ends(b: Seq<u8>, modes: Seq<Mode>, pos: int)
    requires
        vstd::utf8::valid_utf8(b),
        b.len() <= usize::MAX,
        0 <= pos,
        starts_char(b, pos),
    ensures
        forall|i: int|
            0 <= i < lex_from(b, modes, pos).len() ==> starts_char(
                b,
                (#[trigger] lex_from(b, modes, pos)[i]).span.end as int,
            ),
    decreases b.len() - pos, modes.len(),
{
    if pos < 0 || pos >= b.len() {
    } else {
        let s = lex_step(b, modes, pos);
        if s.2 <= b.len() && (s.2 > pos || (s.2 == pos && s.1.len() < modes.len())) {
            lemma_step(b, modes, pos);
            lemma_lex_from_ends(b, s.1, s.2);
            let rest = lex_from(b, s.1, s.2);
            assert(lex_from(b, modes, pos) == emitted(s.0) + rest);
            assert forall|i: int| 0 <= i < lex_from(b, modes, pos).len() implies starts_char(
                b,
                (#[trigger] lex_from(b, modes, pos)[i]).span.end as int,
            ) by {
                if i < emitted(s.0).len() {
                    assert(lex_from(b, modes, pos)[i] == s.0->Some_0);
                } else {
                    assert(lex_from(b, modes, pos)[i] == rest[i - emitted(s.0).len()]);
                }
            }
        }
    }
}


/// The tokens of valid UTF-8 start and end on character boundaries.
proof fn lemma_tokens_on_boundaries(b: Seq<u8>)
    requires
        vstd::utf8::valid_utf8(b),
        b.len() <= usize::MAX,
        tokens_partition(spec_lex(b), b.len()),
    ensures
        forall|i: int|
            0 <= i < spec_lex(b).len() ==> vstd::utf8::is_char_boundary(
                b,
                (#[trigger] spec_lex(b)[i]).span.start as int,
            ) && vstd::utf8::is_char_boundary(b, spec_lex(b)[i].span.end as int),
{
    let t = spec_lex(b);
    vstd::utf8::is_char_boundary_start_end_of_seq(b);
    if b.len() > 0 {
        vstd::utf8::is_char_boundary_iff_not_is_continuation_byte(b, 0);
    }
    lemma_lex_from_ends(b, Seq::empty(), 0);
    assert forall|i: int| 0 <= i < t.len() implies vstd::utf8::is_char_boundary(
        b,
        t[i].span.end as int,
    ) by {
        let e = t[i].span.end as int;
        assert(starts_char(b, e));
        if e < b.len() {
            vstd::utf8::is_char_boundary_iff_not_is_continuation_byte(b, e);
        }
    }
    assert forall|i: int| 0 <= i < t.len() implies vstd::utf8::is_char_boundary(
        b,
        t[i].span.start as int,
    ) by {
        if i > 0 {
            assert(t[i - 1].span.end == t[i].span.start);
        }
    }
}

/// Lex every byte, trivia and invalid text included.
pub fn lex(source: &str) -> (tokens: Vec<Token>)
    ensures
        tokens_partition(tokens@, source.spec_bytes().len()),
        tokens@ == spec_lex(source.spec_bytes()),
        forall|i: int|
            0 <= i < tokens@.len() ==> vstd::utf8::is_char_boundary(
                source.spec_bytes(),
                (#[trigger] tokens@[i]).span.start as int,
            ) && vstd::utf8::is_char_boundary(source.spec_bytes(), tokens@[i].span.end as int),
{
    let b = source.as_bytes();
    let n = b.len();
    let mut modes: Vec<Mode> = Vec::new();
    let mut tokens: Vec<Token> = Vec::new();
    let mut pos: usize = 0;
    while pos < n
        invariant
            n == b@.len(),
            b@ == source.spec_bytes(),
            lexing(b@, modes@, tokens@, pos as nat),
            tokens@ + lex_from(b@, modes@, pos as int) == spec_lex(b@),
        decreases n - pos, modes@.len(),
    {
        let ghost tokens0 = tokens@;
        let ghost modes0 = modes@;
        let ghost pos0 = pos as int;
        let top: usize = modes.len();
        let mut path_mode = false;
        let mut string_mode = false;
        let mut indented = false;
        if top > 0 {
            match &modes[top - 1] {
                Mode::Path => {
                    path_mode = true;
                },
                Mode::Str { indented: i } => {
                    string_mode = true;
                    indented = *i;
                },
                Mode::Interp { .. } => {},
            }
        }
        if path_mode {
            pos = step_path(b, &mut modes, &mut tokens, pos);
        } else if string_mode {
            pos = step_string(b, indented, &mut modes, &mut tokens, pos);
        } else {
            pos = step_default(b, &mut modes, &mut tokens, pos);
        }
        proof {
            let s = lex_step(b@, modes0, pos0);
            assert(tokens@ == tokens0 + emitted(s.0));
            assert(lex_from(b@, modes0, pos0) == emitted(s.0) + lex_from(b@, s.1, s.2));
            assert(tokens@ + lex_from(b@, modes@, pos as int) =~= tokens0 + lex_from(b@, modes0, pos0));
        }
    }
    proof {
        vstd::utf8::encode_utf8_valid_utf8(source@);
        lemma_tokens_on_boundaries(b@);
    }
    tokens
}

// ---------------------------------------------------------------------------
// Token budgets.

/// nxc text within the budgets: its bytes, the significant tokens of its
/// token stream and that stream's delimiter nesting.
pub open spec fn nxc_within(text: Seq<char>, limits: Limits) -> bool {
    let t = spec_lex(vstd::utf8::encode_utf8(text));
    &&& byte_len(text) <= limits.spec_source_bytes()
    &&& significant_count(t, t.len() as int) <= limits.spec_tokens()
    &&& peak_depth(t, t.len() as int) <= MAX_DEPTH
}

/// The budget message of nxc source within the byte budget whose tokens
/// exceed the token budget, or, within that, nest past the limit; empty when
/// it is within both.
pub open spec fn nxc_budget_message(text: Seq<char>, limits: Limits) -> Seq<char> {
    let t = spec_lex(vstd::utf8::encode_utf8(text));
    let count = significant_count(t, t.len() as int);
    let peak = peak_depth(t, t.len() as int);
    if count > limits.spec_tokens() {
        exceeded_message("source token"@, count as int, limits.spec_tokens() as int)
    } else if peak > MAX_DEPTH {
        exceeded_message("delimiter depth"@, peak as int, MAX_DEPTH as int)
    } else {
        Seq::empty()
    }
}

/// No token of the stream is an error token.
pub open spec fn lex_clean(t: Seq<Token>) -> bool {
    forall|i: int| 0 <= i < t.len() ==> (#[trigger] t[i]).kind != SyntaxKind::ErrorToken
}

/// Delimiter nesting after the first `n` tokens; a closing token at depth zero
/// leaves it at zero.
pub open spec fn delimiter_depth(t: Seq<Token>, n: int) -> nat
    decreases n,
{
    if n <= 0 || n > t.len() {
        0
    } else {
        let d = delimiter_depth(t, n - 1);
        let k = t[n - 1].kind;
        if spec_is_opening(k) {
            d + 1
        } else if spec_is_closing(k) {
            if d == 0 {
                0
            } else {
                (d - 1) as nat
            }
        } else {
            d
        }
    }
}

/// The deepest nesting reached within the first `n` tokens.
pub open spec fn peak_depth(t: Seq<Token>, n: int) -> nat
    decreases n,
{
    if n <= 0 || n > t.len() {
        0
    } else {
        let p = peak_depth(t, n - 1);
        let d = delimiter_depth(t, n);
        if d > p {
            d
        } else {
            p
        }
    }
}

/// The number of tokens other than trivia among the first `n`.
pub open spec fn significant_count(t: Seq<Token>, n: int) -> nat
    decreases n,
{
    if n <= 0 || n > t.len() {
        0
    } else {
        significant_count(t, n - 1) + if spec_is_trivia(t[n - 1].kind) {
            0nat
        } else {
            1nat
        }
    }
}

/// The number of significant tokens and the deepest delimiter nesting.
pub fn measure(tokens: &Vec<Token>) -> (r: (usize, usize))
    ensures
        r.0 == significant_count(tokens@, tokens@.len() as int),
        r.1 == peak_depth(tokens@, tokens@.len() as int),
{
    let mut count: usize = 0;
    let mut depth: usize = 0;
    let mut peak: usize = 0;
    let mut i: usize = 0;
    while i < tokens.len()
        invariant
            i <= tokens@.len(),
            count == significant_count(tokens@, i as int),
            depth == delimiter_depth(tokens@, i as int),
            peak == peak_depth(tokens@, i as int),
            count <= i,
            depth <= i,
        decreases tokens@.len() - i,
    {
        let kind = tokens[i].kind;
        if !kind.is_trivia() {
            count += 1;
        }
        if kind.is_opening() {
            depth += 1;
        } else if kind.is_closing() {
            if depth > 0 {
                depth -= 1;
            }
        }
        if depth > peak {
            peak = depth;
        }
        i += 1;
    }
    (count, peak)
}

} // verus!
