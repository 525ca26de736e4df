//! Decoding of string literal fragments.
use vstd::prelude::*;

use crate::ir::{
    is_literal, nonempty_unless_interpolated, parts_normalized, pieces_of, push_string_literal,
    piece_of, push_text, Piece, StringPart,
};
use crate::text::{chars_of, string_of};

verus! {

/// The character that a backslash escape of `c` denotes.
pub open spec fn unescape(c: char) -> char {
    if c == 'n' {
        '\n'
    } else if c == 'r' {
        '\r'
    } else if c == 't' {
        '\t'
    } else {
        c
    }
}

/// Prefix `o` onto a successful decoding; keep an error.
pub open spec fn prefixed(o: Seq<char>, r: Result<Seq<char>, Seq<char>>) -> Result<Seq<char>, Seq<char>> {
    match r {
        Ok(x) => Ok(o + x),
        Err(e) => Err(e),
    }
}

/// How many characters the first decoded unit of `s` spans.
pub open spec fn decode_step(s: Seq<char>) -> int {
    if s[0] == '\\' {
        2
    } else if s[0] == '\r' && s.len() > 1 && s[1] == '\n' {
        2
    } else {
        1
    }
}

/// The character the first decoded unit of `s` denotes.
pub open spec fn decode_char(s: Seq<char>) -> char {
    if s[0] == '\\' {
        unescape(s[1])
    } else if s[0] == '\r' {
        '\n'
    } else {
        s[0]
    }
}

/// A double-quoted Nix string fragment, decoded: backslash escapes denote
/// their character (`\n`, `\r`, `\t` control characters, any other character
/// itself), unescaped CR and CRLF become LF, and NUL is refused.
pub open spec fn spec_decode(s: Seq<char>) -> Result<Seq<char>, Seq<char>>
    decreases s.len(),
{
    if s.len() == 0 {
        Ok(Seq::empty())
    } else if s[0] == '\\' && s.len() == 1 {
        Err("unterminated string escape"@)
    } else if decode_char(s) == '\0' {
        Err("Nix strings cannot contain null bytes"@)
    } else {
        prefixed(seq![decode_char(s)], spec_decode(s.subrange(decode_step(s), s.len() as int)))
    }
}

/// Decode a double-quoted Nix string fragment, without its delimiters.
pub(crate) fn decode(text: &str) -> (r: Result<String, &'static str>)
    ensures
        match r {
            Ok(t) => spec_decode(text@) == Ok::<Seq<char>, Seq<char>>(t@),
            Err(m) => spec_decode(text@) == Err::<Seq<char>, Seq<char>>(m@),
        },
{
    let chars = chars_of(text);
    let ghost s = chars@;
    let n = chars.len();
    let mut out: Vec<char> = Vec::new();
    let mut i: usize = 0;
    assert(s.subrange(0, n as int) =~= s);
    while i < n
        invariant
            s == chars@,
            s == text@,
            n == s.len(),
            0 <= i <= n,
            spec_decode(s) == prefixed(out@, spec_decode(s.subrange(i as int, n as int))),
        decreases n - i,
    {
        let ghost rest = s.subrange(i as int, n as int);
        let c = chars[i];
        assert(rest[0] == c);
        let (decoded, step) = if c == '\\' {
            if i + 1 == n {
                proof {
                    reveal_strlit("unterminated string escape");
                }
                return Err("unterminated string escape");
            }
            let e = chars[i + 1];
            assert(rest[1] == e);
            (if e == 'n' {
                '\n'
            } else if e == 'r' {
                '\r'
            } else if e == 't' {
                '\t'
            } else {
                e
            }, 2usize)
        } else if c == '\r' {
            if i + 1 < n && chars[i + 1] == '\n' {
                assert(rest[1] == '\n');
                ('\n', 2usize)
            } else {
                ('\n', 1usize)
            }
        } else {
            (c, 1usize)
        };
        assert(decoded == decode_char(rest));
        assert(step == decode_step(rest));
        if decoded == '\0' {
            return Err("Nix strings cannot contain null bytes");
        }
        let ghost before = out@;
        out.push(decoded);
        assert(rest.subrange(decode_step(rest), rest.len() as int) =~= s.subrange(
            i + step,
            n as int,
        ));
        i = i + step;
        assert(out@ =~= before + seq![decoded]);
        assert(prefixed(out@, spec_decode(s.subrange(i as int, n as int))) == prefixed(
            before,
            prefixed(seq![decoded], spec_decode(s.subrange(i as int, n as int))),
        )) by {
            match spec_decode(s.subrange(i as int, n as int)) {
                Ok(x) => {
                    assert(out@ + x =~= before + (seq![decoded] + x));
                },
                Err(_) => {},
            }
        }
    }
    assert(s.subrange(n as int, n as int) =~= Seq::<char>::empty());
    assert(out@ + Seq::<char>::empty() =~= out@);
    Ok(string_of(out.as_slice()))
}

// ---------------------------------------------------------------------------
// Indented strings (`''…''`). Their raw text is read in fragments: runs of
// plain text up to the next `''`, and escapes (`''\''`, `''$`, `''\` and a
// character). The least indentation of the lines is measured first, then each
// line loses that many leading spaces.

/// Whether `''` starts at `j`.
pub open spec fn quotes_at(s: Seq<char>, j: int) -> bool {
    0 <= j && j + 1 < s.len() && s[j] == '\'' && s[j + 1] == '\''
}

/// The end of a run of plain text from `j`: the next `''`, or the end.
pub open spec fn plain_end(s: Seq<char>, j: int) -> int
    decreases s.len() - j,
{
    if j < 0 || j >= s.len() || quotes_at(s, j) {
        j
    } else {
        plain_end(s, j + 1)
    }
}

/// The fragment at `i`: its length and whether it is plain text; none where
/// a `''` starts no escape.
pub open spec fn fragment_at(s: Seq<char>, i: int) -> Option<(int, bool)> {
    if !quotes_at(s, i) {
        Some((plain_end(s, i + 1) - i, true))
    } else if i + 2 < s.len() && (s[i + 2] == '\'' || s[i + 2] == '$') {
        Some((3, false))
    } else if i + 2 < s.len() && s[i + 2] == '\\' && i + 3 < s.len() {
        Some((4, false))
    } else {
        None
    }
}

/// The characters a fragment stands for: plain text itself, or what its
/// escape denotes.
pub open spec fn fragment_text(s: Seq<char>, i: int, len: int, plain: bool) -> Seq<char> {
    if plain {
        s.subrange(i, i + len)
    } else if len == 3 {
        if s[i + 2] == '$' {
            seq!['$']
        } else {
            seq!['\'', '\'']
        }
    } else {
        seq![unescape(s[i + 3])]
    }
}

/// `n + 1`, saturating at `usize::MAX`.
pub open spec fn bumped(n: int) -> int {
    if n + 1 <= usize::MAX {
        n + 1
    } else {
        usize::MAX as int
    }
}

/// The indentation state after a line's first non-space content: the least
/// indentation, the current line's indentation, and whether the line has
/// had only spaces so far.
pub open spec fn settled(st: (int, int, bool)) -> (int, int, bool) {
    (if st.2 && st.1 < st.0 {
        st.1
    } else {
        st.0
    }, st.1, false)
}

pub open spec fn indent_char(st: (int, int, bool), c: char) -> (int, int, bool) {
    if c == '\n' {
        (st.0, 0, true)
    } else if st.2 && c == ' ' {
        (st.0, bumped(st.1), true)
    } else {
        settled(st)
    }
}

/// The indentation state after the characters `j..end` of plain text.
pub open spec fn indent_run(s: Seq<char>, j: int, end: int, st: (int, int, bool)) -> (int, int, bool)
    decreases end - j,
{
    if j >= end {
        st
    } else {
        indent_run(s, j + 1, end, indent_char(st, s[j]))
    }
}

/// The indentation state after the fragments of `s` from `i`; an escape
/// ends a line's indentation.
pub open spec fn indent_text(s: Seq<char>, i: int, st: (int, int, bool)) -> Option<(int, int, bool)>
    decreases s.len() - i,
{
    if i < 0 || i >= s.len() {
        Some(st)
    } else {
        match fragment_at(s, i) {
            Some((len, plain)) => if 1 <= len && i + len <= s.len() {
                indent_text(
                    s,
                    i + len,
                    if plain {
                        indent_run(s, i, i + len, st)
                    } else {
                        settled(st)
                    },
                )
            } else {
                None
            },
            None => None,
        }
    }
}

/// The raw text of part `k`: for the first part, its text after the opening line.
pub open spec fn raw_text(parts: Seq<Piece>, first: Seq<char>, k: int) -> Seq<char> {
    match parts[k] {
        Piece::Text(t) => if k == 0 {
            first
        } else {
            t
        },
        Piece::Code(_) => Seq::empty(),
    }
}

/// The indentation state after the parts from `k`; an interpolation ends a
/// line's indentation.
pub open spec fn indent_parts(parts: Seq<Piece>, first: Seq<char>, k: int, st: (
    int,
    int,
    bool,
)) -> Option<(int, int, bool)>
    decreases parts.len() - k,
{
    if k < 0 || k >= parts.len() {
        Some(st)
    } else if parts[k] is Code {
        indent_parts(parts, first, k + 1, settled(st))
    } else {
        match indent_text(raw_text(parts, first, k), 0, st) {
            Some(next) => indent_parts(parts, first, k + 1, next),
            None => None,
        }
    }
}

/// Characters `j..` of a fragment's text with leading spaces beyond
/// `minimum` kept, appended to `acc`; the state is whether the line has had
/// only spaces and how many. NUL is refused.
pub open spec fn strip_run(d: Seq<char>, j: int, minimum: int, st: (bool, int), acc: Seq<char>) -> Option<
    ((bool, int), Seq<char>),
>
    decreases d.len() - j,
{
    if j < 0 || j >= d.len() {
        Some((st, acc))
    } else if d[j] == '\0' {
        None
    } else if st.0 && d[j] == ' ' {
        strip_run(
            d,
            j + 1,
            minimum,
            (true, bumped(st.1)),
            if st.1 >= minimum {
                acc.push(' ')
            } else {
                acc
            },
        )
    } else {
        strip_run(d, j + 1, minimum, (d[j] == '\n', 0), acc.push(d[j]))
    }
}

/// The number of spaces that end `t`.
pub open spec fn trailing_spaces(t: Seq<char>) -> nat
    decreases t.len(),
{
    if t.len() > 0 && t.last() == ' ' {
        1 + trailing_spaces(t.drop_last())
    } else {
        0
    }
}

/// Text whose last line holds only spaces loses those spaces.
pub open spec fn trim_blank_line(t: Seq<char>) -> Seq<char> {
    let j = t.len() - trailing_spaces(t);
    if j > 0 && t[j - 1] == '\n' {
        t.take(j)
    } else {
        t
    }
}

/// The pieces after the fragments of `s` from `i`, each stripped and
/// appended as text; the last fragment of the string's last part also loses
/// a trailing blank line.
pub open spec fn strip_text(
    s: Seq<char>,
    i: int,
    minimum: int,
    last: bool,
    st: (bool, int),
    out: Seq<Piece>,
) -> Option<((bool, int), Seq<Piece>)>
    decreases s.len() - i,
{
    if i < 0 || i >= s.len() {
        Some((st, out))
    } else {
        match fragment_at(s, i) {
            Some((len, plain)) => if 1 <= len && i + len <= s.len() {
                match strip_run(fragment_text(s, i, len, plain), 0, minimum, st, Seq::empty()) {
                    Some((next, t)) => strip_text(
                        s,
                        i + len,
                        minimum,
                        last,
                        next,
                        push_text(
                            out,
                            if last && i + len == s.len() {
                                trim_blank_line(t)
                            } else {
                                t
                            },
                        ),
                    ),
                    None => None,
                }
            } else {
                None
            },
            None => None,
        }
    }
}

/// The pieces after the parts from `k`.
pub open spec fn strip_parts(
    parts: Seq<Piece>,
    first: Seq<char>,
    k: int,
    minimum: int,
    st: (bool, int),
    out: Seq<Piece>,
) -> Option<Seq<Piece>>
    decreases parts.len() - k,
{
    if k < 0 || k >= parts.len() {
        Some(out)
    } else {
        match parts[k] {
            Piece::Code(e) => strip_parts(
                parts,
                first,
                k + 1,
                minimum,
                (false, 0),
                out.push(Piece::Code(e)),
            ),
            Piece::Text(_) => match strip_text(
                raw_text(parts, first, k),
                0,
                minimum,
                k == parts.len() - 1,
                st,
                out,
            ) {
                Some((next, out2)) => strip_parts(parts, first, k + 1, minimum, next, out2),
                None => None,
            },
        }
    }
}

/// The number of spaces that start `t`.
pub open spec fn leading_spaces(t: Seq<char>) -> nat
    decreases t.len(),
{
    if t.len() > 0 && t[0] == ' ' {
        1 + leading_spaces(t.skip(1))
    } else {
        0
    }
}

/// Text after an opening line of spaces, if it starts with one.
pub open spec fn after_opening_line(t: Seq<char>) -> Seq<char> {
    let n = leading_spaces(t);
    if n < t.len() && t[n as int] == '\n' {
        t.skip(n + 1int)
    } else {
        t
    }
}

/// The first part's raw text, if it is literal.
pub open spec fn first_text(parts: Seq<Piece>) -> Seq<char> {
    match parts[0] {
        Piece::Text(t) => t,
        Piece::Code(_) => Seq::empty(),
    }
}

/// The lowered pieces of an indented string's raw parts, or none where its
/// text holds a stray `''` or a NUL.
pub open spec fn indented_pieces(parts: Seq<Piece>) -> Option<Seq<Piece>> {
    if parts.len() == 0 {
        Some(Seq::empty())
    } else {
        let first = after_opening_line(first_text(parts));
        match indent_parts(parts, first, 0, (1000000, 0, true)) {
            Some(st) => strip_parts(parts, first, 0, st.0, (true, 0), Seq::empty()),
            None => None,
        }
    }
}

/// The next fragment of indented string text from `i`: a raw run up to the
/// next `''`, or one escape (`\'\'\'`, `''$`, or `''\` and a character).
fn indented_chunk(chars: &Vec<char>, i: usize) -> (r: Result<(usize, bool), &'static str>)
    requires
        i < chars@.len(),
    ensures
        r matches Ok((len, raw)) ==> 1 <= len && i + len <= chars@.len() && (!raw ==> 3 <= len),
        match r {
            Ok((len, raw)) => fragment_at(chars@, i as int) == Some((len as int, raw)),
            Err(_) => fragment_at(chars@, i as int) is None,
        },
{
    let n = chars.len();
    let delimiter = i + 1 < n && chars[i] == '\'' && chars[i + 1] == '\'';
    if !delimiter {
        let mut j = i + 1;
        while j < n && !(j + 1 < n && chars[j] == '\'' && chars[j + 1] == '\'')
            invariant
                i < j <= n,
                n == chars@.len(),
                plain_end(chars@, i + 1) == plain_end(chars@, j as int),
            decreases n - j,
        {
            j += 1;
        }
        return Ok((j - i, true));
    }
    if i + 2 < n && (chars[i + 2] == '\'' || chars[i + 2] == '$') {
        return Ok((3, false));
    }
    if i + 2 < n && chars[i + 2] == '\\' {
        if i + 3 < n {
            return Ok((4, false));
        }
        return Err("unterminated indented string escape");
    }
    Err("unexpected indented string delimiter")
}

/// The text an indented-string escape stands for.
fn indented_escape(chars: &Vec<char>, i: usize, len: usize) -> (r: Result<Vec<char>, &'static str>)
    requires
        3 <= len,
        i + len <= chars@.len(),
        fragment_at(chars@, i as int) == Some((len as int, false)),
    ensures
        match r {
            Ok(v) => v@ == fragment_text(chars@, i as int, len as int, false),
            Err(_) => fragment_text(chars@, i as int, len as int, false) == seq!['\0'],
        },
{
    let n = chars.len();
    assert(i + len <= n);
    let mut out: Vec<char> = Vec::new();
    if len == 3 {
        if chars[i + 2] == '$' {
            out.push('$');
        } else {
            out.push('\'');
            out.push('\'');
        }
        assert(out@ =~= fragment_text(chars@, i as int, len as int, false));
        return Ok(out);
    }
    let e = chars[i + 3];
    let c = if e == 'n' {
        '\n'
    } else if e == 'r' {
        '\r'
    } else if e == 't' {
        '\t'
    } else {
        e
    };
    if c == '\0' {
        return Err("Nix strings cannot contain null bytes");
    }
    out.push(c);
    assert(out@ =~= fragment_text(chars@, i as int, len as int, false));
    Ok(out)
}

/// Append an interpolation; the parts stay normalized.
fn push_interpolation(parts: &mut Vec<StringPart>, e: crate::ir::Expr)
    requires
        parts_normalized(old(parts)@),
    ensures
        parts_normalized(final(parts)@),
        pieces_of(final(parts)@) == pieces_of(old(parts)@).push(Piece::Code(e)),
{
    let ghost before = parts@;
    parts.push(StringPart::Interpolation(e));
    assert(pieces_of(parts@) =~= pieces_of(before).push(Piece::Code(e)));
    assert forall|i: int| 0 <= i < parts@.len() - 1 implies !(is_literal(#[trigger] parts@[i])
        && is_literal(parts@[i + 1])) by {
        if i + 1 < before.len() {
            assert(parts@[i] == before[i] && parts@[i + 1] == before[i + 1]);
        }
    }
    assert forall|i: int| 0 <= i < parts@.len() implies nonempty_unless_interpolated(
        #[trigger] parts@[i],
    ) by {
        if i < before.len() {
            assert(parts@[i] == before[i]);
        }
    }
}

/// The literal characters of the parts, or empty for an interpolation.
fn literal_chars(parts: &Vec<StringPart>, k: usize) -> (r: Vec<char>)
    requires
        k < parts@.len(),
    ensures
        r@ == match parts@[k as int] {
            StringPart::Literal(t) => t@,
            StringPart::Interpolation(_) => Seq::<char>::empty(),
        },
{
    match &parts[k] {
        StringPart::Literal(t) => chars_of(t.as_str()),
        StringPart::Interpolation(_) => Vec::new(),
    }
}

/// The least indentation of the lines of an indented string: spaces before
/// the first other character of each line that has one; an escape or an
/// interpolation ends a line's indentation.
fn minimum_indentation(parts: &Vec<StringPart>, first: &Vec<char>) -> (r: Result<usize, &'static str>)
    requires
        parts@.len() > 0,
    ensures
        match r {
            Ok(m) => indent_parts(pieces_of(parts@), first@, 0, (1000000, 0, true)) matches Some(st) && st.0
                == m,
            Err(_) => indent_parts(pieces_of(parts@), first@, 0, (1000000, 0, true)) is None,
        },
{
    let ghost goal = indent_parts(pieces_of(parts@), first@, 0, (1000000, 0, true));
    let mut minimum: usize = 1_000_000;
    let mut indentation: usize = 0;
    let mut at_start = true;
    let mut k: usize = 0;
    while k < parts.len()
        invariant
            k <= parts@.len(),
            goal == indent_parts(pieces_of(parts@), first@, 0, (1000000, 0, true)),
            goal == indent_parts(
                pieces_of(parts@),
                first@,
                k as int,
                (minimum as int, indentation as int, at_start),
            ),
        decreases parts@.len() - k,
    {
        let is_literal = match &parts[k] {
            StringPart::Literal(_) => true,
            StringPart::Interpolation(_) => false,
        };
        if !is_literal {
            if at_start && indentation < minimum {
                minimum = indentation;
            }
            at_start = false;
        } else {
            let chars = if k == 0 {
                copy_chars(first)
            } else {
                literal_chars(parts, k)
            };
            assert(chars@ == raw_text(pieces_of(parts@), first@, k as int));
            let ghost st0 = (minimum as int, indentation as int, at_start);
            let mut i: usize = 0;
            while i < chars.len()
                invariant
                    i <= chars@.len(),
                    goal == indent_parts(pieces_of(parts@), first@, 0, (1000000, 0, true)),
                    goal == indent_parts(pieces_of(parts@), first@, k as int, st0),
                    chars@ == raw_text(pieces_of(parts@), first@, k as int),
                    parts@[k as int] is Literal,
                    pieces_of(parts@)[k as int] is Text,
                    k < parts@.len(),
                    indent_text(chars@, 0, st0) == indent_text(
                        chars@,
                        i as int,
                        (minimum as int, indentation as int, at_start),
                    ),
                decreases chars@.len() - i,
            {
                let (len, raw) = match indented_chunk(&chars, i) {
                    Ok(x) => x,
                    Err(e) => {
                        assert(indent_text(
                            chars@,
                            i as int,
                            (minimum as int, indentation as int, at_start),
                        ) is None);
                        assert(indent_parts(pieces_of(parts@), first@, k as int, st0) is None);
                        return Err(e);
                    },
                };
                if !raw {
                    if at_start && indentation < minimum {
                        minimum = indentation;
                    }
                    at_start = false;
                } else {
                    let end = i + len;
                    let ghost stc = (minimum as int, indentation as int, at_start);
                    let mut j = i;
                    while j < end
                        invariant
                            i <= j <= end <= chars@.len(),
                            indent_run(chars@, i as int, end as int, stc) == indent_run(
                                chars@,
                                j as int,
                                end as int,
                                (minimum as int, indentation as int, at_start),
                            ),
                        decreases end - j,
                    {
                        let c = chars[j];
                        if c == '\n' {
                            at_start = true;
                            indentation = 0;
                        } else if at_start {
                            if c == ' ' {
                                indentation = indentation.saturating_add(1);
                            } else {
                                if indentation < minimum {
                                    minimum = indentation;
                                }
                                at_start = false;
                            }
                        }
                        j += 1;
                    }
                }
                i = i + len;
            }
        }
        k += 1;
    }
    Ok(minimum)
}

/// A copy of the characters.
fn copy_chars(v: &Vec<char>) -> (r: Vec<char>)
    ensures
        r@ == v@,
{
    let mut r: Vec<char> = Vec::new();
    let mut i: usize = 0;
    while i < v.len()
        invariant
            i <= v@.len(),
            r@ == v@.take(i as int),
        decreases v@.len() - i,
    {
        r.push(v[i]);
        i += 1;
        assert(r@ =~= v@.take(i as int));
    }
    assert(v@.take(v@.len() as int) =~= v@);
    r
}

/// Whether `s` ends in a line feed followed only by spaces; the position
/// after that line feed.
fn trailing_blank_line(s: &Vec<char>) -> (r: Option<usize>)
    ensures
        r matches Some(p) ==> p <= s@.len(),
        match r {
            Some(p) => trim_blank_line(s@) == s@.take(p as int),
            None => trim_blank_line(s@) == s@,
        },
{
    let mut j = s.len();
    proof {
        assert(s@.take(j as int) =~= s@);
    }
    while j > 0 && s[j - 1] == ' '
        invariant
            j <= s@.len(),
            trailing_spaces(s@) == (s@.len() - j) + trailing_spaces(s@.take(j as int)),
        decreases j,
    {
        assert(s@.take(j as int).drop_last() =~= s@.take(j - 1));
        j -= 1;
    }
    assert(trailing_spaces(s@.take(j as int)) == 0);
    if j > 0 && s[j - 1] == '\n' {
        Some(j)
    } else {
        None
    }
}

/// What remains after part `k` of an indented string, given the outcome of
/// stripping that part's text.
pub open spec fn after_part(
    parts: Seq<Piece>,
    first: Seq<char>,
    k: int,
    minimum: int,
    r: Option<((bool, int), Seq<Piece>)>,
) -> Option<Seq<Piece>> {
    match r {
        Some((st, out)) => strip_parts(parts, first, k + 1, minimum, st, out),
        None => None,
    }
}

/// Lower the raw parts of an indented string (`''…''`): drop a blank
/// opening line, strip the common indentation, decode escapes, and drop
/// trailing spaces after the last line feed of the final fragment.
pub(crate) fn lower_indented(parts: Vec<StringPart>) -> (r: Result<Vec<StringPart>, &'static str>)
    ensures
        r matches Ok(p) ==> parts_normalized(p@),
        match r {
            Ok(p) => indented_pieces(pieces_of(parts@)) == Some(pieces_of(p@)),
            Err(_) => indented_pieces(pieces_of(parts@)) is None,
        },
{
    if parts.len() == 0 {
        let empty: Vec<StringPart> = Vec::new();
        assert(pieces_of(empty@) =~= Seq::<Piece>::empty());
        return Ok(empty);
    }
    let ghost all = pieces_of(parts@);
    // Only spaces followed by LF belong to the opening delimiter.
    let mut first = literal_chars(&parts, 0);
    assert(first@ == first_text(all));
    let mut spaces: usize = 0;
    assert(first@.skip(0) =~= first@);
    while spaces < first.len() && first[spaces] == ' '
        invariant
            spaces <= first@.len(),
            leading_spaces(first@) == spaces + leading_spaces(first@.skip(spaces as int)),
        decreases first@.len() - spaces,
    {
        assert(first@.skip(spaces as int).skip(1) =~= first@.skip(spaces + 1));
        spaces += 1;
    }
    assert(leading_spaces(first@.skip(spaces as int)) == 0);
    if spaces < first.len() && first[spaces] == '\n' {
        let mut rest: Vec<char> = Vec::new();
        let mut i = spaces + 1;
        while i < first.len()
            invariant
                spaces + 1 <= i <= first@.len(),
                rest@ == first@.subrange(spaces + 1, i as int),
            decreases first@.len() - i,
        {
            rest.push(first[i]);
            i += 1;
            assert(rest@ =~= first@.subrange(spaces + 1, i as int));
        }
        assert(rest@ =~= first@.skip(spaces + 1));
        first = rest;
    }
    assert(first@ == after_opening_line(first_text(all)));
    let minimum = match minimum_indentation(&parts, &first) {
        Ok(m) => m,
        Err(e) => {
            return Err(e);
        },
    };
    let ghost goal = indented_pieces(all);
    let mut result: Vec<StringPart> = Vec::new();
    let mut at_start = true;
    let mut dropped: usize = 0;
    let last_part = parts.len() - 1;
    let mut k: usize = 0;
    let total = parts.len();
    let mut rest = parts;
    assert(pieces_of(result@) =~= Seq::<Piece>::empty());
    assert(parts@.skip(0) =~= parts@);
    while rest.len() > 0
        invariant
            pieces_of(parts@) == all,
            parts_normalized(result@),
            total == all.len(),
            last_part == total - 1,
            k + rest@.len() == total,
            rest@ == parts@.skip(k as int),
            goal == indented_pieces(all),
            goal == strip_parts(
                all,
                first@,
                k as int,
                minimum as int,
                (at_start, dropped as int),
                pieces_of(result@),
            ),
        decreases rest@.len(),
    {
        let part = rest.remove(0);
        assert(part == parts@[k as int]);
        assert(piece_of(part) == all[k as int]);
        assert(rest@ =~= parts@.skip(k + 1));
        let chars = match part {
            StringPart::Interpolation(e) => {
                at_start = false;
                dropped = 0;
                push_interpolation(&mut result, e);
                k += 1;
                continue;
            },
            StringPart::Literal(t) => if k == 0 {
                copy_chars(&first)
            } else {
                chars_of(t.as_str())
            },
        };
        assert(chars@ == raw_text(all, first@, k as int));
        let ghost last = k == last_part;
        let mut i: usize = 0;
        while i < chars.len()
            invariant
                pieces_of(parts@) == all,
                parts_normalized(result@),
                i <= chars@.len(),
                goal == indented_pieces(all),
                last == (k == last_part),
                goal == after_part(
                    all,
                    first@,
                    k as int,
                    minimum as int,
                    strip_text(
                        chars@,
                        i as int,
                        minimum as int,
                        last,
                        (at_start, dropped as int),
                        pieces_of(result@),
                    ),
                ),
            decreases chars@.len() - i,
        {
            let (len, raw) = match indented_chunk(&chars, i) {
                Ok(x) => x,
                Err(e) => {
                    assert(strip_text(
                        chars@,
                        i as int,
                        minimum as int,
                        last,
                        (at_start, dropped as int),
                        pieces_of(result@),
                    ) is None);
                    return Err(e);
                },
            };
            let decoded: Vec<char> = if raw {
                let mut d: Vec<char> = Vec::new();
                let end = i + len;
                let mut j = i;
                while j < end
                    invariant
                        i <= j <= end <= chars@.len(),
                        d@ == chars@.subrange(i as int, j as int),
                    decreases end - j,
                {
                    d.push(chars[j]);
                    j += 1;
                    assert(d@ =~= chars@.subrange(i as int, j as int));
                }
                d
            } else {
                match indented_escape(&chars, i, len) {
                    Ok(d) => d,
                    Err(e) => {
                        assert(strip_run(
                            seq!['\0'],
                            0,
                            minimum as int,
                            (at_start, dropped as int),
                            Seq::empty(),
                        ) is None);
                        assert(strip_text(
                            chars@,
                            i as int,
                            minimum as int,
                            last,
                            (at_start, dropped as int),
                            pieces_of(result@),
                        ) is None);
                        return Err(e);
                    },
                }
            };
            assert(decoded@ == fragment_text(chars@, i as int, len as int, raw));
            let ghost st0 = (at_start, dropped as int);
            let ghost out0 = pieces_of(result@);
            let ghost i0 = i as int;
            let mut stripped: Vec<char> = Vec::new();
            let mut j: usize = 0;
            while j < decoded.len()
                invariant
                    pieces_of(parts@) == all,
                    j <= decoded@.len(),
                    goal == indented_pieces(all),
                    goal == after_part(
                        all,
                        first@,
                        k as int,
                        minimum as int,
                        strip_text(chars@, i0, minimum as int, last, st0, out0),
                    ),
                    fragment_at(chars@, i0) == Some((len as int, raw)),
                    1 <= len,
                    0 <= i0,
                    i0 + len <= chars@.len(),
                    decoded@ == fragment_text(chars@, i0, len as int, raw),
                    strip_run(decoded@, 0, minimum as int, st0, Seq::empty()) == strip_run(
                        decoded@,
                        j as int,
                        minimum as int,
                        (at_start, dropped as int),
                        stripped@,
                    ),
                decreases decoded@.len() - j,
            {
                let c = decoded[j];
                if c == '\0' {
                    assert(strip_run(
                        decoded@,
                        j as int,
                        minimum as int,
                        (at_start, dropped as int),
                        stripped@,
                    ) is None);
                    assert(strip_run(
                        fragment_text(chars@, i0, len as int, raw),
                        0,
                        minimum as int,
                        st0,
                        Seq::empty(),
                    ) is None);
                    assert(strip_text(chars@, i0, minimum as int, last, st0, out0) is None);
                    return Err("Nix strings cannot contain null bytes");
                }
                if at_start && c == ' ' {
                    if dropped >= minimum {
                        stripped.push(c);
                    }
                    dropped = dropped.saturating_add(1);
                } else {
                    stripped.push(c);
                    at_start = c == '\n';
                    dropped = 0;
                }
                j += 1;
            }
            let ghost t = stripped@;
            i = i + len;
            if k == last_part && i == chars.len() {
                match trailing_blank_line(&stripped) {
                    Some(p) => {
                        stripped.truncate(p);
                    },
                    None => {},
                }
            }
            let text = string_of(stripped.as_slice());
            push_string_literal(&mut result, text);
        }
        k += 1;
    }
    Ok(result)
}


/// Measuring a run of plain text never raises the least indentation.
proof fn lemma_indent_run_lowers(s: Seq<char>, j: int, end: int, st: (int, int, bool))
    ensures
        indent_run(s, j, end, st).0 <= st.0,
    decreases end - j,
{
    if j < end {
        lemma_indent_run_lowers(s, j + 1, end, indent_char(st, s[j]));
    }
}

/// Measuring fragments never raises the least indentation.
proof fn lemma_indent_text_lowers(s: Seq<char>, i: int, st: (int, int, bool))
    ensures
        indent_text(s, i, st) matches Some(r) ==> r.0 <= st.0,
    decreases s.len() - i,
{
    if 0 <= i < s.len() {
        match fragment_at(s, i) {
            Some((len, plain)) => if 1 <= len && i + len <= s.len() {
                if plain {
                    lemma_indent_run_lowers(s, i, i + len, st);
                    lemma_indent_text_lowers(s, i + len, indent_run(s, i, i + len, st));
                } else {
                    lemma_indent_text_lowers(s, i + len, settled(st));
                }
            },
            None => {},
        }
    }
}

/// Measuring the parts from `k` never raises the least indentation.
pub proof fn lemma_indent_parts_lowers(
    parts: Seq<Piece>,
    first: Seq<char>,
    k: int,
    st: (int, int, bool),
)
    ensures
        indent_parts(parts, first, k, st) matches Some(r) ==> r.0 <= st.0,
    decreases parts.len() - k,
{
    if 0 <= k < parts.len() {
        if parts[k] is Code {
            lemma_indent_parts_lowers(parts, first, k + 1, settled(st));
        } else {
            lemma_indent_text_lowers(raw_text(parts, first, k), 0, st);
            match indent_text(raw_text(parts, first, k), 0, st) {
                Some(next) => lemma_indent_parts_lowers(parts, first, k + 1, next),
                None => {},
            }
        }
    }
}

/// An interpolation that opens a line bounds the indentation stripped from
/// the whole string: when part `k` is an interpolation and its line has held
/// only spaces so far (`st.2`, `st.1` of them), the least indentation that
/// measuring from `k` finds is at most `st.1` (and at most `st.0`).
pub proof fn lemma_interpolation_bounds_indentation(
    parts: Seq<Piece>,
    first: Seq<char>,
    k: int,
    st: (int, int, bool),
)
    requires
        0 <= k < parts.len(),
        parts[k] is Code,
        st.2,
    ensures
        indent_parts(parts, first, k, st) matches Some(r) ==> r.0 <= st.1 && r.0 <= st.0,
{
    lemma_indent_parts_lowers(parts, first, k + 1, settled(st));
}

} // verus!
