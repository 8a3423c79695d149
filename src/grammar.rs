//! The lexical grammar as spec functions over the input's characters.
//! Positions are character indices into the input.
use vstd::prelude::*;
use crate::tokens::{word_kind, KindView, TokenView};

verus! {

/// Unicode's White_Space property.
pub open spec fn is_space(c: char) -> bool {
    let u = c as u32;
    (0x9 <= u && u <= 0xd) || u == 0x20 || u == 0x85 || u == 0xa0 || u == 0x1680 || (0x2000 <= u
        && u <= 0x200a) || u == 0x2028 || u == 0x2029 || u == 0x202f || u == 0x205f || u == 0x3000
}

/// An ASCII digit.
pub open spec fn is_digit(c: char) -> bool {
    '0' <= c && c <= '9'
}

/// An ASCII letter.
pub open spec fn is_letter(c: char) -> bool {
    ('a' <= c && c <= 'z') || ('A' <= c && c <= 'Z')
}

/// A character that can start an identifier.
pub open spec fn is_word_start(c: char) -> bool {
    is_letter(c) || c == '_'
}

/// A character that can continue an identifier.
pub open spec fn is_word_char(c: char) -> bool {
    is_letter(c) || is_digit(c) || c == '_'
}

/// Whether the character at `i` exists and is `c`.
pub open spec fn char_at_is(s: Seq<char>, i: int, c: char) -> bool {
    0 <= i < s.len() && s[i] == c
}

/// Whether a line comment starts at `i`.
pub open spec fn comment_at(s: Seq<char>, i: int) -> bool {
    char_at_is(s, i, '/') && char_at_is(s, i + 1, '/')
}

/// How many whitespace characters follow from `i` on.
pub open spec fn space_run(s: Seq<char>, i: int) -> nat
    decreases s.len() - i,
{
    if 0 <= i < s.len() && is_space(s[i]) {
        1 + space_run(s, i + 1)
    } else {
        0
    }
}

/// How many ASCII digits follow from `i` on.
pub open spec fn digit_run(s: Seq<char>, i: int) -> nat
    decreases s.len() - i,
{
    if 0 <= i < s.len() && is_digit(s[i]) {
        1 + digit_run(s, i + 1)
    } else {
        0
    }
}

/// How many word characters follow from `i` on.
pub open spec fn word_run(s: Seq<char>, i: int) -> nat
    decreases s.len() - i,
{
    if 0 <= i < s.len() && is_word_char(s[i]) {
        1 + word_run(s, i + 1)
    } else {
        0
    }
}

/// How many characters from `i` on run up to and including the next line
/// feed, or to the end of the input.
pub open spec fn line_rest(s: Seq<char>, i: int) -> nat
    decreases s.len() - i,
{
    if 0 <= i < s.len() {
        if s[i] == '\n' {
            1
        } else {
            1 + line_rest(s, i + 1)
        }
    } else {
        0
    }
}

/// How many characters lie from `p` to the end of the input.
pub open spec fn left_from(s: Seq<char>, p: int) -> nat {
    if p <= s.len() {
        (s.len() - p) as nat
    } else {
        0
    }
}

/// How many characters of whitespace and line comments follow from `p` on.
pub open spec fn trivia_len(s: Seq<char>, p: int) -> nat
    decreases left_from(s, p),
{
    let q = p + space_run(s, p);
    if comment_at(s, q) {
        let c = 2 + line_rest(s, q + 2);
        space_run(s, p) + c + trivia_len(s, q + c)
    } else {
        space_run(s, p)
    }
}

/// The value of a run of decimal digits.
pub open spec fn decimal(ds: Seq<char>) -> nat
    decreases ds.len(),
{
    if ds.len() == 0 {
        0
    } else {
        decimal(ds.drop_last()) * 10 + (ds.last() as nat - '0' as nat) as nat
    }
}

/// The value of an integer literal: its decimal value, saturated at the
/// largest `i64`.
pub open spec fn literal_value(ds: Seq<char>) -> int {
    if decimal(ds) <= i64::MAX {
        decimal(ds) as int
    } else {
        i64::MAX as int
    }
}

/// The kind of a one-character token.
pub open spec fn single_kind(c: char) -> KindView {
    if c == '+' {
        KindView::Plus
    } else if c == '-' {
        KindView::Minus
    } else if c == '*' {
        KindView::Star
    } else if c == '/' {
        KindView::Slash
    } else if c == '%' {
        KindView::Percent
    } else if c == '(' {
        KindView::LParen
    } else if c == ')' {
        KindView::RParen
    } else if c == ';' {
        KindView::Semicolon
    } else {
        KindView::Unknown
    }
}

/// The kind and length of the lexeme that starts at `q`; at the end of the
/// input, `Eof` with length 0.
pub open spec fn lexeme(s: Seq<char>, q: int) -> (KindView, nat) {
    if !(0 <= q < s.len()) {
        (KindView::Eof, 0)
    } else {
        let c = s[q];
        let eq_next = char_at_is(s, q + 1, '=');
        if is_digit(c) {
            let n = 1 + digit_run(s, q + 1);
            (KindView::Int(literal_value(s.subrange(q, q + n))), n)
        } else if is_word_start(c) {
            let n = 1 + word_run(s, q + 1);
            (word_kind(s.subrange(q, q + n)), n)
        } else if c == '=' {
            if eq_next {
                (KindView::EqEq, 2)
            } else {
                (KindView::Assign, 1)
            }
        } else if c == '!' {
            (KindView::NotEq, if eq_next { 2 } else { 1 })
        } else if c == '<' {
            if eq_next {
                (KindView::Lte, 2)
            } else {
                (KindView::Lt, 1)
            }
        } else if c == '>' {
            if eq_next {
                (KindView::Gte, 2)
            } else {
                (KindView::Gt, 1)
            }
        } else {
            (single_kind(c), 1)
        }
    }
}

/// The 1-based line and column of position `p`: a line feed moves to the
/// first column of the next line, any other character one column on.
pub open spec fn line_col(s: Seq<char>, p: int) -> (nat, nat)
    decreases p,
{
    if p <= 0 {
        (1, 1)
    } else {
        let (l, c) = line_col(s, p - 1);
        if s[p - 1] == '\n' {
            (l + 1, 1)
        } else {
            (l, c + 1)
        }
    }
}

/// Where the token read from cursor `p` starts: after whitespace and comments.
pub open spec fn token_start(s: Seq<char>, p: int) -> int {
    p + trivia_len(s, p)
}

/// The token whose lexeme starts at `q`, and the position after the lexeme.
pub open spec fn token_at(s: Seq<char>, q: int) -> (TokenView, int) {
    let (k, n) = lexeme(s, q);
    let (l, c) = line_col(s, q);
    (TokenView { kind: k, line: l, col: c }, q + n)
}

/// The token read from cursor `p`, and the cursor after it.
pub open spec fn step(s: Seq<char>, p: int) -> (TokenView, int) {
    token_at(s, token_start(s, p))
}

/// The cursor after `n` tokens have been read from cursor `p`.
pub open spec fn cursor_after(s: Seq<char>, p: int, n: nat) -> int
    decreases n,
{
    if n == 0 {
        p
    } else {
        step(s, cursor_after(s, p, (n - 1) as nat)).1
    }
}

/// The kinds of the tokens read from cursor `p` on, up to and including `Eof`.
pub open spec fn kinds_from(s: Seq<char>, p: int) -> Seq<KindView>
    decreases left_from(s, p),
{
    let q = token_start(s, p);
    if 0 <= q < s.len() {
        let (k, n) = lexeme(s, q);
        seq![k] + kinds_from(s, q + n)
    } else {
        seq![KindView::Eof]
    }
}

/// The kinds of the tokens of a whole input.
pub open spec fn kinds(s: Seq<char>) -> Seq<KindView> {
    kinds_from(s, 0)
}

/// Line and column are at least 1 and grow by at most one per character.
pub proof fn lemma_line_col_bound(s: Seq<char>, p: int)
    requires
        0 <= p,
    ensures
        line_col(s, p).0 >= 1,
        line_col(s, p).1 >= 1,
        line_col(s, p).0 + line_col(s, p).1 <= p + 2,
    decreases p,
{
    if p > 0 {
        lemma_line_col_bound(s, p - 1);
    }
}

/// Appending a digit to a literal: the value grows tenfold plus the digit,
/// until it saturates.
pub proof fn lemma_literal_push(ds: Seq<char>, c: char)
    requires
        is_digit(c),
    ensures
        literal_value(ds) < i64::MAX ==> literal_value(ds.push(c)) == if literal_value(ds) * 10 + (
        c as int - '0' as int) <= i64::MAX {
            literal_value(ds) * 10 + (c as int - '0' as int)
        } else {
            i64::MAX as int
        },
        literal_value(ds) == i64::MAX ==> literal_value(ds.push(c)) == i64::MAX,
        0 <= literal_value(ds) <= i64::MAX,
{
    assert(ds.push(c).drop_last() =~= ds);
    assert(decimal(ds.push(c)) == decimal(ds) * 10 + (c as nat - '0' as nat));
}

} // verus!
