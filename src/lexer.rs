//! The scanner: a cursor over the input's characters that hands out one
//! token per call.
use vstd::prelude::*;
use crate::grammar::{
    comment_at, digit_run, is_digit, is_letter, is_space, is_word_start, lemma_line_col_bound,
    lemma_literal_push, line_col, line_rest, literal_value, space_run, step, token_at, token_start,
    trivia_len, word_run,
};
use crate::text::push_char;
use crate::tokens::{keyword_or_ident, Token, TokenKind};

verus! {

broadcast use vstd::string::group_string_axioms;

/// Relies on `char::is_whitespace`: true exactly for the characters that
/// have Unicode's White_Space property.
#[verifier::external_body]
fn is_whitespace(c: char) -> (r: bool)
    ensures
        r == is_space(c),
{
    c.is_whitespace()
}

fn is_ascii_digit(c: char) -> (r: bool)
    ensures
        r == is_digit(c),
{
    '0' <= c && c <= '9'
}

fn is_ascii_letter(c: char) -> (r: bool)
    ensures
        r == is_letter(c),
{
    ('a' <= c && c <= 'z') || ('A' <= c && c <= 'Z')
}

/// Scans source text into tokens, one per call of `next_token`.
pub struct Lexer {
    input: Vec<char>,
    pos: usize,
    line: usize,
    col: usize,
}

impl Lexer {
    /// The characters being scanned.
    pub closed spec fn text(&self) -> Seq<char> {
        self.input@
    }

    /// The index of the next character to be read.
    pub closed spec fn cursor(&self) -> int {
        self.pos as int
    }

    /// The cursor lies within the input, and the line and column counters
    /// give the cursor's position.
    pub closed spec fn wf(&self) -> bool {
        &&& self.pos <= self.input@.len()
        &&& self.input@.len() < usize::MAX
        &&& line_col(self.input@, self.pos as int) == (self.line as nat, self.col as nat)
    }

    /// A scanner at the start of `src`, on line 1, column 1.
    pub fn new(src: &str) -> (r: Self)
        requires
            src@.len() < usize::MAX,
        ensures
            r.wf(),
            r.text() == src@,
            r.cursor() == 0,
    {
        let mut input: Vec<char> = Vec::new();
        for c in it: src.chars()
            invariant
                it.seq() == src@,
                input@ == src@.subrange(0, it.index() as int),
        {
            input.push(c);
            assert(input@ =~= src@.subrange(0, it.index() + 1));
        }
        assert(input@ =~= src@);
        Self { input, pos: 0, line: 1, col: 1 }
    }

    fn peek(&self) -> (r: Option<char>)
        requires
            self.wf(),
        ensures
            r == (if self.pos < self.input@.len() {
                Some(self.input@[self.pos as int])
            } else {
                None::<char>
            }),
    {
        if self.pos < self.input.len() {
            Some(self.input[self.pos])
        } else {
            None
        }
    }

    fn peek_next(&self) -> (r: Option<char>)
        requires
            self.wf(),
        ensures
            r == (if self.pos + 1 < self.input@.len() {
                Some(self.input@[self.pos + 1])
            } else {
                None::<char>
            }),
    {
        if self.pos + 1 < self.input.len() {
            Some(self.input[self.pos + 1])
        } else {
            None
        }
    }

    /// Consumes the character at the cursor, if any, and moves the line and
    /// column counters past it.
    fn bump(&mut self) -> (r: Option<char>)
        requires
            old(self).wf(),
        ensures
            final(self).wf(),
            final(self).input@ == old(self).input@,
            old(self).pos < old(self).input@.len() ==> r == Some(old(self).input@[old(self).pos as int])
                && final(self).pos == old(self).pos + 1,
            old(self).pos >= old(self).input@.len() ==> r is None && final(self).pos == old(self).pos,
    {
        let ch = match self.peek() {
            Some(c) => c,
            None => return None,
        };
        proof {
            lemma_line_col_bound(self.input@, self.pos as int);
        }
        self.pos += 1;
        if ch == '\n' {
            self.line += 1;
            self.col = 1;
        } else {
            self.col += 1;
        }
        Some(ch)
    }

    fn skip_whitespace(&mut self)
        requires
            old(self).wf(),
        ensures
            final(self).wf(),
            final(self).input@ == old(self).input@,
            final(self).pos == old(self).pos + space_run(old(self).input@, old(self).pos as int),
    {
        let ghost s = self.input@;
        let ghost p0 = self.pos as int;
        loop
            invariant
                self.wf(),
                self.input@ == s,
                p0 <= self.pos,
                p0 + space_run(s, p0) == self.pos + space_run(s, self.pos as int),
            ensures
                space_run(s, self.pos as int) == 0,
            decreases s.len() - self.pos,
        {
            let c = match self.peek() {
                Some(c) => c,
                None => break ,
            };
            if is_whitespace(c) {
                self.bump();
            } else {
                break ;
            }
        }
    }

    /// Consumes a line comment at the cursor, up to and including the next
    /// line feed or to the end of the input.
    fn skip_comment(&mut self)
        requires
            old(self).wf(),
        ensures
            final(self).wf(),
            final(self).input@ == old(self).input@,
            comment_at(old(self).input@, old(self).pos as int) ==> final(self).pos == old(self).pos
                + line_rest(old(self).input@, old(self).pos as int),
            !comment_at(old(self).input@, old(self).pos as int) ==> final(self).pos == old(self).pos,
    {
        let ghost s = self.input@;
        let ghost p0 = self.pos as int;
        if self.peek() == Some('/') && self.peek_next() == Some('/') {
            loop
                invariant_except_break
                    p0 + line_rest(s, p0) == self.pos + line_rest(s, self.pos as int),
                invariant
                    self.wf(),
                    self.input@ == s,
                    p0 <= self.pos,
                ensures
                    self.pos == p0 + line_rest(s, p0),
                decreases s.len() - self.pos,
            {
                let c = match self.peek() {
                    Some(c) => c,
                    None => break ,
                };
                self.bump();
                if c == '\n' {
                    break ;
                }
            }
        }
    }

    /// Reads the longest run of digits at the cursor as an integer literal.
    /// A value beyond the largest `i64` saturates to it.
    fn read_number(&mut self, start_col: usize) -> (r: Token)
        requires
            old(self).wf(),
            old(self).pos < old(self).input@.len(),
            is_digit(old(self).input@[old(self).pos as int]),
            start_col == old(self).col,
        ensures
            final(self).wf(),
            final(self).input@ == old(self).input@,
            r@ == token_at(old(self).input@, old(self).pos as int).0,
            final(self).pos == token_at(old(self).input@, old(self).pos as int).1,
    {
        let ghost s = self.input@;
        let ghost q = self.pos as int;
        let line = self.line;
        let mut val: i64 = 0;
        loop
            invariant
                self.wf(),
                self.input@ == s,
                q <= self.pos,
                q + digit_run(s, q) == self.pos + digit_run(s, self.pos as int),
                val == literal_value(s.subrange(q, self.pos as int)),
            ensures
                digit_run(s, self.pos as int) == 0,
            decreases s.len() - self.pos,
        {
            let c = match self.peek() {
                Some(c) => c,
                None => break ,
            };
            if is_ascii_digit(c) {
                let d = (c as u32 - '0' as u32) as i64;
                proof {
                    lemma_literal_push(s.subrange(q, self.pos as int), c);
                    assert(s.subrange(q, self.pos + 1) =~= s.subrange(q, self.pos as int).push(c));
                }
                if val > (i64::MAX - d) / 10 {
                    proof {
                        assert(val * 10 + d > i64::MAX) by (nonlinear_arith)
                            requires
                                val > (i64::MAX - d) / 10,
                                0 <= d <= 9,
                        ;
                    }
                    val = i64::MAX;
                } else {
                    proof {
                        assert(val * 10 + d <= i64::MAX) by (nonlinear_arith)
                            requires
                                val <= (i64::MAX - d) / 10,
                                0 <= d <= 9,
                        ;
                    }
                    val = val * 10 + d;
                }
                self.bump();
            } else {
                break ;
            }
        }
        Token { kind: TokenKind::Int(val), line, col: start_col }
    }

    /// Reads the longest word at the cursor: a reserved word or an
    /// identifier.
    fn read_ident(&mut self, start_col: usize) -> (r: Token)
        requires
            old(self).wf(),
            old(self).pos < old(self).input@.len(),
            is_word_start(old(self).input@[old(self).pos as int]),
            start_col == old(self).col,
        ensures
            final(self).wf(),
            final(self).input@ == old(self).input@,
            r@ == token_at(old(self).input@, old(self).pos as int).0,
            final(self).pos == token_at(old(self).input@, old(self).pos as int).1,
    {
        let ghost s = self.input@;
        let ghost q = self.pos as int;
        let line = self.line;
        let mut word = String::new();
        loop
            invariant
                self.wf(),
                self.input@ == s,
                q <= self.pos,
                q + word_run(s, q) == self.pos + word_run(s, self.pos as int),
                word@ == s.subrange(q, self.pos as int),
            ensures
                word_run(s, self.pos as int) == 0,
            decreases s.len() - self.pos,
        {
            let c = match self.peek() {
                Some(c) => c,
                None => break ,
            };
            if is_ascii_letter(c) || is_ascii_digit(c) || c == '_' {
                push_char(&mut word, c);
                assert(word@ =~= s.subrange(q, self.pos + 1));
                self.bump();
            } else {
                break ;
            }
        }
        Token { kind: keyword_or_ident(word.as_str()), line, col: start_col }
    }

    /// Whether a line comment starts at the cursor.
    fn comment_ahead(&self) -> (r: bool)
        requires
            self.wf(),
        ensures
            r == comment_at(self.input@, self.pos as int),
    {
        self.peek() == Some('/') && self.peek_next() == Some('/')
    }

    /// Skips whitespace and line comments, then reads one token: the kind of
    /// the longest lexeme at the cursor, or `Eof` at the end of the input,
    /// with the line and column where it starts. At the end of the input
    /// every call returns `Eof` at the same position.
    pub fn next_token(&mut self) -> (r: Token)
        requires
            old(self).wf(),
        ensures
            final(self).wf(),
            final(self).text() == old(self).text(),
            r@ == step(old(self).text(), old(self).cursor()).0,
            final(self).cursor() == step(old(self).text(), old(self).cursor()).1,
    {
        let ghost s = self.input@;
        let ghost p0 = self.pos as int;
        loop
            invariant_except_break
                p0 + trivia_len(s, p0) == self.pos + trivia_len(s, self.pos as int),
            invariant
                self.wf(),
                self.input@ == s,
                p0 <= self.pos,
            ensures
                self.pos == token_start(s, p0),
            decreases s.len() - self.pos,
        {
            self.skip_whitespace();
            if self.comment_ahead() {
                proof {
                    let q = self.pos as int;
                    assert(line_rest(s, q + 1) == 1 + line_rest(s, q + 2));
                }
                self.skip_comment();
                continue ;
            }
            break ;
        }
        let start_col = self.col;
        let start_line = self.line;
        let c = match self.peek() {
            Some(c) => c,
            None => {
                return Token { kind: TokenKind::Eof, line: start_line, col: start_col };
            },
        };
        if is_ascii_digit(c) {
            return self.read_number(start_col);
        }
        if is_ascii_letter(c) || c == '_' {
            return self.read_ident(start_col);
        }
        self.bump();
        let kind = if c == '=' {
            if self.peek() == Some('=') {
                self.bump();
                TokenKind::EqEq
            } else {
                TokenKind::Assign
            }
        } else if c == '!' {
            // a lone `!` reads as `!=` too
            if self.peek() == Some('=') {
                self.bump();
            }
            TokenKind::NotEq
        } else if c == '<' {
            if self.peek() == Some('=') {
                self.bump();
                TokenKind::Lte
            } else {
                TokenKind::Lt
            }
        } else if c == '>' {
            if self.peek() == Some('=') {
                self.bump();
                TokenKind::Gte
            } else {
                TokenKind::Gt
            }
        } else if c == '+' {
            TokenKind::Plus
        } else if c == '-' {
            TokenKind::Minus
        } else if c == '*' {
            TokenKind::Star
        } else if c == '/' {
            TokenKind::Slash
        } else if c == '%' {
            TokenKind::Percent
        } else if c == '(' {
            TokenKind::LParen
        } else if c == ')' {
            TokenKind::RParen
        } else if c == ';' {
            TokenKind::Semicolon
        } else {
            TokenKind::Unknown
        };
        Token { kind, line: start_line, col: start_col }
    }
}

} // verus!
