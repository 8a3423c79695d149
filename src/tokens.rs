use vstd::prelude::*;

verus! {

/// What a token kind means: the same variants, with mathematical payloads.
pub enum KindView {
    Eof,
    Unknown,
    Int(int),
    Ident(Seq<char>),
    SetKw,
    True,
    False,
    Plus,
    Minus,
    Star,
    Slash,
    Percent,
    Assign,
    EqEq,
    NotEq,
    Lt,
    Lte,
    Gt,
    Gte,
    LParen,
    RParen,
    Semicolon,
}

/// The lexical category of a token.
#[derive(Debug, Clone, PartialEq, Eq)]
pub enum TokenKind {
    // control
    Eof,
    Unknown,
    // literals
    Int(i64),
    Ident(String),
    // reserved words
    SetKw,
    True,
    False,
    // operators and punctuation
    Plus,
    Minus,
    Star,
    Slash,
    Percent,
    Assign,
    EqEq,
    NotEq,
    Lt,
    Lte,
    Gt,
    Gte,
    LParen,
    RParen,
    Semicolon,
}

impl View for TokenKind {
    type V = KindView;

    open spec fn view(&self) -> KindView {
        match self {
            TokenKind::Eof => KindView::Eof,
            TokenKind::Unknown => KindView::Unknown,
            TokenKind::Int(v) => KindView::Int(*v as int),
            TokenKind::Ident(s) => KindView::Ident(s@),
            TokenKind::SetKw => KindView::SetKw,
            TokenKind::True => KindView::True,
            TokenKind::False => KindView::False,
            TokenKind::Plus => KindView::Plus,
            TokenKind::Minus => KindView::Minus,
            TokenKind::Star => KindView::Star,
            TokenKind::Slash => KindView::Slash,
            TokenKind::Percent => KindView::Percent,
            TokenKind::Assign => KindView::Assign,
            TokenKind::EqEq => KindView::EqEq,
            TokenKind::NotEq => KindView::NotEq,
            TokenKind::Lt => KindView::Lt,
            TokenKind::Lte => KindView::Lte,
            TokenKind::Gt => KindView::Gt,
            TokenKind::Gte => KindView::Gte,
            TokenKind::LParen => KindView::LParen,
            TokenKind::RParen => KindView::RParen,
            TokenKind::Semicolon => KindView::Semicolon,
        }
    }
}

/// What a token means: its kind and the 1-based line and column of its first
/// character.
pub struct TokenView {
    pub kind: KindView,
    pub line: nat,
    pub col: nat,
}

/// A classified unit of source text with the position where it starts.
#[derive(Debug, Clone, PartialEq, Eq)]
pub struct Token {
    pub kind: TokenKind,
    pub line: usize,
    pub col: usize,
}

impl View for Token {
    type V = TokenView;

    open spec fn view(&self) -> TokenView {
        TokenView { kind: self.kind@, line: self.line as nat, col: self.col as nat }
    }
}

impl Token {
    pub fn new(kind: TokenKind, line: usize, col: usize) -> (r: Self)
        ensures
            r.kind == kind,
            r.line == line,
            r.col == col,
    {
        Self { kind, line, col }
    }
}

/// The kind of an identifier-shaped word: a reserved word, or an identifier
/// that carries the word.
pub open spec fn word_kind(w: Seq<char>) -> KindView {
    if w == seq!['s', 'e', 't'] {
        KindView::SetKw
    } else if w == seq!['t', 'r', 'u', 'e'] {
        KindView::True
    } else if w == seq!['f', 'a', 'l', 's', 'e'] {
        KindView::False
    } else {
        KindView::Ident(w)
    }
}

/// Whether `s` holds exactly the characters of `w`.
fn same_text(s: &str, w: &str) -> (r: bool)
    ensures
        r == (s@ == w@),
{
    let n = s.unicode_len();
    if n != w.unicode_len() {
        return false;
    }
    let mut i: usize = 0;
    while i < n
        invariant
            n == s@.len(),
            n == w@.len(),
            i <= n,
            s@.subrange(0, i as int) == w@.subrange(0, i as int),
        decreases n - i,
    {
        if s.get_char(i) != w.get_char(i) {
            return false;
        }
        assert(s@.subrange(0, i + 1) =~= s@.subrange(0, i as int).push(s@[i as int]));
        assert(w@.subrange(0, i + 1) =~= w@.subrange(0, i as int).push(w@[i as int]));
        i = i + 1;
    }
    assert(s@ =~= s@.subrange(0, n as int));
    assert(w@ =~= w@.subrange(0, n as int));
    true
}

/// Classifies an identifier-shaped word: `set`, `true` and `false` are
/// reserved, anything else is an identifier carrying the word.
pub fn keyword_or_ident(s: &str) -> (r: TokenKind)
    ensures
        r@ == word_kind(s@),
{
    proof {
        reveal_strlit("set");
        reveal_strlit("true");
        reveal_strlit("false");
    }
    if same_text(s, "set") {
        assert("set"@ =~= seq!['s', 'e', 't']);
        TokenKind::SetKw
    } else if same_text(s, "true") {
        assert("true"@ =~= seq!['t', 'r', 'u', 'e']);
        TokenKind::True
    } else if same_text(s, "false") {
        assert("false"@ =~= seq!['f', 'a', 'l', 's', 'e']);
        TokenKind::False
    } else {
        assert("set"@ =~= seq!['s', 'e', 't']);
        assert("true"@ =~= seq!['t', 'r', 'u', 'e']);
        assert("false"@ =~= seq!['f', 'a', 'l', 's', 'e']);
        TokenKind::Ident(String::from_str(s))
    }
}

} // verus!
