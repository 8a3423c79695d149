use srap::lexer::Lexer;
use srap::tokens::{keyword_or_ident, Token, TokenKind};
use srap::tokens::TokenKind::{
    Assign, Eof, EqEq, False, Gt, Gte, Ident, Int, LParen, Lt, Lte, Minus, NotEq, Percent, Plus,
    RParen, Semicolon, SetKw, Slash, Star, True, Unknown,
};

fn kinds(src: &str) -> Vec<TokenKind> {
    let mut lx = Lexer::new(src);
    let mut out = Vec::new();
    loop {
        let t = lx.next_token();
        if t.kind == Eof {
            out.push(Eof);
            break;
        }
        out.push(t.kind);
    }
    out
}

fn tokens(src: &str) -> Vec<Token> {
    let mut lx = Lexer::new(src);
    let mut out = Vec::new();
    loop {
        let t = lx.next_token();
        let done = t.kind == Eof;
        out.push(t);
        if done {
            break;
        }
    }
    out
}

#[test]
fn lex_set_bind_expr() {
    let got = kinds("set x = 1 + 2 * (3 + 4);");
    let expect = vec![
        SetKw,
        Ident("x".into()),
        Assign,
        Int(1),
        Plus,
        Int(2),
        Star,
        LParen,
        Int(3),
        Plus,
        Int(4),
        RParen,
        Semicolon,
        Eof,
    ];
    assert_eq!(got, expect);
}

#[test]
fn lex_compare_ops() {
    let got = kinds("1 <= 2 == 2 != 3 >= 0");
    let expect = vec![
        Int(1),
        Lte,
        Int(2),
        EqEq,
        Int(2),
        NotEq,
        Int(3),
        Gte,
        Int(0),
        Eof,
    ];
    assert_eq!(got, expect);
}

#[test]
fn lex_comments_and_ws() {
    let got = kinds("// comment\nset a=5 // hi\n a = a + 1");
    let expect = vec![
        SetKw,
        Ident("a".into()),
        Assign,
        Int(5),
        Ident("a".into()),
        Assign,
        Ident("a".into()),
        Plus,
        Int(1),
        Eof,
    ];
    assert_eq!(got, expect);
}

#[test]
fn empty_input_is_only_eof() {
    assert_eq!(kinds(""), vec![Eof]);
}

#[test]
fn unknown_character() {
    assert_eq!(kinds("@"), vec![Unknown, Eof]);
}

#[test]
fn eof_repeats_at_same_position() {
    let mut lx = Lexer::new("a\n  ");
    assert_eq!(lx.next_token(), Token::new(Ident("a".into()), 1, 1));
    for _ in 0..3 {
        assert_eq!(lx.next_token(), Token::new(Eof, 2, 3));
    }
}

#[test]
fn positions_are_first_characters() {
    let got = tokens("ab  12\n  <= x\n\n;");
    let expect = vec![
        Token::new(Ident("ab".into()), 1, 1),
        Token::new(Int(12), 1, 5),
        Token::new(Lte, 2, 3),
        Token::new(Ident("x".into()), 2, 6),
        Token::new(Semicolon, 4, 1),
        Token::new(Eof, 4, 2),
    ];
    assert_eq!(got, expect);
}

#[test]
fn columns_count_characters_not_bytes() {
    let got = tokens("é+x");
    let expect = vec![
        Token::new(Unknown, 1, 1),
        Token::new(Plus, 1, 2),
        Token::new(Ident("x".into()), 1, 3),
        Token::new(Eof, 1, 4),
    ];
    assert_eq!(got, expect);
}

#[test]
fn positions_never_go_back() {
    let got = tokens("x = 1 // c\n  y\t+ 22 ;");
    for w in got.windows(2) {
        let (a, b) = (&w[0], &w[1]);
        assert!(a.line < b.line || (a.line == b.line && a.col <= b.col));
    }
}

#[test]
fn whitespace_and_comments_do_not_change_kinds() {
    let plain = kinds("set x=1+2*(y);");
    assert_eq!(kinds("set  x =\t1 +\n2 * ( y ) ;"), plain);
    assert_eq!(kinds("// lead\nset x// one\n=1+2// two\n*(y);// end"), plain);
    assert_eq!(kinds("\u{a0}set\u{2003}x=1+2*(y);\r\n"), plain);
}

#[test]
fn literals_and_identifiers_are_not_split() {
    assert_eq!(kinds("123"), vec![Int(123), Eof]);
    assert_eq!(kinds("abc_9 x1"), vec![Ident("abc_9".into()), Ident("x1".into()), Eof]);
    assert_eq!(kinds("12ab"), vec![Int(12), Ident("ab".into()), Eof]);
    assert_eq!(kinds("_"), vec![Ident("_".into()), Eof]);
}

#[test]
fn reserved_words_win() {
    assert_eq!(kinds("set true false"), vec![SetKw, True, False, Eof]);
    assert_eq!(kinds("(set)true;false"), vec![LParen, SetKw, RParen, True, Semicolon, False, Eof]);
    assert_eq!(kinds("sets truex Set _set"), vec![
        Ident("sets".into()),
        Ident("truex".into()),
        Ident("Set".into()),
        Ident("_set".into()),
        Eof,
    ]);
}

#[test]
fn keyword_or_ident_classifies_words() {
    assert_eq!(keyword_or_ident("set"), SetKw);
    assert_eq!(keyword_or_ident("true"), True);
    assert_eq!(keyword_or_ident("false"), False);
    assert_eq!(keyword_or_ident("fals"), Ident("fals".into()));
    assert_eq!(keyword_or_ident(""), Ident("".into()));
}

#[test]
fn every_operator() {
    assert_eq!(kinds("+-*/%()=;==!=<<=>>=!"), vec![
        Plus, Minus, Star, Slash, Percent, LParen, RParen, Assign, Semicolon, EqEq, NotEq, Lt,
        Lte, Gt, Gte, NotEq, Eof,
    ]);
    assert_eq!(kinds("= =! =< =>"), vec![Assign, Assign, NotEq, Assign, Lt, Assign, Gt, Eof]);
}

#[test]
fn slash_before_comment() {
    assert_eq!(kinds("1 / 2 //x"), vec![Int(1), Slash, Int(2), Eof]);
    assert_eq!(kinds("///"), vec![Eof]);
    assert_eq!(kinds("/"), vec![Slash, Eof]);
}

#[test]
fn large_literals_saturate() {
    assert_eq!(kinds("9223372036854775807"), vec![Int(i64::MAX), Eof]);
    assert_eq!(kinds("9223372036854775808"), vec![Int(i64::MAX), Eof]);
    assert_eq!(kinds("000123456789012345678901234567890"), vec![Int(i64::MAX), Eof]);
    assert_eq!(kinds("007"), vec![Int(7), Eof]);
    assert_eq!(kinds("-5"), vec![Minus, Int(5), Eof]);
}
