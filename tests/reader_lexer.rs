use compiler_in_rust_lib::common::BinaryOp;
use compiler_in_rust_lib::error::ErrorKind;
use compiler_in_rust_lib::input::CharsReader;
use compiler_in_rust_lib::lexer::{LexResult, Lexer, LexerErrorKind, Token, TokenKind};
use compiler_in_rust_lib::source::{Location, Span};

fn tok(kind: TokenKind, start_line: u32, start_col: u32, end_line: u32, end_col: u32) -> LexResult {
    LexResult::Token(Token::new(
        kind,
        Span::new(Location::new(start_line, start_col), Location::new(end_line, end_col)),
    ))
}

#[test]
fn reader_test() {
    let src = "ab\ncd";
    let mut reader = CharsReader::new(src);

    assert_eq!('a', reader.peek_n(0).unwrap());
    assert_eq!('b', reader.peek_n(1).unwrap());
    assert_eq!('\n', reader.peek_n(2).unwrap());
    assert_eq!('c', reader.peek_n(3).unwrap());
    assert_eq!('d', reader.peek_n(4).unwrap());
    assert!(reader.peek_n(5).is_none());

    let chr = reader.next().unwrap();
    assert_eq!('a', chr);
    assert_eq!(Location::new(1, 1), reader.loc());

    let chr = reader.next().unwrap();
    assert_eq!('b', chr);
    assert_eq!(Location::new(1, 2), reader.loc());

    let chr = reader.next().unwrap();
    assert_eq!('\n', chr);
    assert_eq!(Location::new(2, 0), reader.loc());

    let chr = reader.next().unwrap();
    assert_eq!('c', chr);
    assert_eq!(Location::new(2, 1), reader.loc());

    let chr = reader.next().unwrap();
    assert_eq!('d', chr);
    assert_eq!(Location::new(2, 2), reader.loc());

    assert!(reader.next().is_none());
}

#[test]
fn reader_has_more_after_probing_past_end() {
    let mut reader = CharsReader::new("x");
    assert!(reader.has_more());
    assert_eq!(Some('x'), reader.peek());
    assert!(reader.has_more());
    assert!(reader.peek_n(1).is_none());
    assert!(!reader.has_more());
    assert_eq!(Some('x'), reader.next());
    assert!(reader.next().is_none());
}

#[test]
fn lexer_test() {
    let mut l = Lexer::new("  123  \n 456 \nabc\na123 \n+\n-\n*\n/\n%");

    assert_eq!(tok(TokenKind::LiteralInt32(123), 1, 3, 1, 5), l.next());
    assert_eq!(tok(TokenKind::LiteralInt32(456), 2, 2, 2, 4), l.next());
    assert_eq!(tok(TokenKind::Identifier(String::from("abc")), 3, 1, 3, 3), l.next());
    assert_eq!(tok(TokenKind::Identifier(String::from("a123")), 4, 1, 4, 4), l.next());

    assert_eq!(tok(TokenKind::BinaryOperator(BinaryOp::Add), 5, 1, 5, 1), l.next());
    assert_eq!(tok(TokenKind::BinaryOperator(BinaryOp::Sub), 6, 1, 6, 1), l.next());
    assert_eq!(tok(TokenKind::BinaryOperator(BinaryOp::Mul), 7, 1, 7, 1), l.next());
    assert_eq!(tok(TokenKind::BinaryOperator(BinaryOp::Div), 8, 1, 8, 1), l.next());
    assert_eq!(tok(TokenKind::BinaryOperator(BinaryOp::Mod), 9, 1, 9, 1), l.next());
}

#[test]
fn lexer_parse_single_identifier() {
    let mut l = Lexer::new("abc");
    assert_eq!(tok(TokenKind::Identifier(String::from("abc")), 1, 1, 1, 3), l.next());
}

#[test]
fn lexer_invalid_character() {
    let mut l = Lexer::new("1 # 2");
    assert_eq!(tok(TokenKind::LiteralInt32(1), 1, 1, 1, 1), l.next());
    match l.next() {
        LexResult::Error(e) => {
            assert_eq!(LexerErrorKind::InvalidCharacter('#'), e.kind());
            assert_eq!(Span::new(Location::new(1, 3), Location::new(1, 3)), e.span());
            assert_eq!("Invalid character: '#'", e.message());
        }
        other => panic!("expected a lexical error, got {:?}", other),
    }
    assert_eq!(tok(TokenKind::LiteralInt32(2), 1, 5, 1, 5), l.next());
    assert_eq!(LexResult::EndOfInput(Location::new(1, 5)), l.next());
}

#[test]
fn lexer_other_invalid_characters() {
    for c in ['$', '(', '.', '_', 'é'] {
        let text = format!("{}", c);
        let mut l = Lexer::new(&text);
        match l.next() {
            LexResult::Error(e) => assert_eq!(LexerErrorKind::InvalidCharacter(c), e.kind()),
            other => panic!("expected a lexical error, got {:?}", other),
        }
    }
}

#[test]
fn lexer_integer_too_large() {
    let mut l = Lexer::new("2147483648");
    match l.next() {
        LexResult::Error(e) => {
            assert_eq!(LexerErrorKind::InvalidInteger(String::from("2147483648")), e.kind());
            assert_eq!("Invalid integer: '2147483648'", e.message());
        }
        other => panic!("expected a lexical error, got {:?}", other),
    }
    let mut l = Lexer::new("2147483647");
    assert_eq!(tok(TokenKind::LiteralInt32(2147483647), 1, 1, 1, 10), l.next());
}

#[test]
fn lexer_peek_and_has_more() {
    let mut l = Lexer::new(" a + 1 ");
    assert!(l.has_more());
    assert_eq!(tok(TokenKind::BinaryOperator(BinaryOp::Add), 1, 4, 1, 4), l.peek_n(1));
    assert_eq!(tok(TokenKind::Identifier(String::from("a")), 1, 2, 1, 2), l.peek());
    assert_eq!(tok(TokenKind::Identifier(String::from("a")), 1, 2, 1, 2), l.next());
    assert_eq!(tok(TokenKind::BinaryOperator(BinaryOp::Add), 1, 4, 1, 4), l.next());
    assert_eq!(tok(TokenKind::LiteralInt32(1), 1, 6, 1, 6), l.next());
    assert!(!l.has_more());
    assert_eq!(LexResult::EndOfInput(Location::new(1, 7)), l.next());
    assert_eq!(LexResult::EndOfInput(Location::new(1, 7)), l.next());
}

#[test]
fn lexer_empty_input() {
    let mut l = Lexer::new("");
    assert!(!l.has_more());
    assert_eq!(LexResult::EndOfInput(Location::new(1, 0)), l.next());
}

#[test]
fn token_descriptions() {
    let mut s = String::new();
    TokenKind::LiteralInt32(-42).describe_into(&mut s);
    assert_eq!("literal integer -42", s);
    let mut s = String::new();
    TokenKind::Identifier(String::from("x1")).describe_into(&mut s);
    assert_eq!("identifier \"x1\"", s);
    let mut s = String::new();
    TokenKind::BinaryOperator(BinaryOp::Mod).describe_into(&mut s);
    assert_eq!("operator %", s);
    assert_eq!("Invalid integer: '99'", LexerErrorKind::InvalidInteger(String::from("99")).message());
}
