use std::sync::Arc;

use bur::string::parser::StringParser;
use bur::string::StringSlice;
use bur::tokenizer::token::{same_text, Keyword, Keywords, Number, Symbol, Token, TokenKind};
use bur::tokenizer::{parse_integer, valid_ident_cont, valid_ident_start, TokenizeError, Tokenizer};

fn kinds(source: &str) -> Vec<TokenKind> {
    let mut tokenizer = Tokenizer::new(source.into());
    let mut out = vec![];
    loop {
        let token = tokenizer.next().unwrap();
        let done = token.kind == TokenKind::Eof;
        out.push(token.kind);
        if done {
            return out;
        }
    }
}

fn ident(name: &str) -> TokenKind {
    TokenKind::Identifier(name.to_string())
}

#[test]
fn identifier_characters() {
    assert!(valid_ident_start('a'));
    assert!(valid_ident_start('_'));
    assert!(valid_ident_start('é'));
    assert!(!valid_ident_start('1'));
    assert!(!valid_ident_start('-'));
    assert!(valid_ident_cont('a'));
    assert!(valid_ident_cont('1'));
    assert!(valid_ident_cont('_'));
    assert!(!valid_ident_cont(' '));
}

#[test]
fn keywords_parse_and_stringify() {
    assert_eq!(Keyword::parse("while"), Some(Keyword::While));
    assert_eq!(Keyword::parse("none"), Some(Keyword::NoneKeyword));
    assert_eq!(Keyword::parse("Infinity"), Some(Keyword::Infinity));
    assert_eq!(Keyword::parse("infinity"), None);
    assert_eq!(Keyword::parse("NaN"), Some(Keyword::NaN));
    assert_eq!(Keyword::parse("whil"), None);
    assert_eq!(Keyword::parse("whilee"), None);
    assert_eq!(Keyword::parse(""), None);
    assert_eq!(Keyword::Everything.stringify(), "everything");
    assert_eq!(Keyword::NoneKeyword.stringify(), "none");
    for word in [
        "declare", "module", "let", "const", "function", "class", "extends", "where", "prototype",
        "while", "until", "for", "each", "in", "if", "else", "do", "then", "end", "this", "none",
        "true", "false", "Infinity", "NaN", "from", "import", "export", "everything", "as", "is",
        "not", "and", "or", "return", "break", "continue", "throw", "try", "catch",
    ] {
        assert_eq!(Keyword::parse(word).unwrap().stringify(), word);
    }
    assert!(same_text("abc", "abc"));
    assert!(!same_text("abc", "abd"));
    assert!(!same_text("abc", "ab"));
}

#[test]
fn symbols_take_the_longer_spelling_first() {
    let source: Arc<str> = ">=><=<!====".into();
    let mut parser = StringParser::new(source.clone());
    let mut seen = vec![];
    while let Some((slice, symbol)) = Symbol::from(&mut parser) {
        seen.push((slice.start, slice.end, symbol));
    }
    assert_eq!(
        seen,
        vec![
            (0, 2, Symbol::GreaterEqual),
            (2, 3, Symbol::Greater),
            (3, 5, Symbol::LessEqual),
            (5, 6, Symbol::Less),
            (6, 8, Symbol::NotEqual),
            (8, 10, Symbol::Equal),
            (10, 11, Symbol::Assign),
        ]
    );
    let mut parser = StringParser::new("a".into());
    assert_eq!(Symbol::from(&mut parser), None);
    assert_eq!(parser.idx(), 0);
    let all = ":.,;*%/+-[](){}";
    let mut parser = StringParser::new(all.into());
    let mut symbols = vec![];
    while let Some((_, symbol)) = Symbol::from(&mut parser) {
        symbols.push(symbol);
    }
    assert_eq!(
        symbols,
        vec![
            Symbol::Colon,
            Symbol::Dot,
            Symbol::Comma,
            Symbol::Semicolon,
            Symbol::Mul,
            Symbol::Rem,
            Symbol::Div,
            Symbol::Add,
            Symbol::Sub,
            Symbol::BracketOpen,
            Symbol::BracketClose,
            Symbol::ParenOpen,
            Symbol::ParenClose,
            Symbol::BraceOpen,
            Symbol::BraceClose,
        ]
    );
}

#[test]
fn integers_are_parsed_digit_by_digit() {
    assert_eq!(parse_integer("0"), Some(0));
    assert_eq!(parse_integer("007"), Some(7));
    assert_eq!(parse_integer("1234567890"), Some(1234567890));
    assert_eq!(parse_integer("9223372036854775807"), Some(i64::MAX));
    assert_eq!(parse_integer("9223372036854775808"), None);
    assert_eq!(parse_integer("99999999999999999999"), None);
    assert_eq!(parse_integer("12a"), None);
    assert_eq!(parse_integer("٣"), None);
    assert_eq!(parse_integer(""), Some(0));
}

#[test]
fn a_statement_is_split_into_tokens() {
    assert_eq!(
        kinds("let x = 1 + 2"),
        vec![
            TokenKind::Keyword(Keyword::Let),
            ident("x"),
            TokenKind::Symbol(Symbol::Assign),
            TokenKind::Number(Number::Integer(1)),
            TokenKind::Symbol(Symbol::Add),
            TokenKind::Number(Number::Integer(2)),
            TokenKind::Eof,
        ]
    );
}

#[test]
fn tokens_carry_their_spans() {
    let source: Arc<str> = "  foo(12)".into();
    let mut tokenizer = Tokenizer::new(source.clone());
    let span = |start, end| StringSlice { src: source.clone(), start, end };
    assert_eq!(tokenizer.next(), Ok(Token { slice: span(2, 5), kind: ident("foo") }));
    assert_eq!(
        tokenizer.next(),
        Ok(Token { slice: span(5, 6), kind: TokenKind::Symbol(Symbol::ParenOpen) })
    );
    assert_eq!(
        tokenizer.next(),
        Ok(Token { slice: span(6, 8), kind: TokenKind::Number(Number::Integer(12)) })
    );
    assert_eq!(
        tokenizer.next(),
        Ok(Token { slice: span(8, 9), kind: TokenKind::Symbol(Symbol::ParenClose) })
    );
    assert_eq!(tokenizer.next(), Ok(Token { slice: span(9, 9), kind: TokenKind::Eof }));
    assert_eq!(tokenizer.next(), Ok(Token { slice: span(9, 9), kind: TokenKind::Eof }));
}

#[test]
fn comments_and_white_space_are_skipped() {
    assert_eq!(
        kinds("# first\n  a # second\n\t# third\nb #"),
        vec![ident("a"), ident("b"), TokenKind::Eof]
    );
    assert_eq!(kinds(""), vec![TokenKind::Eof]);
    assert_eq!(kinds("   \n "), vec![TokenKind::Eof]);
    assert_eq!(kinds("#only"), vec![TokenKind::Eof]);
}

#[test]
fn numbers_with_and_without_fraction() {
    assert_eq!(
        kinds("12.50 7. 3.x"),
        vec![
            TokenKind::Number(Number::Floating { whole: 12, fraction: "50".to_string() }),
            TokenKind::Number(Number::Integer(7)),
            TokenKind::Symbol(Symbol::Dot),
            TokenKind::Number(Number::Integer(3)),
            TokenKind::Symbol(Symbol::Dot),
            ident("x"),
            TokenKind::Eof,
        ]
    );
    let source: Arc<str> = "99999999999999999999.5 x".into();
    let mut tokenizer = Tokenizer::new(source.clone());
    assert_eq!(
        tokenizer.next(),
        Err(TokenizeError::InvalidChar(StringSlice { src: source, start: 0, end: 22 }))
    );
}

#[test]
fn words_and_keywords() {
    assert_eq!(
        kinds("is not isnot _x x1 whiles"),
        vec![
            TokenKind::Keyword(Keyword::Is),
            TokenKind::Keyword(Keyword::Not),
            ident("isnot"),
            ident("_x"),
            ident("x1"),
            ident("whiles"),
            TokenKind::Eof,
        ]
    );
}

#[test]
fn strings_and_escapes() {
    assert_eq!(
        kinds(r#""oops" "a b" "x\n\t\\\"\'y" """#),
        vec![
            TokenKind::String("oops".to_string()),
            TokenKind::String("a b".to_string()),
            TokenKind::String("x\n\t\\\"'y".to_string()),
            TokenKind::String("".to_string()),
            TokenKind::Eof,
        ]
    );
}

#[test]
fn string_errors() {
    let check = |text: &str, expected: TokenizeError| {
        let mut tokenizer = Tokenizer::new(text.into());
        assert_eq!(tokenizer.next(), Err(expected));
    };
    let span = |text: &str, start, end| StringSlice { src: text.into(), start, end };
    check("\"abc", TokenizeError::UnexpectedEof);
    check("\"abc\\", TokenizeError::UnexpectedEof);
    check("\"ab\\q\"", TokenizeError::InvalidEscape(span("\"ab\\q\"", 0, 4)));
    check("\"ab\ncd\"", TokenizeError::UnclosedStr(span("\"ab\ncd\"", 0, 3)));
    check("\"ab$\"", TokenizeError::InvalidString(span("\"ab$\"", 0, 3)));
    check("\"é\"", TokenizeError::InvalidString(span("\"é\"", 0, 1)));
    check(" $", TokenizeError::InvalidChar(span(" $", 1, 2)));
    check("@", TokenizeError::InvalidChar(span("@", 0, 1)));
}

#[test]
fn peek_reads_ahead_without_consuming() {
    let mut tokenizer = Tokenizer::new("a b c".into());
    assert_eq!(tokenizer.peek(1).unwrap().kind, ident("b"));
    assert_eq!(tokenizer.peek(0).unwrap().kind, ident("a"));
    assert_eq!(tokenizer.next().unwrap().kind, ident("a"));
    assert_eq!(tokenizer.peek(1).unwrap().kind, ident("c"));
    assert_eq!(tokenizer.peek(3).unwrap().kind, TokenKind::Eof);
    assert_eq!(tokenizer.next().unwrap().kind, ident("b"));
    assert_eq!(tokenizer.next().unwrap().kind, ident("c"));
    assert_eq!(tokenizer.next().unwrap().kind, TokenKind::Eof);
    assert_eq!(tokenizer.next().unwrap().kind, TokenKind::Eof);
}

#[test]
fn peek_keeps_what_it_read_before_an_error() {
    let mut tokenizer = Tokenizer::new("a @".into());
    assert!(matches!(tokenizer.peek(1), Err(TokenizeError::InvalidChar(_))));
    assert_eq!(tokenizer.next().unwrap().kind, ident("a"));
    assert!(matches!(tokenizer.next(), Err(TokenizeError::InvalidChar(_))));
}

#[test]
fn token_duplicate_is_equal() {
    let mut tokenizer = Tokenizer::new("1.5 \"s\" x + let".into());
    for _ in 0..6 {
        let token = tokenizer.next().unwrap();
        assert_eq!(token.duplicate(), token);
    }
}
