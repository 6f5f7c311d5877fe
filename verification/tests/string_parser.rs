use std::sync::Arc;

use bur::string::parser::StringParser;
use bur::string::StringSlice;

#[test]
fn try_consume_str() {
    let s: Arc<str> = "some string".into();
    let mut parser = StringParser::new(s.clone());

    assert_eq!(
        parser.try_consume_str(&s),
        Some(StringSlice {
            src: s.clone(),
            start: 0,
            end: s.len()
        })
    );

    let mut parser = StringParser::new(s);

    assert_eq!(parser.try_consume_str("This will fail."), None);
}

#[test]
fn while_char() {
    let s: Arc<str> = "sssssssss".into();
    let mut parser = StringParser::new(s.clone());

    assert_eq!(
        parser.while_char('s'),
        Some(StringSlice {
            src: s.clone(),
            start: 0,
            end: s.len()
        })
    );

    let mut parser = StringParser::new(s);

    assert_eq!(parser.while_char('t'), None);
}

#[test]
fn while_func() {
    let s: Arc<str> = "sssssssss".into();
    let mut parser = StringParser::new(s.clone());

    assert_eq!(
        parser.while_func(char::is_alphabetic),
        Some(StringSlice {
            src: s.clone(),
            start: 0,
            end: s.len()
        })
    );

    let mut parser = StringParser::new(s);

    assert_eq!(parser.while_func(char::is_numeric), None);
}

#[test]
fn try_consume_str_leaves_cursor_on_mismatch() {
    let s: Arc<str> = "let x".into();
    let mut parser = StringParser::new(s.clone());
    assert_eq!(parser.try_consume_str("lex"), None);
    assert_eq!(parser.idx(), 0);
    assert_eq!(
        parser.try_consume_str("let"),
        Some(StringSlice { src: s.clone(), start: 0, end: 3 })
    );
    assert_eq!(parser.idx(), 3);
    assert_eq!(parser.curr(), Some(' '));
}

#[test]
fn try_consume_empty_str_gives_empty_span() {
    let s: Arc<str> = "abc".into();
    let mut parser = StringParser::new(s.clone());
    parser.next();
    assert_eq!(
        parser.try_consume_str(""),
        Some(StringSlice { src: s, start: 1, end: 1 })
    );
    assert_eq!(parser.idx(), 1);
}

#[test]
fn next_stops_at_end() {
    let s: Arc<str> = "ab".into();
    let mut parser = StringParser::new(s);
    assert_eq!(parser.curr(), Some('a'));
    assert_eq!(parser.next(), Some('b'));
    assert_eq!(parser.next(), None);
    assert_eq!(parser.idx(), 2);
    assert_eq!(parser.next(), None);
    assert_eq!(parser.idx(), 2);
}

#[test]
fn positions_count_characters() {
    let s: Arc<str> = "é!".into();
    let mut parser = StringParser::new(s);
    assert_eq!(parser.curr(), Some('é'));
    assert_eq!(parser.next(), Some('!'));
    assert_eq!(parser.next(), None);
    assert_eq!(parser.idx(), 2);
}

#[test]
fn checkout_commit_rollback() {
    let s: Arc<str> = "abcdef".into();
    let mut parser = StringParser::new(s.clone());
    assert_eq!(parser.commit(), None);
    assert!(!parser.rollback());
    parser.next();
    parser.checkout();
    parser.next();
    parser.next();
    parser.checkout();
    parser.next();
    assert!(parser.rollback());
    assert_eq!(parser.idx(), 3);
    assert_eq!(
        parser.commit(),
        Some(StringSlice { src: s, start: 1, end: 3 })
    );
    assert_eq!(parser.idx(), 3);
    assert_eq!(parser.commit(), None);
}

#[test]
fn is_char_and_is_func() {
    let s: Arc<str> = "a1".into();
    let mut parser = StringParser::new(s);
    assert!(parser.is_char('a'));
    assert!(!parser.is_char('b'));
    assert!(parser.is_func(char::is_alphabetic));
    assert!(!parser.is_func(char::is_numeric));
    parser.next();
    assert!(parser.is_func(char::is_numeric));
    parser.next();
    assert!(!parser.is_char('1'));
    assert!(!parser.is_func(char::is_numeric));
}

#[test]
fn while_char_stops_at_other_character() {
    let s: Arc<str> = "aaab".into();
    let mut parser = StringParser::new(s.clone());
    assert_eq!(
        parser.while_char('a'),
        Some(StringSlice { src: s, start: 0, end: 3 })
    );
    assert_eq!(parser.curr(), Some('b'));
}

#[test]
fn slice_value_and_merge() {
    let s: Arc<str> = "hello world".into();
    let a = StringSlice { src: s.clone(), start: 0, end: 5 };
    let b = StringSlice { src: s.clone(), start: 6, end: 11 };
    assert_eq!(a.value(), "hello");
    assert_eq!(b.value(), "world");
    assert_eq!(a.len(), 5);
    let m = b.merge(&a);
    assert_eq!(m, StringSlice { src: s.clone(), start: 0, end: 11 });
    assert_eq!(m.value(), "hello world");
    assert_eq!(a.duplicate(), a);
    assert_eq!(StringSlice::new(s.clone(), 2, 4).value(), "ll");
}
