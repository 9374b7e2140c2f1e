use medan::lexer::lex;
use medan::lexer::parser::Parser;
use medan::lexer::syntax::TokenKind;

#[test]
fn test_peek() {
    let parser = Parser::new(lex("a := 1"));
    assert_eq!(
        parser.peek(),
        Some(&TokenKind::Identifier(String::from("a")))
    );
}

#[test]
fn test_next() {
    let mut parser = Parser::new(lex("a := 1"));
    assert_eq!(parser.current_index, 0);
    parser.next();
    assert_eq!(parser.current_index, 1);
}

#[test]
fn next_hands_out_the_tokens_in_order_and_then_nothing() {
    let mut parser = Parser::new(lex("a := 1"));
    assert_eq!(
        parser.next().map(|t| t.kind.clone()),
        Some(TokenKind::Identifier(String::from("a")))
    );
    assert_eq!(parser.next().map(|t| t.kind.clone()), Some(TokenKind::Assign));
    assert_eq!(parser.next().map(|t| t.kind.clone()), Some(TokenKind::IntLit(1)));
    assert_eq!(parser.current_index, 3);
    assert!(parser.next().is_none());
    assert_eq!(parser.current_index, 3);
    assert_eq!(parser.peek(), None);
}
