use medan::lexer::lex;
use medan::lexer::syntax::{Position, Token, TokenKind, TokenizerError};
use medan::lexer::tokenizer::Tokenizer;

fn kinds(source: &str) -> Vec<TokenKind> {
    let mut tokenizer = Tokenizer::new(source);
    tokenizer
        .run()
        .expect("the text holds no lexical error")
        .into_iter()
        .map(|t| t.kind)
        .collect()
}

fn error(source: &str) -> TokenizerError {
    let mut tokenizer = Tokenizer::new(source);
    tokenizer.run().expect_err("the text holds a lexical error")
}

fn ident(name: &str) -> TokenKind {
    TokenKind::Identifier(String::from(name))
}

#[test]
fn assignment_gives_three_tokens_at_rising_places() {
    let mut tokenizer = Tokenizer::new("a := 1");
    let tokens = tokenizer.run().unwrap();
    assert_eq!(
        tokens,
        vec![
            Token { kind: ident("a"), position: Position { line: 1, offset: 2 } },
            Token { kind: TokenKind::Assign, position: Position { line: 1, offset: 5 } },
            Token { kind: TokenKind::IntLit(1), position: Position { line: 1, offset: 7 } },
        ]
    );
    for pair in tokens.windows(2) {
        let (a, b) = (pair[0].position, pair[1].position);
        assert!((a.line, a.offset) < (b.line, b.offset));
    }
    assert_eq!(tokenizer.current_index, 6);
    assert_eq!(tokenizer.position, Position { line: 1, offset: 7 });
}

#[test]
fn lex_agrees_with_run() {
    let mut tokenizer = Tokenizer::new("while x <= 10 do x := x + 1");
    assert_eq!(lex("while x <= 10 do x := x + 1"), tokenizer.run().unwrap());
}

#[test]
fn unsupported_character_is_refused() {
    assert_eq!(error("%"), TokenizerError::UnexpectedMeta(String::from("%")));
    assert_eq!(error("a := &"), TokenizerError::UnexpectedMeta(String::from("&")));
    assert_eq!(error("A"), TokenizerError::UnexpectedMeta(String::from("A")));
    assert_eq!(error("\r"), TokenizerError::UnexpectedMeta(String::from("\r")));
    assert_eq!(error("é"), TokenizerError::UnexpectedMeta(String::from("é")));
}

#[test]
fn colon_and_less_need_an_equals_sign() {
    assert_eq!(kinds(":="), vec![TokenKind::Assign]);
    assert_eq!(kinds("<="), vec![TokenKind::LEq]);
    assert_eq!(error(":"), TokenizerError::UnexpectedEOF);
    assert_eq!(error("a <"), TokenizerError::UnexpectedEOF);
    assert_eq!(error(":x"), TokenizerError::UnexpectedMeta(String::from(":x")));
    assert_eq!(error("< ="), TokenizerError::UnexpectedMeta(String::from("< ")));
    assert_eq!(error("a : = 1"), TokenizerError::UnexpectedMeta(String::from(": ")));
}

#[test]
fn every_operator_has_its_token() {
    assert_eq!(
        kinds("+-*/()=;!:=<="),
        vec![
            TokenKind::Plus,
            TokenKind::Minus,
            TokenKind::Times,
            TokenKind::Division,
            TokenKind::LParen,
            TokenKind::RParen,
            TokenKind::Equals,
            TokenKind::Semicolon,
            TokenKind::Not,
            TokenKind::Assign,
            TokenKind::LEq,
        ]
    );
}

#[test]
fn every_keyword_has_its_token() {
    assert_eq!(
        kinds("while if and not do else then skip true false"),
        vec![
            TokenKind::While,
            TokenKind::If,
            TokenKind::And,
            TokenKind::Not,
            TokenKind::Do,
            TokenKind::Else,
            TokenKind::Then,
            TokenKind::Skip,
            TokenKind::BoolLit(true),
            TokenKind::BoolLit(false),
        ]
    );
}

#[test]
fn other_words_are_identifiers() {
    assert_eq!(
        kinds("whil whiles i thenelse truefalse z abc"),
        vec![
            ident("whil"),
            ident("whiles"),
            ident("i"),
            ident("thenelse"),
            ident("truefalse"),
            ident("z"),
            ident("abc"),
        ]
    );
}

#[test]
fn words_and_numbers_end_where_their_characters_end() {
    assert_eq!(kinds("ab12cd"), vec![ident("ab"), TokenKind::IntLit(12), ident("cd")]);
    assert_eq!(kinds("x9"), vec![ident("x"), TokenKind::IntLit(9)]);
    assert_eq!(error("aB"), TokenizerError::UnexpectedMeta(String::from("B")));
}

#[test]
fn numbers_are_read_in_base_ten() {
    assert_eq!(kinds("0"), vec![TokenKind::IntLit(0)]);
    assert_eq!(kinds("007"), vec![TokenKind::IntLit(7)]);
    assert_eq!(kinds("22984415"), vec![TokenKind::IntLit(22984415)]);
    assert_eq!(kinds("60 * 60"), vec![TokenKind::IntLit(60), TokenKind::Times, TokenKind::IntLit(60)]);
    let largest = format!("{}", usize::MAX);
    assert_eq!(kinds(&largest), vec![TokenKind::IntLit(usize::MAX)]);
}

#[test]
fn number_too_large_is_refused_and_the_scan_stays_before_it() {
    let source = format!("a := {}0", usize::MAX);
    let mut tokenizer = Tokenizer::new(&source);
    assert_eq!(tokenizer.run(), Err(TokenizerError::IntegerOverflow));
    assert_eq!(tokenizer.current_index, 5);
    assert_eq!(tokenizer.position, Position { line: 1, offset: 6 });
    assert_eq!(error("99999999999999999999999999999999999999999"), TokenizerError::IntegerOverflow);
    let one_more = format!("{}", usize::MAX as u128 + 1);
    assert_eq!(error(&one_more), TokenizerError::IntegerOverflow);
}

#[test]
fn empty_and_blank_texts_hold_no_token() {
    assert_eq!(kinds(""), vec![]);
    assert_eq!(kinds(" \t\n  "), vec![]);
    assert!(!kinds(" a \n := \t 1 ").contains(&TokenKind::Whitespace));
}

#[test]
fn places_follow_lines_tabs_and_columns() {
    let mut tokenizer = Tokenizer::new("a\n\tb  c\n\nd");
    let tokens = tokenizer.run().unwrap();
    let places: Vec<(usize, usize)> =
        tokens.iter().map(|t| (t.position.line, t.position.offset)).collect();
    assert_eq!(places, vec![(1, 2), (2, 6), (2, 9), (4, 2)]);
    assert_eq!(tokenizer.position, Position { line: 4, offset: 2 });
}

#[test]
fn error_leaves_the_scan_before_the_lexeme() {
    let mut tokenizer = Tokenizer::new("ab := 1\n  c := %");
    assert_eq!(tokenizer.run(), Err(TokenizerError::UnexpectedMeta(String::from("%"))));
    assert_eq!(tokenizer.current_index, 15);
    assert_eq!(tokenizer.position, Position { line: 2, offset: 8 });
    assert_eq!(tokenizer.input.len(), 16);
}

#[test]
fn run_goes_on_from_the_cursor() {
    let mut tokenizer = Tokenizer::new("a b");
    tokenizer.current_index = 2;
    tokenizer.position = Position { line: 1, offset: 3 };
    assert_eq!(
        tokenizer.run(),
        Ok(vec![Token { kind: ident("b"), position: Position { line: 1, offset: 4 } }])
    );
    assert_eq!(tokenizer.run(), Ok(vec![]));
}
