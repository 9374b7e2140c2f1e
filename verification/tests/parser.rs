use medan::lexer::lex;
use medan::lexer::parser::Parser;
use medan::lexer::syntax::{ErrorKind, Expr, ExprKind, Position, Stm, StmKind, Token, TokenKind};

fn number(value: usize) -> Expr {
    Expr { kind: ExprKind::IntLit(value) }
}

fn truth(value: bool) -> Expr {
    Expr { kind: ExprKind::BoolLit(value) }
}

fn name(text: &str) -> Expr {
    Expr { kind: ExprKind::Identifier(String::from(text)) }
}

fn assign(target: &str, value: Expr) -> Stm {
    Stm { kind: StmKind::Assignment(String::from(target), value) }
}

fn compound(first: Stm, rest: Stm) -> Stm {
    Stm { kind: StmKind::Compound(Box::new(first), Box::new(rest)) }
}

fn parse(source: &str) -> (Result<Stm, ErrorKind>, usize) {
    let mut parser = Parser::new(lex(source));
    let res = parser.parse();
    (res, parser.current_index)
}

#[test]
fn two_assignments_make_a_compound() {
    assert_eq!(
        parse("a:=1;b:=2"),
        (Ok(compound(assign("a", number(1)), assign("b", number(2)))), 7)
    );
}

#[test]
fn conditional_holds_condition_and_both_branches() {
    let expected = Stm {
        kind: StmKind::Conditional(
            truth(true),
            Box::new(assign("a", number(1))),
            Box::new(assign("a", number(2))),
        ),
    };
    assert_eq!(parse("if true then a:=1 else a:=2"), (Ok(expected), 10));
}

#[test]
fn truncated_assignment_is_an_unexpected_end() {
    assert_eq!(parse("a :="), (Err(ErrorKind::UnexpectedEOF), 2));
    assert_eq!(parse("a"), (Err(ErrorKind::UnexpectedEOF), 1));
    assert_eq!(parse(""), (Err(ErrorKind::UnexpectedEOF), 0));
    assert_eq!(parse("a := 1 +"), (Err(ErrorKind::UnexpectedEOF), 4));
    assert_eq!(parse("a := (1"), (Err(ErrorKind::UnexpectedEOF), 4));
    assert_eq!(parse("a := not"), (Err(ErrorKind::UnexpectedEOF), 3));
    assert_eq!(parse("if a"), (Err(ErrorKind::UnexpectedEOF), 2));
    assert_eq!(parse("if a then b := 1"), (Err(ErrorKind::UnexpectedEOF), 6));
    assert_eq!(parse("if a then b := 1 else"), (Err(ErrorKind::UnexpectedEOF), 7));
    assert_eq!(parse("while a do"), (Err(ErrorKind::UnexpectedEOF), 3));
    assert_eq!(parse("a := 1;"), (Err(ErrorKind::UnexpectedEOF), 4));
}

#[test]
fn token_in_the_wrong_place_is_refused_where_it_stands() {
    assert_eq!(parse("1 := 2"), (Err(ErrorKind::UnexpectedToken), 0));
    assert_eq!(parse("skip"), (Err(ErrorKind::UnexpectedToken), 0));
    assert_eq!(parse("a := )"), (Err(ErrorKind::UnexpectedToken), 2));
    assert_eq!(parse("a + 1"), (Err(ErrorKind::UnexpectedToken), 1));
    assert_eq!(parse("a := (1 2"), (Err(ErrorKind::UnexpectedToken), 4));
    assert_eq!(parse("if a b := 1 else c := 2"), (Err(ErrorKind::UnexpectedToken), 2));
    assert_eq!(parse("if a then b := 1 ; c := 2"), (Err(ErrorKind::UnexpectedToken), 6));
    assert_eq!(parse("while a then b := 1"), (Err(ErrorKind::UnexpectedToken), 2));
    assert_eq!(parse("a := 1 ; ; b := 2"), (Err(ErrorKind::UnexpectedToken), 4));
    assert_eq!(parse("a := 1 + + 2"), (Err(ErrorKind::UnexpectedToken), 4));
}

#[test]
fn binary_operators_lean_to_the_right() {
    let sub = |l: Expr, r: Expr| Expr { kind: ExprKind::Sub(Box::new(l), Box::new(r)) };
    assert_eq!(
        parse("a := 1 - 2 - 3").0,
        Ok(assign("a", sub(number(1), sub(number(2), number(3)))))
    );
    let expected = Expr {
        kind: ExprKind::Mult(
            Box::new(number(1)),
            Box::new(Expr { kind: ExprKind::Add(Box::new(number(2)), Box::new(number(3))) }),
        ),
    };
    assert_eq!(parse("a := 1 * 2 + 3").0, Ok(assign("a", expected)));
}

#[test]
fn every_operator_has_its_node() {
    let cases: Vec<(&str, fn(Box<Expr>, Box<Expr>) -> ExprKind)> = vec![
        ("+", ExprKind::Add),
        ("-", ExprKind::Sub),
        ("*", ExprKind::Mult),
        ("/", ExprKind::Div),
        ("=", ExprKind::Equals),
        ("<=", ExprKind::LessThanOrEquals),
        ("and", ExprKind::Conjunction),
    ];
    for (text, node) in cases {
        let source = format!("x {} 7", text);
        let mut parser = Parser::new(medan::lexer::tokenizer::Tokenizer::new(&source).run().unwrap());
        assert_eq!(
            parser.parse_expr(),
            Ok(Expr { kind: node(Box::new(name("x")), Box::new(number(7))) })
        );
        assert_eq!(parser.current_index, 3);
    }
}

#[test]
fn negation_and_parentheses_are_kept() {
    let expected = Expr {
        kind: ExprKind::Negation(Box::new(Expr {
            kind: ExprKind::Precedence(Box::new(Expr {
                kind: ExprKind::Conjunction(Box::new(name("a")), Box::new(truth(false))),
            })),
        })),
    };
    let mut parser = Parser::new(lex("not (a and false)"));
    assert_eq!(parser.parse_expr(), Ok(expected));
    assert_eq!(parser.current_index, 6);

    let mut parser = Parser::new(lex("!a"));
    assert_eq!(
        parser.parse_expr(),
        Ok(Expr { kind: ExprKind::Negation(Box::new(name("a"))) })
    );
}

#[test]
fn nothing_follows_a_parenthesis_within_an_expression() {
    let expected = assign("a", Expr { kind: ExprKind::Precedence(Box::new(number(1))) });
    assert_eq!(parse("a := (1) + 2"), (Ok(expected), 5));
}

#[test]
fn program_ends_at_the_first_token_that_is_no_semicolon() {
    assert_eq!(parse("a := 1 b := 2"), (Ok(assign("a", number(1))), 3));
    assert_eq!(parse("a := 1 else"), (Ok(assign("a", number(1))), 3));
}

#[test]
fn loop_takes_one_statement() {
    let looped = Stm {
        kind: StmKind::Loop(
            Expr { kind: ExprKind::LessThanOrEquals(Box::new(name("x")), Box::new(number(10))) },
            Box::new(assign(
                "x",
                Expr { kind: ExprKind::Add(Box::new(name("x")), Box::new(number(1))) },
            )),
        ),
    };
    assert_eq!(
        parse("while x <= 10 do x := x + 1; y := x"),
        (Ok(compound(looped, assign("y", name("x")))), 14)
    );
}

#[test]
fn statements_nest_in_branches() {
    let inner = Stm {
        kind: StmKind::Conditional(
            name("b"),
            Box::new(assign("x", number(1))),
            Box::new(assign("x", number(2))),
        ),
    };
    let expected = Stm {
        kind: StmKind::Conditional(name("a"), Box::new(inner), Box::new(assign("x", number(3)))),
    };
    assert_eq!(
        parse("if a then if b then x := 1 else x := 2 else x := 3").0,
        Ok(expected)
    );
}

#[test]
fn parse_statement_reads_one_statement_only() {
    let mut parser = Parser::new(lex("a := 1; b := 2"));
    assert_eq!(parser.parse_statement(), Ok(assign("a", number(1))));
    assert_eq!(parser.current_index, 3);
    assert_eq!(parser.peek(), Some(&TokenKind::Semicolon));
}

#[test]
fn parser_reads_kinds_and_not_places() {
    let place = Position { line: 9, offset: 9 };
    let tokens = vec![
        Token { kind: TokenKind::Identifier(String::from("a")), position: place },
        Token { kind: TokenKind::Assign, position: place },
        Token { kind: TokenKind::BoolLit(true), position: place },
    ];
    let mut parser = Parser::new(tokens);
    assert_eq!(parser.parse(), Ok(assign("a", truth(true))));
}

#[test]
fn cursor_past_the_end_is_an_unexpected_end() {
    let mut parser = Parser::new(lex("a := 1"));
    parser.current_index = 7;
    assert_eq!(parser.parse(), Err(ErrorKind::UnexpectedEOF));
    assert_eq!(parser.current_index, 7);
    assert_eq!(parser.parse_expr(), Err(ErrorKind::UnexpectedEOF));
    assert!(parser.next().is_none());
}

#[test]
fn refused_token_has_its_place() {
    let mut parser = Parser::new(lex("a := 1;\n  b + 2"));
    assert_eq!(parser.parse(), Err(ErrorKind::UnexpectedToken));
    assert_eq!(parser.current_index, 5);
    assert_eq!(parser.position(), Some(Position { line: 2, offset: 6 }));
    let mut parser = Parser::new(lex("a :="));
    assert_eq!(parser.parse(), Err(ErrorKind::UnexpectedEOF));
    assert_eq!(parser.position(), None);
}
