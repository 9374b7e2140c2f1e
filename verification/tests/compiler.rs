use medan::ast::compiler::{compile, compile_expr, compile_statement};
use medan::ast::syntax::{Code, CompileError};
use medan::lexer::lex;
use medan::lexer::parser::Parser;
use medan::lexer::syntax::{Expr, ExprKind, Stm, StmKind};

fn number(value: usize) -> Expr {
    Expr { kind: ExprKind::IntLit(value) }
}

fn name(text: &str) -> Expr {
    Expr { kind: ExprKind::Identifier(String::from(text)) }
}

fn assign(target: &str, value: Expr) -> Stm {
    Stm { kind: StmKind::Assignment(String::from(target), value) }
}

fn store(text: &str) -> Code {
    Code::STORE(String::from(text))
}

fn fetch(text: &str) -> Code {
    Code::FETCH(String::from(text))
}

fn tree(source: &str) -> Stm {
    Parser::new(lex(source)).parse().expect("the text is a program")
}

fn names(code: &[Code], stores: bool, out: &mut Vec<String>) {
    for instruction in code {
        match instruction {
            Code::STORE(n) if stores => out.push(n.clone()),
            Code::FETCH(n) if !stores => out.push(n.clone()),
            Code::BRANCH(a, b) | Code::LOOP(a, b) => {
                names(a, stores, out);
                names(b, stores, out);
            }
            _ => {}
        }
    }
}

#[test]
fn assignment_pushes_and_stores() {
    assert_eq!(compile(assign("a", number(5))), Ok(vec![Code::PUSH(5), store("a")]));
}

#[test]
fn conditional_is_condition_and_one_branch_instruction() {
    let cond = Expr { kind: ExprKind::LessThanOrEquals(Box::new(name("x")), Box::new(number(3))) };
    let taken = tree("a := 1; b := 2");
    let other = tree("a := x");
    let cond_code = compile_expr(Expr {
        kind: ExprKind::LessThanOrEquals(Box::new(name("x")), Box::new(number(3))),
    })
    .unwrap();
    let taken_code = compile_statement(tree("a := 1; b := 2")).unwrap();
    let other_code = compile_statement(tree("a := x")).unwrap();
    let code = compile(Stm {
        kind: StmKind::Conditional(cond, Box::new(taken), Box::new(other)),
    })
    .unwrap();
    assert_eq!(cond_code, vec![fetch("x"), Code::PUSH(3), Code::LE]);
    assert_eq!(code.len(), cond_code.len() + 1);
    assert_eq!(code[..cond_code.len()], cond_code[..]);
    assert_eq!(code[cond_code.len()], Code::BRANCH(taken_code, other_code));
    assert_eq!(
        code[3],
        Code::BRANCH(
            vec![Code::PUSH(1), store("a"), Code::PUSH(2), store("b")],
            vec![fetch("x"), store("a")]
        )
    );
}

#[test]
fn literals_and_names() {
    assert_eq!(compile_expr(number(0)), Ok(vec![Code::PUSH(0)]));
    assert_eq!(compile_expr(number(usize::MAX)), Ok(vec![Code::PUSH(usize::MAX)]));
    assert_eq!(compile_expr(Expr { kind: ExprKind::BoolLit(true) }), Ok(vec![Code::TRUE]));
    assert_eq!(compile_expr(Expr { kind: ExprKind::BoolLit(false) }), Ok(vec![Code::FALSE]));
    assert_eq!(compile_expr(name("x")), Ok(vec![fetch("x")]));
}

#[test]
fn operands_come_first_and_from_left_to_right() {
    let cases: Vec<(fn(Box<Expr>, Box<Expr>) -> ExprKind, Code)> = vec![
        (ExprKind::Add, Code::ADD),
        (ExprKind::Sub, Code::SUB),
        (ExprKind::Mult, Code::MULT),
        (ExprKind::Equals, Code::EQ),
        (ExprKind::LessThanOrEquals, Code::LE),
        (ExprKind::Conjunction, Code::AND),
    ];
    for (node, instruction) in cases {
        let expr = Expr { kind: node(Box::new(name("l")), Box::new(number(2))) };
        assert_eq!(compile_expr(expr), Ok(vec![fetch("l"), Code::PUSH(2), instruction]));
    }
    assert_eq!(
        compile(tree("a := 9 - 2 - 3")),
        Ok(vec![Code::PUSH(9), Code::PUSH(2), Code::PUSH(3), Code::SUB, Code::SUB, store("a")])
    );
}

#[test]
fn negation_follows_its_operand_and_parentheses_leave_no_trace() {
    assert_eq!(
        compile(tree("a := not (b and true)")),
        Ok(vec![fetch("b"), Code::TRUE, Code::AND, Code::NEG, store("a")])
    );
    assert_eq!(compile(tree("a := (((7)))")), Ok(vec![Code::PUSH(7), store("a")]));
}

#[test]
fn loop_is_one_instruction_with_condition_and_body() {
    assert_eq!(
        compile(tree("while x <= 10 do x := x + 1")),
        Ok(vec![Code::LOOP(
            vec![fetch("x"), Code::PUSH(10), Code::LE],
            vec![fetch("x"), Code::PUSH(1), Code::ADD, store("x")]
        )])
    );
}

#[test]
fn compound_is_one_code_after_the_other() {
    assert_eq!(
        compile(tree("a := 1; b := a; c := b")),
        Ok(vec![Code::PUSH(1), store("a"), fetch("a"), store("b"), fetch("b"), store("c")])
    );
}

#[test]
fn division_has_no_instruction() {
    let unsupported = Err(CompileError::Unsupported(String::from("Div")));
    assert_eq!(compile(tree("a := 6 / 2")), unsupported);
    assert_eq!(compile(tree("a := 1; while a <= 2 do b := 1 + (6 / a)")), unsupported);
    assert_eq!(compile(tree("if 4 / 2 = 2 then a := 1 else a := 2")), unsupported);
    assert_eq!(
        compile_expr(Expr { kind: ExprKind::Div(Box::new(number(1)), Box::new(number(2))) }),
        unsupported
    );
}

#[test]
fn code_keeps_the_order_of_the_names_in_the_text() {
    let source = "a := b + c; if a <= d then e := a else f := not g; while h do i := (j)";
    let code = compile(tree(source)).unwrap();
    let mut stored = Vec::new();
    let mut fetched = Vec::new();
    names(&code, true, &mut stored);
    names(&code, false, &mut fetched);
    assert_eq!(stored, vec!["a", "e", "f", "i"]);
    assert_eq!(fetched, vec!["b", "c", "a", "d", "a", "g", "h", "j"]);
}
