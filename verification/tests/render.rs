use medan::lexer::parser::Parser;
use medan::lexer::syntax::{Expr, ExprKind, Stm, StmKind};
use medan::lexer::tokenizer::Tokenizer;

fn tree(source: &str) -> Stm {
    let tokens = Tokenizer::new(source).run().expect("the text holds no lexical error");
    let mut parser = Parser::new(tokens);
    let tree = parser.parse().expect("the text is a program");
    assert_eq!(parser.current_index, parser.tokens.len());
    tree
}

#[test]
fn rendering_is_read_back_as_the_same_tree() {
    let sources = [
        "a := 1",
        "a:=1;b:=2",
        "if true then a:=1 else a:=2",
        "while x <= 10 do x := x + 1; y := x",
        "a := 1 - 2 - 3",
        "a := not (b and !c) ; b := 4 / (1 + (2 * 3))",
        "if a = b then while c do d := 0 else if e then f := 007 else g := false",
        "secs := 22984415;\nhours := secs / (60 * 60);\n\tsecs := secs - 60 * 60 * hours",
    ];
    for source in sources {
        let first = tree(source);
        let text = first.render();
        assert_eq!(tree(&text), first);
        assert_eq!(tree(&text).render(), text);
    }
}

#[test]
fn rendering_writes_each_token_and_a_blank() {
    assert_eq!(tree("a:=1").render(), "a := 1 ");
    assert_eq!(tree("a:=1;b:=2").render(), "a := 1 ; b := 2 ");
    assert_eq!(
        tree("if !a then b:=(1+2)else c:=x<=y").render(),
        "if not a then b := ( 1 + 2 ) else c := x <= y "
    );
    assert_eq!(
        tree("while a and b do c := c * 2 - 1 / d = e").render(),
        "while a and b do c := c * 2 - 1 / d = e "
    );
}

#[test]
fn rendering_writes_numbers_in_base_ten() {
    for value in [0usize, 7, 10, 99, 100, 1234567890, usize::MAX] {
        let expr = Expr { kind: ExprKind::IntLit(value) };
        assert_eq!(expr.render(), format!("{} ", value));
    }
    let expr = Expr { kind: ExprKind::BoolLit(true) };
    assert_eq!(expr.render(), "true ");
    let expr = Expr { kind: ExprKind::BoolLit(false) };
    assert_eq!(expr.render(), "false ");
}

#[test]
fn rendering_of_a_tree_that_no_text_gives_is_read_back_otherwise() {
    let number = |value: usize| Box::new(Expr { kind: ExprKind::IntLit(value) });
    let left = Box::new(Expr { kind: ExprKind::Sub(number(1), number(2)) });
    let built = Stm {
        kind: StmKind::Assignment(
            String::from("a"),
            Expr { kind: ExprKind::Sub(left, number(3)) },
        ),
    };
    assert_eq!(built.render(), "a := 1 - 2 - 3 ");
    assert_ne!(tree(&built.render()), built);
}
