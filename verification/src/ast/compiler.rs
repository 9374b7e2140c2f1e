//! The compiler: from a statement tree to the code of a stack machine.
//!
//! Operands are pushed from left to right and the operator follows them.
//! Branches and loops hold their code as nested sequences. The machine has no
//! instruction that divides, so a tree that holds a division is refused.

use crate::ast::syntax::{code_seq_view, code_view, Code, CodeView, CompileError};
use crate::lexer::syntax::{
    expr_view, BinaryOp, Expr, ExprKind, ExprView, Stm, StmKind, StmView,
};
use vstd::prelude::*;

verus! {

/// The instruction that applies `op` to the two values on top of the stack.
pub open spec fn opcode(op: BinaryOp) -> Option<CodeView> {
    match op {
        BinaryOp::Add => Some(CodeView::ADD),
        BinaryOp::Sub => Some(CodeView::SUB),
        BinaryOp::Mult => Some(CodeView::MULT),
        BinaryOp::Div => None,
        BinaryOp::Equals => Some(CodeView::EQ),
        BinaryOp::LessThanOrEquals => Some(CodeView::LE),
        BinaryOp::Conjunction => Some(CodeView::AND),
    }
}

/// The code that leaves the value of `expr` on the stack, or `None` where
/// `expr` holds a division.
pub open spec fn compile_expr_spec(expr: ExprView) -> Option<Seq<CodeView>>
    decreases expr,
{
    match expr {
        ExprView::IntLit(value) => Some(seq![CodeView::PUSH(value)]),
        ExprView::BoolLit(value) => Some(
            seq![if value {
                CodeView::TRUE
            } else {
                CodeView::FALSE
            }],
        ),
        ExprView::Identifier(name) => Some(seq![CodeView::FETCH(name)]),
        ExprView::Binary(op, left, right) => match (
            compile_expr_spec(*left),
            compile_expr_spec(*right),
            opcode(op),
        ) {
            (Some(l), Some(r), Some(instruction)) => Some(l + r + seq![instruction]),
            _ => None,
        },
        ExprView::Negation(inner) => match compile_expr_spec(*inner) {
            Some(code) => Some(code + seq![CodeView::NEG]),
            None => None,
        },
        ExprView::Precedence(inner) => compile_expr_spec(*inner),
    }
}

/// The code that runs `stm`, or `None` where `stm` holds a division.
pub open spec fn compile_statement_spec(stm: StmView) -> Option<Seq<CodeView>>
    decreases stm,
{
    match stm {
        StmView::Assignment(name, expr) => match compile_expr_spec(expr) {
            Some(code) => Some(code + seq![CodeView::STORE(name)]),
            None => None,
        },
        StmView::Conditional(cond, taken, other) => match (
            compile_expr_spec(cond),
            compile_statement_spec(*taken),
            compile_statement_spec(*other),
        ) {
            (Some(test), Some(t), Some(e)) => Some(test + seq![CodeView::BRANCH(t, e)]),
            _ => None,
        },
        StmView::Loop(cond, body) => match (
            compile_expr_spec(cond),
            compile_statement_spec(*body),
        ) {
            (Some(test), Some(repeated)) => Some(seq![CodeView::LOOP(test, repeated)]),
            _ => None,
        },
        StmView::Compound(first, rest) => match (
            compile_statement_spec(*first),
            compile_statement_spec(*rest),
        ) {
            (Some(f), Some(r)) => Some(f + r),
            _ => None,
        },
    }
}

/// Whether a division stands anywhere in `expr`.
pub open spec fn expr_divides(expr: ExprView) -> bool
    decreases expr,
{
    match expr {
        ExprView::Binary(op, left, right) => op == BinaryOp::Div || expr_divides(*left)
            || expr_divides(*right),
        ExprView::Negation(inner) => expr_divides(*inner),
        ExprView::Precedence(inner) => expr_divides(*inner),
        _ => false,
    }
}

/// Whether a division stands anywhere in `stm`.
pub open spec fn stm_divides(stm: StmView) -> bool
    decreases stm,
{
    match stm {
        StmView::Assignment(_, expr) => expr_divides(expr),
        StmView::Conditional(cond, taken, other) => expr_divides(cond) || stm_divides(*taken)
            || stm_divides(*other),
        StmView::Loop(cond, body) => expr_divides(cond) || stm_divides(*body),
        StmView::Compound(first, rest) => stm_divides(*first) || stm_divides(*rest),
    }
}

/// An expression has code exactly when it holds no division.
pub proof fn lemma_expr_compiles(expr: ExprView)
    ensures
        compile_expr_spec(expr) is Some <==> !expr_divides(expr),
    decreases expr,
{
    match expr {
        ExprView::Binary(_, left, right) => {
            lemma_expr_compiles(*left);
            lemma_expr_compiles(*right);
        },
        ExprView::Negation(inner) => {
            lemma_expr_compiles(*inner);
        },
        ExprView::Precedence(inner) => {
            lemma_expr_compiles(*inner);
        },
        _ => {},
    }
}

/// A statement has code exactly when it holds no division.
pub proof fn lemma_statement_compiles(stm: StmView)
    ensures
        compile_statement_spec(stm) is Some <==> !stm_divides(stm),
    decreases stm,
{
    match stm {
        StmView::Assignment(_, expr) => {
            lemma_expr_compiles(expr);
        },
        StmView::Conditional(cond, taken, other) => {
            lemma_expr_compiles(cond);
            lemma_statement_compiles(*taken);
            lemma_statement_compiles(*other);
        },
        StmView::Loop(cond, body) => {
            lemma_expr_compiles(cond);
            lemma_statement_compiles(*body);
        },
        StmView::Compound(first, rest) => {
            lemma_statement_compiles(*first);
            lemma_statement_compiles(*rest);
        },
    }
}

/// The code of a conditional is the code of its condition and then one
/// `BRANCH`, which holds the code of the two branches as they are, each as a
/// sequence of its own. There is no code where one of the three has none.
pub proof fn lemma_conditional_code(cond: ExprView, taken: StmView, other: StmView)
    ensures
        match (
            compile_expr_spec(cond),
            compile_statement_spec(taken),
            compile_statement_spec(other),
        ) {
            (Some(test), Some(t), Some(e)) => compile_statement_spec(
                StmView::Conditional(cond, Box::new(taken), Box::new(other)),
            ) == Some(test + seq![CodeView::BRANCH(t, e)]),
            _ => compile_statement_spec(
                StmView::Conditional(cond, Box::new(taken), Box::new(other)),
            ) is None,
        },
{
}

/// The view of a sequence with one more instruction.
pub proof fn lemma_view_push(code: Seq<Code>, instruction: Code)
    ensures
        code_seq_view(code.push(instruction)) == code_seq_view(code) + seq![
            code_view(instruction),
        ],
{
    assert(code_seq_view(code.push(instruction)) =~= code_seq_view(code) + seq![
        code_view(instruction),
    ]);
}

/// The view of two sequences put together.
pub proof fn lemma_view_concat(a: Seq<Code>, b: Seq<Code>)
    ensures
        code_seq_view(a + b) == code_seq_view(a) + code_seq_view(b),
{
    assert(code_seq_view(a + b) =~= code_seq_view(a) + code_seq_view(b));
}

/// The error for a tree that holds a division.
fn unsupported_division() -> (error: CompileError)
    ensures
        error matches CompileError::Unsupported(what) && what@ == "Div"@,
{
    CompileError::Unsupported("Div".to_owned())
}

/// What `compile` and its helpers hand back for a tree whose code, if it has
/// any, is `code`.
pub open spec fn compiled(res: Result<Vec<Code>, CompileError>, code: Option<Seq<CodeView>>) -> bool {
    match res {
        Ok(instructions) => code == Some(code_seq_view(instructions@)),
        Err(CompileError::Unsupported(what)) => code is None && what@ == "Div"@,
    }
}

/// One instruction as a sequence.
fn single(instruction: Code) -> (code: Vec<Code>)
    ensures
        code_seq_view(code@) == seq![instruction@],
{
    let mut code: Vec<Code> = Vec::new();
    code.push(instruction);
    assert(code_seq_view(code@) =~= seq![instruction@]);
    code
}

/// Puts `instruction` after `code`.
fn followed(code: Vec<Code>, instruction: Code) -> (longer: Vec<Code>)
    ensures
        code_seq_view(longer@) == code_seq_view(code@) + seq![instruction@],
{
    let mut longer = code;
    proof {
        lemma_view_push(longer@, instruction);
    }
    longer.push(instruction);
    longer
}

/// Puts `second` after `first`.
fn joined(first: Vec<Code>, second: Vec<Code>) -> (both: Vec<Code>)
    ensures
        code_seq_view(both@) == code_seq_view(first@) + code_seq_view(second@),
{
    let mut both = first;
    let mut rest = second;
    proof {
        lemma_view_concat(both@, rest@);
    }
    both.append(&mut rest);
    both
}

/// The code that leaves the value of an expression on the stack.
pub fn compile_expr(ast: Expr) -> (res: Result<Vec<Code>, CompileError>)
    ensures
        compiled(res, compile_expr_spec(ast@)),
    decreases ast,
{
    let (op, left, right) = match ast.kind {
        ExprKind::IntLit(val) => {
            return Ok(single(Code::PUSH(val)));
        },
        ExprKind::BoolLit(val) => {
            return Ok(
                single(
                    if val {
                        Code::TRUE
                    } else {
                        Code::FALSE
                    },
                ),
            );
        },
        ExprKind::Identifier(name) => {
            return Ok(single(Code::FETCH(name)));
        },
        ExprKind::Negation(inner) => {
            return match compile_expr(*inner) {
                Ok(code) => Ok(followed(code, Code::NEG)),
                Err(e) => Err(e),
            };
        },
        ExprKind::Precedence(inner) => {
            return compile_expr(*inner);
        },
        ExprKind::Add(left, right) => (BinaryOp::Add, left, right),
        ExprKind::Sub(left, right) => (BinaryOp::Sub, left, right),
        ExprKind::Mult(left, right) => (BinaryOp::Mult, left, right),
        ExprKind::Div(left, right) => (BinaryOp::Div, left, right),
        ExprKind::Equals(left, right) => (BinaryOp::Equals, left, right),
        ExprKind::LessThanOrEquals(left, right) => (BinaryOp::LessThanOrEquals, left, right),
        ExprKind::Conjunction(left, right) => (BinaryOp::Conjunction, left, right),
    };
    assert(ast@ == ExprView::Binary(op, Box::new(expr_view(*left)), Box::new(expr_view(*right))));
    let instruction = match op {
        BinaryOp::Add => Code::ADD,
        BinaryOp::Sub => Code::SUB,
        BinaryOp::Mult => Code::MULT,
        BinaryOp::Div => {
            return Err(unsupported_division());
        },
        BinaryOp::Equals => Code::EQ,
        BinaryOp::LessThanOrEquals => Code::LE,
        BinaryOp::Conjunction => Code::AND,
    };
    let l = match compile_expr(*left) {
        Ok(l) => l,
        Err(e) => {
            return Err(e);
        },
    };
    let r = match compile_expr(*right) {
        Ok(r) => r,
        Err(e) => {
            return Err(e);
        },
    };
    Ok(followed(joined(l, r), instruction))
}

/// The code that runs a statement.
pub fn compile_statement(ast: Stm) -> (res: Result<Vec<Code>, CompileError>)
    ensures
        compiled(res, compile_statement_spec(ast@)),
    decreases ast,
{
    match ast.kind {
        StmKind::Assignment(name, expr) => {
            match compile_expr(expr) {
                Ok(code) => Ok(followed(code, Code::STORE(name))),
                Err(e) => Err(e),
            }
        },
        StmKind::Conditional(cond, taken, other) => {
            let test = match compile_expr(cond) {
                Ok(test) => test,
                Err(e) => {
                    return Err(e);
                },
            };
            let t = match compile_statement(*taken) {
                Ok(t) => t,
                Err(e) => {
                    return Err(e);
                },
            };
            let e = match compile_statement(*other) {
                Ok(e) => e,
                Err(e) => {
                    return Err(e);
                },
            };
            Ok(followed(test, Code::BRANCH(t, e)))
        },
        StmKind::Loop(cond, body) => {
            let test = match compile_expr(cond) {
                Ok(test) => test,
                Err(e) => {
                    return Err(e);
                },
            };
            let repeated = match compile_statement(*body) {
                Ok(repeated) => repeated,
                Err(e) => {
                    return Err(e);
                },
            };
            Ok(single(Code::LOOP(test, repeated)))
        },
        StmKind::Compound(first, rest) => {
            let f = match compile_statement(*first) {
                Ok(f) => f,
                Err(e) => {
                    return Err(e);
                },
            };
            let r = match compile_statement(*rest) {
                Ok(r) => r,
                Err(e) => {
                    return Err(e);
                },
            };
            Ok(joined(f, r))
        },
    }
}

/// The code of a whole program: the code of its statement tree. It is given
/// exactly for the trees that hold no division; for the others the error
/// names the node.
pub fn compile(ast: Stm) -> (res: Result<Vec<Code>, CompileError>)
    ensures
        compiled(res, compile_statement_spec(ast@)),
        res is Ok <==> !stm_divides(ast@),
{
    proof {
        lemma_statement_compiles(ast@);
    }
    compile_statement(ast)
}

} // verus!
