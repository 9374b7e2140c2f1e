//! The instructions of the stack machine.

use vstd::prelude::*;

verus! {

/// One instruction. `BRANCH` and `LOOP` hold the code they control as nested
/// sequences, so the code has no jump targets.
#[derive(Debug, PartialEq, Eq)]
pub enum Code {
    NOOP,
    PUSH(usize),
    STORE(String),
    FETCH(String),
    TRUE,
    FALSE,
    ADD,
    MULT,
    SUB,
    EQ,
    LE,
    NEG,
    AND,
    /// The code to run when the top of the stack is true, then the code to
    /// run when it is false.
    BRANCH(Vec<Code>, Vec<Code>),
    /// The code of the condition, then the code of the body.
    LOOP(Vec<Code>, Vec<Code>),
}

pub ghost enum CodeView {
    NOOP,
    PUSH(nat),
    STORE(Seq<char>),
    FETCH(Seq<char>),
    TRUE,
    FALSE,
    ADD,
    MULT,
    SUB,
    EQ,
    LE,
    NEG,
    AND,
    BRANCH(Seq<CodeView>, Seq<CodeView>),
    LOOP(Seq<CodeView>, Seq<CodeView>),
}

/// The views of a sequence of instructions, nested sequences included.
pub open spec fn code_seq_view(code: Seq<Code>) -> Seq<CodeView>
    decreases code,
{
    Seq::new(
        code.len(),
        |i: int|
            if 0 <= i < code.len() {
                code_view(code[i])
            } else {
                CodeView::NOOP
            },
    )
}

pub open spec fn code_view(code: Code) -> CodeView
    decreases code,
{
    match code {
        Code::NOOP => CodeView::NOOP,
        Code::PUSH(value) => CodeView::PUSH(value as nat),
        Code::STORE(name) => CodeView::STORE(name@),
        Code::FETCH(name) => CodeView::FETCH(name@),
        Code::TRUE => CodeView::TRUE,
        Code::FALSE => CodeView::FALSE,
        Code::ADD => CodeView::ADD,
        Code::MULT => CodeView::MULT,
        Code::SUB => CodeView::SUB,
        Code::EQ => CodeView::EQ,
        Code::LE => CodeView::LE,
        Code::NEG => CodeView::NEG,
        Code::AND => CodeView::AND,
        Code::BRANCH(t, e) => CodeView::BRANCH(code_seq_view(t@), code_seq_view(e@)),
        Code::LOOP(c, b) => CodeView::LOOP(code_seq_view(c@), code_seq_view(b@)),
    }
}

impl View for Code {
    type V = CodeView;

    open spec fn view(&self) -> CodeView {
        code_view(*self)
    }
}

/// Why the compiler gave up.
#[derive(Debug, PartialEq, Eq)]
pub enum CompileError {
    /// The tree holds a node for which the machine has no instruction. The
    /// text names the node.
    Unsupported(String),
}

} // verus!
