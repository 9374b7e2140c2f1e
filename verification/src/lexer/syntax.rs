//! The vocabulary shared by the tokenizer and the parser: positions, tokens,
//! expression and statement trees, and the errors of both stages. Every type
//! has a mathematical view, over which the contracts are stated.

use vstd::prelude::*;

verus! {

/// A place in the source text. Lines and columns are counted from 1.
#[derive(Clone, Copy, Debug, PartialEq, Eq, Structural)]
pub struct Position {
    pub line: usize,
    pub offset: usize,
}

/// A place in a text of any length.
pub ghost struct PositionView {
    pub line: nat,
    pub offset: nat,
}

impl View for Position {
    type V = PositionView;

    open spec fn view(&self) -> PositionView {
        PositionView { line: self.line as nat, offset: self.offset as nat }
    }
}

#[derive(Clone, Debug, PartialEq, Eq)]
pub enum TokenKind {
    LParen,
    RParen,
    Plus,
    Minus,
    Times,
    Division,
    Assign,
    Equals,
    Skip,
    LEq,
    While,
    Then,
    Else,
    Do,
    If,
    And,
    Semicolon,
    /// Negation, written `!` or `not`.
    Not,
    /// A run of blanks. The tokenizer reads it and never hands it out.
    Whitespace,
    Identifier(String),
    IntLit(usize),
    BoolLit(bool),
}

pub ghost enum TokenKindView {
    LParen,
    RParen,
    Plus,
    Minus,
    Times,
    Division,
    Assign,
    Equals,
    Skip,
    LEq,
    While,
    Then,
    Else,
    Do,
    If,
    And,
    Semicolon,
    Not,
    Whitespace,
    Identifier(Seq<char>),
    IntLit(nat),
    BoolLit(bool),
}

impl View for TokenKind {
    type V = TokenKindView;

    open spec fn view(&self) -> TokenKindView {
        match self {
            TokenKind::LParen => TokenKindView::LParen,
            TokenKind::RParen => TokenKindView::RParen,
            TokenKind::Plus => TokenKindView::Plus,
            TokenKind::Minus => TokenKindView::Minus,
            TokenKind::Times => TokenKindView::Times,
            TokenKind::Division => TokenKindView::Division,
            TokenKind::Assign => TokenKindView::Assign,
            TokenKind::Equals => TokenKindView::Equals,
            TokenKind::Skip => TokenKindView::Skip,
            TokenKind::LEq => TokenKindView::LEq,
            TokenKind::While => TokenKindView::While,
            TokenKind::Then => TokenKindView::Then,
            TokenKind::Else => TokenKindView::Else,
            TokenKind::Do => TokenKindView::Do,
            TokenKind::If => TokenKindView::If,
            TokenKind::And => TokenKindView::And,
            TokenKind::Semicolon => TokenKindView::Semicolon,
            TokenKind::Not => TokenKindView::Not,
            TokenKind::Whitespace => TokenKindView::Whitespace,
            TokenKind::Identifier(name) => TokenKindView::Identifier(name@),
            TokenKind::IntLit(value) => TokenKindView::IntLit(*value as nat),
            TokenKind::BoolLit(value) => TokenKindView::BoolLit(*value),
        }
    }
}

/// A classified lexeme and the place where the scan stood once it was read.
#[derive(Clone, Debug, PartialEq, Eq)]
pub struct Token {
    pub kind: TokenKind,
    pub position: Position,
}

pub ghost struct TokenView {
    pub kind: TokenKindView,
    pub position: PositionView,
}

impl View for Token {
    type V = TokenView;

    open spec fn view(&self) -> TokenView {
        TokenView { kind: self.kind@, position: self.position@ }
    }
}

/// The views of a sequence of tokens.
pub open spec fn tokens_view(tokens: Seq<Token>) -> Seq<TokenView> {
    tokens.map_values(|t: Token| t@)
}

/// The kinds of a sequence of tokens, which is all the parser reads.
pub open spec fn kinds_of(tokens: Seq<TokenView>) -> Seq<TokenKindView> {
    tokens.map_values(|t: TokenView| t.kind)
}

/// The kinds of a sequence of tokens, which is all the parser reads.
pub open spec fn kinds_view(tokens: Seq<Token>) -> Seq<TokenKindView> {
    kinds_of(tokens_view(tokens))
}

#[derive(Debug, PartialEq, Eq)]
pub enum TokenizerError {
    /// The text ended in the middle of a two-character operator.
    UnexpectedEOF,
    /// A character, or the start of an operator with the character after it,
    /// that forms no token.
    UnexpectedMeta(String),
    /// A number that does not fit the machine's unsigned integer.
    IntegerOverflow,
}

pub ghost enum TokenizerErrorView {
    UnexpectedEOF,
    UnexpectedMeta(Seq<char>),
    IntegerOverflow,
}

impl View for TokenizerError {
    type V = TokenizerErrorView;

    open spec fn view(&self) -> TokenizerErrorView {
        match self {
            TokenizerError::UnexpectedEOF => TokenizerErrorView::UnexpectedEOF,
            TokenizerError::UnexpectedMeta(text) => TokenizerErrorView::UnexpectedMeta(text@),
            TokenizerError::IntegerOverflow => TokenizerErrorView::IntegerOverflow,
        }
    }
}

#[derive(Debug, PartialEq, Eq)]
pub enum ExprKind {
    IntLit(usize),
    BoolLit(bool),
    Identifier(String),
    Add(Box<Expr>, Box<Expr>),
    Sub(Box<Expr>, Box<Expr>),
    Mult(Box<Expr>, Box<Expr>),
    Div(Box<Expr>, Box<Expr>),
    Equals(Box<Expr>, Box<Expr>),
    LessThanOrEquals(Box<Expr>, Box<Expr>),
    Negation(Box<Expr>),
    Conjunction(Box<Expr>, Box<Expr>),
    /// An expression that stood in parentheses.
    Precedence(Box<Expr>),
}

#[derive(Debug, PartialEq, Eq)]
pub struct Expr {
    pub kind: ExprKind,
}

/// The seven operators that take two operands.
#[derive(Clone, Copy, Debug, PartialEq, Eq, Structural)]
pub enum BinaryOp {
    Add,
    Sub,
    Mult,
    Div,
    Equals,
    LessThanOrEquals,
    Conjunction,
}

/// An expression as a mathematical tree. The binary forms share one shape.
pub ghost enum ExprView {
    IntLit(nat),
    BoolLit(bool),
    Identifier(Seq<char>),
    Binary(BinaryOp, Box<ExprView>, Box<ExprView>),
    Negation(Box<ExprView>),
    Precedence(Box<ExprView>),
}

pub open spec fn expr_view(expr: Expr) -> ExprView
    decreases expr,
{
    match expr.kind {
        ExprKind::IntLit(value) => ExprView::IntLit(value as nat),
        ExprKind::BoolLit(value) => ExprView::BoolLit(value),
        ExprKind::Identifier(name) => ExprView::Identifier(name@),
        ExprKind::Add(l, r) => ExprView::Binary(
            BinaryOp::Add,
            Box::new(expr_view(*l)),
            Box::new(expr_view(*r)),
        ),
        ExprKind::Sub(l, r) => ExprView::Binary(
            BinaryOp::Sub,
            Box::new(expr_view(*l)),
            Box::new(expr_view(*r)),
        ),
        ExprKind::Mult(l, r) => ExprView::Binary(
            BinaryOp::Mult,
            Box::new(expr_view(*l)),
            Box::new(expr_view(*r)),
        ),
        ExprKind::Div(l, r) => ExprView::Binary(
            BinaryOp::Div,
            Box::new(expr_view(*l)),
            Box::new(expr_view(*r)),
        ),
        ExprKind::Equals(l, r) => ExprView::Binary(
            BinaryOp::Equals,
            Box::new(expr_view(*l)),
            Box::new(expr_view(*r)),
        ),
        ExprKind::LessThanOrEquals(l, r) => ExprView::Binary(
            BinaryOp::LessThanOrEquals,
            Box::new(expr_view(*l)),
            Box::new(expr_view(*r)),
        ),
        ExprKind::Conjunction(l, r) => ExprView::Binary(
            BinaryOp::Conjunction,
            Box::new(expr_view(*l)),
            Box::new(expr_view(*r)),
        ),
        ExprKind::Negation(e) => ExprView::Negation(Box::new(expr_view(*e))),
        ExprKind::Precedence(e) => ExprView::Precedence(Box::new(expr_view(*e))),
    }
}

impl View for ExprKind {
    type V = ExprView;

    open spec fn view(&self) -> ExprView {
        expr_view(Expr { kind: *self })
    }
}

impl View for Expr {
    type V = ExprView;

    open spec fn view(&self) -> ExprView {
        expr_view(*self)
    }
}

#[derive(Debug, PartialEq, Eq)]
pub enum StmKind {
    Assignment(String, Expr),
    Conditional(Expr, Box<Stm>, Box<Stm>),
    Loop(Expr, Box<Stm>),
    Compound(Box<Stm>, Box<Stm>),
}

#[derive(Debug, PartialEq, Eq)]
pub struct Stm {
    pub kind: StmKind,
}

/// A statement as a mathematical tree.
pub ghost enum StmView {
    Assignment(Seq<char>, ExprView),
    Conditional(ExprView, Box<StmView>, Box<StmView>),
    Loop(ExprView, Box<StmView>),
    Compound(Box<StmView>, Box<StmView>),
}

pub open spec fn stm_view(stm: Stm) -> StmView
    decreases stm,
{
    match stm.kind {
        StmKind::Assignment(name, expr) => StmView::Assignment(name@, expr_view(expr)),
        StmKind::Conditional(cond, t, e) => StmView::Conditional(
            expr_view(cond),
            Box::new(stm_view(*t)),
            Box::new(stm_view(*e)),
        ),
        StmKind::Loop(cond, body) => StmView::Loop(expr_view(cond), Box::new(stm_view(*body))),
        StmKind::Compound(first, rest) => StmView::Compound(
            Box::new(stm_view(*first)),
            Box::new(stm_view(*rest)),
        ),
    }
}

impl View for StmKind {
    type V = StmView;

    open spec fn view(&self) -> StmView {
        stm_view(Stm { kind: *self })
    }
}

impl View for Stm {
    type V = StmView;

    open spec fn view(&self) -> StmView {
        stm_view(*self)
    }
}

/// Why the parser gave up.
#[derive(Clone, Copy, Debug, PartialEq, Eq, Structural)]
pub enum ErrorKind {
    /// A token was needed and the sequence had ended.
    UnexpectedEOF,
    /// The token at the cursor cannot stand where it stands.
    UnexpectedToken,
}

} // verus!
