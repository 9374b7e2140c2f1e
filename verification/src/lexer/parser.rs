//! The parser: recursive descent over the token kinds, with one token of
//! lookahead and a cursor that only moves forward.
//!
//! ```text
//! program    := statement (';' statement)*
//! statement  := identifier ':=' expr
//!             | 'if' expr 'then' statement 'else' statement
//!             | 'while' expr 'do' statement
//! expr       := 'not' expr
//!             | '(' expr ')'
//!             | literal (binop expr)?
//! ```
//!
//! All binary operators bind alike and to the right: `1 - 2 - 3` is
//! `1 - (2 - 3)`. The `*_spec` functions say what each production reads from
//! a sequence of token kinds; the methods of `Parser` compute it.

use crate::lexer::syntax::{
    kinds_view, BinaryOp, ErrorKind, Expr, ExprKind, ExprView, Position, Stm, StmKind, StmView,
    Token, TokenKind, TokenKindView,
};
use vstd::prelude::*;

verus! {

/// What a production made of the tokens from some index on: the tree or the
/// error, and the index at which the cursor rests. After an error that is the
/// index of the token that was refused, or the length of the sequence where a
/// token was missing.
pub ghost struct Parsed<T> {
    pub result: Result<T, ErrorKind>,
    pub next: int,
}

/// The expression that a literal token is.
pub open spec fn literal_of(kind: TokenKindView) -> Option<ExprView> {
    match kind {
        TokenKindView::IntLit(value) => Some(ExprView::IntLit(value)),
        TokenKindView::BoolLit(value) => Some(ExprView::BoolLit(value)),
        TokenKindView::Identifier(name) => Some(ExprView::Identifier(name)),
        _ => None,
    }
}

/// The binary operator that a token writes.
pub open spec fn operator_of(kind: TokenKindView) -> Option<BinaryOp> {
    match kind {
        TokenKindView::Plus => Some(BinaryOp::Add),
        TokenKindView::Minus => Some(BinaryOp::Sub),
        TokenKindView::Times => Some(BinaryOp::Mult),
        TokenKindView::Division => Some(BinaryOp::Div),
        TokenKindView::Equals => Some(BinaryOp::Equals),
        TokenKindView::LEq => Some(BinaryOp::LessThanOrEquals),
        TokenKindView::And => Some(BinaryOp::Conjunction),
        _ => None,
    }
}

/// The error where `wanted` must stand at index `at`, or `None` where it
/// stands there.
pub open spec fn missing(tokens: Seq<TokenKindView>, at: int, wanted: TokenKindView) -> Option<
    ErrorKind,
> {
    if !(0 <= at < tokens.len()) {
        Some(ErrorKind::UnexpectedEOF)
    } else if tokens[at] == wanted {
        None
    } else {
        Some(ErrorKind::UnexpectedToken)
    }
}

/// A production that gave up with `error`, the cursor at `next`.
pub open spec fn failed<T>(error: ErrorKind, next: int) -> Parsed<T> {
    Parsed { result: Err(error), next }
}

/// `literal`: one token that is a number, a truth value or a name.
pub open spec fn parse_literal_spec(tokens: Seq<TokenKindView>, at: int) -> Parsed<ExprView> {
    if !(0 <= at < tokens.len()) {
        failed(ErrorKind::UnexpectedEOF, at)
    } else {
        match literal_of(tokens[at]) {
            Some(literal) => Parsed { result: Ok(literal), next: at + 1 },
            None => failed(ErrorKind::UnexpectedToken, at),
        }
    }
}

/// `expr`, read from index `at`.
pub open spec fn parse_expr_spec(tokens: Seq<TokenKindView>, at: int) -> Parsed<ExprView>
    decreases tokens.len() - at,
{
    if !(0 <= at < tokens.len()) {
        failed(ErrorKind::UnexpectedEOF, at)
    } else if tokens[at] is LParen {
        let inner = parse_expr_spec(tokens, at + 1);
        match inner.result {
            Err(e) => failed(e, inner.next),
            Ok(expr) => match missing(tokens, inner.next, TokenKindView::RParen) {
                Some(e) => failed(e, inner.next),
                None => Parsed {
                    result: Ok(ExprView::Precedence(Box::new(expr))),
                    next: inner.next + 1,
                },
            },
        }
    } else if tokens[at] is Not {
        let inner = parse_expr_spec(tokens, at + 1);
        match inner.result {
            Err(e) => failed(e, inner.next),
            Ok(expr) => Parsed { result: Ok(ExprView::Negation(Box::new(expr))), next: inner.next },
        }
    } else {
        match literal_of(tokens[at]) {
            None => failed(ErrorKind::UnexpectedToken, at),
            Some(left) => {
                if at + 1 < tokens.len() && operator_of(tokens[at + 1]) is Some {
                    let right = parse_expr_spec(tokens, at + 2);
                    match right.result {
                        Err(e) => failed(e, right.next),
                        Ok(expr) => Parsed {
                            result: Ok(
                                ExprView::Binary(
                                    operator_of(tokens[at + 1])->0,
                                    Box::new(left),
                                    Box::new(expr),
                                ),
                            ),
                            next: right.next,
                        },
                    }
                } else {
                    Parsed { result: Ok(left), next: at + 1 }
                }
            },
        }
    }
}

/// `statement`, read from index `at`.
pub open spec fn parse_statement_spec(tokens: Seq<TokenKindView>, at: int) -> Parsed<StmView>
    decreases tokens.len() - at,
{
    if !(0 <= at < tokens.len()) {
        failed(ErrorKind::UnexpectedEOF, at)
    } else {
        match tokens[at] {
            TokenKindView::Identifier(name) => match missing(
                tokens,
                at + 1,
                TokenKindView::Assign,
            ) {
                Some(e) => failed(e, at + 1),
                None => {
                    let value = parse_expr_spec(tokens, at + 2);
                    match value.result {
                        Err(e) => failed(e, value.next),
                        Ok(expr) => Parsed {
                            result: Ok(StmView::Assignment(name, expr)),
                            next: value.next,
                        },
                    }
                },
            },
            TokenKindView::If => {
                let cond = parse_expr_spec(tokens, at + 1);
                match cond.result {
                    Err(e) => failed(e, cond.next),
                    Ok(test) => match missing(tokens, cond.next, TokenKindView::Then) {
                        Some(e) => failed(e, cond.next),
                        None => {
                            proof {
                                lemma_expr_advances(tokens, at + 1);
                            }
                            let first = parse_statement_spec(tokens, cond.next + 1);
                            match first.result {
                                Err(e) => failed(e, first.next),
                                Ok(taken) => match missing(
                                    tokens,
                                    first.next,
                                    TokenKindView::Else,
                                ) {
                                    Some(e) => failed(e, first.next),
                                    None => {
                                        // A statement holds at least one token
                                        // (`lemma_statement_advances`), so
                                        // this test never fails.
                                        if first.next > at {
                                            let second = parse_statement_spec(
                                                tokens,
                                                first.next + 1,
                                            );
                                            match second.result {
                                                Err(e) => failed(e, second.next),
                                                Ok(other) => Parsed {
                                                    result: Ok(
                                                        StmView::Conditional(
                                                            test,
                                                            Box::new(taken),
                                                            Box::new(other),
                                                        ),
                                                    ),
                                                    next: second.next,
                                                },
                                            }
                                        } else {
                                            failed(ErrorKind::UnexpectedEOF, first.next)
                                        }
                                    },
                                },
                            }
                        },
                    },
                }
            },
            TokenKindView::While => {
                let cond = parse_expr_spec(tokens, at + 1);
                match cond.result {
                    Err(e) => failed(e, cond.next),
                    Ok(test) => match missing(tokens, cond.next, TokenKindView::Do) {
                        Some(e) => failed(e, cond.next),
                        None => {
                            proof {
                                lemma_expr_advances(tokens, at + 1);
                            }
                            let body = parse_statement_spec(tokens, cond.next + 1);
                            match body.result {
                                Err(e) => failed(e, body.next),
                                Ok(repeated) => Parsed {
                                    result: Ok(StmView::Loop(test, Box::new(repeated))),
                                    next: body.next,
                                },
                            }
                        },
                    },
                }
            },
            _ => failed(ErrorKind::UnexpectedToken, at),
        }
    }
}

/// `program`, read from index `at`: statements with `;` between them, as a
/// `Compound` that leans to the right. The first token after a statement that
/// is no `;` ends the program and is left at the cursor.
pub open spec fn parse_spec(tokens: Seq<TokenKindView>, at: int) -> Parsed<StmView>
    decreases tokens.len() - at,
{
    let first = parse_statement_spec(tokens, at);
    match first.result {
        Err(e) => first,
        Ok(left) => {
            if 0 <= first.next < tokens.len() && tokens[first.next] is Semicolon {
                proof {
                    lemma_statement_advances(tokens, at);
                }
                let rest = parse_spec(tokens, first.next + 1);
                match rest.result {
                    Err(e) => failed(e, rest.next),
                    Ok(right) => Parsed {
                        result: Ok(StmView::Compound(Box::new(left), Box::new(right))),
                        next: rest.next,
                    },
                }
            } else {
                first
            }
        },
    }
}

/// The cursor never moves back over an expression, and an expression that
/// was read holds at least one token and ends within the sequence.
pub proof fn lemma_expr_advances(tokens: Seq<TokenKindView>, at: int)
    ensures
        at <= parse_expr_spec(tokens, at).next,
        parse_expr_spec(tokens, at).result is Ok ==> 0 <= at < parse_expr_spec(tokens, at).next
            <= tokens.len(),
    decreases tokens.len() - at,
{
    if 0 <= at < tokens.len() {
        if tokens[at] is LParen || tokens[at] is Not {
            lemma_expr_advances(tokens, at + 1);
        } else if literal_of(tokens[at]) is Some && at + 1 < tokens.len() && operator_of(
            tokens[at + 1],
        ) is Some {
            lemma_expr_advances(tokens, at + 2);
        }
    }
}

/// The cursor never moves back over a statement, and a statement that was
/// read holds at least one token and ends within the sequence.
pub proof fn lemma_statement_advances(tokens: Seq<TokenKindView>, at: int)
    ensures
        at <= parse_statement_spec(tokens, at).next,
        parse_statement_spec(tokens, at).result is Ok ==> 0 <= at < parse_statement_spec(
            tokens,
            at,
        ).next <= tokens.len(),
    decreases tokens.len() - at,
{
    if 0 <= at < tokens.len() {
        match tokens[at] {
            TokenKindView::Identifier(_) => {
                lemma_expr_advances(tokens, at + 2);
            },
            TokenKindView::If => {
                lemma_expr_advances(tokens, at + 1);
                let cond = parse_expr_spec(tokens, at + 1);
                if cond.result is Ok && missing(tokens, cond.next, TokenKindView::Then) is None {
                    lemma_statement_advances(tokens, cond.next + 1);
                    let first = parse_statement_spec(tokens, cond.next + 1);
                    if first.result is Ok && missing(tokens, first.next, TokenKindView::Else)
                        is None {
                        lemma_statement_advances(tokens, first.next + 1);
                    }
                }
            },
            TokenKindView::While => {
                lemma_expr_advances(tokens, at + 1);
                let cond = parse_expr_spec(tokens, at + 1);
                if cond.result is Ok && missing(tokens, cond.next, TokenKindView::Do) is None {
                    lemma_statement_advances(tokens, cond.next + 1);
                }
            },
            _ => {},
        }
    }
}

/// The cursor never moves back over a program, and a program that was read
/// holds at least one token and ends within the sequence.
pub proof fn lemma_program_advances(tokens: Seq<TokenKindView>, at: int)
    ensures
        at <= parse_spec(tokens, at).next,
        parse_spec(tokens, at).result is Ok ==> 0 <= at < parse_spec(tokens, at).next
            <= tokens.len(),
    decreases tokens.len() - at,
{
    lemma_statement_advances(tokens, at);
    let first = parse_statement_spec(tokens, at);
    if first.result is Ok && 0 <= first.next < tokens.len() && tokens[first.next] is Semicolon {
        lemma_program_advances(tokens, first.next + 1);
    }
}

/// What a method of the parser handed back and where it left the cursor,
/// in the terms of `parse_expr_spec`.
pub open spec fn expr_outcome(res: Result<Expr, ErrorKind>, next: int) -> Parsed<ExprView> {
    Parsed {
        result: match res {
            Ok(expr) => Ok(expr@),
            Err(e) => Err(e),
        },
        next,
    }
}

/// What a method of the parser handed back and where it left the cursor,
/// in the terms of `parse_statement_spec`.
pub open spec fn stm_outcome(res: Result<Stm, ErrorKind>, next: int) -> Parsed<StmView> {
    Parsed {
        result: match res {
            Ok(stm) => Ok(stm@),
            Err(e) => Err(e),
        },
        next,
    }
}

/// Whether two token kinds are the same, payload included.
fn same_kind(a: &TokenKind, b: &TokenKind) -> (same: bool)
    ensures
        same == (a@ == b@),
{
    match (a, b) {
        (TokenKind::LParen, TokenKind::LParen) => true,
        (TokenKind::RParen, TokenKind::RParen) => true,
        (TokenKind::Plus, TokenKind::Plus) => true,
        (TokenKind::Minus, TokenKind::Minus) => true,
        (TokenKind::Times, TokenKind::Times) => true,
        (TokenKind::Division, TokenKind::Division) => true,
        (TokenKind::Assign, TokenKind::Assign) => true,
        (TokenKind::Equals, TokenKind::Equals) => true,
        (TokenKind::Skip, TokenKind::Skip) => true,
        (TokenKind::LEq, TokenKind::LEq) => true,
        (TokenKind::While, TokenKind::While) => true,
        (TokenKind::Then, TokenKind::Then) => true,
        (TokenKind::Else, TokenKind::Else) => true,
        (TokenKind::Do, TokenKind::Do) => true,
        (TokenKind::If, TokenKind::If) => true,
        (TokenKind::And, TokenKind::And) => true,
        (TokenKind::Semicolon, TokenKind::Semicolon) => true,
        (TokenKind::Not, TokenKind::Not) => true,
        (TokenKind::Whitespace, TokenKind::Whitespace) => true,
        (TokenKind::Identifier(x), TokenKind::Identifier(y)) => *x == *y,
        (TokenKind::IntLit(x), TokenKind::IntLit(y)) => *x == *y,
        (TokenKind::BoolLit(x), TokenKind::BoolLit(y)) => *x == *y,
        _ => false,
    }
}

/// The binary operator that a token writes.
fn operator(kind: &TokenKind) -> (op: Option<BinaryOp>)
    ensures
        op == operator_of(kind@),
{
    match kind {
        TokenKind::Plus => Some(BinaryOp::Add),
        TokenKind::Minus => Some(BinaryOp::Sub),
        TokenKind::Times => Some(BinaryOp::Mult),
        TokenKind::Division => Some(BinaryOp::Div),
        TokenKind::Equals => Some(BinaryOp::Equals),
        TokenKind::LEq => Some(BinaryOp::LessThanOrEquals),
        TokenKind::And => Some(BinaryOp::Conjunction),
        _ => None,
    }
}

/// The expression that applies `op` to two operands.
fn binary(op: BinaryOp, left: Expr, right: Expr) -> (expr: Expr)
    ensures
        expr@ == ExprView::Binary(op, Box::new(left@), Box::new(right@)),
{
    let l = Box::new(left);
    let r = Box::new(right);
    Expr {
        kind: match op {
            BinaryOp::Add => ExprKind::Add(l, r),
            BinaryOp::Sub => ExprKind::Sub(l, r),
            BinaryOp::Mult => ExprKind::Mult(l, r),
            BinaryOp::Div => ExprKind::Div(l, r),
            BinaryOp::Equals => ExprKind::Equals(l, r),
            BinaryOp::LessThanOrEquals => ExprKind::LessThanOrEquals(l, r),
            BinaryOp::Conjunction => ExprKind::Conjunction(l, r),
        },
    }
}

/// The tokens and the index of the next one to read.
pub struct Parser {
    pub tokens: Vec<Token>,
    pub current_index: usize,
}

impl Parser {
    /// The token kinds, which are all that the parser reads.
    pub open spec fn kinds(&self) -> Seq<TokenKindView> {
        kinds_view(self.tokens@)
    }

    /// A parser at the first of `tokens`.
    pub fn new(tokens: Vec<Token>) -> (parser: Parser)
        ensures
            parser.tokens == tokens,
            parser.current_index == 0,
    {
        let current_index: usize = 0;
        Parser { tokens, current_index }
    }

    /// The kind of the token at the cursor, left where it is.
    pub fn peek(&self) -> (kind: Option<&TokenKind>)
        ensures
            match kind {
                Some(kind) => {
                    &&& self.current_index < self.tokens.len()
                    &&& *kind == self.tokens@[self.current_index as int].kind
                    &&& kind@ == self.kinds()[self.current_index as int]
                },
                None => self.current_index >= self.tokens.len(),
            },
    {
        if self.current_index < self.tokens.len() {
            Some(&self.tokens[self.current_index].kind)
        } else {
            None
        }
    }

    /// The place of the token at the cursor. After an error that is the
    /// place of the token that was refused.
    pub fn position(&self) -> (place: Option<Position>)
        ensures
            place == if self.current_index < self.tokens.len() {
                Some(self.tokens@[self.current_index as int].position)
            } else {
                None
            },
    {
        if self.current_index < self.tokens.len() {
            Some(self.tokens[self.current_index].position)
        } else {
            None
        }
    }

    /// Moves past the token at the cursor.
    fn eat(&mut self)
        requires
            old(self).current_index < old(self).tokens.len(),
        ensures
            final(self).tokens == old(self).tokens,
            final(self).current_index == old(self).current_index + 1,
    {
        self.current_index = self.current_index + 1
    }

    /// The token at the cursor, if there is one, and the cursor moved past it.
    pub fn next(&mut self) -> (token: Option<&Token>)
        ensures
            final(self).tokens == old(self).tokens,
            match token {
                Some(token) => {
                    &&& old(self).current_index < old(self).tokens.len()
                    &&& *token == old(self).tokens@[old(self).current_index as int]
                    &&& final(self).current_index == old(self).current_index + 1
                },
                None => {
                    &&& old(self).current_index >= old(self).tokens.len()
                    &&& final(self).current_index == old(self).current_index
                },
            },
    {
        if self.current_index < self.tokens.len() {
            self.current_index = self.current_index + 1;
            Some(&self.tokens[self.current_index - 1])
        } else {
            None
        }
    }

    /// Moves past the token at the cursor if it is `wanted`, and fails
    /// without moving if it is not.
    fn expect(&mut self, wanted: &TokenKind) -> (res: Result<(), ErrorKind>)
        ensures
            final(self).tokens == old(self).tokens,
            match missing(old(self).kinds(), old(self).current_index as int, wanted@) {
                None => res is Ok && final(self).current_index == old(self).current_index + 1
                    && old(self).current_index < old(self).tokens.len(),
                Some(e) => res == Err::<(), ErrorKind>(e) && final(self).current_index == old(
                    self,
                ).current_index,
            },
    {
        let found = match self.peek() {
            None => {
                return Err(ErrorKind::UnexpectedEOF);
            },
            Some(kind) => same_kind(kind, wanted),
        };
        if found {
            self.eat();
            Ok(())
        } else {
            Err(ErrorKind::UnexpectedToken)
        }
    }

    /// Reads one literal.
    fn parse_literal(&mut self) -> (res: Result<Expr, ErrorKind>)
        ensures
            final(self).tokens == old(self).tokens,
            expr_outcome(res, final(self).current_index as int) == parse_literal_spec(
                old(self).kinds(),
                old(self).current_index as int,
            ),
    {
        let kind = match self.peek() {
            None => {
                return Err(ErrorKind::UnexpectedEOF);
            },
            Some(TokenKind::IntLit(value)) => ExprKind::IntLit(*value),
            Some(TokenKind::BoolLit(value)) => ExprKind::BoolLit(*value),
            Some(TokenKind::Identifier(name)) => ExprKind::Identifier(name.clone()),
            Some(_) => {
                return Err(ErrorKind::UnexpectedToken);
            },
        };
        self.eat();
        Ok(Expr { kind })
    }

    /// Reads one expression. After an error the cursor rests at the token
    /// that was refused, or at the end where a token was missing.
    pub fn parse_expr(&mut self) -> (res: Result<Expr, ErrorKind>)
        ensures
            final(self).tokens == old(self).tokens,
            old(self).current_index <= final(self).current_index,
            res is Ok ==> old(self).current_index < final(self).current_index <= old(
                self,
            ).tokens.len(),
            expr_outcome(res, final(self).current_index as int) == parse_expr_spec(
                old(self).kinds(),
                old(self).current_index as int,
            ),
        decreases old(self).tokens.len() - old(self).current_index,
    {
        let (grouped, negated) = match self.peek() {
            None => {
                return Err(ErrorKind::UnexpectedEOF);
            },
            Some(TokenKind::LParen) => (true, false),
            Some(TokenKind::Not) => (false, true),
            Some(_) => (false, false),
        };
        if grouped {
            self.eat();
            let inner = match self.parse_expr() {
                Ok(inner) => inner,
                Err(e) => {
                    return Err(e);
                },
            };
            match self.expect(&TokenKind::RParen) {
                Ok(()) => {},
                Err(e) => {
                    return Err(e);
                },
            }
            return Ok(Expr { kind: ExprKind::Precedence(Box::new(inner)) });
        }
        if negated {
            self.eat();
            let inner = match self.parse_expr() {
                Ok(inner) => inner,
                Err(e) => {
                    return Err(e);
                },
            };
            return Ok(Expr { kind: ExprKind::Negation(Box::new(inner)) });
        }
        let left = match self.parse_literal() {
            Ok(left) => left,
            Err(e) => {
                return Err(e);
            },
        };
        let op = match self.peek() {
            None => None,
            Some(kind) => operator(kind),
        };
        match op {
            None => Ok(left),
            Some(op) => {
                self.eat();
                let right = match self.parse_expr() {
                    Ok(right) => right,
                    Err(e) => {
                        return Err(e);
                    },
                };
                Ok(binary(op, left, right))
            },
        }
    }

    /// Reads a program: statements with `;` between them. The first token
    /// after a statement that is no `;` is left at the cursor, unread.
    pub fn parse(&mut self) -> (res: Result<Stm, ErrorKind>)
        ensures
            final(self).tokens == old(self).tokens,
            old(self).current_index <= final(self).current_index,
            res is Ok ==> old(self).current_index < final(self).current_index <= old(
                self,
            ).tokens.len(),
            stm_outcome(res, final(self).current_index as int) == parse_spec(
                old(self).kinds(),
                old(self).current_index as int,
            ),
        decreases old(self).tokens.len() - old(self).current_index,
    {
        let left = match self.parse_statement() {
            Ok(left) => left,
            Err(e) => {
                return Err(e);
            },
        };
        let more = match self.peek() {
            Some(TokenKind::Semicolon) => true,
            _ => false,
        };
        if more {
            self.eat();
            let right = match self.parse() {
                Ok(right) => right,
                Err(e) => {
                    return Err(e);
                },
            };
            Ok(Stm { kind: StmKind::Compound(Box::new(left), Box::new(right)) })
        } else {
            Ok(left)
        }
    }

    /// Reads one statement. After an error the cursor rests at the token
    /// that was refused, or at the end where a token was missing.
    pub fn parse_statement(&mut self) -> (res: Result<Stm, ErrorKind>)
        ensures
            final(self).tokens == old(self).tokens,
            old(self).current_index <= final(self).current_index,
            res is Ok ==> old(self).current_index < final(self).current_index <= old(
                self,
            ).tokens.len(),
            stm_outcome(res, final(self).current_index as int) == parse_statement_spec(
                old(self).kinds(),
                old(self).current_index as int,
            ),
        decreases old(self).tokens.len() - old(self).current_index, 1nat,
    {
        let (conditional, repeated) = match self.peek() {
            None => {
                return Err(ErrorKind::UnexpectedEOF);
            },
            Some(TokenKind::Identifier(_)) => (false, false),
            Some(TokenKind::If) => (true, false),
            Some(TokenKind::While) => (false, true),
            Some(_) => {
                return Err(ErrorKind::UnexpectedToken);
            },
        };
        if conditional {
            self.parse_conditional()
        } else if repeated {
            self.parse_loop()
        } else {
            self.parse_assignment()
        }
    }

    /// Reads an assignment, at a cursor that stands at a name.
    fn parse_assignment(&mut self) -> (res: Result<Stm, ErrorKind>)
        requires
            old(self).current_index < old(self).tokens.len(),
            old(self).kinds()[old(self).current_index as int] is Identifier,
        ensures
            final(self).tokens == old(self).tokens,
            old(self).current_index <= final(self).current_index,
            res is Ok ==> old(self).current_index < final(self).current_index <= old(
                self,
            ).tokens.len(),
            stm_outcome(res, final(self).current_index as int) == parse_statement_spec(
                old(self).kinds(),
                old(self).current_index as int,
            ),
    {
        let identifier = match self.peek() {
            Some(TokenKind::Identifier(name)) => name.clone(),
            _ => unreached(),
        };
        self.eat();
        match self.expect(&TokenKind::Assign) {
            Ok(()) => {},
            Err(e) => {
                return Err(e);
            },
        }
        let expr = match self.parse_expr() {
            Ok(expr) => expr,
            Err(e) => {
                return Err(e);
            },
        };
        Ok(Stm { kind: StmKind::Assignment(identifier, expr) })
    }

    /// Reads a conditional, at a cursor that stands at `if`.
    fn parse_conditional(&mut self) -> (res: Result<Stm, ErrorKind>)
        requires
            old(self).current_index < old(self).tokens.len(),
            old(self).kinds()[old(self).current_index as int] is If,
        ensures
            final(self).tokens == old(self).tokens,
            old(self).current_index <= final(self).current_index,
            res is Ok ==> old(self).current_index < final(self).current_index <= old(
                self,
            ).tokens.len(),
            stm_outcome(res, final(self).current_index as int) == parse_statement_spec(
                old(self).kinds(),
                old(self).current_index as int,
            ),
        decreases old(self).tokens.len() - old(self).current_index, 0nat,
    {
        self.eat();
        let cond = match self.parse_expr() {
            Ok(cond) => cond,
            Err(e) => {
                return Err(e);
            },
        };
        match self.expect(&TokenKind::Then) {
            Ok(()) => {},
            Err(e) => {
                return Err(e);
            },
        }
        let thn = match self.parse_statement() {
            Ok(thn) => thn,
            Err(e) => {
                return Err(e);
            },
        };
        match self.expect(&TokenKind::Else) {
            Ok(()) => {},
            Err(e) => {
                return Err(e);
            },
        }
        let els = match self.parse_statement() {
            Ok(els) => els,
            Err(e) => {
                return Err(e);
            },
        };
        Ok(Stm { kind: StmKind::Conditional(cond, Box::new(thn), Box::new(els)) })
    }

    /// Reads a loop, at a cursor that stands at `while`.
    fn parse_loop(&mut self) -> (res: Result<Stm, ErrorKind>)
        requires
            old(self).current_index < old(self).tokens.len(),
            old(self).kinds()[old(self).current_index as int] is While,
        ensures
            final(self).tokens == old(self).tokens,
            old(self).current_index <= final(self).current_index,
            res is Ok ==> old(self).current_index < final(self).current_index <= old(
                self,
            ).tokens.len(),
            stm_outcome(res, final(self).current_index as int) == parse_statement_spec(
                old(self).kinds(),
                old(self).current_index as int,
            ),
        decreases old(self).tokens.len() - old(self).current_index, 0nat,
    {
        self.eat();
        let cond = match self.parse_expr() {
            Ok(cond) => cond,
            Err(e) => {
                return Err(e);
            },
        };
        match self.expect(&TokenKind::Do) {
            Ok(()) => {},
            Err(e) => {
                return Err(e);
            },
        }
        let stm = match self.parse_statement() {
            Ok(stm) => stm,
            Err(e) => {
                return Err(e);
            },
        };
        Ok(Stm { kind: StmKind::Loop(cond, Box::new(stm)) })
    }
}

} // verus!
