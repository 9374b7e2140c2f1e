//! Trees written back as source text.
//!
//! `stm_tokens` writes a tree as the tokens that the parser reads it from,
//! and `tokens_text` writes tokens as text, each followed by one blank.
//! `lemma_tokens_round_trip` and `lemma_rendering_reparses` say that the
//! tokenizer and the parser read such a text back as the tree it was written
//! from. `Expr::render` and `Stm::render` compute the text.

use crate::lexer::parser::{
    literal_of, operator_of, parse_expr_spec, parse_spec, parse_statement_spec, Parsed,
};
use crate::lexer::syntax::{
    expr_view, kinds_of, stm_view, BinaryOp, Expr, ExprKind, ExprView, PositionView, Stm,
    StmKind, StmView, TokenKindView, TokenView, TokenizerErrorView,
};
use crate::lexer::tokenizer::{
    digit_value, digits_value, in_class, lemma_lexeme_advances, lemma_run_end, lexeme_at,
    prepend, push_char, run_end, scan, start_position, tokenize, walk, word_kind, CharClass,
    Lexeme,
};
use vstd::prelude::*;
use vstd::string::StringExecFns;

verus! {

/// The token that writes a binary operator.
pub open spec fn operator_token(op: BinaryOp) -> TokenKindView {
    match op {
        BinaryOp::Add => TokenKindView::Plus,
        BinaryOp::Sub => TokenKindView::Minus,
        BinaryOp::Mult => TokenKindView::Times,
        BinaryOp::Div => TokenKindView::Division,
        BinaryOp::Equals => TokenKindView::Equals,
        BinaryOp::LessThanOrEquals => TokenKindView::LEq,
        BinaryOp::Conjunction => TokenKindView::And,
    }
}

/// Whether an expression is a number, a truth value or a name.
pub open spec fn is_literal(expr: ExprView) -> bool {
    expr is IntLit || expr is BoolLit || expr is Identifier
}

/// The tokens that write an expression.
pub open spec fn expr_tokens(expr: ExprView) -> Seq<TokenKindView>
    decreases expr,
{
    match expr {
        ExprView::IntLit(value) => seq![TokenKindView::IntLit(value)],
        ExprView::BoolLit(value) => seq![TokenKindView::BoolLit(value)],
        ExprView::Identifier(name) => seq![TokenKindView::Identifier(name)],
        ExprView::Binary(op, left, right) => expr_tokens(*left) + seq![operator_token(op)]
            + expr_tokens(*right),
        ExprView::Negation(inner) => seq![TokenKindView::Not] + expr_tokens(*inner),
        ExprView::Precedence(inner) => seq![TokenKindView::LParen] + expr_tokens(*inner)
            + seq![TokenKindView::RParen],
    }
}

/// The tokens that write a statement.
pub open spec fn stm_tokens(stm: StmView) -> Seq<TokenKindView>
    decreases stm,
{
    match stm {
        StmView::Assignment(name, expr) => seq![
            TokenKindView::Identifier(name),
            TokenKindView::Assign,
        ] + expr_tokens(expr),
        StmView::Conditional(cond, taken, other) => seq![TokenKindView::If] + expr_tokens(cond)
            + seq![TokenKindView::Then] + stm_tokens(*taken) + seq![TokenKindView::Else]
            + stm_tokens(*other),
        StmView::Loop(cond, body) => seq![TokenKindView::While] + expr_tokens(cond) + seq![
            TokenKindView::Do,
        ] + stm_tokens(*body),
        StmView::Compound(first, rest) => stm_tokens(*first) + seq![TokenKindView::Semicolon]
            + stm_tokens(*rest),
    }
}

/// Whether an expression has the shape that the parser gives: the left
/// operand of every binary operator is a literal.
pub open spec fn expr_as_parsed(expr: ExprView) -> bool
    decreases expr,
{
    match expr {
        ExprView::Binary(_, left, right) => is_literal(*left) && expr_as_parsed(*right),
        ExprView::Negation(inner) => expr_as_parsed(*inner),
        ExprView::Precedence(inner) => expr_as_parsed(*inner),
        _ => true,
    }
}

/// Whether a statement has the shape that the parser gives: a `Compound`
/// stands only at the top or as the second part of another `Compound`.
pub open spec fn stm_as_parsed(stm: StmView) -> bool
    decreases stm,
{
    match stm {
        StmView::Assignment(_, expr) => expr_as_parsed(expr),
        StmView::Conditional(cond, taken, other) => {
            &&& expr_as_parsed(cond)
            &&& !(*taken is Compound)
            &&& !(*other is Compound)
            &&& stm_as_parsed(*taken)
            &&& stm_as_parsed(*other)
        },
        StmView::Loop(cond, body) => {
            &&& expr_as_parsed(cond)
            &&& !(*body is Compound)
            &&& stm_as_parsed(*body)
        },
        StmView::Compound(first, rest) => {
            &&& !(*first is Compound)
            &&& stm_as_parsed(*first)
            &&& stm_as_parsed(*rest)
        },
    }
}

/// Where `x` and then `y` stand in `tokens` from `at` on, `x` stands at `at`
/// and `y` after it.
pub proof fn lemma_embedded(
    tokens: Seq<TokenKindView>,
    at: int,
    x: Seq<TokenKindView>,
    y: Seq<TokenKindView>,
)
    requires
        0 <= at,
        at + x.len() + y.len() <= tokens.len(),
        tokens.subrange(at, at + x.len() + y.len()) == x + y,
    ensures
        tokens.subrange(at, at + x.len()) == x,
        tokens.subrange(at + x.len(), at + x.len() + y.len()) == y,
{
    let whole = tokens.subrange(at, at + x.len() + y.len());
    assert forall|i: int| 0 <= i < x.len() implies tokens[at + i] == x[i] by {
        assert(whole[i] == tokens[at + i]);
        assert((x + y)[i] == x[i]);
    }
    assert forall|i: int| 0 <= i < y.len() implies tokens[at + x.len() + i] == y[i] by {
        assert(whole[x.len() + i] == tokens[at + x.len() + i]);
        assert((x + y)[x.len() + i] == y[i]);
    }
    assert(tokens.subrange(at, at + x.len()) =~= x);
    assert(tokens.subrange(at + x.len(), at + x.len() + y.len()) =~= y);
}

/// Every expression is written with at least one token.
pub proof fn lemma_expr_tokens_some(expr: ExprView)
    ensures
        expr_tokens(expr).len() >= 1,
        is_literal(expr) ==> expr_tokens(expr).len() == 1 && literal_of(expr_tokens(expr)[0])
            == Some(expr) && !(expr_tokens(expr)[0] is LParen) && !(expr_tokens(expr)[0] is Not),
    decreases expr,
{
    match expr {
        ExprView::Binary(_, left, right) => {
            lemma_expr_tokens_some(*left);
        },
        _ => {},
    }
}

/// Every statement is written with at least one token.
pub proof fn lemma_stm_tokens_some(stm: StmView)
    ensures
        stm_tokens(stm).len() >= 1,
    decreases stm,
{
    match stm {
        StmView::Compound(first, rest) => {
            lemma_stm_tokens_some(*first);
        },
        _ => {},
    }
}

/// An expression that was read has the shape that the parser gives, and the
/// tokens it was read from are the tokens that write it.
pub proof fn lemma_expr_read_as_written(tokens: Seq<TokenKindView>, at: int)
    requires
        parse_expr_spec(tokens, at).result is Ok,
    ensures
        0 <= at < parse_expr_spec(tokens, at).next <= tokens.len(),
        expr_as_parsed(parse_expr_spec(tokens, at).result->Ok_0),
        tokens.subrange(at, parse_expr_spec(tokens, at).next) == expr_tokens(
            parse_expr_spec(tokens, at).result->Ok_0,
        ),
    decreases tokens.len() - at,
{
    let end = parse_expr_spec(tokens, at).next;
    let expr = parse_expr_spec(tokens, at).result->Ok_0;
    if tokens[at] is LParen {
        lemma_expr_read_as_written(tokens, at + 1);
        let inner = parse_expr_spec(tokens, at + 1);
        assert(tokens.subrange(at, end) =~= seq![TokenKindView::LParen] + tokens.subrange(
            at + 1,
            inner.next,
        ) + seq![TokenKindView::RParen]);
    } else if tokens[at] is Not {
        lemma_expr_read_as_written(tokens, at + 1);
        assert(tokens.subrange(at, end) =~= seq![TokenKindView::Not] + tokens.subrange(
            at + 1,
            end,
        ));
    } else {
        let left = literal_of(tokens[at])->0;
        assert(expr_tokens(left) =~= seq![tokens[at]]);
        if at + 1 < tokens.len() && operator_of(tokens[at + 1]) is Some {
            lemma_expr_read_as_written(tokens, at + 2);
            let op = operator_of(tokens[at + 1])->0;
            assert(operator_token(op) == tokens[at + 1]);
            assert(tokens.subrange(at, end) =~= seq![tokens[at]] + seq![tokens[at + 1]]
                + tokens.subrange(at + 2, end));
        } else {
            assert(tokens.subrange(at, end) =~= seq![tokens[at]]);
        }
    }
}

/// A range of tokens, cut in two at `mid`, and the single token at `mid`.
pub proof fn lemma_range_join(tokens: Seq<TokenKindView>, from: int, mid: int, to: int)
    requires
        0 <= from <= mid <= to <= tokens.len(),
    ensures
        tokens.subrange(from, to) == tokens.subrange(from, mid) + tokens.subrange(mid, to),
        mid < to ==> tokens.subrange(mid, mid + 1) == seq![tokens[mid]],
{
    assert(tokens.subrange(from, to) =~= tokens.subrange(from, mid) + tokens.subrange(mid, to));
    if mid < to {
        assert(tokens.subrange(mid, mid + 1) =~= seq![tokens[mid]]);
    }
}

/// A statement that was read has the shape that the parser gives and is no
/// `Compound`, and the tokens it was read from are the tokens that write it.
pub proof fn lemma_statement_read_as_written(tokens: Seq<TokenKindView>, at: int)
    requires
        parse_statement_spec(tokens, at).result is Ok,
    ensures
        0 <= at < parse_statement_spec(tokens, at).next <= tokens.len(),
        stm_as_parsed(parse_statement_spec(tokens, at).result->Ok_0),
        !(parse_statement_spec(tokens, at).result->Ok_0 is Compound),
        tokens.subrange(at, parse_statement_spec(tokens, at).next) == stm_tokens(
            parse_statement_spec(tokens, at).result->Ok_0,
        ),
    decreases tokens.len() - at,
{
    let end = parse_statement_spec(tokens, at).next;
    if tokens[at] is Identifier {
        lemma_expr_read_as_written(tokens, at + 2);
        lemma_range_join(tokens, at, at + 2, end);
        assert(tokens.subrange(at, at + 2) =~= seq![tokens[at], TokenKindView::Assign]);
    } else if tokens[at] is If {
        let cond = parse_expr_spec(tokens, at + 1);
        let first = parse_statement_spec(tokens, cond.next + 1);
        lemma_expr_read_as_written(tokens, at + 1);
        lemma_statement_read_as_written(tokens, cond.next + 1);
        lemma_statement_read_as_written(tokens, first.next + 1);
        lemma_range_join(tokens, at, first.next + 1, end);
        lemma_range_join(tokens, at, first.next, first.next + 1);
        lemma_range_join(tokens, at, cond.next + 1, first.next);
        lemma_range_join(tokens, at, cond.next, cond.next + 1);
        lemma_range_join(tokens, at, at + 1, cond.next);
        lemma_range_join(tokens, at, at, at + 1);
    } else if tokens[at] is While {
        let cond = parse_expr_spec(tokens, at + 1);
        lemma_expr_read_as_written(tokens, at + 1);
        lemma_statement_read_as_written(tokens, cond.next + 1);
        lemma_range_join(tokens, at, cond.next + 1, end);
        lemma_range_join(tokens, at, cond.next, cond.next + 1);
        lemma_range_join(tokens, at, at + 1, cond.next);
        lemma_range_join(tokens, at, at, at + 1);
    }
}

/// A program that was read has the shape that the parser gives, and the
/// tokens it was read from are the tokens that write it.
pub proof fn lemma_program_read_as_written(tokens: Seq<TokenKindView>, at: int)
    requires
        parse_spec(tokens, at).result is Ok,
    ensures
        0 <= at < parse_spec(tokens, at).next <= tokens.len(),
        stm_as_parsed(parse_spec(tokens, at).result->Ok_0),
        tokens.subrange(at, parse_spec(tokens, at).next) == stm_tokens(
            parse_spec(tokens, at).result->Ok_0,
        ),
    decreases tokens.len() - at,
{
    let end = parse_spec(tokens, at).next;
    let first = parse_statement_spec(tokens, at);
    lemma_statement_read_as_written(tokens, at);
    if 0 <= first.next < tokens.len() && tokens[first.next] is Semicolon {
        lemma_program_read_as_written(tokens, first.next + 1);
        assert(tokens.subrange(at, end) =~= tokens.subrange(at, first.next) + seq![
            TokenKindView::Semicolon,
        ] + tokens.subrange(first.next + 1, end));
    }
}

/// Where the tokens that write an expression of the parser's shape stand in
/// `tokens` from `at` on, with no binary operator after them, the parser
/// reads that expression there and stops after them.
pub proof fn lemma_expr_written_is_read(tokens: Seq<TokenKindView>, at: int, expr: ExprView)
    requires
        expr_as_parsed(expr),
        0 <= at,
        at + expr_tokens(expr).len() <= tokens.len(),
        tokens.subrange(at, at + expr_tokens(expr).len()) == expr_tokens(expr),
        at + expr_tokens(expr).len() == tokens.len() || operator_of(
            tokens[at + expr_tokens(expr).len()],
        ) is None,
    ensures
        parse_expr_spec(tokens, at) == (Parsed::<ExprView> {
            result: Ok(expr),
            next: at + expr_tokens(expr).len(),
        }),
    decreases expr,
{
    let written = expr_tokens(expr);
    lemma_expr_tokens_some(expr);
    assert(tokens[at] == tokens.subrange(at, at + written.len())[0]);
    match expr {
        ExprView::Binary(op, left, right) => {
            let l = expr_tokens(*left);
            let r = expr_tokens(*right);
            lemma_expr_tokens_some(*left);
            lemma_expr_tokens_some(*right);
            assert(written == (l + seq![operator_token(op)]) + r);
            lemma_embedded(tokens, at, l + seq![operator_token(op)], r);
            lemma_embedded(tokens, at, l, seq![operator_token(op)]);
            assert(tokens[at] == tokens.subrange(at, at + 1)[0]);
            assert(tokens[at + 1] == tokens.subrange(at + 1, at + 2)[0]);
            assert(operator_of(tokens[at + 1]) == Some(op));
            lemma_expr_written_is_read(tokens, at + 2, *right);
        },
        ExprView::Negation(inner) => {
            lemma_expr_tokens_some(*inner);
            lemma_embedded(tokens, at, seq![TokenKindView::Not], expr_tokens(*inner));
            lemma_expr_written_is_read(tokens, at + 1, *inner);
        },
        ExprView::Precedence(inner) => {
            let middle = expr_tokens(*inner);
            lemma_expr_tokens_some(*inner);
            assert(written == (seq![TokenKindView::LParen] + middle) + seq![
                TokenKindView::RParen,
            ]);
            lemma_embedded(
                tokens,
                at,
                seq![TokenKindView::LParen] + middle,
                seq![TokenKindView::RParen],
            );
            lemma_embedded(tokens, at, seq![TokenKindView::LParen], middle);
            let close = at + 1 + middle.len();
            assert(tokens[close] == tokens.subrange(close, close + 1)[0]);
            lemma_expr_written_is_read(tokens, at + 1, *inner);
        },
        _ => {},
    }
}

/// Where the tokens that write a statement of the parser's shape, no
/// `Compound`, stand in `tokens` from `at` on, with no binary operator after
/// them, the parser reads that statement there and stops after them.
pub proof fn lemma_statement_written_is_read(tokens: Seq<TokenKindView>, at: int, stm: StmView)
    requires
        stm_as_parsed(stm),
        !(stm is Compound),
        0 <= at,
        at + stm_tokens(stm).len() <= tokens.len(),
        tokens.subrange(at, at + stm_tokens(stm).len()) == stm_tokens(stm),
        at + stm_tokens(stm).len() == tokens.len() || operator_of(
            tokens[at + stm_tokens(stm).len()],
        ) is None,
    ensures
        parse_statement_spec(tokens, at) == (Parsed::<StmView> {
            result: Ok(stm),
            next: at + stm_tokens(stm).len(),
        }),
    decreases stm,
{
    let written = stm_tokens(stm);
    lemma_stm_tokens_some(stm);
    assert(tokens[at] == tokens.subrange(at, at + written.len())[0]);
    match stm {
        StmView::Assignment(name, expr) => {
            let head = seq![TokenKindView::Identifier(name), TokenKindView::Assign];
            lemma_embedded(tokens, at, head, expr_tokens(expr));
            assert(tokens[at] == tokens.subrange(at, at + 2)[0]);
            assert(tokens[at + 1] == tokens.subrange(at, at + 2)[1]);
            lemma_expr_written_is_read(tokens, at + 2, expr);
        },
        StmView::Conditional(cond, taken, other) => {
            let c = expr_tokens(cond);
            let t = stm_tokens(*taken);
            let e = stm_tokens(*other);
            let to_cond = seq![TokenKindView::If] + c;
            let to_then = to_cond + seq![TokenKindView::Then];
            let to_taken = to_then + t;
            let to_else = to_taken + seq![TokenKindView::Else];
            assert(written == to_else + e);
            lemma_embedded(tokens, at, to_else, e);
            lemma_embedded(tokens, at, to_taken, seq![TokenKindView::Else]);
            lemma_embedded(tokens, at, to_then, t);
            lemma_embedded(tokens, at, to_cond, seq![TokenKindView::Then]);
            lemma_embedded(tokens, at, seq![TokenKindView::If], c);
            let then_at = at + 1 + c.len();
            let else_at = then_at + 1 + t.len();
            assert(tokens[then_at] == tokens.subrange(then_at, then_at + 1)[0]);
            assert(tokens[else_at] == tokens.subrange(else_at, else_at + 1)[0]);
            lemma_expr_written_is_read(tokens, at + 1, cond);
            lemma_statement_written_is_read(tokens, then_at + 1, *taken);
            lemma_statement_written_is_read(tokens, else_at + 1, *other);
            lemma_stm_tokens_some(*taken);
        },
        StmView::Loop(cond, body) => {
            let c = expr_tokens(cond);
            let b = stm_tokens(*body);
            let to_cond = seq![TokenKindView::While] + c;
            let to_do = to_cond + seq![TokenKindView::Do];
            assert(written == to_do + b);
            lemma_embedded(tokens, at, to_do, b);
            lemma_embedded(tokens, at, to_cond, seq![TokenKindView::Do]);
            lemma_embedded(tokens, at, seq![TokenKindView::While], c);
            let do_at = at + 1 + c.len();
            assert(tokens[do_at] == tokens.subrange(do_at, do_at + 1)[0]);
            lemma_expr_written_is_read(tokens, at + 1, cond);
            lemma_statement_written_is_read(tokens, do_at + 1, *body);
        },
        StmView::Compound(_, _) => {},
    }
}

/// Where the tokens that write a program of the parser's shape stand in
/// `tokens` from `at` on, with neither a binary operator nor a `;` after
/// them, the parser reads that program there and stops after them.
pub proof fn lemma_program_written_is_read(tokens: Seq<TokenKindView>, at: int, stm: StmView)
    requires
        stm_as_parsed(stm),
        0 <= at,
        at + stm_tokens(stm).len() <= tokens.len(),
        tokens.subrange(at, at + stm_tokens(stm).len()) == stm_tokens(stm),
        at + stm_tokens(stm).len() == tokens.len() || (operator_of(
            tokens[at + stm_tokens(stm).len()],
        ) is None && !(tokens[at + stm_tokens(stm).len()] is Semicolon)),
    ensures
        parse_spec(tokens, at) == (Parsed::<StmView> {
            result: Ok(stm),
            next: at + stm_tokens(stm).len(),
        }),
    decreases stm,
{
    match stm {
        StmView::Compound(first, rest) => {
            let f = stm_tokens(*first);
            let r = stm_tokens(*rest);
            let to_semicolon = f + seq![TokenKindView::Semicolon];
            lemma_embedded(tokens, at, to_semicolon, r);
            lemma_embedded(tokens, at, f, seq![TokenKindView::Semicolon]);
            let semicolon_at = at + f.len();
            assert(tokens[semicolon_at] == tokens.subrange(semicolon_at, semicolon_at + 1)[0]);
            lemma_statement_written_is_read(tokens, at, *first);
            lemma_program_written_is_read(tokens, semicolon_at + 1, *rest);
        },
        _ => {
            lemma_statement_written_is_read(tokens, at, stm);
        },
    }
}

/// A tree that the parser gave is read again from the tokens that write it.
pub proof fn lemma_tokens_round_trip(tokens: Seq<TokenKindView>)
    requires
        parse_spec(tokens, 0).result is Ok,
    ensures
        ({
            let tree = parse_spec(tokens, 0).result->Ok_0;
            parse_spec(stm_tokens(tree), 0) == (Parsed::<StmView> {
                result: Ok(tree),
                next: stm_tokens(tree).len() as int,
            })
        }),
{
    let tree = parse_spec(tokens, 0).result->Ok_0;
    let written = stm_tokens(tree);
    lemma_program_read_as_written(tokens, 0);
    assert(written.subrange(0, written.len() as int) =~= written);
    lemma_program_written_is_read(written, 0, tree);
}

/// The character that writes one digit.
pub open spec fn digit_char(digit: nat) -> char {
    if digit == 0 {
        '0'
    } else if digit == 1 {
        '1'
    } else if digit == 2 {
        '2'
    } else if digit == 3 {
        '3'
    } else if digit == 4 {
        '4'
    } else if digit == 5 {
        '5'
    } else if digit == 6 {
        '6'
    } else if digit == 7 {
        '7'
    } else if digit == 8 {
        '8'
    } else {
        '9'
    }
}

/// A number written in base ten, without leading zeros.
pub open spec fn decimal(value: nat) -> Seq<char>
    decreases value,
{
    if value < 10 {
        seq![digit_char(value)]
    } else {
        decimal(value / 10).push(digit_char(value % 10))
    }
}

/// The text that writes one token.
pub open spec fn kind_text(kind: TokenKindView) -> Seq<char> {
    match kind {
        TokenKindView::LParen => seq!['('],
        TokenKindView::RParen => seq![')'],
        TokenKindView::Plus => seq!['+'],
        TokenKindView::Minus => seq!['-'],
        TokenKindView::Times => seq!['*'],
        TokenKindView::Division => seq!['/'],
        TokenKindView::Assign => seq![':', '='],
        TokenKindView::Equals => seq!['='],
        TokenKindView::Skip => "skip"@,
        TokenKindView::LEq => seq!['<', '='],
        TokenKindView::While => "while"@,
        TokenKindView::Then => "then"@,
        TokenKindView::Else => "else"@,
        TokenKindView::Do => "do"@,
        TokenKindView::If => "if"@,
        TokenKindView::And => "and"@,
        TokenKindView::Semicolon => seq![';'],
        TokenKindView::Not => "not"@,
        TokenKindView::Whitespace => seq![' '],
        TokenKindView::Identifier(name) => name,
        TokenKindView::IntLit(value) => decimal(value),
        TokenKindView::BoolLit(value) => if value {
            "true"@
        } else {
            "false"@
        },
    }
}

/// The text that writes a sequence of tokens: each token and one blank
/// after it.
pub open spec fn tokens_text(tokens: Seq<TokenKindView>) -> Seq<char>
    decreases tokens.len(),
{
    if tokens.len() == 0 {
        Seq::empty()
    } else {
        kind_text(tokens[0]) + seq![' '] + tokens_text(tokens.drop_first())
    }
}

/// The text that writes an expression.
pub open spec fn expr_text(expr: ExprView) -> Seq<char> {
    tokens_text(expr_tokens(expr))
}

/// The text that writes a statement.
pub open spec fn stm_text(stm: StmView) -> Seq<char> {
    tokens_text(stm_tokens(stm))
}

/// Whether `word` is a run of lower-case letters, one at least.
pub open spec fn is_word(word: Seq<char>) -> bool {
    &&& word.len() >= 1
    &&& forall|i: int| 0 <= i < word.len() ==> in_class(#[trigger] word[i], CharClass::Lower)
}

/// Whether the tokenizer can hand out a token of this kind: a name is a word
/// that is no keyword, a number fits the machine's unsigned integer, and
/// blanks are no token.
pub open spec fn writable(kind: TokenKindView) -> bool {
    match kind {
        TokenKindView::Identifier(name) => is_word(name) && word_kind(name)
            == TokenKindView::Identifier(name),
        TokenKindView::IntLit(value) => value <= usize::MAX,
        TokenKindView::Whitespace => false,
        _ => true,
    }
}

/// The digits of a number are digits, and they write that number.
pub proof fn lemma_decimal(value: nat)
    ensures
        decimal(value).len() >= 1,
        forall|i: int|
            0 <= i < decimal(value).len() ==> in_class(
                #[trigger] decimal(value)[i],
                CharClass::Digit,
            ),
        digits_value(decimal(value)) == value,
    decreases value,
{
    let digits = decimal(value);
    assert(digits_value(Seq::<char>::empty()) == 0);
    if value < 10 {
        assert(digits.drop_last() =~= Seq::<char>::empty());
        assert(digit_value(digit_char(value)) == value);
    } else {
        lemma_decimal(value / 10);
        assert(digits.drop_last() =~= decimal(value / 10));
        assert(digit_value(digit_char(value % 10)) == value % 10);
    }
}

/// Each keyword is a word, and the tokenizer knows it.
pub proof fn lemma_keywords()
    ensures
        is_word("while"@) && word_kind("while"@) == TokenKindView::While,
        is_word("if"@) && word_kind("if"@) == TokenKindView::If,
        is_word("and"@) && word_kind("and"@) == TokenKindView::And,
        is_word("not"@) && word_kind("not"@) == TokenKindView::Not,
        is_word("do"@) && word_kind("do"@) == TokenKindView::Do,
        is_word("else"@) && word_kind("else"@) == TokenKindView::Else,
        is_word("then"@) && word_kind("then"@) == TokenKindView::Then,
        is_word("skip"@) && word_kind("skip"@) == TokenKindView::Skip,
        is_word("true"@) && word_kind("true"@) == TokenKindView::BoolLit(true),
        is_word("false"@) && word_kind("false"@) == TokenKindView::BoolLit(false),
{
    reveal_strlit("while");
    reveal_strlit("if");
    reveal_strlit("and");
    reveal_strlit("not");
    reveal_strlit("do");
    reveal_strlit("else");
    reveal_strlit("then");
    reveal_strlit("skip");
    reveal_strlit("true");
    reveal_strlit("false");
    assert("and"@[0] != "not"@[0]);
    assert("else"@[0] != "then"@[0]);
    assert("else"@[0] != "skip"@[0]);
    assert("else"@[0] != "true"@[0]);
    assert("then"@[1] != "skip"@[1]);
    assert("then"@[1] != "true"@[1]);
    assert("skip"@[0] != "true"@[0]);
    assert("while"@[0] != "false"@[0]);
    assert("if"@[0] != "do"@[0]);
}

/// A run that holds characters of one class only and is not followed by
/// another one ends where it ends.
pub proof fn lemma_run_exact(src: Seq<char>, at: int, end: int, class: CharClass)
    requires
        0 <= at <= end <= src.len(),
        forall|k: int| at <= k < end ==> in_class(#[trigger] src[k], class),
        end == src.len() || !in_class(src[end], class),
    ensures
        run_end(src, at, class) == end,
    decreases end - at,
{
    if at < end {
        lemma_run_exact(src, at + 1, end, class);
    }
}

/// The text of a token that can be written starts with a character that is
/// no blank.
pub proof fn lemma_written_starts(kind: TokenKindView)
    requires
        writable(kind),
    ensures
        kind_text(kind).len() >= 1,
        !in_class(kind_text(kind)[0], CharClass::Blank),
{
    lemma_keywords();
    if let TokenKindView::IntLit(value) = kind {
        lemma_decimal(value);
    }
}

/// Where the text of a token that can be written stands in `src` at `at`,
/// with a blank after it, the tokenizer finds that token there, and it ends
/// before the blank.
pub proof fn lemma_lexeme_of_written(src: Seq<char>, at: int, kind: TokenKindView)
    requires
        writable(kind),
        0 <= at,
        at + kind_text(kind).len() < src.len(),
        src.subrange(at, at + kind_text(kind).len()) == kind_text(kind),
        src[at + kind_text(kind).len()] == ' ',
    ensures
        kind_text(kind).len() >= 1,
        lexeme_at(src, at) == (Lexeme { kind: Ok(kind), end: at + kind_text(kind).len() }),
{
    let text = kind_text(kind);
    let end = at + text.len();
    lemma_written_starts(kind);
    lemma_keywords();
    assert forall|k: int| at <= k < end implies src[k] == text[k - at] by {
        assert(src.subrange(at, end)[k - at] == src[k]);
    }
    assert(src[at] == text[0]);
    match kind {
        TokenKindView::IntLit(value) => {
            lemma_decimal(value);
            assert forall|k: int| at <= k < end implies in_class(
                #[trigger] src[k],
                CharClass::Digit,
            ) by {
                assert(src[k] == text[k - at]);
            }
            lemma_run_exact(src, at, end, CharClass::Digit);
        },
        TokenKindView::Identifier(_)
        | TokenKindView::Skip
        | TokenKindView::While
        | TokenKindView::Then
        | TokenKindView::Else
        | TokenKindView::Do
        | TokenKindView::If
        | TokenKindView::And
        | TokenKindView::Not
        | TokenKindView::BoolLit(_) => {
            assert(is_word(text));
            assert forall|k: int| at <= k < end implies in_class(
                #[trigger] src[k],
                CharClass::Lower,
            ) by {
                assert(src[k] == text[k - at]);
                assert(in_class(text[k - at], CharClass::Lower));
            }
            lemma_run_exact(src, at, end, CharClass::Lower);
            assert(in_class(src[at], CharClass::Lower));
        },
        TokenKindView::Assign | TokenKindView::LEq => {
            assert(src[at + 1] == text[1]);
        },
        _ => {},
    }
}

/// Where the text of tokens that can be written is all that is left of
/// `src` from `at` on, the scan from there hands out those tokens.
pub proof fn lemma_scan_of_written(
    src: Seq<char>,
    at: int,
    pos: PositionView,
    tokens: Seq<TokenKindView>,
)
    requires
        0 <= at <= src.len(),
        src.subrange(at, src.len() as int) == tokens_text(tokens),
        forall|i: int| 0 <= i < tokens.len() ==> writable(#[trigger] tokens[i]),
    ensures
        scan(src, at, pos).result is Ok,
        kinds_of(scan(src, at, pos).result->Ok_0) == tokens,
    decreases tokens.len(),
{
    let text = tokens_text(tokens);
    let left = src.subrange(at, src.len() as int);
    if tokens.len() == 0 {
        assert(left.len() == 0);
        assert(kinds_of(Seq::<TokenView>::empty()) =~= tokens);
    } else {
        let kind = tokens[0];
        let word = kind_text(kind);
        let rest = tokens.drop_first();
        let rest_text = tokens_text(rest);
        let end = at + word.len();
        assert(writable(kind));
        assert(text == word + seq![' '] + rest_text);
        assert(left.len() == word.len() + 1 + rest_text.len());
        assert forall|i: int| 0 <= i < text.len() implies src[at + i] == text[i] by {
            assert(left[i] == src[at + i]);
        }
        assert(src.subrange(at, end) =~= word) by {
            assert forall|i: int| 0 <= i < word.len() implies src[at + i] == word[i] by {
                assert(text[i] == word[i]);
            }
        }
        assert(src[end] == ' ') by {
            assert(text[word.len() as int] == ' ');
        }
        assert(src.subrange(end + 1, src.len() as int) =~= rest_text) by {
            assert forall|i: int| 0 <= i < rest_text.len() implies src[end + 1 + i]
                == rest_text[i] by {
                assert(text[word.len() + 1 + i] == rest_text[i]);
                assert(src[at + (word.len() + 1 + i)] == text[word.len() + 1 + i]);
            }
        }
        lemma_lexeme_of_written(src, at, kind);
        assert(end + 1 == src.len() || !in_class(src[end + 1], CharClass::Blank)) by {
            if rest.len() > 0 {
                assert(writable(rest[0]));
                lemma_written_starts(rest[0]);
                assert(rest_text[0] == kind_text(rest[0])[0]);
                assert(src[end + 1 + 0] == rest_text[0]);
            } else {
                assert(rest_text.len() == 0);
            }
        }
        lemma_run_exact(src, end, end + 1, CharClass::Blank);
        assert(lexeme_at(src, end) == (Lexeme {
            kind: Ok(TokenKindView::Whitespace),
            end: end + 1,
        }));
        let after = walk(pos, src, at, end);
        let after_blank = walk(after, src, end, end + 1);
        assert forall|i: int| 0 <= i < rest.len() implies writable(#[trigger] rest[i]) by {
            assert(rest[i] == tokens[i + 1]);
        }
        lemma_scan_of_written(src, end + 1, after_blank, rest);
        let tail = scan(src, end + 1, after_blank);
        assert(scan(src, end, after) == tail);
        let first = TokenView { kind, position: after };
        assert(scan(src, at, pos) == prepend(seq![first], tail));
        let read = seq![first] + tail.result->Ok_0;
        assert(scan(src, at, pos).result == Ok::<Seq<TokenView>, TokenizerErrorView>(read));
        assert(kinds_of(read) =~= tokens) by {
            assert forall|i: int| 0 <= i < tokens.len() implies kinds_of(read)[i]
                == tokens[i] by {
                if i > 0 {
                    assert(read[i] == tail.result->Ok_0[i - 1]);
                    assert(kinds_of(tail.result->Ok_0)[i - 1] == rest[i - 1]);
                }
            }
        }
    }
}

/// Every token that a scan hands out can be written.
pub proof fn lemma_scanned_is_writable(src: Seq<char>, at: int, pos: PositionView)
    ensures
        scan(src, at, pos).result matches Ok(tokens) ==> forall|i: int|
            0 <= i < tokens.len() ==> writable((#[trigger] tokens[i]).kind),
    decreases src.len() - at,
{
    if 0 <= at < src.len() {
        let lexeme = lexeme_at(src, at);
        if let Ok(kind) = lexeme.kind {
            lemma_lexeme_advances(src, at);
            let after = walk(pos, src, at, lexeme.end);
            lemma_scanned_is_writable(src, lexeme.end, after);
            if let Ok(rest) = scan(src, lexeme.end, after).result {
                if !(kind is Whitespace) {
                    let tokens = seq![TokenView { kind, position: after }] + rest;
                    assert(scan(src, at, pos).result == Ok::<Seq<TokenView>, TokenizerErrorView>(
                        tokens,
                    ));
                    assert(writable(kind)) by {
                        if in_class(src[at], CharClass::Lower) {
                            lemma_run_end(src, at, CharClass::Lower);
                            let word = src.subrange(at, lexeme.end);
                            assert forall|i: int| 0 <= i < word.len() implies in_class(
                                #[trigger] word[i],
                                CharClass::Lower,
                            ) by {
                                assert(word[i] == src[at + i]);
                            }
                            assert(is_word(word));
                        }
                    }
                    assert forall|i: int| 0 <= i < tokens.len() implies writable(
                        (#[trigger] tokens[i]).kind,
                    ) by {
                        if i > 0 {
                            assert(tokens[i] == rest[i - 1]);
                        }
                    }
                }
            }
        }
    }
}

/// The text of two sequences of tokens put together.
pub proof fn lemma_text_concat(a: Seq<TokenKindView>, b: Seq<TokenKindView>)
    ensures
        tokens_text(a + b) == tokens_text(a) + tokens_text(b),
    decreases a.len(),
{
    if a.len() == 0 {
        assert(a + b =~= b);
        assert(tokens_text(a) + tokens_text(b) =~= tokens_text(b));
    } else {
        assert((a + b).drop_first() =~= a.drop_first() + b);
        lemma_text_concat(a.drop_first(), b);
        let head = kind_text(a[0]) + seq![' '];
        assert((head + tokens_text(a.drop_first())) + tokens_text(b) =~= head + (tokens_text(
            a.drop_first(),
        ) + tokens_text(b)));
    }
}

/// The text of a single token.
pub proof fn lemma_text_one(kind: TokenKindView)
    ensures
        tokens_text(seq![kind]) == kind_text(kind) + seq![' '],
{
    let one = seq![kind];
    assert(one.drop_first() =~= Seq::<TokenKindView>::empty());
    assert(tokens_text(one.drop_first()) =~= Seq::<char>::empty());
    assert(kind_text(kind) + seq![' '] + Seq::<char>::empty() =~= kind_text(kind) + seq![' ']);
}

/// A tree that was read from a text is read again from the text that writes
/// it: that text holds no lexical error, and its tokens give the same tree.
pub proof fn lemma_rendering_reparses(src: Seq<char>)
    requires
        tokenize(src) is Ok,
        parse_spec(kinds_of(tokenize(src)->Ok_0), 0).result is Ok,
    ensures
        ({
            let tree = parse_spec(kinds_of(tokenize(src)->Ok_0), 0).result->Ok_0;
            let again = tokenize(stm_text(tree));
            &&& again is Ok
            &&& parse_spec(kinds_of(again->Ok_0), 0) == (Parsed::<StmView> {
                result: Ok(tree),
                next: kinds_of(again->Ok_0).len() as int,
            })
        }),
{
    let read = tokenize(src)->Ok_0;
    let kinds = kinds_of(read);
    let tree = parse_spec(kinds, 0).result->Ok_0;
    let written = stm_tokens(tree);
    let text = stm_text(tree);
    lemma_scanned_is_writable(src, 0, start_position());
    lemma_program_read_as_written(kinds, 0);
    let end = parse_spec(kinds, 0).next;
    assert forall|i: int| 0 <= i < written.len() implies writable(#[trigger] written[i]) by {
        assert(written[i] == kinds.subrange(0, end)[i]);
        assert(kinds[i] == read[i].kind);
    }
    assert(text.subrange(0, text.len() as int) =~= text);
    lemma_scan_of_written(text, 0, start_position(), written);
    lemma_tokens_round_trip(kinds);
}

/// Writes `word` and a blank: `append` of vstd puts `word` at the end.
fn write_word(text: &mut String, word: &str)
    ensures
        final(text)@ == old(text)@ + (word@ + seq![' ']),
{
    text.append(word);
    push_char(text, ' ');
    assert(text@ =~= old(text)@ + (word@ + seq![' ']));
}

/// Writes one character and a blank.
fn write_mark(text: &mut String, mark: char)
    ensures
        final(text)@ == old(text)@ + (seq![mark] + seq![' ']),
{
    push_char(text, mark);
    push_char(text, ' ');
    assert(text@ =~= old(text)@ + (seq![mark] + seq![' ']));
}

/// Writes two characters and a blank.
fn write_marks(text: &mut String, first: char, second: char)
    ensures
        final(text)@ == old(text)@ + (seq![first, second] + seq![' ']),
{
    push_char(text, first);
    push_char(text, second);
    push_char(text, ' ');
    assert(text@ =~= old(text)@ + (seq![first, second] + seq![' ']));
}

/// Writes the digits of `value`.
fn write_digits(text: &mut String, value: usize)
    ensures
        final(text)@ == old(text)@ + decimal(value as nat),
    decreases value,
{
    if value >= 10 {
        write_digits(text, value / 10);
    }
    let digit: usize = value % 10;
    let c = if digit == 0 {
        '0'
    } else if digit == 1 {
        '1'
    } else if digit == 2 {
        '2'
    } else if digit == 3 {
        '3'
    } else if digit == 4 {
        '4'
    } else if digit == 5 {
        '5'
    } else if digit == 6 {
        '6'
    } else if digit == 7 {
        '7'
    } else if digit == 8 {
        '8'
    } else {
        '9'
    };
    push_char(text, c);
    assert(text@ =~= old(text)@ + decimal(value as nat));
}

/// Writes the token of a binary operator.
fn write_operator(text: &mut String, op: BinaryOp)
    ensures
        final(text)@ == old(text)@ + tokens_text(seq![operator_token(op)]),
{
    proof {
        lemma_text_one(operator_token(op));
    }
    match op {
        BinaryOp::Add => write_mark(text, '+'),
        BinaryOp::Sub => write_mark(text, '-'),
        BinaryOp::Mult => write_mark(text, '*'),
        BinaryOp::Div => write_mark(text, '/'),
        BinaryOp::Equals => write_mark(text, '='),
        BinaryOp::LessThanOrEquals => write_marks(text, '<', '='),
        BinaryOp::Conjunction => write_word(text, "and"),
    }
}

/// Writes an expression after what `text` holds.
fn write_expr(expr: &Expr, text: &mut String)
    ensures
        final(text)@ == old(text)@ + expr_text(expr@),
    decreases expr,
{
    let ghost before = text@;
    let (op, left, right) = match &expr.kind {
        ExprKind::IntLit(value) => {
            write_digits(text, *value);
            push_char(text, ' ');
            proof {
                lemma_text_one(TokenKindView::IntLit(*value as nat));
                assert(text@ =~= before + expr_text(expr@));
            }
            return ;
        },
        ExprKind::BoolLit(value) => {
            if *value {
                write_word(text, "true");
            } else {
                write_word(text, "false");
            }
            proof {
                lemma_text_one(TokenKindView::BoolLit(*value));
            }
            return ;
        },
        ExprKind::Identifier(name) => {
            write_word(text, name.as_str());
            proof {
                lemma_text_one(TokenKindView::Identifier(name@));
            }
            return ;
        },
        ExprKind::Negation(inner) => {
            write_word(text, "not");
            write_expr(inner, text);
            proof {
                lemma_text_one(TokenKindView::Not);
                lemma_text_concat(seq![TokenKindView::Not], expr_tokens(expr_view(**inner)));
                assert(text@ =~= before + expr_text(expr@));
            }
            return ;
        },
        ExprKind::Precedence(inner) => {
            write_mark(text, '(');
            write_expr(inner, text);
            write_mark(text, ')');
            proof {
                let middle = expr_tokens(expr_view(**inner));
                lemma_text_one(TokenKindView::LParen);
                lemma_text_one(TokenKindView::RParen);
                lemma_text_concat(seq![TokenKindView::LParen] + middle, seq![TokenKindView::RParen]);
                lemma_text_concat(seq![TokenKindView::LParen], middle);
                assert(text@ =~= before + expr_text(expr@));
            }
            return ;
        },
        ExprKind::Add(left, right) => (BinaryOp::Add, left, right),
        ExprKind::Sub(left, right) => (BinaryOp::Sub, left, right),
        ExprKind::Mult(left, right) => (BinaryOp::Mult, left, right),
        ExprKind::Div(left, right) => (BinaryOp::Div, left, right),
        ExprKind::Equals(left, right) => (BinaryOp::Equals, left, right),
        ExprKind::LessThanOrEquals(left, right) => (BinaryOp::LessThanOrEquals, left, right),
        ExprKind::Conjunction(left, right) => (BinaryOp::Conjunction, left, right),
    };
    assert(expr@ == ExprView::Binary(
        op,
        Box::new(expr_view(**left)),
        Box::new(expr_view(**right)),
    ));
    write_expr(left, text);
    write_operator(text, op);
    write_expr(right, text);
    proof {
        let l = expr_tokens(expr_view(**left));
        let r = expr_tokens(expr_view(**right));
        lemma_text_concat(l + seq![operator_token(op)], r);
        lemma_text_concat(l, seq![operator_token(op)]);
        assert(text@ =~= before + expr_text(expr@));
    }
}

/// Writes a statement after what `text` holds.
fn write_statement(stm: &Stm, text: &mut String)
    ensures
        final(text)@ == old(text)@ + stm_text(stm@),
    decreases stm,
{
    let ghost before = text@;
    match &stm.kind {
        StmKind::Assignment(name, expr) => {
            write_word(text, name.as_str());
            write_marks(text, ':', '=');
            write_expr(expr, text);
            proof {
                let head = seq![TokenKindView::Identifier(name@), TokenKindView::Assign];
                lemma_text_one(TokenKindView::Identifier(name@));
                lemma_text_one(TokenKindView::Assign);
                assert(head =~= seq![TokenKindView::Identifier(name@)] + seq![
                    TokenKindView::Assign,
                ]);
                lemma_text_concat(
                    seq![TokenKindView::Identifier(name@)],
                    seq![TokenKindView::Assign],
                );
                lemma_text_concat(head, expr_tokens(expr@));
                assert(text@ =~= before + stm_text(stm@));
            }
        },
        StmKind::Conditional(cond, taken, other) => {
            write_word(text, "if");
            write_expr(cond, text);
            write_word(text, "then");
            write_statement(taken, text);
            write_word(text, "else");
            write_statement(other, text);
            proof {
                let c = expr_tokens(cond@);
                let t = stm_tokens(stm_view(**taken));
                let e = stm_tokens(stm_view(**other));
                let to_cond = seq![TokenKindView::If] + c;
                let to_then = to_cond + seq![TokenKindView::Then];
                let to_taken = to_then + t;
                let to_else = to_taken + seq![TokenKindView::Else];
                lemma_text_one(TokenKindView::If);
                lemma_text_one(TokenKindView::Then);
                lemma_text_one(TokenKindView::Else);
                lemma_text_concat(to_else, e);
                lemma_text_concat(to_taken, seq![TokenKindView::Else]);
                lemma_text_concat(to_then, t);
                lemma_text_concat(to_cond, seq![TokenKindView::Then]);
                lemma_text_concat(seq![TokenKindView::If], c);
                assert(text@ =~= before + stm_text(stm@));
            }
        },
        StmKind::Loop(cond, body) => {
            write_word(text, "while");
            write_expr(cond, text);
            write_word(text, "do");
            write_statement(body, text);
            proof {
                let c = expr_tokens(cond@);
                let b = stm_tokens(stm_view(**body));
                let to_cond = seq![TokenKindView::While] + c;
                let to_do = to_cond + seq![TokenKindView::Do];
                lemma_text_one(TokenKindView::While);
                lemma_text_one(TokenKindView::Do);
                lemma_text_concat(to_do, b);
                lemma_text_concat(to_cond, seq![TokenKindView::Do]);
                lemma_text_concat(seq![TokenKindView::While], c);
                assert(text@ =~= before + stm_text(stm@));
            }
        },
        StmKind::Compound(first, rest) => {
            write_statement(first, text);
            write_mark(text, ';');
            write_statement(rest, text);
            proof {
                let f = stm_tokens(stm_view(**first));
                let r = stm_tokens(stm_view(**rest));
                lemma_text_one(TokenKindView::Semicolon);
                lemma_text_concat(f + seq![TokenKindView::Semicolon], r);
                lemma_text_concat(f, seq![TokenKindView::Semicolon]);
                assert(text@ =~= before + stm_text(stm@));
            }
        },
    }
}

impl Expr {
    /// The expression as source text: its tokens, each with one blank after
    /// it. A parenthesis is written where a `Precedence` stands, and nowhere
    /// else.
    pub fn render(&self) -> (text: String)
        ensures
            text@ == expr_text(self@),
    {
        let mut text = String::new();
        write_expr(self, &mut text);
        assert(text@ =~= expr_text(self@));
        text
    }
}

impl Stm {
    /// The statement as source text: its tokens, each with one blank after
    /// it.
    pub fn render(&self) -> (text: String)
        ensures
            text@ == stm_text(self@),
    {
        let mut text = String::new();
        write_statement(self, &mut text);
        assert(text@ =~= stm_text(self@));
        text
    }
}

} // verus!
