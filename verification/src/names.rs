//! The order of names through the stages: the code stores and fetches names
//! in the order in which the text assigns to them and uses them.

use crate::ast::compiler::{compile_expr_spec, compile_statement_spec, opcode};
use crate::ast::syntax::CodeView;
use crate::lexer::parser::{
    literal_of, operator_of, parse_expr_spec, parse_spec, parse_statement_spec,
};
use crate::lexer::syntax::{kinds_of, ExprView, StmView, TokenKindView};
use crate::lexer::tokenizer::tokenize;
use vstd::prelude::*;

verus! {

/// Whether the token at `i` is a name with `:=` right after it.
pub open spec fn is_target(tokens: Seq<TokenKindView>, i: int) -> bool {
    &&& 0 <= i < tokens.len()
    &&& tokens[i] is Identifier
    &&& i + 1 < tokens.len()
    &&& tokens[i + 1] is Assign
}

/// The names written in `tokens`, from left to right: those that are
/// assigned to where `targets` holds, the others where it does not.
pub open spec fn token_names(tokens: Seq<TokenKindView>, targets: bool) -> Seq<Seq<char>>
    decreases tokens.len(),
{
    if tokens.len() == 0 {
        Seq::empty()
    } else {
        let rest = token_names(tokens.drop_first(), targets);
        match tokens[0] {
            TokenKindView::Identifier(name) => if is_target(tokens, 0) == targets {
                seq![name] + rest
            } else {
                rest
            },
            _ => rest,
        }
    }
}

/// The names in an expression, from left to right.
pub open spec fn expr_names(expr: ExprView) -> Seq<Seq<char>>
    decreases expr,
{
    match expr {
        ExprView::Identifier(name) => seq![name],
        ExprView::Binary(_, left, right) => expr_names(*left) + expr_names(*right),
        ExprView::Negation(inner) => expr_names(*inner),
        ExprView::Precedence(inner) => expr_names(*inner),
        _ => Seq::empty(),
    }
}

/// The names in the expressions of a statement where `targets` does not
/// hold, and none where it does.
pub open spec fn used_in(expr: ExprView, targets: bool) -> Seq<Seq<char>> {
    if targets {
        Seq::empty()
    } else {
        expr_names(expr)
    }
}

/// The names in a statement, from left to right: those that are assigned to
/// where `targets` holds, those in its expressions where it does not.
pub open spec fn stm_names(stm: StmView, targets: bool) -> Seq<Seq<char>>
    decreases stm,
{
    match stm {
        StmView::Assignment(name, expr) => if targets {
            seq![name]
        } else {
            expr_names(expr)
        },
        StmView::Conditional(cond, taken, other) => used_in(cond, targets) + (stm_names(
            *taken,
            targets,
        ) + stm_names(*other, targets)),
        StmView::Loop(cond, body) => used_in(cond, targets) + stm_names(*body, targets),
        StmView::Compound(first, rest) => stm_names(*first, targets) + stm_names(*rest, targets),
    }
}

/// The names in one instruction: those of `STORE` where `stores` holds,
/// those of `FETCH` where it does not, nested code included.
pub open spec fn instruction_names(instruction: CodeView, stores: bool) -> Seq<Seq<char>>
    decreases instruction,
{
    match instruction {
        CodeView::STORE(name) => if stores {
            seq![name]
        } else {
            Seq::empty()
        },
        CodeView::FETCH(name) => if stores {
            Seq::empty()
        } else {
            seq![name]
        },
        CodeView::BRANCH(taken, other) => code_names(taken, stores) + code_names(other, stores),
        CodeView::LOOP(test, body) => code_names(test, stores) + code_names(body, stores),
        _ => Seq::empty(),
    }
}

/// The names in a sequence of instructions, from first to last.
pub open spec fn code_names(code: Seq<CodeView>, stores: bool) -> Seq<Seq<char>>
    decreases code,
{
    if code.len() == 0 {
        Seq::empty()
    } else {
        instruction_names(code[0], stores) + code_names(code.drop_first(), stores)
    }
}

/// The names of two sequences of tokens put together are the names of the
/// one and then those of the other, unless a name ends the first and `:=`
/// starts the second.
pub proof fn lemma_token_names_concat(
    a: Seq<TokenKindView>,
    b: Seq<TokenKindView>,
    targets: bool,
)
    requires
        a.len() == 0 || b.len() == 0 || !(a.last() is Identifier) || !(b[0] is Assign),
    ensures
        token_names(a + b, targets) == token_names(a, targets) + token_names(b, targets),
    decreases a.len(),
{
    if a.len() == 0 {
        assert(a + b =~= b);
        assert(token_names(a, targets) + token_names(b, targets) =~= token_names(b, targets));
    } else {
        assert((a + b).drop_first() =~= a.drop_first() + b);
        lemma_token_names_concat(a.drop_first(), b, targets);
        assert(is_target(a + b, 0) == is_target(a, 0));
        let rest = token_names(a.drop_first(), targets);
        let tail = token_names(b, targets);
        if let TokenKindView::Identifier(name) = a[0] {
            assert((seq![name] + rest) + tail =~= seq![name] + (rest + tail));
        }
    }
}

/// The names of a range of tokens, cut in two at `mid`.
pub proof fn lemma_names_split(
    tokens: Seq<TokenKindView>,
    from: int,
    mid: int,
    to: int,
    targets: bool,
)
    requires
        0 <= from <= mid <= to <= tokens.len(),
        mid == from || mid == to || !(tokens[mid - 1] is Identifier) || !(tokens[mid] is Assign),
    ensures
        token_names(tokens.subrange(from, to), targets) == token_names(
            tokens.subrange(from, mid),
            targets,
        ) + token_names(tokens.subrange(mid, to), targets),
{
    assert(tokens.subrange(from, to) =~= tokens.subrange(from, mid) + tokens.subrange(mid, to));
    lemma_token_names_concat(tokens.subrange(from, mid), tokens.subrange(mid, to), targets);
}

/// The names of a single token: a name counts as used.
pub proof fn lemma_names_one(tokens: Seq<TokenKindView>, at: int, targets: bool)
    requires
        0 <= at < tokens.len(),
    ensures
        token_names(tokens.subrange(at, at + 1), targets) == match tokens[at] {
            TokenKindView::Identifier(name) => if targets {
                Seq::empty()
            } else {
                seq![name]
            },
            _ => Seq::empty(),
        },
{
    let one = tokens.subrange(at, at + 1);
    assert(one.drop_first() =~= Seq::<TokenKindView>::empty());
    assert(token_names(one.drop_first(), targets) =~= Seq::<Seq<char>>::empty());
    assert(!is_target(one, 0));
    if let TokenKindView::Identifier(name) = tokens[at] {
        assert(seq![name] + Seq::<Seq<char>>::empty() =~= seq![name]);
    }
}

/// An expression that was read uses the names that stand in its tokens, in
/// their order, and assigns to none.
pub proof fn lemma_expr_names(tokens: Seq<TokenKindView>, at: int, targets: bool)
    requires
        parse_expr_spec(tokens, at).result is Ok,
    ensures
        0 <= at < parse_expr_spec(tokens, at).next <= tokens.len(),
        !(tokens[at] is Assign),
        token_names(tokens.subrange(at, parse_expr_spec(tokens, at).next), targets) == used_in(
            parse_expr_spec(tokens, at).result->Ok_0,
            targets,
        ),
    decreases tokens.len() - at,
{
    let end = parse_expr_spec(tokens, at).next;
    let whole = token_names(tokens.subrange(at, end), targets);
    let none = Seq::<Seq<char>>::empty();
    lemma_names_one(tokens, at, targets);
    if tokens[at] is LParen {
        let inner = parse_expr_spec(tokens, at + 1);
        lemma_expr_names(tokens, at + 1, targets);
        lemma_names_split(tokens, at, at + 1, end, targets);
        lemma_names_split(tokens, at + 1, inner.next, end, targets);
        lemma_names_one(tokens, inner.next, targets);
        assert(whole =~= used_in(inner.result->Ok_0, targets)) by {
            let middle = token_names(tokens.subrange(at + 1, inner.next), targets);
            assert(none + (middle + none) =~= middle);
        }
    } else if tokens[at] is Not {
        let inner = parse_expr_spec(tokens, at + 1);
        lemma_expr_names(tokens, at + 1, targets);
        lemma_names_split(tokens, at, at + 1, end, targets);
        assert(whole =~= used_in(inner.result->Ok_0, targets)) by {
            let rest = token_names(tokens.subrange(at + 1, end), targets);
            assert(none + rest =~= rest);
        }
    } else {
        let left = literal_of(tokens[at])->0;
        if at + 1 < tokens.len() && operator_of(tokens[at + 1]) is Some {
            let right = parse_expr_spec(tokens, at + 2);
            lemma_expr_names(tokens, at + 2, targets);
            lemma_names_split(tokens, at, at + 1, end, targets);
            lemma_names_split(tokens, at + 1, at + 2, end, targets);
            lemma_names_one(tokens, at + 1, targets);
            let first = token_names(tokens.subrange(at, at + 1), targets);
            let rest = token_names(tokens.subrange(at + 2, end), targets);
            assert(first == used_in(left, targets));
            assert(first + (none + rest) =~= first + rest);
            assert(none + none =~= none);
        } else {
            assert(whole == used_in(left, targets));
        }
    }
}

/// A statement that was read assigns to and uses the names that stand in
/// its tokens, in their order.
pub proof fn lemma_statement_names(tokens: Seq<TokenKindView>, at: int, targets: bool)
    requires
        parse_statement_spec(tokens, at).result is Ok,
    ensures
        0 <= at < parse_statement_spec(tokens, at).next <= tokens.len(),
        !(tokens[at] is Assign),
        token_names(tokens.subrange(at, parse_statement_spec(tokens, at).next), targets)
            == stm_names(parse_statement_spec(tokens, at).result->Ok_0, targets),
    decreases tokens.len() - at,
{
    let end = parse_statement_spec(tokens, at).next;
    let whole = token_names(tokens.subrange(at, end), targets);
    let none = Seq::<Seq<char>>::empty();
    match tokens[at] {
        TokenKindView::Identifier(name) => {
            let value = parse_expr_spec(tokens, at + 2);
            lemma_expr_names(tokens, at + 2, targets);
            lemma_names_split(tokens, at, at + 2, end, targets);
            lemma_names_one(tokens, at + 1, targets);
            let two = tokens.subrange(at, at + 2);
            assert(two.drop_first() =~= tokens.subrange(at + 1, at + 2));
            assert(is_target(two, 0));
            let head = token_names(two, targets);
            let rest = token_names(tokens.subrange(at + 2, end), targets);
            if targets {
                assert(head =~= seq![name]);
                assert(head + none =~= seq![name]);
            } else {
                assert(head =~= none);
                assert(none + rest =~= rest);
            }
        },
        TokenKindView::If => {
            let cond = parse_expr_spec(tokens, at + 1);
            let first = parse_statement_spec(tokens, cond.next + 1);
            let second = parse_statement_spec(tokens, first.next + 1);
            lemma_expr_names(tokens, at + 1, targets);
            lemma_statement_names(tokens, cond.next + 1, targets);
            lemma_statement_names(tokens, first.next + 1, targets);
            lemma_names_one(tokens, at, targets);
            lemma_names_one(tokens, cond.next, targets);
            lemma_names_one(tokens, first.next, targets);
            lemma_names_split(tokens, at, at + 1, end, targets);
            lemma_names_split(tokens, at + 1, cond.next, end, targets);
            lemma_names_split(tokens, cond.next, cond.next + 1, end, targets);
            lemma_names_split(tokens, cond.next + 1, first.next, end, targets);
            lemma_names_split(tokens, first.next, first.next + 1, end, targets);
            let c = token_names(tokens.subrange(at + 1, cond.next), targets);
            let t = token_names(tokens.subrange(cond.next + 1, first.next), targets);
            let e = token_names(tokens.subrange(first.next + 1, end), targets);
            assert(whole == none + (c + (none + (t + (none + e)))));
            assert(none + (c + (none + (t + (none + e)))) =~= c + (t + e));
        },
        TokenKindView::While => {
            let cond = parse_expr_spec(tokens, at + 1);
            let body = parse_statement_spec(tokens, cond.next + 1);
            lemma_expr_names(tokens, at + 1, targets);
            lemma_statement_names(tokens, cond.next + 1, targets);
            lemma_names_one(tokens, at, targets);
            lemma_names_one(tokens, cond.next, targets);
            lemma_names_split(tokens, at, at + 1, end, targets);
            lemma_names_split(tokens, at + 1, cond.next, end, targets);
            lemma_names_split(tokens, cond.next, cond.next + 1, end, targets);
            let c = token_names(tokens.subrange(at + 1, cond.next), targets);
            let b = token_names(tokens.subrange(cond.next + 1, end), targets);
            assert(whole == none + (c + (none + b)));
            assert(none + (c + (none + b)) =~= c + b);
        },
        _ => {},
    }
}

/// A program that was read assigns to and uses the names that stand in its
/// tokens, in their order.
pub proof fn lemma_program_names(tokens: Seq<TokenKindView>, at: int, targets: bool)
    requires
        parse_spec(tokens, at).result is Ok,
    ensures
        0 <= at < parse_spec(tokens, at).next <= tokens.len(),
        token_names(tokens.subrange(at, parse_spec(tokens, at).next), targets) == stm_names(
            parse_spec(tokens, at).result->Ok_0,
            targets,
        ),
    decreases tokens.len() - at,
{
    let end = parse_spec(tokens, at).next;
    let first = parse_statement_spec(tokens, at);
    lemma_statement_names(tokens, at, targets);
    if 0 <= first.next < tokens.len() && tokens[first.next] is Semicolon {
        lemma_program_names(tokens, first.next + 1, targets);
        lemma_names_one(tokens, first.next, targets);
        lemma_names_split(tokens, at, first.next, end, targets);
        lemma_names_split(tokens, first.next, first.next + 1, end, targets);
        let f = token_names(tokens.subrange(at, first.next), targets);
        let r = token_names(tokens.subrange(first.next + 1, end), targets);
        let none = Seq::<Seq<char>>::empty();
        assert(f + (none + r) =~= f + r);
    }
}

/// The names of two sequences of instructions put together.
pub proof fn lemma_code_names_concat(a: Seq<CodeView>, b: Seq<CodeView>, stores: bool)
    ensures
        code_names(a + b, stores) == code_names(a, stores) + code_names(b, stores),
    decreases a.len(),
{
    if a.len() == 0 {
        assert(a + b =~= b);
        assert(code_names(a, stores) + code_names(b, stores) =~= code_names(b, stores));
    } else {
        assert((a + b).drop_first() =~= a.drop_first() + b);
        lemma_code_names_concat(a.drop_first(), b, stores);
        let head = instruction_names(a[0], stores);
        let rest = code_names(a.drop_first(), stores);
        let tail = code_names(b, stores);
        assert((head + rest) + tail =~= head + (rest + tail));
    }
}

/// The names of a single instruction as a sequence.
pub proof fn lemma_code_names_one(instruction: CodeView, stores: bool)
    ensures
        code_names(seq![instruction], stores) == instruction_names(instruction, stores),
{
    let one = seq![instruction];
    assert(one.drop_first() =~= Seq::<CodeView>::empty());
    assert(code_names(one.drop_first(), stores) =~= Seq::<Seq<char>>::empty());
    assert(instruction_names(instruction, stores) + Seq::<Seq<char>>::empty()
        =~= instruction_names(instruction, stores));
}

/// The code of an expression fetches the names of the expression, in their
/// order, and stores none.
pub proof fn lemma_expr_code_names(expr: ExprView, stores: bool)
    requires
        compile_expr_spec(expr) is Some,
    ensures
        code_names(compile_expr_spec(expr)->0, stores) == used_in(expr, stores),
    decreases expr,
{
    let none = Seq::<Seq<char>>::empty();
    match expr {
        ExprView::IntLit(value) => {
            lemma_code_names_one(CodeView::PUSH(value), stores);
        },
        ExprView::BoolLit(value) => {
            lemma_code_names_one(CodeView::TRUE, stores);
            lemma_code_names_one(CodeView::FALSE, stores);
        },
        ExprView::Identifier(name) => {
            lemma_code_names_one(CodeView::FETCH(name), stores);
        },
        ExprView::Binary(op, left, right) => {
            let l = compile_expr_spec(*left)->0;
            let r = compile_expr_spec(*right)->0;
            let instruction = opcode(op)->0;
            lemma_expr_code_names(*left, stores);
            lemma_expr_code_names(*right, stores);
            lemma_code_names_concat(l + r, seq![instruction], stores);
            lemma_code_names_concat(l, r, stores);
            lemma_code_names_one(instruction, stores);
            assert(code_names(l, stores) + code_names(r, stores) + none =~= code_names(l, stores)
                + code_names(r, stores));
            assert(none + none =~= none);
        },
        ExprView::Negation(inner) => {
            let code = compile_expr_spec(*inner)->0;
            lemma_expr_code_names(*inner, stores);
            lemma_code_names_concat(code, seq![CodeView::NEG], stores);
            lemma_code_names_one(CodeView::NEG, stores);
            assert(code_names(code, stores) + none =~= code_names(code, stores));
        },
        ExprView::Precedence(inner) => {
            lemma_expr_code_names(*inner, stores);
        },
    }
}

/// The code of a statement stores and fetches the names of the statement,
/// in their order.
pub proof fn lemma_statement_code_names(stm: StmView, stores: bool)
    requires
        compile_statement_spec(stm) is Some,
    ensures
        code_names(compile_statement_spec(stm)->0, stores) == stm_names(stm, stores),
    decreases stm,
{
    let none = Seq::<Seq<char>>::empty();
    match stm {
        StmView::Assignment(name, expr) => {
            let code = compile_expr_spec(expr)->0;
            lemma_expr_code_names(expr, stores);
            lemma_code_names_concat(code, seq![CodeView::STORE(name)], stores);
            lemma_code_names_one(CodeView::STORE(name), stores);
            assert(none + seq![name] =~= seq![name]);
            assert(expr_names(expr) + none =~= expr_names(expr));
        },
        StmView::Conditional(cond, taken, other) => {
            let test = compile_expr_spec(cond)->0;
            let t = compile_statement_spec(*taken)->0;
            let e = compile_statement_spec(*other)->0;
            lemma_expr_code_names(cond, stores);
            lemma_statement_code_names(*taken, stores);
            lemma_statement_code_names(*other, stores);
            lemma_code_names_concat(test, seq![CodeView::BRANCH(t, e)], stores);
            lemma_code_names_one(CodeView::BRANCH(t, e), stores);
        },
        StmView::Loop(cond, body) => {
            let test = compile_expr_spec(cond)->0;
            let repeated = compile_statement_spec(*body)->0;
            lemma_expr_code_names(cond, stores);
            lemma_statement_code_names(*body, stores);
            lemma_code_names_one(CodeView::LOOP(test, repeated), stores);
        },
        StmView::Compound(first, rest) => {
            let f = compile_statement_spec(*first)->0;
            let r = compile_statement_spec(*rest)->0;
            lemma_statement_code_names(*first, stores);
            lemma_statement_code_names(*rest, stores);
            lemma_code_names_concat(f, r, stores);
        },
    }
}

/// For every sequence of tokens that holds a program from its start on, and
/// whose program has code: the names that the code stores are, in order, the
/// names that the program's tokens assign to, and the names that it fetches
/// are, in order, the other names among those tokens.
pub proof fn lemma_names_keep_their_order(tokens: Seq<TokenKindView>, stores: bool)
    requires
        parse_spec(tokens, 0).result is Ok,
        compile_statement_spec(parse_spec(tokens, 0).result->Ok_0) is Some,
    ensures
        code_names(compile_statement_spec(parse_spec(tokens, 0).result->Ok_0)->0, stores)
            == token_names(tokens.subrange(0, parse_spec(tokens, 0).next), stores),
{
    lemma_program_names(tokens, 0, stores);
    lemma_statement_code_names(parse_spec(tokens, 0).result->Ok_0, stores);
}

/// The same from the text on. For every text that holds no lexical error,
/// whose tokens hold a program from their start on, and whose program has
/// code: the names that the code stores are, in order, the names that the
/// text assigns to, and the names that it fetches are, in order, the other
/// names in the part of the text that is the program.
pub proof fn lemma_source_names_keep_their_order(src: Seq<char>, stores: bool)
    requires
        tokenize(src) is Ok,
        parse_spec(kinds_of(tokenize(src)->Ok_0), 0).result is Ok,
        compile_statement_spec(parse_spec(kinds_of(tokenize(src)->Ok_0), 0).result->Ok_0)
            is Some,
    ensures
        ({
            let tokens = kinds_of(tokenize(src)->Ok_0);
            let program = parse_spec(tokens, 0);
            code_names(compile_statement_spec(program.result->Ok_0)->0, stores) == token_names(
                tokens.subrange(0, program.next),
                stores,
            )
        }),
{
    lemma_names_keep_their_order(kinds_of(tokenize(src)->Ok_0), stores);
}

} // verus!
