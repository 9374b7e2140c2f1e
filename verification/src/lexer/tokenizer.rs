//! The tokenizer: one pass over the characters, left to right, with one
//! character of lookahead.
//!
//! `scan` says, over sequences of characters, which tokens a text holds; the
//! `Tokenizer` computes them.

use crate::lexer::syntax::{
    tokens_view, Position, PositionView, Token, TokenKind, TokenKindView, TokenView,
    TokenizerError, TokenizerErrorView,
};
use vstd::prelude::*;

verus! {

/// The three kinds of character of which runs are read.
pub ghost enum CharClass {
    Digit,
    Lower,
    Blank,
}

/// Whether `c` is a digit, a lower-case letter, or one of blank, tab and
/// newline.
pub open spec fn in_class(c: char, class: CharClass) -> bool {
    match class {
        CharClass::Digit => '0' <= c && c <= '9',
        CharClass::Lower => 'a' <= c && c <= 'z',
        CharClass::Blank => c == ' ' || c == '\t' || c == '\n',
    }
}

/// Where the longest run of characters of `class` that starts at `at` ends.
pub open spec fn run_end(src: Seq<char>, at: int, class: CharClass) -> int
    decreases src.len() - at,
{
    if 0 <= at < src.len() && in_class(src[at], class) {
        run_end(src, at + 1, class)
    } else {
        at
    }
}

/// The number that one digit writes.
pub open spec fn digit_value(c: char) -> nat {
    if in_class(c, CharClass::Digit) {
        (c as int - '0' as int) as nat
    } else {
        0
    }
}

/// The number that a sequence of digits writes in base ten.
pub open spec fn digits_value(digits: Seq<char>) -> nat
    decreases digits.len(),
{
    if digits.len() == 0 {
        0
    } else {
        10 * digits_value(digits.drop_last()) + digit_value(digits.last())
    }
}

/// The place after `c`, for a scan that stood at `pos` before it. A newline
/// starts a line, a tab counts as four columns, anything else as one.
pub open spec fn step(pos: PositionView, c: char) -> PositionView {
    if c == '\n' {
        PositionView { line: pos.line + 1, offset: 1 }
    } else if c == '\t' {
        PositionView { line: pos.line, offset: pos.offset + 4 }
    } else {
        PositionView { line: pos.line, offset: pos.offset + 1 }
    }
}

/// The place after the characters from `from` up to `to`, for a scan that
/// stood at `pos` before them.
pub open spec fn walk(pos: PositionView, src: Seq<char>, from: int, to: int) -> PositionView
    decreases to - from,
{
    if 0 <= from < to <= src.len() {
        step(walk(pos, src, from, to - 1), src[to - 1])
    } else {
        pos
    }
}

/// A keyword's token, or the identifier that `word` is.
pub open spec fn word_kind(word: Seq<char>) -> TokenKindView {
    if word == "while"@ {
        TokenKindView::While
    } else if word == "if"@ {
        TokenKindView::If
    } else if word == "and"@ {
        TokenKindView::And
    } else if word == "not"@ {
        TokenKindView::Not
    } else if word == "do"@ {
        TokenKindView::Do
    } else if word == "else"@ {
        TokenKindView::Else
    } else if word == "then"@ {
        TokenKindView::Then
    } else if word == "skip"@ {
        TokenKindView::Skip
    } else if word == "true"@ {
        TokenKindView::BoolLit(true)
    } else if word == "false"@ {
        TokenKindView::BoolLit(false)
    } else {
        TokenKindView::Identifier(word)
    }
}

/// What stands at one place of the text: a token or the error it gives, and
/// the index after it. A run of blanks is the token `Whitespace`.
pub ghost struct Lexeme {
    pub kind: Result<TokenKindView, TokenizerErrorView>,
    pub end: int,
}

/// The operator or the punctuation at `at`. `:` and `<` need a `=` after
/// them.
pub open spec fn meta_at(src: Seq<char>, at: int) -> Lexeme
    recommends
        0 <= at < src.len(),
{
    let c = src[at];
    if c == ':' || c == '<' {
        if at + 1 >= src.len() {
            Lexeme { kind: Err(TokenizerErrorView::UnexpectedEOF), end: at + 1 }
        } else if src[at + 1] == '=' {
            Lexeme {
                kind: Ok(
                    if c == ':' {
                        TokenKindView::Assign
                    } else {
                        TokenKindView::LEq
                    },
                ),
                end: at + 2,
            }
        } else {
            Lexeme {
                kind: Err(TokenizerErrorView::UnexpectedMeta(seq![c, src[at + 1]])),
                end: at + 2,
            }
        }
    } else {
        Lexeme {
            kind: if c == '+' {
                Ok(TokenKindView::Plus)
            } else if c == '-' {
                Ok(TokenKindView::Minus)
            } else if c == '*' {
                Ok(TokenKindView::Times)
            } else if c == '/' {
                Ok(TokenKindView::Division)
            } else if c == '(' {
                Ok(TokenKindView::LParen)
            } else if c == ')' {
                Ok(TokenKindView::RParen)
            } else if c == '=' {
                Ok(TokenKindView::Equals)
            } else if c == ';' {
                Ok(TokenKindView::Semicolon)
            } else if c == '!' {
                Ok(TokenKindView::Not)
            } else {
                Err(TokenizerErrorView::UnexpectedMeta(seq![c]))
            },
            end: at + 1,
        }
    }
}

/// The lexeme that starts at `at`: the longest run of digits, of lower-case
/// letters or of blanks, or else an operator.
pub open spec fn lexeme_at(src: Seq<char>, at: int) -> Lexeme
    recommends
        0 <= at < src.len(),
{
    let c = src[at];
    if in_class(c, CharClass::Digit) {
        let end = run_end(src, at, CharClass::Digit);
        let value = digits_value(src.subrange(at, end));
        Lexeme {
            kind: if value <= usize::MAX {
                Ok(TokenKindView::IntLit(value))
            } else {
                Err(TokenizerErrorView::IntegerOverflow)
            },
            end,
        }
    } else if in_class(c, CharClass::Lower) {
        let end = run_end(src, at, CharClass::Lower);
        Lexeme { kind: Ok(word_kind(src.subrange(at, end))), end }
    } else if in_class(c, CharClass::Blank) {
        Lexeme { kind: Ok(TokenKindView::Whitespace), end: run_end(src, at, CharClass::Blank) }
    } else {
        meta_at(src, at)
    }
}

/// How a scan ends: with the tokens or the first error, and with the index
/// and the place at which it came to rest.
pub ghost struct Scan {
    pub result: Result<Seq<TokenView>, TokenizerErrorView>,
    pub cursor: int,
    pub position: PositionView,
}

/// `scan` with `prefix` put before its tokens.
pub open spec fn prepend(prefix: Seq<TokenView>, scan: Scan) -> Scan {
    Scan {
        result: match scan.result {
            Ok(tokens) => Ok(prefix + tokens),
            Err(e) => Err(e),
        },
        cursor: scan.cursor,
        position: scan.position,
    }
}

/// The scan of `src` from index `at`, for a scan that stands at `pos` there.
///
/// A token carries the place after its last character. Blanks give no token.
/// At the first lexeme that is an error the scan stops before that lexeme and
/// hands out the error alone.
pub open spec fn scan(src: Seq<char>, at: int, pos: PositionView) -> Scan
    decreases src.len() - at,
{
    if 0 <= at < src.len() {
        let lexeme = lexeme_at(src, at);
        match lexeme.kind {
            Err(e) => Scan { result: Err(e), cursor: at, position: pos },
            Ok(kind) => {
                proof {
                    lemma_lexeme_advances(src, at);
                }
                let after = walk(pos, src, at, lexeme.end);
                let rest = scan(src, lexeme.end, after);
                if kind is Whitespace {
                    rest
                } else {
                    prepend(seq![TokenView { kind, position: after }], rest)
                }
            },
        }
    } else {
        Scan { result: Ok(Seq::empty()), cursor: at, position: pos }
    }
}

/// Where a scan starts: line 1, column 1.
pub open spec fn start_position() -> PositionView {
    PositionView { line: 1, offset: 1 }
}

/// The tokens of a whole text, or the first error in it.
pub open spec fn tokenize(src: Seq<char>) -> Result<Seq<TokenView>, TokenizerErrorView> {
    scan(src, 0, start_position()).result
}

/// A run ends at or after its start and within the text, holds characters of
/// its class only, and is not followed by another one.
pub proof fn lemma_run_end(src: Seq<char>, at: int, class: CharClass)
    requires
        0 <= at <= src.len(),
    ensures
        at <= run_end(src, at, class) <= src.len(),
        forall|k: int| at <= k < run_end(src, at, class) ==> in_class(#[trigger] src[k], class),
        run_end(src, at, class) < src.len() ==> !in_class(
            src[run_end(src, at, class)],
            class,
        ),
    decreases src.len() - at,
{
    if at < src.len() && in_class(src[at], class) {
        lemma_run_end(src, at + 1, class);
    }
}

/// Every lexeme holds at least one character and ends within the text.
pub proof fn lemma_lexeme_advances(src: Seq<char>, at: int)
    requires
        0 <= at < src.len(),
    ensures
        at < lexeme_at(src, at).end,
        lexeme_at(src, at).kind is Ok ==> lexeme_at(src, at).end <= src.len(),
{
    lemma_run_end(src, at + 1, CharClass::Digit);
    lemma_run_end(src, at + 1, CharClass::Lower);
    lemma_run_end(src, at + 1, CharClass::Blank);
}

/// A number does not shrink when digits are written after it.
pub proof fn lemma_digits_value_grows(digits: Seq<char>, k: int)
    requires
        0 <= k <= digits.len(),
    ensures
        digits_value(digits.take(k)) <= digits_value(digits),
    decreases digits.len(),
{
    if k < digits.len() {
        lemma_digits_value_grows(digits.drop_last(), k);
        assert(digits.drop_last().take(k) =~= digits.take(k));
    } else {
        assert(digits.take(k) =~= digits);
    }
}

/// Putting one token before the tokens of a scan, after `prefix`, is putting
/// `prefix` with that token before them.
pub proof fn lemma_prepend_push(prefix: Seq<TokenView>, token: TokenView, rest: Scan)
    ensures
        prepend(prefix, prepend(seq![token], rest)) == prepend(prefix.push(token), rest),
{
    match rest.result {
        Ok(tokens) => {
            assert(prefix + (seq![token] + tokens) =~= prefix.push(token) + tokens);
        },
        Err(_) => {},
    }
}

/// Whether the place `a` comes before the place `b` in a text.
pub open spec fn before(a: PositionView, b: PositionView) -> bool {
    a.line < b.line || (a.line == b.line && a.offset < b.offset)
}

/// Every character moves the scan to a later place, and none moves it to a
/// column before the first.
pub proof fn lemma_walk_moves_on(pos: PositionView, src: Seq<char>, from: int, to: int)
    requires
        0 <= from <= to <= src.len(),
    ensures
        from < to ==> before(pos, walk(pos, src, from, to)),
        from == to ==> walk(pos, src, from, to) == pos,
        pos.line <= walk(pos, src, from, to).line,
        pos.offset >= 1 ==> walk(pos, src, from, to).offset >= 1,
    decreases to - from,
{
    if from < to {
        lemma_walk_moves_on(pos, src, from, to - 1);
    }
}

/// The place after two stretches of text, one after the other, is the place
/// after both.
pub proof fn lemma_walk_joins(pos: PositionView, src: Seq<char>, from: int, mid: int, to: int)
    requires
        0 <= from <= mid <= to <= src.len(),
    ensures
        walk(walk(pos, src, from, mid), src, mid, to) == walk(pos, src, from, to),
    decreases to - mid,
{
    if mid < to {
        lemma_walk_joins(pos, src, from, mid, to - 1);
    }
}

/// Where a scan comes to rest. It has read the whole text if it hands out
/// tokens. If it hands out an error, it rests before the first lexeme that is
/// one, and the error is that lexeme's. Either way its place is the place
/// after the characters that it has passed.
pub proof fn lemma_scan_rests(src: Seq<char>, at: int, pos: PositionView)
    requires
        0 <= at <= src.len(),
    ensures
        at <= scan(src, at, pos).cursor <= src.len(),
        scan(src, at, pos).position == walk(pos, src, at, scan(src, at, pos).cursor),
        scan(src, at, pos).result is Ok ==> scan(src, at, pos).cursor == src.len(),
        scan(src, at, pos).result matches Err(e) ==> {
            &&& scan(src, at, pos).cursor < src.len()
            &&& lexeme_at(src, scan(src, at, pos).cursor).kind == Err::<
                TokenKindView,
                TokenizerErrorView,
            >(e)
        },
    decreases src.len() - at,
{
    if at < src.len() {
        let lexeme = lexeme_at(src, at);
        if lexeme.kind is Ok {
            lemma_lexeme_advances(src, at);
            let after = walk(pos, src, at, lexeme.end);
            lemma_scan_rests(src, lexeme.end, after);
            lemma_walk_joins(pos, src, at, lexeme.end, scan(src, lexeme.end, after).cursor);
        }
    }
}

/// The tokens of a scan stand at places after the one where the scan began,
/// each at a later place than the one before it, and none of them is
/// `Whitespace`.
pub proof fn lemma_scan_in_order(src: Seq<char>, at: int, pos: PositionView)
    ensures
        scan(src, at, pos).result matches Ok(tokens) ==> {
            &&& forall|i: int|
                0 <= i < tokens.len() ==> {
                    &&& !((#[trigger] tokens[i]).kind is Whitespace)
                    &&& before(pos, tokens[i].position)
                    &&& pos.offset >= 1 ==> tokens[i].position.offset >= 1
                }
            &&& forall|i: int, j: int|
                0 <= i < j < tokens.len() ==> before(
                    (#[trigger] tokens[i]).position,
                    (#[trigger] tokens[j]).position,
                )
        },
    decreases src.len() - at,
{
    if 0 <= at < src.len() {
        let lexeme = lexeme_at(src, at);
        if let Ok(kind) = lexeme.kind {
            lemma_lexeme_advances(src, at);
            lemma_walk_moves_on(pos, src, at, lexeme.end);
            let after = walk(pos, src, at, lexeme.end);
            lemma_scan_in_order(src, lexeme.end, after);
            if let Ok(rest) = scan(src, lexeme.end, after).result {
                if !(kind is Whitespace) {
                    let first = TokenView { kind, position: after };
                    let tokens = seq![first] + rest;
                    assert(scan(src, at, pos).result == Ok::<Seq<TokenView>, TokenizerErrorView>(
                        tokens,
                    ));
                    assert forall|i: int| 0 <= i < tokens.len() implies {
                        &&& !((#[trigger] tokens[i]).kind is Whitespace)
                        &&& before(pos, tokens[i].position)
                        &&& pos.offset >= 1 ==> tokens[i].position.offset >= 1
                    } by {
                        if i > 0 {
                            assert(tokens[i] == rest[i - 1]);
                        }
                    }
                    assert forall|i: int, j: int| 0 <= i < j < tokens.len() implies before(
                        (#[trigger] tokens[i]).position,
                        (#[trigger] tokens[j]).position,
                    ) by {
                        assert(tokens[j] == rest[j - 1]);
                        if i > 0 {
                            assert(tokens[i] == rest[i - 1]);
                        }
                    }
                }
            }
        }
    }
}

/// In the tokens of a whole text the places rise strictly from token to
/// token, lines and columns are counted from 1, and no token is `Whitespace`.
pub proof fn lemma_tokens_in_order(src: Seq<char>)
    ensures
        tokenize(src) matches Ok(tokens) ==> {
            &&& forall|i: int|
                0 <= i < tokens.len() ==> {
                    &&& !((#[trigger] tokens[i]).kind is Whitespace)
                    &&& tokens[i].position.line >= 1
                    &&& tokens[i].position.offset >= 1
                }
            &&& forall|i: int, j: int|
                0 <= i < j < tokens.len() ==> before(
                    (#[trigger] tokens[i]).position,
                    (#[trigger] tokens[j]).position,
                )
        },
{
    lemma_scan_in_order(src, 0, start_position());
}

/// Appends one character to a string: `String::push` of the standard
/// library, which puts the character at the end and changes nothing else.
#[verifier::external_body]
pub(crate) fn push_char(text: &mut String, c: char)
    ensures
        final(text)@ == old(text)@.push(c),
{
    text.push(c)
}

/// Whether `word` is spelled as `text`.
fn spells(word: &String, text: &str) -> (same: bool)
    ensures
        same == (word@ == text@),
{
    let letters = word.as_str();
    let n: usize = letters.unicode_len();
    if text.unicode_len() != n {
        return false;
    }
    let mut i: usize = 0;
    while i < n
        invariant
            i <= n,
            n == word@.len(),
            n == text@.len(),
            letters@ == word@,
            forall|j: int| 0 <= j < i ==> word@[j] == text@[j],
        decreases n - i,
    {
        if letters.get_char(i) != text.get_char(i) {
            return false;
        }
        i = i + 1;
    }
    assert(word@ =~= text@);
    true
}

/// The token that a run of lower-case letters is.
fn word_token(word: String) -> (kind: TokenKind)
    ensures
        kind@ == word_kind(word@),
{
    if spells(&word, "while") {
        TokenKind::While
    } else if spells(&word, "if") {
        TokenKind::If
    } else if spells(&word, "and") {
        TokenKind::And
    } else if spells(&word, "not") {
        TokenKind::Not
    } else if spells(&word, "do") {
        TokenKind::Do
    } else if spells(&word, "else") {
        TokenKind::Else
    } else if spells(&word, "then") {
        TokenKind::Then
    } else if spells(&word, "skip") {
        TokenKind::Skip
    } else if spells(&word, "true") {
        TokenKind::BoolLit(true)
    } else if spells(&word, "false") {
        TokenKind::BoolLit(false)
    } else {
        TokenKind::Identifier(word)
    }
}

/// A scan in progress: the characters, the index of the next one, and the
/// place in the text at which that one stands.
pub struct Tokenizer {
    pub input: Vec<char>,
    pub current_index: usize,
    pub position: Position,
}

impl Tokenizer {
    /// The places that the rest of the scan can reach fit the machine's
    /// integers, whatever the characters are: a line for each of them, and
    /// four columns for each. Four bytes hold a character, so a text that
    /// fits in memory leaves this room at its start.
    pub open spec fn has_room(&self) -> bool {
        &&& self.current_index <= self.input.len()
        &&& self.position.line + (self.input.len() - self.current_index) <= usize::MAX
        &&& self.position.offset + 4 * (self.input.len() - self.current_index) <= usize::MAX
    }

    /// A scan at the start of `string`.
    pub fn new(string: &str) -> (tokenizer: Tokenizer)
        ensures
            tokenizer.input@ == string@,
            tokenizer.current_index == 0,
            tokenizer.position@ == start_position(),
    {
        let mut input: Vec<char> = Vec::new();
        let chars = string.chars();
        for c in it: chars
            invariant
                input@ == it.seq().take(it.index()),
        {
            input.push(c);
        }
        Tokenizer { input, current_index: 0, position: Position { line: 1, offset: 1 } }
    }

    /// The character at the cursor, if the text has not ended.
    pub open spec fn ahead(&self) -> Option<char> {
        if self.current_index < self.input.len() {
            Some(self.input@[self.current_index as int])
        } else {
            None
        }
    }

    /// The next character, left where it is.
    fn peek(&self) -> (c: Option<char>)
        ensures
            c == self.ahead(),
    {
        if self.current_index < self.input.len() {
            Some(self.input[self.current_index])
        } else {
            None
        }
    }

    /// Reads the next character, if there is one, and moves past it.
    fn next(&mut self) -> (c: Option<char>)
        requires
            old(self).has_room(),
        ensures
            final(self).input == old(self).input,
            final(self).has_room(),
            c == old(self).ahead(),
            c is None ==> *final(self) == *old(self),
            c matches Some(read) ==> {
                &&& final(self).current_index == old(self).current_index + 1
                &&& final(self).position@ == step(old(self).position@, read)
            },
    {
        if self.current_index < self.input.len() {
            let c = self.input[self.current_index];
            self.current_index = self.current_index + 1;
            if c == '\n' {
                self.position.line = self.position.line + 1;
                self.position.offset = 1;
            } else if c == '\t' {
                self.position.offset = self.position.offset + 4;
            } else {
                self.position.offset = self.position.offset + 1;
            }
            Some(c)
        } else {
            None
        }
    }

    /// Reads the longest run of digits and gives the number it writes. A
    /// number too large for `usize` is an error, and the scan then stays
    /// where it was.
    fn lex_numeral(&mut self) -> (res: Result<usize, TokenizerError>)
        requires
            old(self).has_room(),
        ensures
            final(self).input == old(self).input,
            final(self).has_room(),
            ({
                let src = old(self).input@;
                let at = old(self).current_index as int;
                let end = run_end(src, at, CharClass::Digit);
                let value = digits_value(src.subrange(at, end));
                match res {
                    Ok(number) => {
                        &&& number == value
                        &&& final(self).current_index == end
                        &&& final(self).position@ == walk(old(self).position@, src, at, end)
                    },
                    Err(e) => {
                        &&& e@ == TokenizerErrorView::IntegerOverflow
                        &&& value > usize::MAX
                        &&& *final(self) == *old(self)
                    },
                }
            }),
    {
        let start: usize = self.current_index;
        let start_position = self.position;
        let ghost src = self.input@;
        let ghost end = run_end(src, start as int, CharClass::Digit);
        let mut number: usize = 0;
        proof {
            lemma_run_end(src, start as int, CharClass::Digit);
            assert(src.subrange(start as int, start as int) =~= Seq::<char>::empty());
        }
        loop
            invariant
                self.input@ == src,
                self.input == old(self).input,
                self.has_room(),
                old(self).has_room(),
                start == old(self).current_index,
                start_position == old(self).position,
                start <= self.current_index <= end <= src.len(),
                end == run_end(src, start as int, CharClass::Digit),
                end == run_end(src, self.current_index as int, CharClass::Digit),
                number == digits_value(src.subrange(start as int, self.current_index as int)),
                self.position@ == walk(
                    start_position@,
                    src,
                    start as int,
                    self.current_index as int,
                ),
            ensures
                self.current_index == end,
            decreases src.len() - self.current_index,
        {
            let c = match self.peek() {
                Some(c) => c,
                None => {
                    break ;
                },
            };
            if !(c >= '0' && c <= '9') {
                break ;
            }
            let digit: usize = (c as u32 - '0' as u32) as usize;
            let ghost i = self.current_index as int;
            proof {
                let longer = src.subrange(start as int, i + 1);
                assert(longer.drop_last() =~= src.subrange(start as int, i));
                assert(longer.last() == c);
                assert(digits_value(longer) == 10 * number + digit);
                lemma_run_end(src, i + 1, CharClass::Digit);
                assert(src.subrange(start as int, end).take(i + 1 - start) =~= longer);
                lemma_digits_value_grows(src.subrange(start as int, end), i + 1 - start);
            }
            let tenfold = match number.checked_mul(10) {
                Some(tenfold) => tenfold,
                None => {
                    self.current_index = start;
                    self.position = start_position;
                    return Err(TokenizerError::IntegerOverflow);
                },
            };
            number = match tenfold.checked_add(digit) {
                Some(sum) => sum,
                None => {
                    self.current_index = start;
                    self.position = start_position;
                    return Err(TokenizerError::IntegerOverflow);
                },
            };
            self.next();
        }
        Ok(number)
    }

    /// Reads the longest run of lower-case letters.
    fn lex_alpha(&mut self) -> (res: Result<String, TokenizerError>)
        requires
            old(self).has_room(),
        ensures
            final(self).input == old(self).input,
            final(self).has_room(),
            ({
                let src = old(self).input@;
                let at = old(self).current_index as int;
                let end = run_end(src, at, CharClass::Lower);
                &&& res matches Ok(word)
                &&& word@ == src.subrange(at, end)
                &&& final(self).current_index == end
                &&& final(self).position@ == walk(old(self).position@, src, at, end)
            }),
    {
        let start: usize = self.current_index;
        let ghost start_position = self.position;
        let ghost src = self.input@;
        let ghost end = run_end(src, start as int, CharClass::Lower);
        let mut word = String::new();
        proof {
            lemma_run_end(src, start as int, CharClass::Lower);
            assert(src.subrange(start as int, start as int) =~= Seq::<char>::empty());
        }
        loop
            invariant
                self.input@ == src,
                self.input == old(self).input,
                self.has_room(),
                start == old(self).current_index,
                start_position == old(self).position,
                start <= self.current_index <= end <= src.len(),
                end == run_end(src, start as int, CharClass::Lower),
                end == run_end(src, self.current_index as int, CharClass::Lower),
                word@ == src.subrange(start as int, self.current_index as int),
                self.position@ == walk(
                    start_position@,
                    src,
                    start as int,
                    self.current_index as int,
                ),
            ensures
                self.current_index == end,
            decreases src.len() - self.current_index,
        {
            let c = match self.peek() {
                Some(c) => c,
                None => {
                    break ;
                },
            };
            if !(c >= 'a' && c <= 'z') {
                break ;
            }
            let ghost i = self.current_index as int;
            proof {
                assert(src.subrange(start as int, i).push(c) =~= src.subrange(
                    start as int,
                    i + 1,
                ));
                lemma_run_end(src, i + 1, CharClass::Lower);
            }
            push_char(&mut word, c);
            self.next();
        }
        Ok(word)
    }

    /// Reads the longest run of blanks.
    fn lex_whitespace(&mut self) -> (kind: TokenKind)
        requires
            old(self).has_room(),
        ensures
            final(self).input == old(self).input,
            final(self).has_room(),
            kind@ == TokenKindView::Whitespace,
            ({
                let src = old(self).input@;
                let at = old(self).current_index as int;
                let end = run_end(src, at, CharClass::Blank);
                &&& final(self).current_index == end
                &&& final(self).position@ == walk(old(self).position@, src, at, end)
            }),
    {
        let ghost start = self.current_index as int;
        let ghost start_position = self.position;
        let ghost src = self.input@;
        let ghost end = run_end(src, start, CharClass::Blank);
        proof {
            lemma_run_end(src, start, CharClass::Blank);
        }
        loop
            invariant
                self.input@ == src,
                self.input == old(self).input,
                self.has_room(),
                start == old(self).current_index,
                start_position == old(self).position,
                start <= self.current_index <= end <= src.len(),
                end == run_end(src, start, CharClass::Blank),
                end == run_end(src, self.current_index as int, CharClass::Blank),
                self.position@ == walk(start_position@, src, start, self.current_index as int),
            ensures
                self.current_index == end,
            decreases src.len() - self.current_index,
        {
            let c = match self.peek() {
                Some(c) => c,
                None => {
                    break ;
                },
            };
            if !(c == ' ' || c == '\t' || c == '\n') {
                break ;
            }
            proof {
                lemma_run_end(src, self.current_index as int + 1, CharClass::Blank);
            }
            self.next();
        }
        TokenKind::Whitespace
    }

    /// Reads one operator or punctuation mark. On an error the scan stays
    /// where it was.
    fn lex_meta(&mut self) -> (res: Result<TokenKind, TokenizerError>)
        requires
            old(self).has_room(),
            old(self).current_index < old(self).input.len(),
        ensures
            final(self).input == old(self).input,
            final(self).has_room(),
            ({
                let src = old(self).input@;
                let at = old(self).current_index as int;
                let meta = meta_at(src, at);
                match res {
                    Ok(kind) => {
                        &&& meta.kind == Ok::<TokenKindView, TokenizerErrorView>(kind@)
                        &&& final(self).current_index == meta.end
                        &&& final(self).position@ == walk(old(self).position@, src, at, meta.end)
                    },
                    Err(e) => {
                        &&& meta.kind == Err::<TokenKindView, TokenizerErrorView>(e@)
                        &&& *final(self) == *old(self)
                    },
                }
            }),
    {
        let start: usize = self.current_index;
        let start_position = self.position;
        let ghost src = self.input@;
        let c = self.input[start];
        proof {
            assert(walk(start_position@, src, start as int, start as int) == start_position@);
            assert(walk(start_position@, src, start as int, start as int + 1) == step(
                start_position@,
                c,
            ));
        }
        if c == ':' || c == '<' {
            if start + 1 >= self.input.len() {
                return Err(TokenizerError::UnexpectedEOF);
            }
            let d = self.input[start + 1];
            if d == '=' {
                proof {
                    assert(walk(start_position@, src, start as int, start as int + 2) == step(
                        step(start_position@, c),
                        d,
                    ));
                }
                self.next();
                self.next();
                return Ok(
                    if c == ':' {
                        TokenKind::Assign
                    } else {
                        TokenKind::LEq
                    },
                );
            }
            let mut text = String::new();
            push_char(&mut text, c);
            push_char(&mut text, d);
            assert(text@ =~= seq![c, d]);
            return Err(TokenizerError::UnexpectedMeta(text));
        }
        let kind = if c == '+' {
            TokenKind::Plus
        } else if c == '-' {
            TokenKind::Minus
        } else if c == '*' {
            TokenKind::Times
        } else if c == '/' {
            TokenKind::Division
        } else if c == '(' {
            TokenKind::LParen
        } else if c == ')' {
            TokenKind::RParen
        } else if c == '=' {
            TokenKind::Equals
        } else if c == ';' {
            TokenKind::Semicolon
        } else if c == '!' {
            TokenKind::Not
        } else {
            let mut text = String::new();
            push_char(&mut text, c);
            assert(text@ =~= seq![c]);
            return Err(TokenizerError::UnexpectedMeta(text));
        };
        self.next();
        Ok(kind)
    }

    /// Scans the rest of the text. Gives its tokens, or the first error, in
    /// which case the scan rests before the lexeme that gave it.
    pub fn run(&mut self) -> (res: Result<Vec<Token>, TokenizerError>)
        requires
            old(self).has_room(),
        ensures
            final(self).input == old(self).input,
            ({
                let whole = scan(
                    old(self).input@,
                    old(self).current_index as int,
                    old(self).position@,
                );
                &&& final(self).current_index == whole.cursor
                &&& final(self).position@ == whole.position
                &&& match res {
                    Ok(tokens) => whole.result == Ok::<Seq<TokenView>, TokenizerErrorView>(
                        tokens_view(tokens@),
                    ),
                    Err(e) => whole.result == Err::<Seq<TokenView>, TokenizerErrorView>(e@),
                }
            }),
    {
        let mut res: Vec<Token> = Vec::new();
        let ghost src = self.input@;
        let ghost whole = scan(src, self.current_index as int, self.position@);
        proof {
            let rest = scan(src, self.current_index as int, self.position@);
            assert(tokens_view(res@) =~= Seq::<TokenView>::empty());
            match rest.result {
                Ok(tokens) => {
                    assert(Seq::<TokenView>::empty() + tokens =~= tokens);
                },
                Err(_) => {},
            }
        }
        loop
            invariant
                self.input@ == src,
                self.input == old(self).input,
                self.has_room(),
                whole == scan(
                    old(self).input@,
                    old(self).current_index as int,
                    old(self).position@,
                ),
                whole == prepend(
                    tokens_view(res@),
                    scan(src, self.current_index as int, self.position@),
                ),
            decreases src.len() - self.current_index,
        {
            let ghost at = self.current_index as int;
            let ghost pos = self.position@;
            let ghost before = tokens_view(res@);
            let c = match self.peek() {
                Some(c) => c,
                None => {
                    proof {
                        assert(before + Seq::<TokenView>::empty() =~= before);
                    }
                    return Ok(res);
                },
            };
            proof {
                lemma_lexeme_advances(src, at);
            }
            let kind = if c >= '0' && c <= '9' {
                match self.lex_numeral() {
                    Ok(number) => TokenKind::IntLit(number),
                    Err(e) => {
                        return Err(e);
                    },
                }
            } else if c >= 'a' && c <= 'z' {
                match self.lex_alpha() {
                    Ok(word) => word_token(word),
                    Err(e) => {
                        return Err(e);
                    },
                }
            } else if c == ' ' || c == '\t' || c == '\n' {
                self.lex_whitespace()
            } else {
                match self.lex_meta() {
                    Ok(kind) => kind,
                    Err(e) => {
                        return Err(e);
                    },
                }
            };
            assert(lexeme_at(src, at).kind == Ok::<TokenKindView, TokenizerErrorView>(kind@));
            assert(self.current_index == lexeme_at(src, at).end);
            assert(self.position@ == walk(pos, src, at, lexeme_at(src, at).end));
            match kind {
                TokenKind::Whitespace => {},
                kind => {
                    let token = Token { kind, position: self.position };
                    proof {
                        lemma_prepend_push(
                            before,
                            token@,
                            scan(src, self.current_index as int, self.position@),
                        );
                        assert(tokens_view(res@.push(token)) =~= before.push(token@));
                    }
                    res.push(token);
                },
            }
        }
    }
}

} // verus!
