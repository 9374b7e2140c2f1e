//! From source text to a statement tree.

pub mod parser;
pub mod render;
pub mod syntax;
pub mod tokenizer;

use crate::lexer::syntax::{tokens_view, Token, TokenView, TokenizerErrorView};
use crate::lexer::tokenizer::{tokenize, Tokenizer};
use vstd::prelude::*;

verus! {

/// The tokens of a text that is known to hold no lexical error.
///
/// `Tokenizer::run` is the scan that can fail and says how.
pub fn lex(input: &str) -> (tokens: Vec<Token>)
    requires
        4 * input@.len() + 1 <= usize::MAX,
        tokenize(input@) is Ok,
    ensures
        tokenize(input@) == Ok::<Seq<TokenView>, TokenizerErrorView>(tokens_view(tokens@)),
{
    let mut tokenizer = Tokenizer::new(input);
    match tokenizer.run() {
        Ok(tokens) => tokens,
        Err(_) => unreached(),
    }
}

} // verus!
