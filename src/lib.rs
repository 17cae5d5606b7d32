//! A small interpreter for integer arithmetic written in infix notation:
//! text is split into tokens, tokens are parsed by recursive descent into a
//! syntax tree, and the tree is evaluated to an `i64`.
use vstd::prelude::*;

pub mod ast;
pub mod parser;
pub mod post;
pub mod token;

use crate::ast::{value_of, EvalError};
use crate::parser::{parse_tokens, ParseError, Parser};
use crate::token::{all_lexemes_valid, lexemes_of, tokenize, tokens_of_lexemes, LexError};

verus! {

/// The stage at which text failed to become a value.
#[derive(Debug, Clone, Copy, PartialEq, Eq, Structural)]
pub enum InterpretError {
    Lex(LexError),
    Parse(ParseError),
    Eval(EvalError),
}

/// What the whole pipeline gives for the text `s`.
pub open spec fn interpretation(s: Seq<char>) -> Result<i64, InterpretError> {
    let ls = lexemes_of(s);
    if !all_lexemes_valid(ls) {
        Err(InterpretError::Lex(LexError::InvalidNumber))
    } else {
        match parse_tokens(tokens_of_lexemes(ls)) {
            Err(e) => Err(InterpretError::Parse(e)),
            Ok(n) => match value_of(n) {
                Ok(v) => Ok(v),
                Err(e) => Err(InterpretError::Eval(e)),
            },
        }
    }
}

/// Tokenizes, parses and evaluates `input`.
pub fn interpret(input: &str) -> (r: Result<i64, InterpretError>)
    ensures
        r == interpretation(input@),
{
    let tokens = match tokenize(input) {
        Ok(t) => t,
        Err(e) => return Err(InterpretError::Lex(e)),
    };
    let mut parser = Parser::new(tokens);
    let ast = match parser.parse() {
        Ok(n) => n,
        Err(e) => return Err(InterpretError::Parse(e)),
    };
    match ast.evaluate() {
        Ok(v) => Ok(v),
        Err(e) => Err(InterpretError::Eval(e)),
    }
}

} // verus!
