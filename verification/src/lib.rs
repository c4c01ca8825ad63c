pub mod ast;
pub mod lexer;
pub mod parser;

use vstd::prelude::*;

use crate::ast::EvalError;
use crate::lexer::LexError;
use crate::parser::ParseError;
use crate::parser::Parser;

verus! {

/// Any way the pipeline can fail: in the lexer, in the parser, on tokens the
/// grammar left unconsumed, or in the evaluator.
#[derive(Debug, Clone, Copy, PartialEq, Eq, Structural)]
pub enum CalcError {
    Lex(LexError),
    Parse(ParseError),
    TrailingInput,
    Eval(EvalError),
}

/// The outcome of the whole pipeline on an input text: tokenize, parse one
/// expression that must cover every token, then evaluate.
pub open spec fn spec_evaluate(s: Seq<char>) -> Result<i64, CalcError> {
    match crate::lexer::spec_tokenize(s) {
        Err(e) => Err(CalcError::Lex(e)),
        Ok(toks) => match crate::parser::spec_parse_add(toks, 0) {
            Err(e) => Err(CalcError::Parse(e)),
            Ok((node, pos)) => if pos < toks.len() {
                Err(CalcError::TrailingInput)
            } else {
                match crate::ast::spec_eval(node) {
                    Err(e) => Err(CalcError::Eval(e)),
                    Ok(v) => Ok(v),
                }
            },
        },
    }
}

/// Run the full pipeline on one input text: string to tokens to tree to one
/// `i64`, or the first error on the way. Tokens the expression grammar does
/// not consume are an error rather than silently dropped.
pub fn evaluate(input: String) -> (r: Result<i64, CalcError>)
    ensures
        r == spec_evaluate(input@),
{
    let tokens = match crate::lexer::tokeniser(input) {
        Ok(ts) => ts,
        Err(e) => {
            return Err(CalcError::Lex(e));
        },
    };
    let ghost toks = tokens@;
    let n = tokens.len();
    let mut parser = Parser::new(tokens);
    let node = match parser.parse_add() {
        Ok(node) => node,
        Err(e) => {
            return Err(CalcError::Parse(e));
        },
    };
    proof {
        crate::parser::lemma_parse_add_advances(toks, 0);
    }
    let consumed = parser.consumed();
    if consumed < n {
        return Err(CalcError::TrailingInput);
    }
    match node.eval() {
        Ok(v) => Ok(v),
        Err(e) => Err(CalcError::Eval(e)),
    }
}

/// The pipeline is a pure function of the input text: running it again on
/// the same characters gives the same value or the same error.
pub proof fn lemma_evaluate_deterministic(s1: Seq<char>, s2: Seq<char>)
    requires
        s1 == s2,
    ensures
        spec_evaluate(s1) == spec_evaluate(s2),
{
}

} // verus!
