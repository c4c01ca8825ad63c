use vstd::prelude::*;

use crate::ast::AstNode;
use crate::ast::Operator;
use crate::lexer::Token;

verus! {

/// A parse failure: a number was syntactically required but the cursor found
/// the carried token instead, or `None` for end of input.
#[derive(Debug, Clone, Copy, PartialEq, Eq, Structural)]
pub enum ParseError {
    ExpectedNumber(Option<Token>),
}

/// What consuming one `factor` (a single number token) at `pos` yields: the
/// leaf node and the new cursor, or the error the grammar demands.
pub open spec fn spec_parse_num(toks: Seq<Token>, pos: int) -> Result<(AstNode, int), ParseError> {
    if 0 <= pos < toks.len() {
        match toks[pos] {
            Token::Number(n) => Ok((AstNode::Number(n), pos + 1)),
            t => Err(ParseError::ExpectedNumber(Some(t))),
        }
    } else {
        Err(ParseError::ExpectedNumber(None))
    }
}

/// The fold that keeps consuming `* factor` or `/ factor` after an already
/// parsed left operand, building a left-leaning tree.
pub open spec fn spec_parse_mult_loop(toks: Seq<Token>, acc: AstNode, pos: int) -> Result<
    (AstNode, int),
    ParseError,
>
    decreases toks.len() - pos,
{
    if 0 <= pos < toks.len() && (toks[pos] is Star || toks[pos] is Slash) {
        let op = if toks[pos] is Star {
            Operator::Multiply
        } else {
            Operator::Divide
        };
        match spec_parse_num(toks, pos + 1) {
            Err(e) => Err(e),
            Ok((right, pos2)) => spec_parse_mult_loop(
                toks,
                AstNode::BinaryOp { op, left: Box::new(acc), right: Box::new(right) },
                pos2,
            ),
        }
    } else {
        Ok((acc, pos))
    }
}

/// What parsing one `term` (a `*`/`/` chain of numbers) at `pos` yields.
pub open spec fn spec_parse_mult(toks: Seq<Token>, pos: int) -> Result<
    (AstNode, int),
    ParseError,
> {
    match spec_parse_num(toks, pos) {
        Err(e) => Err(e),
        Ok((node, pos2)) => spec_parse_mult_loop(toks, node, pos2),
    }
}

/// The fold that keeps consuming `+ term` or `- term` after an already parsed
/// left operand, building a left-leaning tree.
pub open spec fn spec_parse_add_loop(toks: Seq<Token>, acc: AstNode, pos: int) -> Result<
    (AstNode, int),
    ParseError,
>
    decreases toks.len() - pos,
    via spec_parse_add_loop_decreases
{
    if 0 <= pos < toks.len() && (toks[pos] is Plus || toks[pos] is Dash) {
        let op = if toks[pos] is Plus {
            Operator::Add
        } else {
            Operator::Subtract
        };
        match spec_parse_mult(toks, pos + 1) {
            Err(e) => Err(e),
            Ok((right, pos2)) => spec_parse_add_loop(
                toks,
                AstNode::BinaryOp { op, left: Box::new(acc), right: Box::new(right) },
                pos2,
            ),
        }
    } else {
        Ok((acc, pos))
    }
}

#[via_fn]
proof fn spec_parse_add_loop_decreases(toks: Seq<Token>, acc: AstNode, pos: int) {
    if 0 <= pos < toks.len() && (toks[pos] is Plus || toks[pos] is Dash) {
        lemma_parse_mult_advances(toks, pos + 1);
    }
}

/// What parsing one whole `expr` (a `+`/`-` chain of terms) at `pos` yields.
/// This is the top rule of the grammar; precedence comes from the nesting
/// `expr -> term -> factor`, left-associativity from the accumulating folds.
pub open spec fn spec_parse_add(toks: Seq<Token>, pos: int) -> Result<(AstNode, int), ParseError> {
    match spec_parse_mult(toks, pos) {
        Err(e) => Err(e),
        Ok((node, pos2)) => spec_parse_add_loop(toks, node, pos2),
    }
}

/// On success the cursor has moved strictly forward and is still within the
/// token sequence.
pub proof fn lemma_parse_mult_advances(toks: Seq<Token>, pos: int)
    ensures
        spec_parse_mult(toks, pos) matches Ok((node, pos2)) ==> pos < pos2 <= toks.len(),
{
    if spec_parse_num(toks, pos) is Ok {
        lemma_parse_mult_loop_advances(toks, spec_parse_num(toks, pos)->Ok_0.0, pos + 1);
    }
}

proof fn lemma_parse_mult_loop_advances(toks: Seq<Token>, acc: AstNode, pos: int)
    requires
        0 <= pos <= toks.len(),
    ensures
        spec_parse_mult_loop(toks, acc, pos) matches Ok((node, pos2)) ==> pos <= pos2
            <= toks.len(),
    decreases toks.len() - pos,
{
    if 0 <= pos < toks.len() && (toks[pos] is Star || toks[pos] is Slash) {
        let op = if toks[pos] is Star {
            Operator::Multiply
        } else {
            Operator::Divide
        };
        if spec_parse_num(toks, pos + 1) is Ok {
            let (right, pos2) = spec_parse_num(toks, pos + 1)->Ok_0;
            lemma_parse_mult_loop_advances(
                toks,
                AstNode::BinaryOp { op, left: Box::new(acc), right: Box::new(right) },
                pos2,
            );
        }
    }
}

/// On success the whole-expression parse leaves the cursor strictly past its
/// start and within the token sequence.
pub proof fn lemma_parse_add_advances(toks: Seq<Token>, pos: int)
    ensures
        spec_parse_add(toks, pos) matches Ok((node, pos2)) ==> pos < pos2 <= toks.len(),
{
    lemma_parse_mult_advances(toks, pos);
    if spec_parse_mult(toks, pos) is Ok {
        lemma_parse_add_loop_advances(toks, spec_parse_mult(toks, pos)->Ok_0.0, spec_parse_mult(
            toks,
            pos,
        )->Ok_0.1);
    }
}

proof fn lemma_parse_add_loop_advances(toks: Seq<Token>, acc: AstNode, pos: int)
    requires
        0 <= pos <= toks.len(),
    ensures
        spec_parse_add_loop(toks, acc, pos) matches Ok((node, pos2)) ==> pos <= pos2 <= toks.len(),
    decreases toks.len() - pos,
{
    if 0 <= pos < toks.len() && (toks[pos] is Plus || toks[pos] is Dash) {
        let op = if toks[pos] is Plus {
            Operator::Add
        } else {
            Operator::Subtract
        };
        lemma_parse_mult_advances(toks, pos + 1);
        if spec_parse_mult(toks, pos + 1) is Ok {
            let (right, pos2) = spec_parse_mult(toks, pos + 1)->Ok_0;
            lemma_parse_add_loop_advances(
                toks,
                AstNode::BinaryOp { op, left: Box::new(acc), right: Box::new(right) },
                pos2,
            );
        }
    }
}

/// A recursive-descent parser: one owned token sequence and a cursor that
/// only ever moves forward.
pub struct Parser {
    tokens: Vec<Token>,
    pos: usize,
}

impl Parser {
    /// The token sequence this parser walks.
    pub closed spec fn toks(&self) -> Seq<Token> {
        self.tokens@
    }

    /// The cursor: how many tokens have been consumed.
    pub closed spec fn at(&self) -> int {
        self.pos as int
    }

    /// A fresh parser positioned at the first token.
    pub fn new(tokens: Vec<Token>) -> (p: Parser)
        ensures
            p.toks() == tokens@,
            p.at() == 0,
    {
        Parser { tokens, pos: 0 }
    }

    /// How many tokens the cursor has moved past so far.
    pub fn consumed(&self) -> (r: usize)
        ensures
            r as int == self.at(),
    {
        self.pos
    }

    /// The next unconsumed token, if any, without moving the cursor.
    pub fn peek(&self) -> (r: Option<&Token>)
        ensures
            match r {
                Some(t) => 0 <= self.at() < self.toks().len() && *t == self.toks()[self.at()],
                None => self.at() >= self.toks().len(),
            },
    {
        self.tokens.get(self.pos)
    }

    /// The next unconsumed token, if any, moving the cursor past it.
    pub fn next(&mut self) -> (r: Option<Token>)
        ensures
            final(self).toks() == old(self).toks(),
            match r {
                Some(t) => {
                    &&& 0 <= old(self).at() < old(self).toks().len()
                    &&& t == old(self).toks()[old(self).at()]
                    &&& final(self).at() == old(self).at() + 1
                },
                None => {
                    &&& old(self).at() >= old(self).toks().len()
                    &&& final(self).at() == old(self).at()
                },
            },
    {
        if self.pos < self.tokens.len() {
            let t = self.tokens[self.pos];
            self.pos = self.pos + 1;
            Some(t)
        } else {
            None
        }
    }

    /// Consume exactly one token, which must be a number; anything else, or
    /// end of input, is the grammar's expected-number error.
    pub fn parse_num(&mut self) -> (r: Result<AstNode, ParseError>)
        ensures
            final(self).toks() == old(self).toks(),
            match (r, spec_parse_num(old(self).toks(), old(self).at())) {
                (Ok(node), Ok(sp)) => node == sp.0 && final(self).at() == sp.1,
                (Err(e), Err(se)) => e == se,
                _ => false,
            },
    {
        match self.next() {
            Some(Token::Number(n)) => Ok(AstNode::Number(n)),
            Some(unexpected) => Err(ParseError::ExpectedNumber(Some(unexpected))),
            None => Err(ParseError::ExpectedNumber(None)),
        }
    }

    /// Parse one `term`: a number followed by any run of `* number` or
    /// `/ number`, folded left-associatively.
    pub fn parse_mult(&mut self) -> (r: Result<AstNode, ParseError>)
        ensures
            final(self).toks() == old(self).toks(),
            match (r, spec_parse_mult(old(self).toks(), old(self).at())) {
                (Ok(node), Ok(sp)) => node == sp.0 && final(self).at() == sp.1,
                (Err(e), Err(se)) => e == se,
                _ => false,
            },
    {
        let ghost toks = self.tokens@;
        let ghost goal = spec_parse_mult(toks, self.pos as int);
        let mut node = match self.parse_num() {
            Ok(n) => n,
            Err(e) => {
                return Err(e);
            },
        };
        loop
            invariant
                self.toks() == toks,
                toks == old(self).toks(),
                goal == spec_parse_mult(toks, old(self).at()),
                0 <= self.at() <= toks.len(),
                spec_parse_mult_loop(toks, node, self.at()) == goal,
            decreases toks.len() - self.at(),
        {
            let step = match self.peek() {
                Some(Token::Star) => Some(Operator::Multiply),
                Some(Token::Slash) => Some(Operator::Divide),
                _ => None,
            };
            match step {
                Some(op) => {
                    let _ = self.next();
                    let right = match self.parse_num() {
                        Ok(n) => n,
                        Err(e) => {
                            return Err(e);
                        },
                    };
                    node = AstNode::BinaryOp { op, left: Box::new(node), right: Box::new(right) };
                },
                None => {
                    return Ok(node);
                },
            }
        }
    }

    /// Parse one whole `expr`: a term followed by any run of `+ term` or
    /// `- term`, folded left-associatively, so `a - b - c` groups as
    /// `(a - b) - c`.
    pub fn parse_add(&mut self) -> (r: Result<AstNode, ParseError>)
        ensures
            final(self).toks() == old(self).toks(),
            match (r, spec_parse_add(old(self).toks(), old(self).at())) {
                (Ok(node), Ok(sp)) => node == sp.0 && final(self).at() == sp.1,
                (Err(e), Err(se)) => e == se,
                _ => false,
            },
    {
        let ghost toks = self.tokens@;
        let ghost goal = spec_parse_add(toks, self.pos as int);
        let mut node = match self.parse_mult() {
            Ok(n) => n,
            Err(e) => {
                return Err(e);
            },
        };
        proof {
            lemma_parse_mult_advances(toks, old(self).at());
        }
        loop
            invariant
                self.toks() == toks,
                toks == old(self).toks(),
                goal == spec_parse_add(toks, old(self).at()),
                0 <= self.at() <= toks.len(),
                spec_parse_add_loop(toks, node, self.at()) == goal,
            decreases toks.len() - self.at(),
        {
            let step = match self.peek() {
                Some(Token::Plus) => Some(Operator::Add),
                Some(Token::Dash) => Some(Operator::Subtract),
                _ => None,
            };
            match step {
                Some(op) => {
                    let _ = self.next();
                    proof {
                        lemma_parse_mult_advances(toks, self.at());
                    }
                    let right = match self.parse_mult() {
                        Ok(n) => n,
                        Err(e) => {
                            return Err(e);
                        },
                    };
                    node = AstNode::BinaryOp { op, left: Box::new(node), right: Box::new(right) };
                },
                None => {
                    return Ok(node);
                },
            }
        }
    }
}

} // verus!
