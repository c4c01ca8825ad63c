use calc::ast::AstNode;
use calc::ast::EvalError;
use calc::ast::Operator;
use calc::evaluate;
use calc::lexer::tokeniser;
use calc::lexer::LexError;
use calc::lexer::Token;
use calc::parser::ParseError;
use calc::parser::Parser;
use calc::CalcError;

fn run(s: &str) -> Result<i64, CalcError> {
    evaluate(String::from(s))
}

#[test]
fn precedence_respected() {
    assert_eq!(run("2 + 3 * 4"), Ok(14));
}

#[test]
fn left_associative_subtraction() {
    assert_eq!(run("10 - 2 - 3"), Ok(5));
}

#[test]
fn truncating_division() {
    assert_eq!(run("7 / 2"), Ok(3));
}

#[test]
fn divide_by_zero_reported() {
    assert_eq!(run("5 / 0"), Err(CalcError::Eval(EvalError::DivideByZero)));
}

#[test]
fn trailing_operator_expects_number_at_end_of_input() {
    assert_eq!(
        run("3 + "),
        Err(CalcError::Parse(ParseError::ExpectedNumber(None)))
    );
}

#[test]
fn unrecognised_character_reported() {
    assert_eq!(
        run("3 @ 4"),
        Err(CalcError::Lex(LexError::UnrecognisedCharacter('@')))
    );
}

#[test]
fn pipeline_is_deterministic() {
    let first = run("2 + 3 * 4 - 5 / 2");
    let second = run("2 + 3 * 4 - 5 / 2");
    assert_eq!(first, second);
    let first_err = run("3 @ 4");
    let second_err = run("3 @ 4");
    assert_eq!(first_err, second_err);
}

#[test]
fn bare_number_is_a_leaf_and_its_own_value() {
    let tokens = tokeniser(String::from("42")).unwrap();
    let mut parser = Parser::new(tokens);
    let node = parser.parse_add().unwrap();
    assert!(matches!(node, AstNode::Number(42)));
    assert_eq!(node.eval(), Ok(42));
    assert_eq!(run("42"), Ok(42));
}

#[test]
fn token_texts_reconstruct_input_without_whitespace() {
    let tokens = tokeniser(String::from(" 12 +3 *  4 ")).unwrap();
    assert_eq!(
        tokens,
        vec![
            Token::Number(12),
            Token::Plus,
            Token::Number(3),
            Token::Star,
            Token::Number(4),
        ]
    );
    let mut rebuilt = String::new();
    for t in &tokens {
        match t {
            Token::Number(n) => rebuilt.push_str(&n.to_string()),
            Token::Plus => rebuilt.push('+'),
            Token::Dash => rebuilt.push('-'),
            Token::Star => rebuilt.push('*'),
            Token::Slash => rebuilt.push('/'),
        }
    }
    assert_eq!(rebuilt, "12+3*4");
}

#[test]
fn whitespace_variants_are_skipped() {
    assert_eq!(run("2\u{3000}+\u{a0}3"), Ok(5));
    assert_eq!(run("\t 2 \n+ 3 \r"), Ok(5));
}

#[test]
fn empty_input_expects_number() {
    assert_eq!(run(""), Err(CalcError::Parse(ParseError::ExpectedNumber(None))));
    assert_eq!(
        run("   "),
        Err(CalcError::Parse(ParseError::ExpectedNumber(None)))
    );
}

#[test]
fn unexpected_token_where_number_required() {
    assert_eq!(
        run("3 + * 4"),
        Err(CalcError::Parse(ParseError::ExpectedNumber(Some(Token::Star))))
    );
    assert_eq!(
        run("* 3"),
        Err(CalcError::Parse(ParseError::ExpectedNumber(Some(Token::Star))))
    );
}

#[test]
fn trailing_tokens_are_an_error() {
    assert_eq!(run("2 3"), Err(CalcError::TrailingInput));
    assert_eq!(run("2 + 3 4"), Err(CalcError::TrailingInput));
}

#[test]
fn number_overflow_in_lexer() {
    assert_eq!(
        run("99999999999999999999"),
        Err(CalcError::Lex(LexError::NumberOverflow))
    );
}

#[test]
fn largest_number_still_lexes() {
    assert_eq!(run("9223372036854775807"), Ok(9223372036854775807));
}

#[test]
fn leading_zeros_read_as_value() {
    assert_eq!(run("007"), Ok(7));
    assert_eq!(run("0"), Ok(0));
}

#[test]
fn addition_overflow_reported() {
    assert_eq!(
        run("9223372036854775807 + 1"),
        Err(CalcError::Eval(EvalError::Overflow))
    );
}

#[test]
fn multiplication_overflow_reported() {
    assert_eq!(
        run("9223372036854775807 * 2"),
        Err(CalcError::Eval(EvalError::Overflow))
    );
}

#[test]
fn subtraction_can_go_negative() {
    assert_eq!(run("2 - 5"), Ok(-3));
    assert_eq!(run("0 - 9223372036854775807 - 1"), Ok(-9223372036854775808));
}

#[test]
fn division_truncates_toward_zero() {
    let node = AstNode::BinaryOp {
        op: Operator::Divide,
        left: Box::new(AstNode::Number(-7)),
        right: Box::new(AstNode::Number(2)),
    };
    assert_eq!(node.eval(), Ok(-3));
}

#[test]
fn division_overflow_at_minimum() {
    let node = AstNode::BinaryOp {
        op: Operator::Divide,
        left: Box::new(AstNode::Number(i64::MIN)),
        right: Box::new(AstNode::Number(-1)),
    };
    assert_eq!(node.eval(), Err(EvalError::Overflow));
}

#[test]
fn division_by_zero_on_tree() {
    let node = AstNode::BinaryOp {
        op: Operator::Divide,
        left: Box::new(AstNode::Number(1)),
        right: Box::new(AstNode::Number(0)),
    };
    assert_eq!(node.eval(), Err(EvalError::DivideByZero));
}

#[test]
fn parser_cursor_moves_forward() {
    let tokens = tokeniser(String::from("1 + 2")).unwrap();
    let mut parser = Parser::new(tokens);
    assert_eq!(parser.consumed(), 0);
    assert!(matches!(parser.peek(), Some(Token::Number(1))));
    assert!(matches!(parser.next(), Some(Token::Number(1))));
    assert!(matches!(parser.next(), Some(Token::Plus)));
    assert!(matches!(parser.next(), Some(Token::Number(2))));
    assert_eq!(parser.consumed(), 3);
    assert!(parser.peek().is_none());
    assert!(parser.next().is_none());
    assert_eq!(parser.consumed(), 3);
}

#[test]
fn tokeniser_stops_at_first_bad_character() {
    assert_eq!(
        tokeniser(String::from("1 2 ? 3")),
        Err(LexError::UnrecognisedCharacter('?'))
    );
}

#[test]
fn mixed_precedence_chain() {
    assert_eq!(run("1 + 2 * 3 - 4 / 2"), Ok(5));
    assert_eq!(run("8 / 2 / 2"), Ok(2));
}
