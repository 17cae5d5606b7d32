use expr_interp::ast::{ASTNode, EvalError};
use expr_interp::parser::{ParseError, Parser};
use expr_interp::token::{parse_decimal, token_from_lexeme, tokenize, tokens_from_lexemes, LexError, Token};
use expr_interp::{interpret, InterpretError};

fn parse_str(s: &str) -> Result<ASTNode, ParseError> {
    let tokens = tokenize(s).expect("lexing failed");
    Parser::new(tokens).parse()
}

fn eval_str(s: &str) -> Result<i64, InterpretError> {
    interpret(s)
}

fn num(v: i64) -> Box<ASTNode> {
    Box::new(ASTNode::Number(v))
}

fn bin(left: Box<ASTNode>, op: Token, right: Box<ASTNode>) -> Box<ASTNode> {
    Box::new(ASTNode::BinOp { left, op, right })
}

#[test]
fn precedence_multiplication_before_addition() {
    assert_eq!(eval_str("2 + 3 * 4"), Ok(14));
    let ast = parse_str("2 + 3 * 4").unwrap();
    assert_eq!(ast, *bin(num(2), Token::Plus, bin(num(3), Token::Multiply, num(4))));
}

#[test]
fn subtraction_is_left_associative() {
    assert_eq!(eval_str("10 - 4 - 3"), Ok(3));
    let ast = parse_str("10 - 4 - 3").unwrap();
    assert_eq!(ast, *bin(bin(num(10), Token::Minus, num(4)), Token::Minus, num(3)));
}

#[test]
fn division_is_left_associative() {
    assert_eq!(eval_str("100 / 10 / 5"), Ok(2));
}

#[test]
fn parentheses_override_precedence() {
    assert_eq!(eval_str("(2 + 3) * 4"), Ok(20));
}

#[test]
fn unary_operators_chain() {
    assert_eq!(eval_str("--5"), Ok(5));
    assert_eq!(eval_str("-5 + 3"), Ok(-2));
    assert_eq!(eval_str("+-+7"), Ok(-7));
    let ast = parse_str("--5").unwrap();
    let inner = ASTNode::UnaryOp { op: Token::Minus, node: num(5) };
    assert_eq!(ast, ASTNode::UnaryOp { op: Token::Minus, node: Box::new(inner) });
}

#[test]
fn division_truncates_toward_zero() {
    assert_eq!(eval_str("7 / 2"), Ok(3));
    assert_eq!(eval_str("7 / -2"), Ok(-3));
    assert_eq!(eval_str("-7 / 2"), Ok(-3));
    assert_eq!(eval_str("-7 / -2"), Ok(3));
}

#[test]
fn division_by_zero_is_reported() {
    assert_eq!(eval_str("1 / 0"), Err(InterpretError::Eval(EvalError::DivisionByZero)));
    let ast = parse_str("1 / (3 - 3)").unwrap();
    assert_eq!(ast.evaluate(), Err(EvalError::DivisionByZero));
}

#[test]
fn unmatched_parenthesis() {
    assert_eq!(parse_str("(3 + 4"), Err(ParseError::UnmatchedParenthesis));
    assert_eq!(parse_str("(3 + 4 5"), Err(ParseError::UnmatchedParenthesis));
}

#[test]
fn end_of_input_where_operand_expected() {
    assert_eq!(parse_str("3 + "), Err(ParseError::UnexpectedEndOfInput));
    assert_eq!(parse_str(""), Err(ParseError::UnexpectedEndOfInput));
    assert_eq!(parse_str("-"), Err(ParseError::UnexpectedEndOfInput));
}

#[test]
fn unexpected_tokens() {
    assert_eq!(parse_str("* 3"), Err(ParseError::UnexpectedToken(Token::Multiply)));
    assert_eq!(parse_str("3 + )"), Err(ParseError::UnexpectedToken(Token::RParen)));
    assert_eq!(parse_str("3 )"), Err(ParseError::UnexpectedToken(Token::RParen)));
    assert_eq!(parse_str("3 4"), Err(ParseError::UnexpectedToken(Token::Number(4))));
}

#[test]
fn literal_example_tokens_tree_and_value() {
    let tokens = tokenize("3 + 5 * (10 - 4)").unwrap();
    assert_eq!(
        tokens,
        vec![
            Token::Number(3),
            Token::Plus,
            Token::Number(5),
            Token::Multiply,
            Token::LParen,
            Token::Number(10),
            Token::Minus,
            Token::Number(4),
            Token::RParen,
        ]
    );
    let ast = Parser::new(tokens).parse().unwrap();
    let expected = bin(num(3), Token::Plus, bin(num(5), Token::Multiply, bin(num(10), Token::Minus, num(4))));
    assert_eq!(ast, *expected);
    assert_eq!(ast.evaluate(), Ok(33));
}

#[test]
fn reprinted_tree_parses_to_same_tree_and_value() {
    for text in ["3 + 5 * (10 - 4)", "10 - 4 - 3", "-(2 + 3) * --4", "7 / -2 + +1"] {
        let ast = parse_str(text).unwrap();
        let printed = ast.to_tokens();
        let again = Parser::new(printed).parse().unwrap();
        assert_eq!(again, ast);
        assert_eq!(again.evaluate(), ast.evaluate());
    }
}

#[test]
fn printed_tokens_are_fully_parenthesized() {
    let ast = parse_str("1 - 2 * 3").unwrap();
    assert_eq!(
        ast.to_tokens(),
        vec![
            Token::LParen,
            Token::Number(1),
            Token::Minus,
            Token::LParen,
            Token::Number(2),
            Token::Multiply,
            Token::Number(3),
            Token::RParen,
            Token::RParen,
        ]
    );
}

#[test]
fn whitespace_and_other_characters_are_skipped() {
    assert_eq!(tokenize(" 1\t+\n2 ").unwrap(), vec![Token::Number(1), Token::Plus, Token::Number(2)]);
    assert_eq!(eval_str("2 + a 3"), Ok(5));
    assert_eq!(tokenize("").unwrap(), vec![]);
}

#[test]
fn digits_run_together_into_one_number() {
    assert_eq!(tokenize("12(34").unwrap(), vec![Token::Number(12), Token::LParen, Token::Number(34)]);
}

#[test]
fn number_too_large_is_invalid() {
    assert_eq!(tokenize("9223372036854775807").unwrap(), vec![Token::Number(i64::MAX)]);
    assert_eq!(tokenize("9223372036854775808"), Err(LexError::InvalidNumber));
    assert_eq!(eval_str("1 + 99999999999999999999"), Err(InterpretError::Lex(LexError::InvalidNumber)));
}

#[test]
fn non_ascii_digits_are_invalid_numbers() {
    assert_eq!(tokenize("\u{0663}"), Err(LexError::InvalidNumber));
}

#[test]
fn overflow_is_reported() {
    assert_eq!(eval_str("9223372036854775807 + 1"), Err(InterpretError::Eval(EvalError::Overflow)));
    assert_eq!(eval_str("-9223372036854775807 - 2"), Err(InterpretError::Eval(EvalError::Overflow)));
    assert_eq!(eval_str("4294967296 * 4294967296"), Err(InterpretError::Eval(EvalError::Overflow)));
    assert_eq!(eval_str("-9223372036854775807 - 1"), Ok(i64::MIN));
    assert_eq!(eval_str("(-9223372036854775807 - 1) / -1"), Err(InterpretError::Eval(EvalError::Overflow)));
    assert_eq!(eval_str("-(-9223372036854775807 - 1)"), Err(InterpretError::Eval(EvalError::Overflow)));
}

#[test]
fn invalid_operators_are_reported() {
    let unary = ASTNode::UnaryOp { op: Token::Multiply, node: num(1) };
    assert_eq!(unary.evaluate(), Err(EvalError::InvalidOperator));
    let binary = ASTNode::BinOp { left: num(1), op: Token::LParen, right: num(2) };
    assert_eq!(binary.evaluate(), Err(EvalError::InvalidOperator));
    let left_error_first = ASTNode::BinOp {
        left: bin(num(1), Token::Divide, num(0)),
        op: Token::RParen,
        right: num(2),
    };
    assert_eq!(left_error_first.evaluate(), Err(EvalError::DivisionByZero));
}

#[test]
fn parse_errors_surface_through_interpret() {
    assert_eq!(eval_str("(1"), Err(InterpretError::Parse(ParseError::UnmatchedParenthesis)));
}

#[test]
fn lexeme_conversion() {
    assert_eq!(token_from_lexeme(&vec!['/']), Ok(Token::Divide));
    assert_eq!(token_from_lexeme(&vec!['0', '4', '2']), Ok(Token::Number(42)));
    assert_eq!(token_from_lexeme(&vec!['+', '+']), Err(LexError::InvalidNumber));
    assert_eq!(token_from_lexeme(&vec![]), Err(LexError::InvalidNumber));
    assert_eq!(
        tokens_from_lexemes(&vec![vec!['(', ], vec!['7'], vec![')']]),
        Ok(vec![Token::LParen, Token::Number(7), Token::RParen])
    );
    assert_eq!(tokens_from_lexemes(&vec![vec!['7'], vec!['x']]), Err(LexError::InvalidNumber));
    assert_eq!(parse_decimal(&vec!['1', '2', '3']), Some(123));
    assert_eq!(parse_decimal(&vec!['1', 'a']), None);
}

#[test]
fn parser_methods_move_the_cursor() {
    let mut p = Parser::new(tokenize("2 * 3 + 4").unwrap());
    let term = p.parse_term().unwrap();
    assert_eq!(term, *bin(num(2), Token::Multiply, num(3)));
    assert_eq!(p.pos, 3);
    let mut q = Parser::new(tokenize("-(1)").unwrap());
    let factor = q.parse_factor().unwrap();
    assert_eq!(factor, ASTNode::UnaryOp { op: Token::Minus, node: num(1) });
    assert_eq!(q.pos, 4);
    let mut e = Parser::new(tokenize("1 + 2 )").unwrap());
    assert_eq!(e.parse_expression().unwrap(), *bin(num(1), Token::Plus, num(2)));
    assert_eq!(e.pos, 3);
}
