use calculator::Calculator;
use calculator::Error;
use calculator::Operator;
use calculator::Token;

#[test]
fn mixed_precedence_with_brackets() {
    assert_eq!(Calculator::calculate("3 + 5 * (10 - 4) / 2"), Ok(18));
}

#[test]
fn simple_addition() {
    assert_eq!(Calculator::calculate("2 + 2"), Ok(4));
}

#[test]
fn division_by_zero() {
    assert_eq!(Calculator::calculate("10 / 0"), Err(Error::DivisionByZero));
}

#[test]
fn unclosed_open_bracket() {
    assert_eq!(Calculator::calculate("(1 + 2"), Err(Error::MismatchedParens));
}

#[test]
fn stray_close_bracket() {
    assert_eq!(Calculator::calculate("1 + 2)"), Err(Error::MismatchedParens));
}

#[test]
fn unrecognized_character() {
    assert_eq!(Calculator::calculate("3 & 4"), Err(Error::BadToken('&')));
}

#[test]
fn parse_then_convert_yields_postfix() {
    let tokens = Calculator::parse("12+3").unwrap();
    let rpn = Calculator::to_rpn(tokens);
    assert_eq!(
        rpn,
        vec![
            Token::Number(12),
            Token::Number(3),
            Token::Op(Operator::Add)
        ]
    );
    assert_eq!(Calculator::evaluate_rpn(rpn), Ok(15));
}

#[test]
fn multi_digit_number_accumulates() {
    let tokens = Calculator::parse("123").unwrap();
    assert_eq!(tokens, vec![Token::Number(123)]);
}

#[test]
fn single_number_is_a_conversion_fixed_point() {
    let tokens = vec![Token::Number(7)];
    assert_eq!(Calculator::to_rpn(tokens), vec![Token::Number(7)]);
}

#[test]
fn postfix_input_without_reordering_is_unchanged() {
    let tokens = vec![
        Token::Number(12),
        Token::Number(3),
        Token::Op(Operator::Add),
    ];
    assert_eq!(Calculator::to_rpn(tokens.clone()), tokens);
}

#[test]
fn whitespace_is_insensitive() {
    let tight = Calculator::calculate("1+1");
    let spaced = Calculator::calculate(" 1 + 1 ");
    assert_eq!(tight, Ok(2));
    assert_eq!(tight, spaced);
}

#[test]
fn newlines_are_skipped() {
    assert_eq!(Calculator::calculate("1+\n1"), Ok(2));
}

#[test]
fn left_associativity() {
    assert_eq!(Calculator::calculate("8 - 2 - 2"), Ok(4));
    assert_eq!(Calculator::calculate("8 / 2 / 2"), Ok(2));
}

#[test]
fn precedence_without_brackets() {
    assert_eq!(Calculator::calculate("2 + 3 * 4"), Ok(14));
    assert_eq!(Calculator::calculate("2 * 3 + 4"), Ok(10));
}

#[test]
fn division_truncates() {
    assert_eq!(Calculator::calculate("7 / 2"), Ok(3));
}

#[test]
fn trailing_operator_is_invalid() {
    assert_eq!(Calculator::calculate("1 +"), Err(Error::InvalidExpression));
}

#[test]
fn empty_input_is_invalid() {
    assert_eq!(Calculator::calculate(""), Err(Error::InvalidExpression));
}

#[test]
fn empty_brackets_are_invalid() {
    assert_eq!(Calculator::calculate("()"), Err(Error::InvalidExpression));
}

#[test]
fn close_before_open_is_mismatched() {
    assert_eq!(Calculator::calculate(")("), Err(Error::MismatchedParens));
}

#[test]
fn subtraction_wraps_below_zero() {
    assert_eq!(Calculator::calculate("0 - 1"), Ok(u32::MAX));
}

#[test]
fn multiplication_wraps_at_32_bits() {
    assert_eq!(Calculator::calculate("4294967295 * 2"), Ok(4294967294));
}

#[test]
fn digit_accumulation_wraps_at_32_bits() {
    // 4294967296 == 2^32 wraps to 0 while the digits accumulate.
    assert_eq!(Calculator::calculate("4294967296 + 5"), Ok(5));
}

#[test]
fn whitespace_inside_a_digit_run_joins_it() {
    // The tokenizer emits no token for a space, so the digit after one
    // still extends the pending number.
    assert_eq!(Calculator::parse("1 2").unwrap(), vec![Token::Number(12)]);
}

#[test]
fn stray_bracket_reaching_the_evaluator_is_invalid() {
    let rpn = vec![Token::Number(1), Token::Bracket('(')];
    assert_eq!(Calculator::evaluate_rpn(rpn), Err(Error::InvalidExpression));
}

#[test]
fn evaluator_rejects_leftover_operands() {
    let rpn = vec![Token::Number(1), Token::Number(2)];
    assert_eq!(Calculator::evaluate_rpn(rpn), Err(Error::InvalidExpression));
}

#[test]
fn nested_brackets() {
    assert_eq!(Calculator::calculate("((2 + 3) * (4 - 1))"), Ok(15));
}
