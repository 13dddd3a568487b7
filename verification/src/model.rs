//! The mathematical model of the three pipeline stages.
//!
//! Each stage of the executable pipeline — tokenization, infix-to-postfix
//! conversion, and postfix evaluation — is specified by a spec function
//! here that processes its input one element at a time, from the left.
//! The executable functions promise to return exactly what these model
//! functions say.
//!
//! Arithmetic policy: all operator applications and digit accumulation
//! act on 32-bit unsigned values and wrap modulo `2^32`; division
//! truncates and a zero divisor is reported as an error.

use vstd::prelude::*;

use crate::tokens::Error;
use crate::tokens::Operator;
use crate::tokens::Token;

verus! {

/// Binding strength of an operator: multiplication and division bind
/// tighter than addition and subtraction.
pub open spec fn spec_precedence(op: Operator) -> u8 {
    match op {
        Operator::Add | Operator::Sub => 1,
        Operator::Mul | Operator::Div => 2,
    }
}

/// The decimal digits `'0'` through `'9'`.
pub open spec fn is_digit(c: char) -> bool {
    48 <= c as u32 <= 57
}

/// The numeric value of a decimal digit character.
pub open spec fn digit_value(c: char) -> u32 {
    (c as u32 - 48) as u32
}

/// The characters the tokenizer skips: space and newline.
pub open spec fn is_whitespace(c: char) -> bool {
    c == ' ' || c == '\n'
}

/// The four operator symbols.
pub open spec fn is_operator_char(c: char) -> bool {
    c == '+' || c == '-' || c == '*' || c == '/'
}

/// The operator a symbol stands for.
pub open spec fn operator_of(c: char) -> Operator
    recommends
        is_operator_char(c),
{
    if c == '+' {
        Operator::Add
    } else if c == '-' {
        Operator::Sub
    } else if c == '*' {
        Operator::Mul
    } else {
        Operator::Div
    }
}

/// A further digit folded into an accumulated number: `n * 10 + d`,
/// wrapping modulo `2^32`.
pub open spec fn fold_digit(n: u32, d: u32) -> u32 {
    vstd::wrapping::u32_specs::wrapping_add(vstd::wrapping::u32_specs::wrapping_mul(n, 10), d)
}

/// One scanned digit appended to the token sequence: it extends the
/// number the scan is inside of, if the latest token is a number, and
/// starts a new number otherwise.
pub open spec fn push_digit(toks: Seq<Token>, c: char) -> Seq<Token>
    recommends
        is_digit(c),
{
    if toks.len() > 0 {
        match toks.last() {
            Token::Number(n) => toks.update(
                toks.len() - 1,
                Token::Number(fold_digit(n, digit_value(c))),
            ),
            _ => toks.push(Token::Number(digit_value(c))),
        }
    } else {
        toks.push(Token::Number(digit_value(c)))
    }
}

/// The tokenizer's scan, from the left: `toks` are the tokens produced so
/// far and `depth` counts the open brackets not yet closed.
pub open spec fn spec_parse_rec(s: Seq<char>, toks: Seq<Token>, depth: nat) -> Result<
    Seq<Token>,
    Error,
>
    decreases s.len(),
{
    if s.len() == 0 {
        if depth == 0 {
            Ok(toks)
        } else {
            Err(Error::MismatchedParens)
        }
    } else {
        let c = s[0];
        let rest = s.drop_first();
        if is_digit(c) {
            spec_parse_rec(rest, push_digit(toks, c), depth)
        } else if c == '(' {
            spec_parse_rec(rest, toks.push(Token::Bracket('(')), depth + 1)
        } else if c == ')' {
            if depth == 0 {
                Err(Error::MismatchedParens)
            } else {
                spec_parse_rec(rest, toks.push(Token::Bracket(')')), (depth - 1) as nat)
            }
        } else if is_operator_char(c) {
            spec_parse_rec(rest, toks.push(Token::Op(operator_of(c))), depth)
        } else if is_whitespace(c) {
            spec_parse_rec(rest, toks, depth)
        } else {
            Err(Error::BadToken(c))
        }
    }
}

/// What tokenizing a character sequence yields: the token sequence in
/// left-to-right order with digit runs collapsed, or the first error.
pub open spec fn spec_parse(s: Seq<char>) -> Result<Seq<Token>, Error> {
    spec_parse_rec(s, Seq::empty(), 0)
}

/// Operators popped from the stack into the output ahead of an incoming
/// operator of precedence `p`: every stacked operator of precedence at
/// least `p` leaves, until a bracket or the bottom is met.
pub open spec fn pop_ge(out: Seq<Token>, stack: Seq<Token>, p: u8) -> (Seq<Token>, Seq<Token>)
    decreases stack.len(),
{
    if stack.len() > 0 {
        match stack.last() {
            Token::Op(top) => if spec_precedence(top) >= p {
                pop_ge(out.push(stack.last()), stack.drop_last(), p)
            } else {
                (out, stack)
            },
            _ => (out, stack),
        }
    } else {
        (out, stack)
    }
}

/// Stack entries popped into the output when a close bracket arrives,
/// until an open bracket is popped (and discarded) or the stack empties
/// (tolerated without error).
pub open spec fn pop_to_open(out: Seq<Token>, stack: Seq<Token>) -> (Seq<Token>, Seq<Token>)
    decreases stack.len(),
{
    if stack.len() == 0 {
        (out, stack)
    } else if stack.last() == Token::Bracket('(') {
        (out, stack.drop_last())
    } else {
        pop_to_open(out.push(stack.last()), stack.drop_last())
    }
}

/// The shunting-yard pass, from the left: `out` is the postfix output so
/// far and `stack` the operator stack. When the input is exhausted the
/// stack is drained into the output in pop order.
pub open spec fn spec_to_rpn_rec(toks: Seq<Token>, out: Seq<Token>, stack: Seq<Token>) -> Seq<
    Token,
>
    decreases toks.len(),
{
    if toks.len() == 0 {
        out + stack.reverse()
    } else {
        let t = toks[0];
        let rest = toks.drop_first();
        match t {
            Token::Number(_) => spec_to_rpn_rec(rest, out.push(t), stack),
            Token::Op(op) => {
                let popped = pop_ge(out, stack, spec_precedence(op));
                spec_to_rpn_rec(rest, popped.0, popped.1.push(t))
            },
            Token::Bracket(c) => {
                if c == '(' {
                    spec_to_rpn_rec(rest, out, stack.push(t))
                } else if c == ')' {
                    let popped = pop_to_open(out, stack);
                    spec_to_rpn_rec(rest, popped.0, popped.1)
                } else {
                    spec_to_rpn_rec(rest, out, stack)
                }
            },
        }
    }
}

/// What converting an infix token sequence yields: the same tokens in
/// postfix order, brackets discarded.
pub open spec fn spec_to_rpn(toks: Seq<Token>) -> Seq<Token> {
    spec_to_rpn_rec(toks, Seq::empty(), Seq::empty())
}

/// One operator applied to its two operands, `a` pushed before `b`:
/// addition, subtraction and multiplication wrap modulo `2^32`; division
/// truncates and reports a zero divisor.
pub open spec fn spec_apply(op: Operator, a: u32, b: u32) -> Result<u32, Error> {
    match op {
        Operator::Add => Ok(vstd::wrapping::u32_specs::wrapping_add(a, b)),
        Operator::Sub => Ok(vstd::wrapping::u32_specs::wrapping_sub(a, b)),
        Operator::Mul => Ok(vstd::wrapping::u32_specs::wrapping_mul(a, b)),
        Operator::Div => if b == 0 {
            Err(Error::DivisionByZero)
        } else {
            Ok((a as int / b as int) as u32)
        },
    }
}

/// The postfix evaluation pass, from the left, over an operand stack:
/// numbers are pushed; an operator needs two operands and replaces them
/// with its result; a stray bracket is an error; at the end exactly one
/// value must remain.
pub open spec fn spec_eval_rec(toks: Seq<Token>, stack: Seq<u32>) -> Result<u32, Error>
    decreases toks.len(),
{
    if toks.len() == 0 {
        if stack.len() == 1 {
            Ok(stack[0])
        } else {
            Err(Error::InvalidExpression)
        }
    } else {
        let rest = toks.drop_first();
        match toks[0] {
            Token::Number(n) => spec_eval_rec(rest, stack.push(n)),
            Token::Op(op) => {
                if stack.len() < 2 {
                    Err(Error::InvalidExpression)
                } else {
                    let b = stack.last();
                    let a = stack[stack.len() - 2];
                    match spec_apply(op, a, b) {
                        Ok(r) => spec_eval_rec(rest, stack.drop_last().drop_last().push(r)),
                        Err(e) => Err(e),
                    }
                }
            },
            Token::Bracket(_) => Err(Error::InvalidExpression),
        }
    }
}

/// What evaluating a postfix token sequence yields.
pub open spec fn spec_eval_rpn(toks: Seq<Token>) -> Result<u32, Error> {
    spec_eval_rec(toks, Seq::empty())
}

/// What the whole pipeline yields on a character sequence: tokenize,
/// convert to postfix, evaluate; the first error short-circuits.
pub open spec fn spec_calculate(s: Seq<char>) -> Result<u32, Error> {
    match spec_parse(s) {
        Ok(toks) => spec_eval_rpn(spec_to_rpn(toks)),
        Err(e) => Err(e),
    }
}

} // verus!
