//! What an arithmetic expression means.
//!
//! An `Expr` is the abstract shape of an expression; `deriv_ok` says
//! which token sequences are valid infix renderings of it under the
//! standard precedence and left-associativity rules, with a `Deriv`
//! recording the grammar productions; `rpn` is its postfix rendering;
//! `exp_eval` its value under the library's arithmetic (wrapping
//! modulo `2^32`, truncating division, a zero divisor reported);
//! `exp_value` its exact mathematical value. The proofs relate the
//! executable pipeline's model to these.

use vstd::prelude::*;

use crate::model::spec_apply;
use crate::model::spec_precedence;
use crate::tokens::Error;
use crate::tokens::Operator;
use crate::tokens::Token;

verus! {

/// The abstract shape of an arithmetic expression.
pub enum Expr {
    Num(u32),
    Bin(Operator, Box<Expr>, Box<Expr>),
}

/// The postfix rendering of an expression: both operands, then the
/// operator.
pub open spec fn rpn(e: Expr) -> Seq<Token>
    decreases e,
{
    match e {
        Expr::Num(n) => seq![Token::Number(n)],
        Expr::Bin(op, l, r) => rpn(*l) + rpn(*r) + seq![Token::Op(op)],
    }
}

/// The value of an expression under the library's arithmetic: operands
/// left to right, wrapping modulo `2^32`, truncating division, and the
/// first zero divisor reported.
pub open spec fn exp_eval(e: Expr) -> Result<u32, Error>
    decreases e,
{
    match e {
        Expr::Num(n) => Ok(n),
        Expr::Bin(op, l, r) => match exp_eval(*l) {
            Ok(a) => match exp_eval(*r) {
                Ok(b) => spec_apply(op, a, b),
                Err(er) => Err(er),
            },
            Err(er) => Err(er),
        },
    }
}

/// The exact mathematical value of an expression, over the unbounded
/// integers, with truncating division.
pub open spec fn exp_value(e: Expr) -> int
    decreases e,
{
    match e {
        Expr::Num(n) => n as int,
        Expr::Bin(op, l, r) => match op {
            Operator::Add => exp_value(*l) + exp_value(*r),
            Operator::Sub => exp_value(*l) - exp_value(*r),
            Operator::Mul => exp_value(*l) * exp_value(*r),
            Operator::Div => exp_value(*l) / exp_value(*r),
        },
    }
}

/// Every subexpression divides by a nonzero value and has a value that
/// fits a 32-bit unsigned integer, so no operation wraps.
pub open spec fn exp_in_range(e: Expr) -> bool
    decreases e,
{
    match e {
        Expr::Num(_) => true,
        Expr::Bin(op, l, r) => {
            &&& exp_in_range(*l)
            &&& exp_in_range(*r)
            &&& (op is Div ==> exp_value(*r) != 0)
            &&& 0 <= exp_value(e) <= u32::MAX
        },
    }
}

/// A derivation of a token sequence from the grammar of infix
/// expressions: each node says which production shaped the sequence.
pub enum Deriv {
    /// A bare number.
    Num(u32),
    /// A whole rendering between an open and a close bracket.
    Paren(Box<Deriv>),
    /// A rendering of the next level down used one level up.
    Lower(Box<Deriv>),
    /// A left-associative chain: a left rendering at the same level,
    /// the operator, and a right rendering one level down.
    Chain(Operator, Box<Deriv>, Box<Deriv>),
}

/// How many tokens a derivation covers.
pub open spec fn deriv_len(d: Deriv) -> int
    decreases d,
{
    match d {
        Deriv::Num(_) => 1,
        Deriv::Paren(inner) => deriv_len(*inner) + 2,
        Deriv::Lower(inner) => deriv_len(*inner),
        Deriv::Chain(_, dl, dr) => deriv_len(*dl) + 1 + deriv_len(*dr),
    }
}

/// Whether `d` derives `ts` as a rendering of the expression shape `e`
/// at a grammar level: level 0 is a factor (a number, or any rendering
/// between brackets), level 1 a term (factors joined left-associatively
/// by the precedence-2 operators), level 2 a full expression (terms
/// joined left-associatively by the precedence-1 operators).
pub open spec fn deriv_ok(d: Deriv, e: Expr, ts: Seq<Token>, level: nat) -> bool
    decreases d,
{
    match d {
        Deriv::Num(n) => {
            &&& level == 0
            &&& e == Expr::Num(n)
            &&& ts == seq![Token::Number(n)]
        },
        Deriv::Paren(inner) => {
            &&& level == 0
            &&& ts.len() >= 2
            &&& ts[0] == Token::Bracket('(')
            &&& ts.last() == Token::Bracket(')')
            &&& deriv_ok(*inner, e, ts.subrange(1, ts.len() - 1), 2)
        },
        Deriv::Lower(inner) => {
            &&& level >= 1
            &&& deriv_ok(*inner, e, ts, (level - 1) as nat)
        },
        Deriv::Chain(op, dl, dr) => {
            let k = deriv_len(*dl);
            &&& level >= 1
            &&& spec_precedence(op) == 3 - level
            &&& e is Bin
            &&& e->Bin_0 == op
            &&& 0 <= k < ts.len()
            &&& ts[k] == Token::Op(op)
            &&& deriv_ok(*dl, *e->Bin_1, ts.subrange(0, k), level)
            &&& deriv_ok(*dr, *e->Bin_2, ts.subrange(k + 1, ts.len() as int), (level - 1) as nat)
        },
    }
}

/// Whether a token sequence is a valid infix expression: some
/// expression shape is derived from it by the grammar.
pub open spec fn valid_expression(ts: Seq<Token>) -> bool {
    exists|e: Expr, d: Deriv| deriv_ok(d, e, ts, 2)
}

} // verus!
