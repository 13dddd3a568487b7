use vstd::prelude::*;

verus! {

/// One of the four binary operators an expression may use.
#[derive(Debug, Clone, Copy, PartialEq, Eq)]
pub enum Operator {
    Add,
    Sub,
    Mul,
    Div,
}

/// One lexical unit of an arithmetic expression: an unsigned number
/// (accumulated from a run of digits), an operator, or a bracket
/// character (`'('` or `')'` as produced by the tokenizer).
#[derive(Debug, Clone, Copy, PartialEq, Eq)]
pub enum Token {
    Number(u32),
    Op(Operator),
    Bracket(char),
}

/// The ways an expression can be rejected.
#[derive(Debug, Clone, Copy, PartialEq, Eq)]
pub enum Error {
    /// An unrecognized character was met during tokenization; carries it.
    BadToken(char),
    /// Brackets are unbalanced, detected during tokenization.
    MismatchedParens,
    /// A division met a zero right operand during evaluation.
    DivisionByZero,
    /// The postfix sequence did not evaluate to exactly one value.
    InvalidExpression,
}

} // verus!
