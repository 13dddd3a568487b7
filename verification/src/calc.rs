//! The executable pipeline: tokenizer, infix-to-postfix converter,
//! postfix evaluator, and the orchestration that chains them.

use vstd::prelude::*;
use vstd::string::StrSliceExecFns;

use crate::model::digit_value;
use crate::model::pop_ge;
use crate::model::pop_to_open;
use crate::model::push_digit;
use crate::model::spec_apply;
use crate::model::spec_calculate;
use crate::model::spec_eval_rec;
use crate::model::spec_eval_rpn;
use crate::model::spec_parse;
use crate::model::spec_parse_rec;
use crate::model::spec_precedence;
use crate::model::spec_to_rpn;
use crate::model::spec_to_rpn_rec;
use crate::tokens::Error;
use crate::tokens::Operator;
use crate::tokens::Token;

verus! {

/// The carrier of the pipeline; all operations are stateless.
pub struct Calculator {}

impl Calculator {
    /// Tokenize an expression: scan its characters from the left,
    /// collapsing digit runs into single numbers (wrapping modulo `2^32`),
    /// skipping spaces and newlines, and validating bracket balance.
    ///
    /// Returns exactly what the model says: the token sequence on
    /// success; `BadToken` on the first unrecognized character;
    /// `MismatchedParens` on a close bracket with no open bracket
    /// pending, or on leftover open brackets after the scan.
    pub fn parse(expr: &str) -> (r: Result<Vec<Token>, Error>)
        ensures
            match r {
                Ok(toks) => spec_parse(expr@) == Ok::<Seq<Token>, Error>(toks@),
                Err(e) => spec_parse(expr@) == Err::<Seq<Token>, Error>(e),
            },
    {
        let n = expr.unicode_len();
        let mut tokens: Vec<Token> = Vec::new();
        let mut depth: usize = 0;
        let mut i: usize = 0;
        proof {
            assert(expr@.skip(0) =~= expr@);
            assert(tokens@ =~= Seq::<Token>::empty());
        }
        while i < n
            invariant
                n == expr@.len(),
                i <= n,
                depth <= i,
                spec_parse_rec(expr@.skip(i as int), tokens@, depth as nat) == spec_parse(expr@),
            decreases n - i,
        {
            let ghost toks0 = tokens@;
            let ghost suffix = expr@.skip(i as int);
            let c = expr.get_char(i);
            proof {
                assert(suffix.len() > 0);
                assert(suffix[0] == c);
                assert(suffix.drop_first() =~= expr@.skip(i as int + 1));
            }
            let cv = c as u32;
            if 48 <= cv && cv <= 57 {
                let d = cv - 48;
                let m = tokens.len();
                let mut extended = false;
                if m > 0 {
                    match tokens[m - 1] {
                        Token::Number(nv) => {
                            let f = nv.wrapping_mul(10).wrapping_add(d);
                            tokens.pop();
                            tokens.push(Token::Number(f));
                            extended = true;
                        },
                        _ => {},
                    }
                }
                if !extended {
                    tokens.push(Token::Number(d));
                }
                proof {
                    assert(d == digit_value(c));
                    assert(tokens@ =~= push_digit(toks0, c));
                }
            } else if c == '(' {
                tokens.push(Token::Bracket('('));
                depth = depth + 1;
            } else if c == ')' {
                tokens.push(Token::Bracket(')'));
                if depth == 0 {
                    proof {
                        assert(spec_parse_rec(suffix, toks0, 0nat) == Err::<Seq<Token>, Error>(
                            Error::MismatchedParens,
                        ));
                    }
                    return Err(Error::MismatchedParens);
                }
                depth = depth - 1;
            } else if c == '+' {
                tokens.push(Token::Op(Operator::Add));
            } else if c == '/' {
                tokens.push(Token::Op(Operator::Div));
            } else if c == '*' {
                tokens.push(Token::Op(Operator::Mul));
            } else if c == '-' {
                tokens.push(Token::Op(Operator::Sub));
            } else if c == ' ' || c == '\n' {
            } else {
                proof {
                    assert(spec_parse_rec(suffix, toks0, depth as nat) == Err::<
                        Seq<Token>,
                        Error,
                    >(Error::BadToken(c)));
                }
                return Err(Error::BadToken(c));
            }
            i = i + 1;
        }
        proof {
            assert(expr@.skip(n as int) =~= Seq::<char>::empty());
        }
        if depth != 0 {
            return Err(Error::MismatchedParens);
        }
        Ok(tokens)
    }

    /// Convert an infix token sequence to postfix (Reverse Polish) order
    /// by the shunting-yard discipline: numbers pass straight through;
    /// an operator first pops every stacked operator of precedence at
    /// least its own (both operator levels are left-associative); an
    /// open bracket is stacked; a close bracket pops down to its open
    /// bracket, tolerating a stack that empties first.
    ///
    /// Returns exactly the postfix sequence the model describes; this
    /// stage itself never fails.
    pub fn to_rpn(tokens: Vec<Token>) -> (r: Vec<Token>)
        ensures
            r@ == spec_to_rpn(tokens@),
    {
        let mut output: Vec<Token> = Vec::new();
        let mut stack: Vec<Token> = Vec::new();
        let n = tokens.len();
        let mut i: usize = 0;
        proof {
            assert(tokens@.skip(0) =~= tokens@);
            assert(output@ =~= Seq::<Token>::empty());
            assert(stack@ =~= Seq::<Token>::empty());
        }
        while i < n
            invariant
                n == tokens@.len(),
                i <= n,
                spec_to_rpn_rec(tokens@.skip(i as int), output@, stack@) == spec_to_rpn(tokens@),
            decreases n - i,
        {
            let ghost suffix = tokens@.skip(i as int);
            proof {
                assert(suffix.len() > 0);
                assert(suffix[0] == tokens@[i as int]);
                assert(suffix.drop_first() =~= tokens@.skip(i as int + 1));
            }
            let t = tokens[i];
            match t {
                Token::Number(_) => {
                    output.push(t);
                },
                Token::Op(op) => {
                    let p = Self::precedence(&op);
                    let ghost out0 = output@;
                    let ghost st0 = stack@;
                    loop
                        invariant_except_break
                            pop_ge(output@, stack@, p) == pop_ge(out0, st0, p),
                        ensures
                            (output@, stack@) == pop_ge(out0, st0, p),
                        decreases stack@.len(),
                    {
                        let m = stack.len();
                        let mut keep_popping = false;
                        if m > 0 {
                            match stack[m - 1] {
                                Token::Op(top) => {
                                    if Self::precedence(&top) >= p {
                                        keep_popping = true;
                                    }
                                },
                                _ => {},
                            }
                        }
                        if !keep_popping {
                            proof {
                                assert(pop_ge(output@, stack@, p) == (output@, stack@));
                            }
                            break;
                        }
                        let ghost st_before = stack@;
                        let popped = stack.pop().unwrap();
                        output.push(popped);
                        proof {
                            assert(stack@ =~= st_before.drop_last());
                        }
                    }
                    stack.push(t);
                },
                Token::Bracket(c) => {
                    if c == '(' {
                        stack.push(t);
                    } else if c == ')' {
                        let ghost out0 = output@;
                        let ghost st0 = stack@;
                        loop
                            invariant_except_break
                                pop_to_open(output@, stack@) == pop_to_open(out0, st0),
                            ensures
                                (output@, stack@) == pop_to_open(out0, st0),
                            decreases stack@.len(),
                        {
                            if stack.len() == 0 {
                                proof {
                                    assert(pop_to_open(output@, stack@) == (output@, stack@));
                                }
                                break;
                            }
                            let ghost st_before = stack@;
                            let top = stack.pop().unwrap();
                            proof {
                                assert(stack@ =~= st_before.drop_last());
                            }
                            let mut found_open = false;
                            match top {
                                Token::Bracket(b) => {
                                    if b == '(' {
                                        found_open = true;
                                    }
                                },
                                _ => {},
                            }
                            if found_open {
                                proof {
                                    assert(pop_to_open(out0, st0) == pop_to_open(
                                        output@,
                                        st_before,
                                    ));
                                    assert(pop_to_open(output@, st_before) == (output@, stack@));
                                }
                                break;
                            }
                            output.push(top);
                        }
                    }
                },
            }
            i = i + 1;
        }
        proof {
            assert(tokens@.skip(n as int) =~= Seq::<Token>::empty());
        }
        while stack.len() > 0
            invariant
                output@ + stack@.reverse() == spec_to_rpn(tokens@),
            decreases stack@.len(),
        {
            let ghost out_before = output@;
            let ghost st_before = stack@;
            let top = stack.pop().unwrap();
            output.push(top);
            proof {
                assert(output@ + stack@.reverse() =~= out_before + st_before.reverse());
            }
        }
        proof {
            assert(output@ + stack@.reverse() =~= output@);
        }
        output
    }

    /// Binding strength of an operator.
    fn precedence(op: &Operator) -> (p: u8)
        ensures
            p == spec_precedence(*op),
    {
        match op {
            Operator::Add | Operator::Sub => 1,
            Operator::Mul | Operator::Div => 2,
        }
    }

    /// Evaluate a postfix token sequence over an operand stack: numbers
    /// are pushed; an operator pops its right operand, then its left,
    /// and pushes the result (addition, subtraction and multiplication
    /// wrap modulo `2^32`; division truncates). Exactly one value may
    /// remain at the end.
    ///
    /// Returns exactly what the model says: `DivisionByZero` on a zero
    /// divisor; `InvalidExpression` on an operator short of operands, a
    /// stray bracket, or a final stack that does not hold one value.
    pub fn evaluate_rpn(tokens: Vec<Token>) -> (r: Result<u32, Error>)
        ensures
            r == spec_eval_rpn(tokens@),
    {
        let mut stack: Vec<u32> = Vec::new();
        let n = tokens.len();
        let mut i: usize = 0;
        proof {
            assert(tokens@.skip(0) =~= tokens@);
            assert(stack@ =~= Seq::<u32>::empty());
        }
        while i < n
            invariant
                n == tokens@.len(),
                i <= n,
                spec_eval_rec(tokens@.skip(i as int), stack@) == spec_eval_rpn(tokens@),
            decreases n - i,
        {
            let ghost suffix = tokens@.skip(i as int);
            let ghost stack0 = stack@;
            proof {
                assert(suffix.len() > 0);
                assert(suffix[0] == tokens@[i as int]);
                assert(suffix.drop_first() =~= tokens@.skip(i as int + 1));
            }
            match tokens[i] {
                Token::Number(v) => {
                    stack.push(v);
                },
                Token::Op(op) => {
                    if stack.len() < 2 {
                        return Err(Error::InvalidExpression);
                    }
                    let b = stack.pop().unwrap();
                    let a = stack.pop().unwrap();
                    proof {
                        assert(b == stack0.last());
                        assert(a == stack0[stack0.len() - 2]);
                        assert(stack@ =~= stack0.drop_last().drop_last());
                    }
                    let result = match op {
                        Operator::Add => a.wrapping_add(b),
                        Operator::Sub => a.wrapping_sub(b),
                        Operator::Mul => a.wrapping_mul(b),
                        Operator::Div => {
                            if b == 0 {
                                return Err(Error::DivisionByZero);
                            }
                            a / b
                        },
                    };
                    proof {
                        assert(spec_apply(op, a, b) == Ok::<u32, Error>(result));
                    }
                    stack.push(result);
                },
                Token::Bracket(_) => {
                    return Err(Error::InvalidExpression);
                },
            }
            i = i + 1;
        }
        proof {
            assert(tokens@.skip(n as int) =~= Seq::<Token>::empty());
        }
        if stack.len() == 1 {
            let v = stack.pop().unwrap();
            Ok(v)
        } else {
            Err(Error::InvalidExpression)
        }
    }

    /// Evaluate an expression end to end: tokenize, convert to postfix,
    /// evaluate. The first failing stage short-circuits and its error is
    /// returned as-is; no stage is retried.
    pub fn calculate(expr: &str) -> (r: Result<u32, Error>)
        ensures
            r == spec_calculate(expr@),
    {
        let tokens = match Self::parse(expr) {
            Ok(toks) => toks,
            Err(e) => {
                return Err(e);
            },
        };
        let rpn_tokens = Self::to_rpn(tokens);
        Self::evaluate_rpn(rpn_tokens)
    }
}

} // verus!
