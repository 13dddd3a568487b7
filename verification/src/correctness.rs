//! Proof that the pipeline computes the value of every valid infix
//! expression: converting a valid rendering of an expression shape to
//! postfix and evaluating it yields exactly the expression's value.

use vstd::prelude::*;

use crate::model::pop_ge;
use crate::model::pop_to_open;
use crate::model::spec_apply;
use crate::model::spec_calculate;
use crate::model::spec_eval_rec;
use crate::model::spec_eval_rpn;
use crate::model::spec_parse;
use crate::model::spec_precedence;
use crate::model::spec_to_rpn;
use crate::model::spec_to_rpn_rec;
use crate::semantics::deriv_len;
use crate::semantics::deriv_ok;
use crate::semantics::exp_eval;
use crate::semantics::exp_in_range;
use crate::semantics::exp_value;
use crate::semantics::Deriv;
use crate::semantics::rpn;
use crate::semantics::valid_expression;
use crate::semantics::Expr;
use crate::tokens::Error;
use crate::tokens::Token;

verus! {

/// The converter's output and operator stack after one token.
pub open spec fn sy_step(t: Token, out: Seq<Token>, stack: Seq<Token>) -> (Seq<Token>, Seq<
    Token,
>) {
    match t {
        Token::Number(_) => (out.push(t), stack),
        Token::Op(op) => {
            let popped = pop_ge(out, stack, spec_precedence(op));
            (popped.0, popped.1.push(t))
        },
        Token::Bracket(c) => {
            if c == '(' {
                (out, stack.push(t))
            } else if c == ')' {
                pop_to_open(out, stack)
            } else {
                (out, stack)
            }
        },
    }
}

/// The converter's output and operator stack after a token sequence,
/// before the final drain of the stack.
pub open spec fn sy_run(toks: Seq<Token>, out: Seq<Token>, stack: Seq<Token>) -> (Seq<Token>, Seq<
    Token,
>)
    decreases toks.len(),
{
    if toks.len() == 0 {
        (out, stack)
    } else {
        let stepped = sy_step(toks[0], out, stack);
        sy_run(toks.drop_first(), stepped.0, stepped.1)
    }
}

/// The conversion pass is its state run followed by draining the stack.
proof fn lemma_sy_run_to_rpn(toks: Seq<Token>, out: Seq<Token>, stack: Seq<Token>)
    ensures
        spec_to_rpn_rec(toks, out, stack) == sy_run(toks, out, stack).0 + sy_run(
            toks,
            out,
            stack,
        ).1.reverse(),
    decreases toks.len(),
{
    if toks.len() == 0 {
    } else {
        let stepped = sy_step(toks[0], out, stack);
        lemma_sy_run_to_rpn(toks.drop_first(), stepped.0, stepped.1);
        assert(spec_to_rpn_rec(toks, out, stack) == spec_to_rpn_rec(
            toks.drop_first(),
            stepped.0,
            stepped.1,
        ));
    }
}

/// Running a concatenation is running the first part, then the second.
proof fn lemma_sy_run_append(t1: Seq<Token>, t2: Seq<Token>, out: Seq<Token>, stack: Seq<Token>)
    ensures
        sy_run(t1 + t2, out, stack) == sy_run(t2, sy_run(t1, out, stack).0, sy_run(
            t1,
            out,
            stack,
        ).1),
    decreases t1.len(),
{
    if t1.len() == 0 {
        assert(t1 + t2 =~= t2);
    } else {
        let stepped = sy_step(t1[0], out, stack);
        assert((t1 + t2).drop_first() =~= t1.drop_first() + t2);
        assert((t1 + t2)[0] == t1[0]);
        lemma_sy_run_append(t1.drop_first(), t2, stepped.0, stepped.1);
    }
}

/// Every token is an operator.
pub open spec fn all_ops(pend: Seq<Token>) -> bool {
    forall|j: int| 0 <= j < pend.len() ==> pend[j] is Op
}

/// Every token is an operator of precedence at least `p`.
pub open spec fn all_ops_ge(pend: Seq<Token>, p: u8) -> bool {
    forall|j: int|
        0 <= j < pend.len() ==> (#[trigger] pend[j] matches Token::Op(o) && spec_precedence(o)
            >= p)
}

/// An arriving operator pops nothing past a bracket, an emptied stack,
/// or an operator that binds less tightly.
proof fn lemma_pop_ge_barrier(out: Seq<Token>, stack: Seq<Token>, p: u8)
    requires
        stack.len() == 0 || stack.last() is Bracket || (stack.last() matches Token::Op(o)
            && spec_precedence(o) < p),
    ensures
        pop_ge(out, stack, p) == (out, stack),
{
}

/// An arriving operator pops a run of stacked operators that all bind
/// at least as tightly, in reverse order, and goes on below it.
proof fn lemma_pop_ge_skips(out: Seq<Token>, stack: Seq<Token>, pend: Seq<Token>, p: u8)
    requires
        all_ops_ge(pend, p),
    ensures
        pop_ge(out, stack + pend, p) == pop_ge(out + pend.reverse(), stack, p),
    decreases pend.len(),
{
    if pend.len() == 0 {
        assert(stack + pend =~= stack);
        assert(pend.reverse() =~= Seq::<Token>::empty());
        assert(out + pend.reverse() =~= out);
    } else {
        let last = pend.last();
        assert(pend[pend.len() - 1] matches Token::Op(o) && spec_precedence(o) >= p);
        assert((stack + pend).last() == last);
        assert((stack + pend).drop_last() =~= stack + pend.drop_last());
        assert(all_ops_ge(pend.drop_last(), p));
        lemma_pop_ge_skips(out.push(last), stack, pend.drop_last(), p);
        assert(out.push(last) + pend.drop_last().reverse() =~= out + pend.reverse());
    }
}

/// A close bracket pops a run of stacked operators in reverse order and
/// discards the open bracket below it.
proof fn lemma_pop_to_open_skips(out: Seq<Token>, stack: Seq<Token>, pend: Seq<Token>)
    requires
        all_ops(pend),
    ensures
        pop_to_open(out, stack.push(Token::Bracket('(')) + pend) == (out + pend.reverse(), stack),
    decreases pend.len(),
{
    let open = Token::Bracket('(');
    if pend.len() == 0 {
        assert(stack.push(open) + pend =~= stack.push(open));
        assert(stack.push(open).drop_last() =~= stack);
        assert(out + pend.reverse() =~= out);
    } else {
        let last = pend.last();
        let whole = stack.push(open) + pend;
        assert(pend[pend.len() - 1] is Op);
        assert(whole.last() == last);
        assert(whole.drop_last() =~= stack.push(open) + pend.drop_last());
        assert(all_ops(pend.drop_last()));
        lemma_pop_to_open_skips(out.push(last), stack, pend.drop_last());
        assert(out.push(last) + pend.drop_last().reverse() =~= out + pend.reverse());
    }
}

/// Running a single token takes one step.
proof fn lemma_sy_run_one(t: Token, out: Seq<Token>, stack: Seq<Token>)
    ensures
        sy_run(seq![t], out, stack) == (sy_step(t, out, stack).0, sy_step(t, out, stack).1),
{
    assert(seq![t][0] == t);
    assert(seq![t].drop_first() =~= Seq::<Token>::empty());
    let stepped = sy_step(t, out, stack);
    assert(sy_run(seq![t], out, stack) == sy_run(seq![t].drop_first(), stepped.0, stepped.1));
}

/// Running the tokens of a factor leaves the stack as it was and
/// appends the factor's postfix rendering to the output.
proof fn lemma_sy_factor(d: Deriv, e: Expr, ts: Seq<Token>, out: Seq<Token>, stack: Seq<Token>)
    requires
        deriv_ok(d, e, ts, 0),
    ensures
        sy_run(ts, out, stack) == (out + rpn(e), stack),
    decreases d,
{
    let open = Token::Bracket('(');
    let close = Token::Bracket(')');
    match d {
        Deriv::Num(n) => {
            let num = Token::Number(n);
            lemma_sy_run_one(num, out, stack);
            assert(sy_step(num, out, stack).0 == out.push(num));
            assert(out.push(num) =~= out + rpn(e));
            assert(sy_run(ts, out, stack) == (out + rpn(e), stack));
        },
        Deriv::Paren(inner) => {
            let ts_in = ts.subrange(1, ts.len() - 1);
            assert(ts.drop_first() =~= ts_in + seq![close]);
            // the open bracket is pushed
            assert(sy_run(ts, out, stack) == sy_run(ts_in + seq![close], out, stack.push(open)));
            let r = lemma_sy_expr(*inner, e, ts_in, out, stack.push(open));
            lemma_sy_run_append(ts_in, seq![close], out, stack.push(open));
            let out_in = out + r.0;
            let st_in = stack.push(open) + r.1;
            // the close bracket pops the pending operators and the open
            // bracket
            lemma_sy_run_one(close, out_in, st_in);
            lemma_pop_to_open_skips(out_in, stack, r.1);
            assert(sy_step(close, out_in, st_in).0 == out_in + r.1.reverse());
            assert(sy_step(close, out_in, st_in).1 == stack);
            assert(out_in + r.1.reverse() =~= out + rpn(e));
            assert(sy_run(seq![close], out_in, st_in) == (out + rpn(e), stack));
        },
        Deriv::Lower(_) => {
            assert(false);
        },
        Deriv::Chain(_, _, _) => {
            assert(false);
        },
    }
}

/// Running the tokens of a term from a stack whose top no incoming
/// precedence-2 operator may pop appends the term's postfix rendering,
/// short of a pending stacked run of precedence-2 operators.
proof fn lemma_sy_term(d: Deriv, e: Expr, ts: Seq<Token>, out: Seq<Token>, stack: Seq<Token>) -> (r:
    (Seq<Token>, Seq<Token>))
    requires
        deriv_ok(d, e, ts, 1),
        stack.len() == 0 || stack.last() is Bracket || (stack.last() matches Token::Op(o)
            && spec_precedence(o) <= 1),
    ensures
        sy_run(ts, out, stack) == (out + r.0, stack + r.1),
        rpn(e) == r.0 + r.1.reverse(),
        all_ops_ge(r.1, 2),
    decreases d,
{
    match d {
        Deriv::Lower(inner) => {
            lemma_sy_factor(*inner, e, ts, out, stack);
            let r = (rpn(e), Seq::<Token>::empty());
            assert(out + rpn(e) =~= out + r.0);
            assert(stack =~= stack + r.1);
            assert(rpn(e) =~= r.0 + r.1.reverse());
            r
        },
        Deriv::Chain(op, dl, dr) => {
            let k = deriv_len(*dl);
            let tok = Token::Op(op);
            let tsl = ts.subrange(0, k);
            let tsr = ts.subrange(k + 1, ts.len() as int);
            let el = *e->Bin_1;
            let er = *e->Bin_2;
            assert(ts =~= tsl + (seq![tok] + tsr));
            let rl = lemma_sy_term(*dl, el, tsl, out, stack);
            lemma_sy_run_append(tsl, seq![tok] + tsr, out, stack);
            lemma_sy_run_append(seq![tok], tsr, out + rl.0, stack + rl.1);
            // the incoming operator pops the pending run, stops at the
            // barrier, and is pushed
            lemma_sy_run_one(tok, out + rl.0, stack + rl.1);
            lemma_pop_ge_skips(out + rl.0, stack, rl.1, 2);
            lemma_pop_ge_barrier((out + rl.0) + rl.1.reverse(), stack, 2);
            assert(spec_precedence(op) == 2);
            assert(pop_ge(out + rl.0, stack + rl.1, 2) == ((out + rl.0) + rl.1.reverse(), stack));
            assert(sy_step(tok, out + rl.0, stack + rl.1).0 == (out + rl.0) + rl.1.reverse());
            assert(sy_step(tok, out + rl.0, stack + rl.1).1 == stack.push(tok));
            assert((out + rl.0) + rl.1.reverse() =~= out + rpn(el));
            assert(sy_run(seq![tok], out + rl.0, stack + rl.1) == (
                out + rpn(el),
                stack.push(tok),
            ));
            // then the factor on the right
            lemma_sy_factor(*dr, er, tsr, out + rpn(el), stack.push(tok));
            let r = (rpn(el) + rpn(er), seq![tok]);
            assert((out + rpn(el)) + rpn(er) =~= out + r.0);
            assert(stack.push(tok) =~= stack + r.1);
            assert(rpn(e) == rpn(el) + rpn(er) + seq![tok]);
            assert(rpn(e) =~= r.0 + r.1.reverse());
            assert(all_ops_ge(r.1, 2));
            r
        },
        Deriv::Num(_) => {
            assert(false);
            arbitrary()
        },
        Deriv::Paren(_) => {
            assert(false);
            arbitrary()
        },
    }
}

/// Running the tokens of an expression from a stack whose top no
/// incoming operator may pop appends the expression's postfix
/// rendering, short of a pending stacked run of operators.
proof fn lemma_sy_expr(d: Deriv, e: Expr, ts: Seq<Token>, out: Seq<Token>, stack: Seq<Token>) -> (r:
    (Seq<Token>, Seq<Token>))
    requires
        deriv_ok(d, e, ts, 2),
        stack.len() == 0 || stack.last() is Bracket,
    ensures
        sy_run(ts, out, stack) == (out + r.0, stack + r.1),
        rpn(e) == r.0 + r.1.reverse(),
        all_ops(r.1),
    decreases d,
{
    match d {
        Deriv::Lower(inner) => {
            let r = lemma_sy_term(*inner, e, ts, out, stack);
            assert(all_ops(r.1));
            r
        },
        Deriv::Chain(op, dl, dr) => {
            let k = deriv_len(*dl);
            let tok = Token::Op(op);
            let tsl = ts.subrange(0, k);
            let tsr = ts.subrange(k + 1, ts.len() as int);
            let el = *e->Bin_1;
            let er = *e->Bin_2;
            assert(ts =~= tsl + (seq![tok] + tsr));
            let rl = lemma_sy_expr(*dl, el, tsl, out, stack);
            lemma_sy_run_append(tsl, seq![tok] + tsr, out, stack);
            lemma_sy_run_append(seq![tok], tsr, out + rl.0, stack + rl.1);
            // the incoming precedence-1 operator pops every pending
            // operator, stops at the barrier, and is pushed
            lemma_sy_run_one(tok, out + rl.0, stack + rl.1);
            assert(all_ops_ge(rl.1, 1));
            lemma_pop_ge_skips(out + rl.0, stack, rl.1, 1);
            lemma_pop_ge_barrier((out + rl.0) + rl.1.reverse(), stack, 1);
            assert(spec_precedence(op) == 1);
            assert(pop_ge(out + rl.0, stack + rl.1, 1) == ((out + rl.0) + rl.1.reverse(), stack));
            assert(sy_step(tok, out + rl.0, stack + rl.1).0 == (out + rl.0) + rl.1.reverse());
            assert(sy_step(tok, out + rl.0, stack + rl.1).1 == stack.push(tok));
            assert((out + rl.0) + rl.1.reverse() =~= out + rpn(el));
            assert(sy_run(seq![tok], out + rl.0, stack + rl.1) == (
                out + rpn(el),
                stack.push(tok),
            ));
            // then the term on the right, above the stacked operator
            let rr = lemma_sy_term(*dr, er, tsr, out + rpn(el), stack.push(tok));
            let r = (rpn(el) + rr.0, seq![tok] + rr.1);
            assert((out + rpn(el)) + rr.0 =~= out + r.0);
            assert(stack.push(tok) + rr.1 =~= stack + r.1);
            assert(rpn(e) == rpn(el) + rpn(er) + seq![tok]);
            assert(rpn(er) == rr.0 + rr.1.reverse());
            assert(rpn(e) =~= r.0 + r.1.reverse());
            assert(all_ops(r.1));
            r
        },
        Deriv::Num(_) => {
            assert(false);
            arbitrary()
        },
        Deriv::Paren(_) => {
            assert(false);
            arbitrary()
        },
    }
}

/// Converting any valid infix rendering of an expression shape yields
/// exactly its postfix rendering.
pub proof fn lemma_to_rpn_of_rendering(d: Deriv, e: Expr, ts: Seq<Token>)
    requires
        deriv_ok(d, e, ts, 2),
    ensures
        spec_to_rpn(ts) == rpn(e),
{
    let r = lemma_sy_expr(d, e, ts, Seq::empty(), Seq::empty());
    lemma_sy_run_to_rpn(ts, Seq::empty(), Seq::empty());
    assert((Seq::<Token>::empty() + r.0) + (Seq::<Token>::empty() + r.1).reverse() =~= r.0
        + r.1.reverse());
}

/// The evaluator's operand stack after a token sequence, or its first
/// error, before the final one-value check.
pub open spec fn ev_run(toks: Seq<Token>, stack: Seq<u32>) -> Result<Seq<u32>, Error>
    decreases toks.len(),
{
    if toks.len() == 0 {
        Ok(stack)
    } else {
        match toks[0] {
            Token::Number(n) => ev_run(toks.drop_first(), stack.push(n)),
            Token::Op(op) => {
                if stack.len() < 2 {
                    Err(Error::InvalidExpression)
                } else {
                    match spec_apply(op, stack[stack.len() - 2], stack.last()) {
                        Ok(v) => ev_run(
                            toks.drop_first(),
                            stack.drop_last().drop_last().push(v),
                        ),
                        Err(er) => Err(er),
                    }
                }
            },
            Token::Bracket(_) => Err(Error::InvalidExpression),
        }
    }
}

/// The evaluation pass is its stack run followed by the one-value
/// check.
proof fn lemma_ev_run_eval(toks: Seq<Token>, stack: Seq<u32>)
    ensures
        spec_eval_rec(toks, stack) == (match ev_run(toks, stack) {
            Ok(st) => if st.len() == 1 {
                Ok(st[0])
            } else {
                Err(Error::InvalidExpression)
            },
            Err(er) => Err(er),
        }),
    decreases toks.len(),
{
    if toks.len() == 0 {
    } else {
        match toks[0] {
            Token::Number(n) => {
                lemma_ev_run_eval(toks.drop_first(), stack.push(n));
            },
            Token::Op(op) => {
                if stack.len() >= 2 {
                    match spec_apply(op, stack[stack.len() - 2], stack.last()) {
                        Ok(v) => {
                            lemma_ev_run_eval(
                                toks.drop_first(),
                                stack.drop_last().drop_last().push(v),
                            );
                        },
                        Err(_) => {},
                    }
                }
            },
            Token::Bracket(_) => {},
        }
    }
}

/// Evaluating a concatenation is evaluating the first part, then the
/// second.
proof fn lemma_ev_run_append(t1: Seq<Token>, t2: Seq<Token>, stack: Seq<u32>)
    ensures
        ev_run(t1 + t2, stack) == (match ev_run(t1, stack) {
            Ok(st) => ev_run(t2, st),
            Err(er) => Err(er),
        }),
    decreases t1.len(),
{
    if t1.len() == 0 {
        assert(t1 + t2 =~= t2);
    } else {
        assert((t1 + t2).drop_first() =~= t1.drop_first() + t2);
        assert((t1 + t2)[0] == t1[0]);
        match t1[0] {
            Token::Number(n) => {
                lemma_ev_run_append(t1.drop_first(), t2, stack.push(n));
            },
            Token::Op(op) => {
                if stack.len() >= 2 {
                    match spec_apply(op, stack[stack.len() - 2], stack.last()) {
                        Ok(v) => {
                            lemma_ev_run_append(
                                t1.drop_first(),
                                t2,
                                stack.drop_last().drop_last().push(v),
                            );
                        },
                        Err(_) => {},
                    }
                }
            },
            Token::Bracket(_) => {},
        }
    }
}

/// Evaluating an expression's postfix rendering pushes its value onto
/// the operand stack, or stops with the expression's first error.
proof fn lemma_ev_run_rpn(e: Expr, stack: Seq<u32>)
    ensures
        ev_run(rpn(e), stack) == (match exp_eval(e) {
            Ok(v) => Ok(stack.push(v)),
            Err(er) => Err::<Seq<u32>, Error>(er),
        }),
    decreases e,
{
    match e {
        Expr::Num(n) => {
            let num = Token::Number(n);
            assert(rpn(e) == seq![num]);
            assert(seq![num][0] == num);
            assert(seq![num].drop_first() =~= Seq::<Token>::empty());
            assert(ev_run(rpn(e), stack) == ev_run(Seq::<Token>::empty(), stack.push(n)));
        },
        Expr::Bin(op, bl, br) => {
            let el = *bl;
            let er = *br;
            let tok = Token::Op(op);
            assert(rpn(e) == rpn(el) + rpn(er) + seq![tok]);
            assert(rpn(e) =~= rpn(el) + (rpn(er) + seq![tok]));
            lemma_ev_run_append(rpn(el), rpn(er) + seq![tok], stack);
            lemma_ev_run_rpn(el, stack);
            match exp_eval(el) {
                Ok(a) => {
                    lemma_ev_run_append(rpn(er), seq![tok], stack.push(a));
                    lemma_ev_run_rpn(er, stack.push(a));
                    match exp_eval(er) {
                        Ok(b) => {
                            let st2 = stack.push(a).push(b);
                            assert(seq![tok][0] == tok);
                            assert(seq![tok].drop_first() =~= Seq::<Token>::empty());
                            assert(st2.len() >= 2);
                            assert(st2[st2.len() - 2] == a);
                            assert(st2.last() == b);
                            assert(st2.drop_last().drop_last() =~= stack);
                            match spec_apply(op, a, b) {
                                Ok(v) => {
                                    assert(ev_run(seq![tok], st2) == ev_run(
                                        Seq::<Token>::empty(),
                                        stack.push(v),
                                    ));
                                },
                                Err(_) => {},
                            }
                        },
                        Err(_) => {},
                    }
                },
                Err(_) => {},
            }
        },
    }
}

/// Evaluating the postfix rendering of an expression yields exactly
/// the expression's outcome: its value, or its first error.
pub proof fn lemma_eval_rpn_of(e: Expr)
    ensures
        spec_eval_rpn(rpn(e)) == exp_eval(e),
{
    lemma_ev_run_eval(rpn(e), Seq::empty());
    lemma_ev_run_rpn(e, Seq::empty());
    match exp_eval(e) {
        Ok(v) => {
            assert(Seq::<u32>::empty().push(v).len() == 1);
            assert(Seq::<u32>::empty().push(v)[0] == v);
        },
        Err(_) => {},
    }
}

/// The whole pipeline on any valid expression: a text that tokenizes
/// to a valid infix rendering of an expression shape evaluates to
/// exactly that expression's outcome under the library's arithmetic —
/// standard precedence and left-associativity, wrapping modulo `2^32`,
/// truncating division, a zero divisor reported.
pub proof fn lemma_calculate_of_valid(s: Seq<char>, ts: Seq<Token>, d: Deriv, e: Expr)
    requires
        spec_parse(s) == Ok::<Seq<Token>, Error>(ts),
        deriv_ok(d, e, ts, 2),
    ensures
        spec_calculate(s) == exp_eval(e),
{
    lemma_to_rpn_of_rendering(d, e, ts);
    lemma_eval_rpn_of(e);
}

/// An expression within range has a value within range.
proof fn lemma_exp_value_bounds(e: Expr)
    requires
        exp_in_range(e),
    ensures
        0 <= exp_value(e) <= u32::MAX,
{
    match e {
        Expr::Num(_) => {},
        Expr::Bin(_, _, _) => {},
    }
}

/// An expression whose every subexpression stays within 32 bits and
/// divides by nonzero values evaluates to its exact mathematical
/// value: nothing wraps.
pub proof fn lemma_exp_eval_exact(e: Expr)
    requires
        exp_in_range(e),
    ensures
        exp_eval(e) == Ok::<u32, Error>(exp_value(e) as u32),
    decreases e,
{
    match e {
        Expr::Num(_) => {},
        Expr::Bin(op, bl, br) => {
            let el = *bl;
            let er = *br;
            lemma_exp_eval_exact(el);
            lemma_exp_eval_exact(er);
            lemma_exp_value_bounds(el);
            lemma_exp_value_bounds(er);
            lemma_exp_value_bounds(e);
            let a = exp_value(el);
            let b = exp_value(er);
            let x = a as u32;
            let y = b as u32;
            match op {
                crate::tokens::Operator::Add => {},
                crate::tokens::Operator::Sub => {},
                crate::tokens::Operator::Mul => {
                    assert(x as nat * y as nat == exp_value(e));
                    vstd::arithmetic::div_mod::lemma_small_mod(
                        (x as nat * y as nat),
                        0x1_0000_0000,
                    );
                },
                crate::tokens::Operator::Div => {},
            }
        },
    }
}

/// A token sequence that is a valid infix expression converts and
/// evaluates to the outcome of an expression shape it renders.
pub proof fn lemma_valid_expression_evaluates(ts: Seq<Token>) -> (e: Expr)
    requires
        valid_expression(ts),
    ensures
        spec_eval_rpn(spec_to_rpn(ts)) == exp_eval(e),
{
    let (e, d) = choose|e: Expr, d: Deriv| deriv_ok(d, e, ts, 2);
    lemma_to_rpn_of_rendering(d, e, ts);
    lemma_eval_rpn_of(e);
    e
}

/// The whole pipeline is exact on every valid expression that stays
/// within 32 bits: it returns the expression's mathematical value.
pub proof fn lemma_calculate_exact(s: Seq<char>, ts: Seq<Token>, d: Deriv, e: Expr)
    requires
        spec_parse(s) == Ok::<Seq<Token>, Error>(ts),
        deriv_ok(d, e, ts, 2),
        exp_in_range(e),
    ensures
        spec_calculate(s) == Ok::<u32, Error>(exp_value(e) as u32),
{
    lemma_calculate_of_valid(s, ts, d, e);
    lemma_exp_eval_exact(e);
}

} // verus!
