//! Laws that relate the pipeline stages to one another, stated over the
//! model that the executable functions' contracts are written against.

use vstd::prelude::*;

use crate::model::is_digit;
use crate::model::is_operator_char;
use crate::model::is_whitespace;
use crate::model::operator_of;
use crate::model::pop_ge;
use crate::model::push_digit;
use crate::model::spec_calculate;
use crate::model::spec_parse;
use crate::model::spec_parse_rec;
use crate::model::spec_precedence;
use crate::model::spec_to_rpn;
use crate::model::spec_to_rpn_rec;
use crate::tokens::Token;

verus! {

proof fn lemma_to_rpn_rec_no_reorder(toks: Seq<Token>, out: Seq<Token>)
    requires
        forall|j: int| 0 <= j < toks.len() - 1 ==> toks[j] is Number,
        forall|j: int| 0 <= j < toks.len() ==> !(toks[j] is Bracket),
    ensures
        spec_to_rpn_rec(toks, out, Seq::empty()) == out + toks,
    decreases toks.len(),
{
    if toks.len() == 0 {
        assert(Seq::<Token>::empty().reverse() =~= Seq::<Token>::empty());
        assert(out + Seq::<Token>::empty().reverse() =~= out + toks);
    } else {
        let t = toks[0];
        let rest = toks.drop_first();
        match t {
            Token::Number(_) => {
                assert(forall|j: int| 0 <= j < rest.len() - 1 ==> rest[j] is Number);
                assert(forall|j: int| 0 <= j < rest.len() ==> !(rest[j] is Bracket));
                lemma_to_rpn_rec_no_reorder(rest, out.push(t));
                assert(out.push(t) + rest =~= out + toks);
                assert(spec_to_rpn_rec(toks, out, Seq::empty()) == spec_to_rpn_rec(
                    rest,
                    out.push(t),
                    Seq::empty(),
                ));
            },
            Token::Op(op) => {
                assert(toks.len() == 1);
                assert(pop_ge(out, Seq::empty(), spec_precedence(op)) == (
                    out,
                    Seq::<Token>::empty(),
                ));
                assert(rest.len() == 0);
                assert(Seq::<Token>::empty().push(t).reverse() =~= Seq::<Token>::empty().push(t));
                assert(out + Seq::<Token>::empty().push(t) =~= out + toks);
                assert(spec_to_rpn_rec(toks, out, Seq::empty()) == spec_to_rpn_rec(
                    rest,
                    out,
                    Seq::<Token>::empty().push(t),
                ));
                assert(spec_to_rpn_rec(toks, out, Seq::empty()) == out + toks);
            },
            Token::Bracket(_) => {
                assert(false);
            },
        }
    }
}

/// A token sequence that is already in postfix order and gives the
/// converter nothing to reorder — it is bracket-free and every token
/// before the last is a number, a single number being the simplest
/// case — comes out of the infix-to-postfix conversion unchanged.
pub proof fn lemma_to_rpn_fixed_point(toks: Seq<Token>)
    requires
        forall|j: int| 0 <= j < toks.len() - 1 ==> toks[j] is Number,
        forall|j: int| 0 <= j < toks.len() ==> !(toks[j] is Bracket),
    ensures
        spec_to_rpn(toks) == toks,
{
    lemma_to_rpn_rec_no_reorder(toks, Seq::empty());
    assert(Seq::<Token>::empty() + toks =~= toks);
}

/// The character sequence with every space and newline removed.
pub open spec fn strip_whitespace(s: Seq<char>) -> Seq<char>
    decreases s.len(),
{
    if s.len() == 0 {
        Seq::empty()
    } else if is_whitespace(s[0]) {
        strip_whitespace(s.drop_first())
    } else {
        seq![s[0]] + strip_whitespace(s.drop_first())
    }
}

proof fn lemma_parse_rec_strips_whitespace(s: Seq<char>, toks: Seq<Token>, depth: nat)
    ensures
        spec_parse_rec(s, toks, depth) == spec_parse_rec(strip_whitespace(s), toks, depth),
    decreases s.len(),
{
    if s.len() == 0 {
    } else {
        let c = s[0];
        let rest = s.drop_first();
        if is_whitespace(c) {
            assert(!is_digit(c) && c != '(' && c != ')' && !is_operator_char(c));
            lemma_parse_rec_strips_whitespace(rest, toks, depth);
        } else {
            let t = strip_whitespace(s);
            assert(t == seq![c] + strip_whitespace(rest));
            assert(t.len() > 0);
            assert(t[0] == c);
            assert(t.drop_first() =~= strip_whitespace(rest));
            if is_digit(c) {
                lemma_parse_rec_strips_whitespace(rest, push_digit(toks, c), depth);
            } else if c == '(' {
                lemma_parse_rec_strips_whitespace(rest, toks.push(Token::Bracket('(')), depth + 1);
            } else if c == ')' {
                if depth != 0 {
                    lemma_parse_rec_strips_whitespace(
                        rest,
                        toks.push(Token::Bracket(')')),
                        (depth - 1) as nat,
                    );
                }
            } else if is_operator_char(c) {
                lemma_parse_rec_strips_whitespace(
                    rest,
                    toks.push(Token::Op(operator_of(c))),
                    depth,
                );
            }
        }
    }
}

/// Tokenization does not see whitespace: a character sequence parses to
/// exactly what it parses to with every space and newline removed.
pub proof fn lemma_parse_strips_whitespace(s: Seq<char>)
    ensures
        spec_parse(s) == spec_parse(strip_whitespace(s)),
{
    lemma_parse_rec_strips_whitespace(s, Seq::empty(), 0);
}

/// Whitespace insensitivity: two expressions that agree once every
/// space and newline is removed evaluate to the same outcome.
pub proof fn lemma_whitespace_insensitive(a: Seq<char>, b: Seq<char>)
    requires
        strip_whitespace(a) == strip_whitespace(b),
    ensures
        spec_calculate(a) == spec_calculate(b),
{
    lemma_parse_strips_whitespace(a);
    lemma_parse_strips_whitespace(b);
}

} // verus!
