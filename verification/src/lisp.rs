//! Translation of a token stream toward prefix notation: every
//! arithmetic operator is moved in front of the token before it.
use vstd::prelude::*;

use crate::lexer::{toks_view, Token, TokenV};

verus! {

/// Whether a token is one of the infix arithmetic operators the
/// translation moves forward.
pub open spec fn lisp_op(t: TokenV) -> bool {
    t is Add || t is Sub || t is Div || t is Mul || t is Imod || t is Ipow
}

/// The translated stream from position `i` onward: an operator that
/// follows a token is emitted before it, pairwise.
pub open spec fn spec_lispify(s: Seq<TokenV>, i: int) -> Seq<TokenV>
    decreases s.len() - i,
{
    if i < 0 || i >= s.len() {
        Seq::empty()
    } else if i + 1 < s.len() && lisp_op(s[i + 1]) {
        seq![s[i + 1], s[i]] + spec_lispify(s, i + 2)
    } else {
        seq![s[i]] + spec_lispify(s, i + 1)
    }
}

/// Move each arithmetic operator in front of the token before it.
#[verifier::loop_isolation(false)]
pub fn lispify(input: Vec<Token>) -> (r: Vec<Token>)
    ensures
        toks_view(r@) == spec_lispify(toks_view(input@), 0),
{
    let ghost toks = toks_view(input@);
    let mut output: Vec<Token> = Vec::new();
    let mut i: usize = 0;
    proof {
        assert(toks_view(output@) =~= Seq::<TokenV>::empty());
        assert(Seq::<TokenV>::empty() + spec_lispify(toks, 0) =~= spec_lispify(toks, 0));
    }
    while i < input.len()
        invariant
            0 <= i <= input@.len(),
            spec_lispify(toks, 0) == toks_view(output@) + spec_lispify(toks, i as int),
        decreases input@.len() - i,
    {
        let ghost out_pre = toks_view(output@);
        let has_op_next = if i + 1 < input.len() {
            match &input[i + 1] {
                Token::Add | Token::Sub | Token::Div | Token::Mul | Token::Imod | Token::Ipow
                    => true,
                _ => false,
            }
        } else {
            false
        };
        if has_op_next {
            output.push(input[i + 1].clone());
            output.push(input[i].clone());
            proof {
                assert(toks_view(output@) =~= out_pre + seq![toks[i as int + 1], toks[i as int]]);
                assert(out_pre + (seq![toks[i as int + 1], toks[i as int]] + spec_lispify(
                    toks,
                    i + 2,
                )) =~= (out_pre + seq![toks[i as int + 1], toks[i as int]]) + spec_lispify(
                    toks,
                    i + 2,
                ));
            }
            i = i + 2;
        } else {
            output.push(input[i].clone());
            proof {
                assert(toks_view(output@) =~= out_pre + seq![toks[i as int]]);
                assert(out_pre + (seq![toks[i as int]] + spec_lispify(toks, i + 1)) =~= (out_pre
                    + seq![toks[i as int]]) + spec_lispify(toks, i + 1));
            }
            i = i + 1;
        }
    }
    proof {
        assert(toks_view(output@) + Seq::<TokenV>::empty() =~= toks_view(output@));
    }
    output
}

} // verus!
