//! The evaluator: reduce a tree and a context to a single value. A
//! node's children are evaluated left to right into a flat operand
//! list; a child that yields a sequence replaces everything gathered so
//! far and ends the walk over its siblings — that reduction rule is
//! deliberate and preserved. Dispatch then consumes the operand list
//! according to the node's tag.
use vstd::prelude::*;
use vstd::string::StringExecFns;

use crate::ctx::KilaCtx;
use crate::kipac;
use crate::num::Num;
use crate::num::SCALE;
use crate::num::{
    spec_abs, spec_add, spec_div, spec_le, spec_mul, spec_num_eq, spec_powf, spec_rem, spec_sub,
    spec_index_of,
};
use crate::parser::{asts_view, ast_view, lemma_asts_view_index, lemma_asts_view_len, Ast, AstV, Fun};

verus! {

broadcast use vstd::std_specs::vec::group_vec_axioms, vstd::seq::group_seq_axioms;

/// What evaluation returns: one number, or a flat sequence of numbers.
#[derive(Debug, Clone, PartialEq)]
pub enum Value {
    Num(Num),
    Vec(Vec<Num>),
}

/// The mathematical shape of a value.
pub enum ValueV {
    Num(Num),
    Vec(Seq<Num>),
}

pub open spec fn value_view(v: Value) -> ValueV {
    match v {
        Value::Num(n) => ValueV::Num(n),
        Value::Vec(ns) => ValueV::Vec(ns@),
    }
}

pub open spec fn val_res_view(r: Result<Value, String>) -> Result<ValueV, Seq<char>> {
    match r {
        Ok(v) => Ok(value_view(v)),
        Err(e) => Err(e@),
    }
}

/// The numbers in a list node, if every child is a numeric leaf.
pub open spec fn spec_leaf_nums(v: Seq<AstV>) -> Option<Seq<Num>>
    decreases v,
{
    if v.len() == 0 {
        Some(Seq::empty())
    } else {
        match spec_leaf_nums(v.drop_last()) {
            None => None,
            Some(pre) => match v.last() {
                AstV::Leaf(n) => Some(pre.push(n)),
                _ => None,
            },
        }
    }
}

/// What a resolved fragment is worth: a leaf is its number, a list of
/// leaves is its sequence, and every other shape is an error.
pub open spec fn spec_ast_to_value(a: AstV) -> Result<ValueV, Seq<char>> {
    match a {
        AstV::Leaf(n) => Ok(ValueV::Num(n)),
        AstV::Node(v, f) => if f is List {
            match spec_leaf_nums(v) {
                Some(ns) => Ok(ValueV::Vec(ns)),
                None => Err("A member of the list node is not a leaf"@),
            }
        } else {
            Err("The node is not a list"@)
        },
        _ => Err("The node is not a leaf"@),
    }
}

/// An operand list while it accumulates: gathered number by number, or
/// adopted whole from a sequence-valued child.
pub enum Operands {
    Accum(Seq<Num>),
    Shadowed(Seq<Num>),
}

impl Operands {
    /// The list itself, however it came about.
    pub open spec fn nums(self) -> Seq<Num> {
        match self {
            Operands::Accum(s) => s,
            Operands::Shadowed(s) => s,
        }
    }
}

/// Evaluate children left to right. A number joins the list; a sequence
/// discards everything gathered so far, becomes the whole list, and
/// ends the walk, so children after it are never evaluated; an error
/// propagates.
pub open spec fn spec_operands<C: KilaCtx>(v: Seq<AstV>, c: C) -> Result<Operands, Seq<char>>
    decreases v, 1int,
{
    if v.len() == 0 {
        Ok(Operands::Accum(Seq::empty()))
    } else {
        match spec_eval(v[0], c) {
            Err(e) => Err(e),
            Ok(ValueV::Vec(ns)) => Ok(Operands::Shadowed(ns)),
            Ok(ValueV::Num(n)) => match spec_operands(v.drop_first(), c) {
                Err(e) => Err(e),
                Ok(Operands::Shadowed(ns)) => Ok(Operands::Shadowed(ns)),
                Ok(Operands::Accum(t)) => Ok(Operands::Accum(seq![n] + t)),
            },
        }
    }
}

/// Apply a tag to its operand list.
pub open spec fn spec_dispatch(fun: Fun, res: Seq<Num>) -> Result<ValueV, Seq<char>> {
    match fun {
        Fun::Abs => if res.len() >= 1 {
            Ok(ValueV::Num(spec_abs(res[0])))
        } else {
            Err(missing_msg())
        },
        Fun::Aikavali => if res.len() >= 2 {
            Ok(ValueV::Num(kipac::spec_aikavali(res[0], res[1])))
        } else {
            Err(missing_msg())
        },
        Fun::Floor => if res.len() >= 1 {
            Ok(ValueV::Num(crate::num::spec_floor(res[0])))
        } else {
            Err(missing_msg())
        },
        Fun::Ceil => if res.len() >= 1 {
            Ok(ValueV::Num(crate::num::spec_ceil(res[0])))
        } else {
            Err(missing_msg())
        },
        Fun::Pow => if res.len() >= 2 {
            Ok(ValueV::Num(spec_powf(res[0], res[1])))
        } else {
            Err(missing_msg())
        },
        Fun::Interpoloi => if res.len() >= 4 {
            Ok(ValueV::Num(kipac::spec_interpoloi(res[0], res[1], res[2], res[3])))
        } else {
            Err(missing_msg())
        },
        Fun::Aikainterp => if res.len() >= 3 {
            Ok(
                ValueV::Num(
                    kipac::spec_interpoloi(res[0], res[1], spec_add(res[1], res[2]), res[2]),
                ),
            )
        } else {
            Err(missing_msg())
        },
        Fun::Min => Ok(ValueV::Num(kipac::spec_min_seq(res))),
        Fun::Max => Ok(ValueV::Num(kipac::spec_max_seq(res))),
        Fun::Sum | Fun::Add => Ok(ValueV::Num(kipac::spec_sum_seq(res))),
        Fun::Med => Ok(ValueV::Num(kipac::spec_median(res))),
        Fun::Kesk => Ok(ValueV::Num(kipac::spec_mean_seq(res))),
        Fun::Div => if res.len() >= 2 {
            Ok(ValueV::Num(spec_div(res[0], res[1])))
        } else {
            Err(missing_msg())
        },
        Fun::Mul => if res.len() >= 2 {
            Ok(ValueV::Num(spec_mul(res[0], res[1])))
        } else {
            Err(missing_msg())
        },
        Fun::Sub => if res.len() >= 2 {
            Ok(ValueV::Num(spec_sub(res[0], res[1])))
        } else {
            Err(missing_msg())
        },
        Fun::Mod => if res.len() >= 2 {
            Ok(ValueV::Num(spec_rem(res[0], res[1])))
        } else {
            Err(missing_msg())
        },
        Fun::Minus => if res.len() >= 1 {
            Ok(ValueV::Num(spec_mul(Num::Fin((-(SCALE as int)) as i128), res[0])))
        } else {
            Err(missing_msg())
        },
        Fun::Plus => if res.len() >= 1 {
            Ok(ValueV::Num(res[0]))
        } else {
            Err(missing_msg())
        },
        Fun::Eq => if res.len() >= 2 {
            Ok(ValueV::Num(spec_cond(spec_num_eq(res[0], res[1]))))
        } else {
            Err(missing_msg())
        },
        Fun::Neq => if res.len() >= 2 {
            Ok(ValueV::Num(spec_cond(!spec_num_eq(res[0], res[1]))))
        } else {
            Err(missing_msg())
        },
        Fun::Ge => if res.len() >= 2 {
            Ok(ValueV::Num(spec_cond(spec_le(res[1], res[0]))))
        } else {
            Err(missing_msg())
        },
        Fun::Le => if res.len() >= 2 {
            Ok(ValueV::Num(spec_cond(spec_le(res[0], res[1]))))
        } else {
            Err(missing_msg())
        },
        Fun::Lt => if res.len() >= 2 {
            Ok(ValueV::Num(spec_cond(crate::num::spec_lt(res[1], res[0]))))
        } else {
            Err(missing_msg())
        },
        Fun::Gt => if res.len() >= 2 {
            Ok(ValueV::Num(spec_cond(crate::num::spec_lt(res[0], res[1]))))
        } else {
            Err(missing_msg())
        },
        Fun::If => {
            let k = spec_index_of(res[0]);
            if res.len() >= 2 && k < res.len() - 1 {
                Ok(ValueV::Num(res[k + 1]))
            } else {
                Err("The selector is out of range"@)
            }
        },
        Fun::List => Ok(ValueV::Vec(res)),
        Fun::Log | Fun::Ln | Fun::Sqrt | Fun::Exp | Fun::Logb | Fun::Sin | Fun::Cos | Fun::Tan
            | Fun::Arcsin | Fun::Arccos | Fun::Arctan => Err(inexact_msg()),
        _ => Err("The function has no evaluation rule"@),
    }
}

/// One for a true comparison, zero for a false one.
pub open spec fn spec_cond(b: bool) -> Num {
    if b {
        Num::Fin(SCALE as i128)
    } else {
        Num::Fin(0)
    }
}

pub open spec fn missing_msg() -> Seq<char> {
    "An operand of the function is missing"@
}

pub open spec fn inexact_msg() -> Seq<char> {
    "The function has no exact evaluation rule"@
}

/// The value of a tree under a context.
pub open spec fn spec_eval<C: KilaCtx>(a: AstV, c: C) -> Result<ValueV, Seq<char>>
    decreases a, 2int,
{
    match a {
        AstV::Empty => Err("Met an empty syntax tree node"@),
        AstV::Leaf(n) => Ok(ValueV::Num(n)),
        AstV::Get(s) => match c.spec_get(s) {
            Ok(f) => spec_ast_to_value(f),
            Err(e) => Err(e),
        },
        AstV::Node(v, fun) => match spec_operands(v, c) {
            Err(e) => Err(e),
            Ok(ops) => spec_dispatch(fun, ops.nums()),
        },
    }
}

/// A child list with a non-leaf member never collects into numbers.
proof fn lemma_leaf_nums_none(s: Seq<AstV>, i: int)
    requires
        0 <= i < s.len(),
        !(s[i] is Leaf),
    ensures
        spec_leaf_nums(s) is None,
    decreases s,
{
    if i < s.len() - 1 {
        lemma_leaf_nums_none(s.drop_last(), i);
    }
}

/// What a resolved fragment is worth, executably.
#[verifier::loop_isolation(false)]
fn ast_to_value(a: Ast) -> (r: Result<Value, String>)
    ensures
        val_res_view(r) == spec_ast_to_value(a@),
{
    let ghost av = a@;
    match a {
        Ast::Leaf(n) => Ok(Value::Num(n)),
        Ast::Node(v, f) => {
            match f {
                Fun::List => {
                    let mut dv: Vec<Num> = Vec::new();
                    let ghost children = asts_view(v@);
                    proof {
                        lemma_asts_view_len(v@);
                        assert(av == AstV::Node(children, Fun::List));
                        assert(children.subrange(0, 0) =~= Seq::<AstV>::empty());
                    }
                    let mut i: usize = 0;
                    while i < v.len()
                        invariant
                            0 <= i <= v@.len(),
                            children == asts_view(v@),
                            children.len() == v@.len(),
                            av == AstV::Node(children, Fun::List),
                            spec_leaf_nums(children.subrange(0, i as int)) == Some(dv@),
                        decreases v@.len() - i,
                    {
                        proof {
                            lemma_asts_view_index(v@, i as int);
                            assert(children.subrange(0, i + 1).drop_last() =~= children.subrange(
                                0,
                                i as int,
                            ));
                        }
                        match &v[i] {
                            Ast::Leaf(n) => {
                                dv.push(*n);
                            }
                            _ => {
                                proof {
                                    lemma_leaf_nums_none(children, i as int);
                                }
                                return Err(
                                    String::from_str("A member of the list node is not a leaf"),
                                );
                            }
                        }
                        i = i + 1;
                    }
                    proof {
                        assert(children.subrange(0, children.len() as int) =~= children);
                    }
                    Ok(Value::Vec(dv))
                }
                _ => Err(String::from_str("The node is not a list")),
            }
        }
        _ => Err(String::from_str("The node is not a leaf")),
    }
}

/// Apply a tag to its gathered operands, executably.
fn dispatch(fun: Fun, res: Vec<Num>) -> (r: Result<Value, String>)
    ensures
        val_res_view(r) == spec_dispatch(fun, res@),
{
    match fun {
        Fun::Abs => if res.len() >= 1 {
            Ok(Value::Num(kipac::abs(res[0])))
        } else {
            Err(missing())
        },
        Fun::Aikavali => if res.len() >= 2 {
            Ok(Value::Num(kipac::aikavali(res[0], res[1])))
        } else {
            Err(missing())
        },
        Fun::Floor => if res.len() >= 1 {
            Ok(Value::Num(kipac::floor(res[0])))
        } else {
            Err(missing())
        },
        Fun::Ceil => if res.len() >= 1 {
            Ok(Value::Num(kipac::ceil(res[0])))
        } else {
            Err(missing())
        },
        Fun::Pow => if res.len() >= 2 {
            Ok(Value::Num(res[0].powf(&res[1])))
        } else {
            Err(missing())
        },
        Fun::Interpoloi => if res.len() >= 4 {
            Ok(Value::Num(kipac::interpoloi(res[0], res[1], res[2], res[3], Num::Fin(0))))
        } else {
            Err(missing())
        },
        Fun::Aikainterp => if res.len() >= 3 {
            Ok(
                Value::Num(
                    kipac::interpoloi(
                        res[0],
                        res[1],
                        res[1].plus(&res[2]),
                        res[2],
                        Num::Fin(0),
                    ),
                ),
            )
        } else {
            Err(missing())
        },
        Fun::Min => Ok(Value::Num(kipac::min(res))),
        Fun::Max => Ok(Value::Num(kipac::max(res))),
        Fun::Sum | Fun::Add => Ok(Value::Num(kipac::sum(res))),
        Fun::Med => Ok(Value::Num(kipac::median(res))),
        Fun::Kesk => Ok(Value::Num(kipac::mean(res))),
        Fun::Div => if res.len() >= 2 {
            Ok(Value::Num(res[0].divide(&res[1])))
        } else {
            Err(missing())
        },
        Fun::Mul => if res.len() >= 2 {
            Ok(Value::Num(res[0].times(&res[1])))
        } else {
            Err(missing())
        },
        Fun::Sub => if res.len() >= 2 {
            Ok(Value::Num(res[0].minus(&res[1])))
        } else {
            Err(missing())
        },
        Fun::Mod => if res.len() >= 2 {
            Ok(Value::Num(res[0].rem(&res[1])))
        } else {
            Err(missing())
        },
        Fun::Minus => if res.len() >= 1 {
            Ok(Value::Num(Num::Fin(-SCALE).times(&res[0])))
        } else {
            Err(missing())
        },
        Fun::Plus => if res.len() >= 1 {
            Ok(Value::Num(res[0]))
        } else {
            Err(missing())
        },
        Fun::Eq => if res.len() >= 2 {
            Ok(Value::Num(cond(res[0].eq_num(&res[1]))))
        } else {
            Err(missing())
        },
        Fun::Neq => if res.len() >= 2 {
            Ok(Value::Num(cond(!res[0].eq_num(&res[1]))))
        } else {
            Err(missing())
        },
        Fun::Ge => if res.len() >= 2 {
            Ok(Value::Num(cond(res[1].le(&res[0]))))
        } else {
            Err(missing())
        },
        Fun::Le => if res.len() >= 2 {
            Ok(Value::Num(cond(res[0].le(&res[1]))))
        } else {
            Err(missing())
        },
        Fun::Lt => if res.len() >= 2 {
            Ok(Value::Num(cond(res[1].lt(&res[0]))))
        } else {
            Err(missing())
        },
        Fun::Gt => if res.len() >= 2 {
            Ok(Value::Num(cond(res[0].lt(&res[1]))))
        } else {
            Err(missing())
        },
        Fun::If => {
            if res.len() < 2 {
                Err(String::from_str("The selector is out of range"))
            } else {
                let k = res[0].index_of();
                if k < res.len() - 1 {
                    Ok(Value::Num(res[k + 1]))
                } else {
                    Err(String::from_str("The selector is out of range"))
                }
            }
        },
        Fun::List => Ok(Value::Vec(res)),
        Fun::Log | Fun::Ln | Fun::Sqrt | Fun::Exp | Fun::Logb | Fun::Sin | Fun::Cos | Fun::Tan
            | Fun::Arcsin | Fun::Arccos | Fun::Arctan => Err(
            String::from_str("The function has no exact evaluation rule"),
        ),
        _ => Err(String::from_str("The function has no evaluation rule")),
    }
}

fn missing() -> (r: String)
    ensures
        r@ == missing_msg(),
{
    String::from_str("An operand of the function is missing")
}

fn cond(b: bool) -> (r: Num)
    ensures
        r == spec_cond(b),
{
    if b {
        Num::Fin(SCALE)
    } else {
        Num::Fin(0)
    }
}

/// How a gathered prefix and the rest of the walk combine.
spec fn compose_operands(pre: Seq<Num>, r: Result<Operands, Seq<char>>) -> Result<
    Operands,
    Seq<char>,
> {
    match r {
        Err(e) => Err(e),
        Ok(Operands::Shadowed(ns)) => Ok(Operands::Shadowed(ns)),
        Ok(Operands::Accum(t)) => Ok(Operands::Accum(pre + t)),
    }
}

/// Evaluate a tree under a context. Returns the computed value, or the
/// first error met on a left-to-right, depth-first walk. Two conditions
/// the error-handling design calls fatal faults rather than recoverable
/// errors — a conditional selector out of range, and the empty marker,
/// which a correctly built tree never contains — are rendered here as
/// error returns with their own messages, since a verified function may
/// not panic; neither is ever silently repaired.
#[verifier::rlimit(50)]
#[verifier::loop_isolation(false)]
pub fn eval<C: KilaCtx>(ast: &Ast, c: &C) -> (r: Result<Value, String>)
    ensures
        val_res_view(r) == spec_eval(ast@, *c),
    decreases ast,
{
    match ast {
        Ast::Empty => Err(String::from_str("Met an empty syntax tree node")),
        Ast::Leaf(n) => Ok(Value::Num(*n)),
        Ast::Get(s) => match c.get(s.clone()) {
            Ok(f) => ast_to_value(f),
            Err(e) => Err(e),
        },
        Ast::Node(v, fun) => {
            let ghost children = asts_view(v@);
            proof {
                lemma_asts_view_len(v@);
                assert forall|j: int| 0 <= j < v@.len() implies #[trigger] children[j]
                    == v@[j]@ by {
                    lemma_asts_view_index(v@, j);
                }
                assert(children.skip(0) =~= children);
                let r0 = spec_operands(children, *c);
                match r0 {
                    Ok(Operands::Accum(t)) => {
                        assert(Seq::<Num>::empty() + t =~= t);
                    }
                    _ => {}
                }
            }
            let mut res: Vec<Num> = Vec::new();
            let mut i: usize = 0;
            while i < v.len()
                invariant
                    0 <= i <= v@.len(),
                    spec_operands(children, *c) == compose_operands(
                        res@,
                        spec_operands(children.skip(i as int), *c),
                    ),
                decreases v@.len() - i,
            {
                proof {
                    vstd::std_specs::vec::axiom_vec_index_decreases::<Ast>(*v, i as int);
                    assert(decreases_to!(*ast => v@[i as int]));
                    assert(children.skip(i as int).len() > 0);
                    assert(children.skip(i as int)[0] == children[i as int]);
                    assert(children.skip(i as int).drop_first() =~= children.skip(i + 1));
                }
                match eval(&v[i], c) {
                    Err(e) => {
                        return Err(e);
                    }
                    Ok(Value::Num(n)) => {
                        proof {
                            let tail = spec_operands(children.skip(i + 1), *c);
                            match tail {
                                Ok(Operands::Accum(t)) => {
                                    assert(res@ + (seq![n] + t) =~= (res@.push(n)) + t);
                                }
                                _ => {}
                            }
                        }
                        res.push(n);
                        i = i + 1;
                    }
                    Ok(Value::Vec(ns)) => {
                        return dispatch(*fun, ns);
                    }
                }
            }
            proof {
                assert(children.skip(i as int) =~= Seq::<AstV>::empty());
                assert(res@ + Seq::<Num>::empty() =~= res@);
            }
            dispatch(*fun, res)
        }
    }
}

/// The view of a single-number result.
pub open spec fn num_res_view(r: Result<Num, String>) -> Result<Num, Seq<char>> {
    match r {
        Ok(n) => Ok(n),
        Err(e) => Err(e@),
    }
}

/// What evaluating a whole source text yields: scan, parse with the
/// default strategy, evaluate, and accept only a single number.
pub open spec fn spec_calculate_err<C: KilaCtx>(s: Seq<char>, c: C) -> Result<Num, Seq<char>> {
    match crate::parser::spec_parse(crate::lexer::spec_lex(s, 0, Seq::empty()), c) {
        Err(e) => Err(e),
        Ok(a) => match spec_eval(a, c) {
            Err(e) => Err(e),
            Ok(ValueV::Num(n)) => Ok(n),
            Ok(ValueV::Vec(_)) => Err("Got a sequence instead of a number"@),
        },
    }
}

/// Evaluate a source text under a context, to one number or an error.
pub fn calculate_err<C: KilaCtx>(s: String, c: C) -> (r: Result<Num, String>)
    ensures
        num_res_view(r) == spec_calculate_err(s@, c),
{
    let tokens = crate::lexer::lex(s.as_str());
    match crate::parser::parse(tokens, &c) {
        Err(e) => Err(e),
        Ok(a) => match eval(&a, &c) {
            Err(e) => Err(e),
            Ok(Value::Num(n)) => Ok(n),
            Ok(Value::Vec(_)) => Err(String::from_str("Got a sequence instead of a number")),
        },
    }
}

/// Evaluate a source text that is known to denote one number, with the
/// resolver that resolves nothing.
pub fn calculate(s: String) -> (r: Num)
    requires
        spec_calculate_err(s@, crate::ctx::EmptyCtx) is Ok,
    ensures
        Ok::<Num, Seq<char>>(r) == spec_calculate_err(s@, crate::ctx::EmptyCtx),
{
    match calculate_err(s, crate::ctx::EmptyCtx) {
        Ok(n) => n,
        Err(_) => vstd::pervasive::unreached(),
    }
}

} // verus!
