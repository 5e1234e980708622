//! Node-building strategies. Each time the parser reduces an operator
//! or call it hands the children and the tag to a strategy: build the
//! node verbatim, fold it to a leaf when it already evaluates to a
//! number, or first apply the domain rewrite that turns a
//! multiplication with the literal `muk` path into a single namespaced
//! variable reference.
use vstd::prelude::*;
use vstd::string::StrSliceExecFns;
use vstd::string::StringExecFns;

use crate::calc::{spec_eval, ValueV};
use crate::ctx::KilaCtx;
use crate::parser::{asts_view, lemma_asts_view_index, lemma_asts_view_len, Ast, AstV, Fun};

verus! {

broadcast use vstd::std_specs::vec::group_vec_axioms, vstd::seq::group_seq_axioms;

pub open spec fn opt_ast_view(r: Option<Ast>) -> Option<AstV> {
    match r {
        Some(a) => Some(a@),
        None => None,
    }
}

/// The domain rewrite: a multiplication whose two operands are variable
/// references, exactly one of them the bare path `muk`, becomes one
/// reference to `muk` glued onto the other path. Anything else is left
/// alone.
pub open spec fn spec_fix_mulget(nodes: Seq<AstV>, fun: Fun) -> Option<AstV> {
    if fun is Mul && nodes.len() >= 2 {
        let a = nodes[nodes.len() - 1];
        let b = nodes[nodes.len() - 2];
        if a is Get && b is Get {
            let am = a->Get_0 == "muk"@;
            let bm = b->Get_0 == "muk"@;
            if am && !bm {
                Some(AstV::Get("muk"@ + b->Get_0))
            } else if bm && !am {
                Some(AstV::Get("muk"@ + a->Get_0))
            } else {
                None
            }
        } else {
            None
        }
    } else {
        None
    }
}

/// The rewrite, on trees. Takes the node list the reduction gathered
/// and gives back the replacement reference, or nothing when the
/// rewrite does not apply.
pub fn fix_mulget(nodes: Vec<Ast>, fun: Fun) -> (r: Option<Ast>)
    ensures
        opt_ast_view(r) == spec_fix_mulget(asts_view(nodes@), fun),
{
    fix_mulget_ref(&nodes, fun)
}

fn fix_mulget_ref(nodes: &Vec<Ast>, fun: Fun) -> (r: Option<Ast>)
    ensures
        opt_ast_view(r) == spec_fix_mulget(asts_view(nodes@), fun),
{
    proof {
        lemma_asts_view_len(nodes@);
    }
    let n = nodes.len();
    let is_mul = match fun {
        Fun::Mul => true,
        _ => false,
    };
    if !(is_mul && n >= 2) {
        return None;
    }
    proof {
        lemma_asts_view_index(nodes@, n - 1);
        lemma_asts_view_index(nodes@, n - 2);
    }
    let muk = String::from_str("muk");
    match (&nodes[n - 1], &nodes[n - 2]) {
        (Ast::Get(pa), Ast::Get(pb)) => {
            let am = pa.eq(&muk);
            let bm = pb.eq(&muk);
            if am && !bm {
                Some(Ast::Get(muk.concat(pb.as_str())))
            } else if bm && !am {
                Some(Ast::Get(muk.concat(pa.as_str())))
            } else {
                None
            }
        }
        _ => None,
    }
}

/// Constant folding: a node whose evaluation already yields one number
/// is replaced by that number's leaf; any other outcome keeps the node.
pub open spec fn spec_optimize<C: KilaCtx>(nodes: Seq<AstV>, fun: Fun, c: C) -> AstV {
    match spec_eval(AstV::Node(nodes, fun), c) {
        Ok(ValueV::Num(n)) => AstV::Leaf(n),
        _ => AstV::Node(nodes, fun),
    }
}

/// Constant folding, on trees.
pub fn optimize<C: KilaCtx>(nodes: Vec<Ast>, fun: Fun, c: C) -> (r: Ast)
    ensures
        r@ == spec_optimize(asts_view(nodes@), fun, c),
{
    optimize_ref(nodes, fun, &c)
}

fn optimize_ref<C: KilaCtx>(nodes: Vec<Ast>, fun: Fun, c: &C) -> (r: Ast)
    ensures
        r@ == spec_optimize(asts_view(nodes@), fun, *c),
{
    let node = Ast::Node(nodes, fun);
    match crate::calc::eval(&node, c) {
        Ok(crate::calc::Value::Num(n)) => Ast::Leaf(n),
        _ => node,
    }
}

/// The identity strategy: the parse tree verbatim.
pub open spec fn spec_empty_app(nodes: Seq<AstV>, fun: Fun) -> AstV {
    AstV::Node(nodes, fun)
}

/// The identity strategy, on trees.
pub fn empty<C: KilaCtx>(nodes: Vec<Ast>, fun: Fun, _c: C) -> (r: Ast)
    ensures
        r@ == spec_empty_app(asts_view(nodes@), fun),
{
    Ast::Node(nodes, fun)
}

/// The default strategy: the domain rewrite where it applies — the
/// rewritten reference is used as it stands — and constant folding
/// everywhere else.
pub open spec fn spec_basic<C: KilaCtx>(nodes: Seq<AstV>, fun: Fun, c: C) -> AstV {
    match spec_fix_mulget(nodes, fun) {
        Some(a) => a,
        None => spec_optimize(nodes, fun, c),
    }
}

/// The default strategy, on trees.
pub fn basic<C: KilaCtx>(nodes: Vec<Ast>, fun: Fun, c: C) -> (r: Ast)
    ensures
        r@ == spec_basic(asts_view(nodes@), fun, c),
{
    basic_ref(nodes, fun, &c)
}

fn basic_ref<C: KilaCtx>(nodes: Vec<Ast>, fun: Fun, c: &C) -> (r: Ast)
    ensures
        r@ == spec_basic(asts_view(nodes@), fun, *c),
{
    match fix_mulget_ref(&nodes, fun) {
        Some(a) => a,
        None => optimize_ref(nodes, fun, c),
    }
}

/// A node-building strategy the parser is parameterized over.
pub trait Applicator<C: KilaCtx>: Sized {
    /// What this strategy builds from a reduction.
    spec fn spec_apply(&self, nodes: Seq<AstV>, fun: Fun, c: C) -> AstV;

    /// Build the fragment for one reduction.
    fn apply(&self, nodes: Vec<Ast>, fun: Fun, c: &C) -> (r: Ast)
        ensures
            r@ == self.spec_apply(asts_view(nodes@), fun, *c),
    ;
}

/// The identity strategy as a value.
pub struct EmptyApp;

impl<C: KilaCtx> Applicator<C> for EmptyApp {
    open spec fn spec_apply(&self, nodes: Seq<AstV>, fun: Fun, c: C) -> AstV {
        spec_empty_app(nodes, fun)
    }

    fn apply(&self, nodes: Vec<Ast>, fun: Fun, c: &C) -> (r: Ast) {
        Ast::Node(nodes, fun)
    }
}

/// The constant-folding strategy as a value.
pub struct OptimizeApp;

impl<C: KilaCtx> Applicator<C> for OptimizeApp {
    open spec fn spec_apply(&self, nodes: Seq<AstV>, fun: Fun, c: C) -> AstV {
        spec_optimize(nodes, fun, c)
    }

    fn apply(&self, nodes: Vec<Ast>, fun: Fun, c: &C) -> (r: Ast) {
        optimize_ref(nodes, fun, c)
    }
}

/// The default strategy — rewrite, then fold — as a value.
pub struct BasicApp;

impl<C: KilaCtx> Applicator<C> for BasicApp {
    open spec fn spec_apply(&self, nodes: Seq<AstV>, fun: Fun, c: C) -> AstV {
        spec_basic(nodes, fun, c)
    }

    fn apply(&self, nodes: Vec<Ast>, fun: Fun, c: &C) -> (r: Ast) {
        basic_ref(nodes, fun, c)
    }
}

} // verus!
