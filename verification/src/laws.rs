//! The library's laws: constant folding neither changes what an
//! expression evaluates to nor does anything on a second pass.
use vstd::prelude::*;

use crate::applicators::{spec_basic, spec_fix_mulget, spec_optimize, BasicApp, EmptyApp};
use crate::calc::{spec_eval, spec_operands, ValueV};
use crate::ctx::KilaCtx;
use crate::kipac;
use crate::lexer::TokenV;
use crate::num::Num;
use crate::parser::{
    spec_arity, spec_drain, spec_fun_of, spec_parse_fn, spec_parse_iter, spec_reduce, spec_step,
    AstV, Fun, ParseSt, StopKind,
};

verus! {

/// A tree without variable references.
pub open spec fn no_get(a: AstV) -> bool
    decreases a,
{
    match a {
        AstV::Node(v, f) => forall|i: int| 0 <= i < v.len() ==> no_get(#[trigger] v[i]),
        AstV::Get(_) => false,
        _ => true,
    }
}

/// Operand gathering sees only what the children evaluate to: two child
/// lists whose members evaluate alike gather alike.
proof fn lemma_operands_congruence<C: KilaCtx>(v1: Seq<AstV>, v2: Seq<AstV>, c: C)
    requires
        v1.len() == v2.len(),
        forall|i: int|
            0 <= i < v1.len() ==> spec_eval(#[trigger] v1[i], c) == spec_eval(#[trigger] v2[i], c),
    ensures
        spec_operands(v1, c) == spec_operands(v2, c),
    decreases v1.len(),
{
    if v1.len() > 0 {
        assert(spec_eval(v1[0], c) == spec_eval(v2[0], c));
        assert forall|i: int| 0 <= i < v1.drop_first().len() implies spec_eval(
            #[trigger] v1.drop_first()[i],
            c,
        ) == spec_eval(#[trigger] v2.drop_first()[i], c) by {
            assert(v1.drop_first()[i] == v1[i + 1]);
            assert(v2.drop_first()[i] == v2[i + 1]);
        }
        lemma_operands_congruence(v1.drop_first(), v2.drop_first(), c);
    }
}

/// A node's value depends only on what its children evaluate to.
proof fn lemma_node_congruence<C: KilaCtx>(v1: Seq<AstV>, v2: Seq<AstV>, f: Fun, c: C)
    requires
        v1.len() == v2.len(),
        forall|i: int|
            0 <= i < v1.len() ==> spec_eval(#[trigger] v1[i], c) == spec_eval(#[trigger] v2[i], c),
    ensures
        spec_eval(AstV::Node(v1, f), c) == spec_eval(AstV::Node(v2, f), c),
{
    lemma_operands_congruence(v1, v2, c);
}

/// Folding one reduction is invisible to evaluation: the fragment the
/// fold applicator builds evaluates exactly as the unfolded node would.
pub proof fn lemma_optimize_preserves_eval<C: KilaCtx>(nodes: Seq<AstV>, f: Fun, c: C)
    ensures
        spec_eval(spec_optimize(nodes, f, c), c) == spec_eval(AstV::Node(nodes, f), c),
{
}

/// Folding never introduces a variable reference.
proof fn lemma_optimize_no_get<C: KilaCtx>(nodes: Seq<AstV>, f: Fun, c: C)
    requires
        forall|i: int| 0 <= i < nodes.len() ==> no_get(#[trigger] nodes[i]),
    ensures
        no_get(spec_optimize(nodes, f, c)),
{
}

/// On children without variable references the default strategy is
/// exactly the fold: the domain rewrite asks for two references and
/// never fires.
proof fn lemma_basic_is_optimize_without_gets<C: KilaCtx>(nodes: Seq<AstV>, f: Fun, c: C)
    requires
        forall|i: int| 0 <= i < nodes.len() ==> no_get(#[trigger] nodes[i]),
    ensures
        spec_basic(nodes, f, c) == spec_optimize(nodes, f, c),
{
    if f is Mul && nodes.len() >= 2 {
        assert(no_get(nodes[nodes.len() - 1]));
        assert(no_get(nodes[nodes.len() - 2]));
        assert(spec_fix_mulget(nodes, f) is None);
    }
}

/// Fold a whole tree bottom up, as parsing with the fold strategy does
/// at each reduction.
pub open spec fn spec_fold<C: KilaCtx>(a: AstV, c: C) -> AstV
    decreases a, 1int,
{
    match a {
        AstV::Node(v, f) => spec_optimize(spec_fold_children(v, c), f, c),
        _ => a,
    }
}

pub open spec fn spec_fold_children<C: KilaCtx>(v: Seq<AstV>, c: C) -> Seq<AstV>
    decreases v, 0int,
{
    if v.len() == 0 {
        Seq::empty()
    } else {
        spec_fold_children(v.drop_last(), c).push(spec_fold(v.last(), c))
    }
}

proof fn lemma_fold_children_shape<C: KilaCtx>(v: Seq<AstV>, c: C)
    ensures
        spec_fold_children(v, c).len() == v.len(),
        forall|i: int|
            0 <= i < v.len() ==> #[trigger] spec_fold_children(v, c)[i] == spec_fold(v[i], c),
    decreases v,
{
    if v.len() > 0 {
        lemma_fold_children_shape(v.drop_last(), c);
    }
}

/// Folding a tree does not change what it evaluates to.
pub proof fn theorem_fold_preserves_eval<C: KilaCtx>(a: AstV, c: C)
    ensures
        spec_eval(spec_fold(a, c), c) == spec_eval(a, c),
    decreases a, 1int,
{
    match a {
        AstV::Node(v, f) => {
            lemma_fold_children_eval(v, c);
            lemma_node_congruence(spec_fold_children(v, c), v, f, c);
            lemma_optimize_preserves_eval(spec_fold_children(v, c), f, c);
        }
        _ => {}
    }
}

proof fn lemma_fold_children_eval<C: KilaCtx>(v: Seq<AstV>, c: C)
    ensures
        spec_fold_children(v, c).len() == v.len(),
        forall|i: int|
            0 <= i < v.len() ==> spec_eval(#[trigger] spec_fold_children(v, c)[i], c) == spec_eval(
                v[i],
                c,
            ),
    decreases v, 2int,
{
    lemma_fold_children_shape(v, c);
    assert forall|i: int| 0 <= i < v.len() implies spec_eval(
        #[trigger] spec_fold_children(v, c)[i],
        c,
    ) == spec_eval(v[i], c) by {
        theorem_fold_preserves_eval(v[i], c);
    }
}

/// Folding twice is folding once: an already folded tree — in
/// particular a fully numeric subtree already reduced to its leaf —
/// comes back unchanged from a second pass.
pub proof fn theorem_fold_idempotent<C: KilaCtx>(a: AstV, c: C)
    ensures
        spec_fold(spec_fold(a, c), c) == spec_fold(a, c),
    decreases a, 1int,
{
    match a {
        AstV::Node(v, f) => {
            let fc = spec_fold_children(v, c);
            lemma_fold_children_shape(v, c);
            lemma_fold_children_shape(fc, c);
            lemma_fold_children_idempotent(v, c);
            assert(spec_fold_children(fc, c) =~= fc);
            lemma_fold_children_eval(v, c);
            lemma_node_congruence(fc, v, f, c);
            match spec_eval(AstV::Node(fc, f), c) {
                Ok(ValueV::Num(n)) => {
                    assert(spec_fold(a, c) == AstV::Leaf(n));
                }
                _ => {
                    assert(spec_fold(a, c) == AstV::Node(fc, f));
                    assert(spec_fold(spec_fold(a, c), c) == spec_optimize(
                        spec_fold_children(fc, c),
                        f,
                        c,
                    ));
                }
            }
        }
        _ => {}
    }
}

proof fn lemma_fold_children_idempotent<C: KilaCtx>(v: Seq<AstV>, c: C)
    ensures
        forall|i: int|
            0 <= i < v.len() ==> spec_fold(#[trigger] spec_fold_children(v, c)[i], c)
                == spec_fold_children(v, c)[i],
    decreases v, 2int,
{
    lemma_fold_children_shape(v, c);
    assert forall|i: int| 0 <= i < v.len() implies spec_fold(
        #[trigger] spec_fold_children(v, c)[i],
        c,
    ) == spec_fold_children(v, c)[i] by {
        theorem_fold_idempotent(v[i], c);
    }
}

/// A tree without the empty marker.
pub open spec fn no_empty(a: AstV) -> bool
    decreases a,
{
    match a {
        AstV::Node(v, f) => forall|i: int| 0 <= i < v.len() ==> no_empty(#[trigger] v[i]),
        AstV::Empty => false,
        _ => true,
    }
}

/// A stack of fragments without the empty marker.
pub open spec fn stack_no_empty(n: Seq<AstV>) -> bool {
    forall|i: int| 0 <= i < n.len() ==> no_empty(#[trigger] n[i])
}

/// The default strategy never builds the empty marker from children
/// free of it.
proof fn lemma_basic_no_empty<C: KilaCtx>(nodes: Seq<AstV>, f: Fun, c: C)
    requires
        stack_no_empty(nodes),
    ensures
        no_empty(spec_basic(nodes, f, c)),
{
}

proof fn lemma_reduce_no_empty<C: KilaCtx>(op: TokenV, n: Seq<AstV>, ar: Seq<usize>, c: C)
    requires
        stack_no_empty(n),
    ensures
        match spec_reduce(op, n, ar, BasicApp, c) {
            Ok(p) => stack_no_empty(p.0),
            Err(_) => true,
        },
{
    match spec_reduce(op, n, ar, BasicApp, c) {
        Ok(p) => {
            let fun = spec_fun_of(op);
            let arv: usize = match spec_arity(fun) {
                Some(k) => k,
                None => ar.last(),
            };
            let ch = n.subrange(n.len() - arv, n.len() as int);
            assert(stack_no_empty(ch)) by {
                assert forall|i: int| 0 <= i < ch.len() implies no_empty(#[trigger] ch[i]) by {
                    assert(no_empty(n[n.len() - arv + i]));
                }
            }
            lemma_basic_no_empty(ch, fun, c);
            assert forall|i: int| 0 <= i < p.0.len() implies no_empty(#[trigger] p.0[i]) by {
                if i < p.0.len() - 1 {
                    assert(no_empty(n[i]));
                }
            }
        }
        Err(_) => {}
    }
}

proof fn lemma_drain_no_empty<C: KilaCtx>(
    opr: Seq<TokenV>,
    n: Seq<AstV>,
    ar: Seq<usize>,
    kind: StopKind,
    c: C,
)
    requires
        stack_no_empty(n),
    ensures
        match spec_drain(opr, n, ar, kind, BasicApp, c) {
            Ok(t) => stack_no_empty(t.1),
            Err(_) => true,
        },
    decreases opr.len(),
{
    if opr.len() > 0 {
        let op = opr.last();
        let stop = match kind {
            StopKind::AtParen => op is ParL,
            StopKind::ThroughParen => op is ParL,
            StopKind::AtAddSub => op is ParL || op is Add || op is Sub,
            StopKind::All => false,
        };
        if !stop {
            lemma_reduce_no_empty(op, n, ar, c);
            match spec_reduce(op, n, ar, BasicApp, c) {
                Ok(p) => {
                    lemma_drain_no_empty(opr.drop_last(), p.0, p.1, kind, c);
                }
                Err(_) => {}
            }
        }
    }
}

proof fn lemma_step_no_empty<C: KilaCtx>(t: TokenV, st: ParseSt, c: C)
    requires
        stack_no_empty(st.node),
    ensures
        match spec_step(t, st, BasicApp, c) {
            Ok(r) => stack_no_empty(r.node),
            Err(_) => true,
        },
{
    match t {
        TokenV::Num(n) => {
            assert forall|i: int| 0 <= i < st.node.push(AstV::Leaf(n)).len() implies no_empty(
                #[trigger] st.node.push(AstV::Leaf(n))[i],
            ) by {
                if i < st.node.len() {
                    assert(no_empty(st.node[i]));
                }
            }
        }
        TokenV::Expr(s) => {
            assert forall|i: int| 0 <= i < st.node.push(AstV::Get(s)).len() implies no_empty(
                #[trigger] st.node.push(AstV::Get(s))[i],
            ) by {
                if i < st.node.len() {
                    assert(no_empty(st.node[i]));
                }
            }
        }
        TokenV::Comma => {
            if st.arity.len() > 0 {
                let grown = if st.arity.last() < usize::MAX {
                    (st.arity.last() + 1) as usize
                } else {
                    st.arity.last()
                };
                let a2 = st.arity.update(st.arity.len() - 1, grown);
                lemma_drain_no_empty(st.opr, st.node, a2, StopKind::AtParen, c);
            }
        }
        TokenV::ParR => {
            lemma_drain_no_empty(st.opr, st.node, st.arity, StopKind::ThroughParen, c);
        }
        TokenV::Eq | TokenV::Neq | TokenV::Gt | TokenV::Ge | TokenV::Lt | TokenV::Le
            | TokenV::Add | TokenV::Sub => {
            lemma_drain_no_empty(st.opr, st.node, st.arity, StopKind::AtParen, c);
        }
        TokenV::Mul | TokenV::Div | TokenV::Imod => {
            lemma_drain_no_empty(st.opr, st.node, st.arity, StopKind::AtAddSub, c);
        }
        _ => {}
    }
}

proof fn lemma_iter_no_empty<C: KilaCtx>(toks: Seq<TokenV>, i: int, st: ParseSt, c: C)
    requires
        stack_no_empty(st.node),
        0 <= i,
    ensures
        match spec_parse_iter(toks, i, st, BasicApp, c) {
            Ok(a) => no_empty(a),
            Err(_) => true,
        },
    decreases toks.len() - i,
{
    if i >= toks.len() {
        lemma_drain_no_empty(st.opr, st.node, st.arity, StopKind::All, c);
    } else {
        lemma_step_no_empty(toks[i], st, c);
        match spec_step(toks[i], st, BasicApp, c) {
            Ok(r) => {
                lemma_iter_no_empty(toks, i + 1, r, c);
            }
            Err(_) => {}
        }
    }
}

/// A correctly built tree never holds the empty marker: whatever the
/// default parse accepts, the marker — which evaluation reports as an
/// internal-consistency error — does not occur in it.
pub proof fn theorem_parse_never_builds_empty<C: KilaCtx>(toks: Seq<TokenV>, c: C)
    ensures
        match crate::parser::spec_parse(toks, c) {
            Ok(a) => no_empty(a),
            Err(_) => true,
        },
{
    let st = ParseSt {
        opr: Seq::empty(),
        node: Seq::empty(),
        arity: Seq::empty(),
        prev: Seq::empty(),
    };
    lemma_iter_no_empty(toks, 0, st, c);
}

/// The median law: for a non-empty list without NaN, the median is the
/// middle element of any ascending arrangement of the list's values —
/// the mean of the two middle elements when the length is even.
pub proof fn theorem_median_of_ascending(x: Seq<Num>, s: Seq<Num>)
    requires
        x.len() > 0,
        forall|i: int| 0 <= i < x.len() ==> !((#[trigger] x[i]) is NaN),
        s.to_multiset() == x.to_multiset(),
        forall|i: int, j: int|
            0 <= i < j < s.len() ==> crate::num::spec_le(#[trigger] s[i], #[trigger] s[j]),
    ensures
        x.len() % 2 == 1 ==> kipac::spec_median(x) == s[x.len() as int / 2],
        x.len() % 2 == 0 ==> kipac::spec_median(x) == crate::num::spec_div(
            crate::num::spec_add(s[x.len() as int / 2], s[x.len() as int / 2 - 1]),
            Num::Fin((2 * (crate::num::SCALE as int)) as i128),
        ),
{
    broadcast use vstd::seq_lib::group_to_multiset_ensures;
    broadcast use vstd::multiset::group_multiset_axioms;

    vstd::seq_lib::to_multiset_len(s);
    vstd::seq_lib::to_multiset_len(x);
    assert forall|i: int| 0 <= i < s.len() implies !((#[trigger] s[i]) is NaN) by {
        let v = s[i];
        assert(s.contains(v));
        assert(s.to_multiset().count(v) > 0);
        assert(x.contains(v));
        let j = choose|j: int| 0 <= j < x.len() && x[j] == v;
        assert(!(x[j] is NaN));
    }
    let leq = kipac::le_tot_fn();
    assert(vstd::relations::sorted_by(s, leq)) by {
        assert forall|i: int, j: int| 0 <= i < j < s.len() implies #[trigger] leq(s[i], s[j]) by {
            kipac::lemma_le_tot_agrees_without_nan(s[i], s[j]);
        }
    }
    kipac::lemma_sort_sorted(x);
    kipac::lemma_sort_multiset(x);
    kipac::lemma_le_tot_total_ordering();
    vstd::seq_lib::lemma_sorted_unique(kipac::spec_sort(x), s, leq);
    kipac::lemma_sort_len(x);
}

/// The median depends only on which values a list holds, and how many
/// times, never on their order.
pub proof fn theorem_median_permutation_invariant(x: Seq<Num>, y: Seq<Num>)
    requires
        x.to_multiset() == y.to_multiset(),
    ensures
        kipac::spec_median(x) == kipac::spec_median(y),
{
    kipac::lemma_sort_sorted(x);
    kipac::lemma_sort_sorted(y);
    kipac::lemma_sort_multiset(x);
    kipac::lemma_sort_multiset(y);
    kipac::lemma_le_tot_total_ordering();
    vstd::seq_lib::lemma_sorted_unique(
        kipac::spec_sort(x),
        kipac::spec_sort(y),
        kipac::le_tot_fn(),
    );
    vstd::seq_lib::to_multiset_len(x);
    vstd::seq_lib::to_multiset_len(y);
}

/// Two fragments, one from each of the two parsing runs being compared:
/// both without variable references, and worth the same value.
pub open spec fn rel_at<C: KilaCtx>(n1: Seq<AstV>, n2: Seq<AstV>, c: C, i: int) -> bool {
    no_get(n1[i]) && no_get(n2[i]) && spec_eval(n1[i], c) == spec_eval(n2[i], c)
}

/// The output stacks of the two runs match fragment for fragment.
pub open spec fn rel_nodes<C: KilaCtx>(n1: Seq<AstV>, n2: Seq<AstV>, c: C) -> bool {
    n1.len() == n2.len() && forall|i: int| 0 <= i < n1.len() ==> #[trigger] rel_at(n1, n2, c, i)
}

proof fn lemma_rel_push<C: KilaCtx>(n1: Seq<AstV>, n2: Seq<AstV>, a1: AstV, a2: AstV, c: C)
    requires
        rel_nodes(n1, n2, c),
        no_get(a1),
        no_get(a2),
        spec_eval(a1, c) == spec_eval(a2, c),
    ensures
        rel_nodes(n1.push(a1), n2.push(a2), c),
{
    assert forall|i: int| 0 <= i < n1.push(a1).len() implies #[trigger] rel_at(
        n1.push(a1),
        n2.push(a2),
        c,
        i,
    ) by {
        if i < n1.len() {
            assert(rel_at(n1, n2, c, i));
        }
    }
}

/// One reduction keeps the two runs in step: the same argument counts
/// are consumed, the same errors arise, and the fragments built — a
/// folded one here, a verbatim node there — are worth the same value.
#[verifier::rlimit(100)]
#[verifier::spinoff_prover]
proof fn lemma_reduce_rel<C: KilaCtx>(
    op: TokenV,
    n1: Seq<AstV>,
    n2: Seq<AstV>,
    ar: Seq<usize>,
    c: C,
)
    requires
        rel_nodes(n1, n2, c),
    ensures
        match (spec_reduce(op, n1, ar, BasicApp, c), spec_reduce(op, n2, ar, EmptyApp, c)) {
            (Ok(p1), Ok(p2)) => rel_nodes(p1.0, p2.0, c) && p1.1 == p2.1,
            (Err(e1), Err(e2)) => e1 == e2,
            _ => false,
        },
{
    let fun = spec_fun_of(op);
    let picked: Option<(usize, Seq<usize>)> = match spec_arity(fun) {
        Some(k) => Some((k, ar)),
        None => if ar.len() > 0 {
            Some((ar.last(), ar.drop_last()))
        } else {
            None
        },
    };
    match picked {
        None => {}
        Some((arv, ar2)) => {
            if n1.len() >= arv {
                let ch1 = n1.subrange(n1.len() - arv, n1.len() as int);
                let ch2 = n2.subrange(n2.len() - arv, n2.len() as int);
                assert forall|i: int| 0 <= i < ch1.len() implies #[trigger] rel_at(
                    ch1,
                    ch2,
                    c,
                    i,
                ) by {
                    assert(rel_at(n1, n2, c, n1.len() - arv + i));
                }
                assert forall|i: int| 0 <= i < ch1.len() implies no_get(#[trigger] ch1[i]) by {
                    assert(rel_at(ch1, ch2, c, i));
                }
                assert forall|i: int| 0 <= i < ch1.len() implies spec_eval(#[trigger] ch1[i], c)
                    == spec_eval(#[trigger] ch2[i], c) by {
                    assert(rel_at(ch1, ch2, c, i));
                }
                let built1 = spec_basic(ch1, fun, c);
                let built2 = crate::applicators::spec_empty_app(ch2, fun);
                lemma_basic_is_optimize_without_gets(ch1, fun, c);
                lemma_optimize_no_get(ch1, fun, c);
                lemma_optimize_preserves_eval(ch1, fun, c);
                lemma_node_congruence(ch1, ch2, fun, c);
                assert(no_get(built2)) by {
                    assert forall|i: int| 0 <= i < ch2.len() implies no_get(#[trigger] ch2[i]) by {
                        assert(rel_at(ch1, ch2, c, i));
                    }
                }
                assert(spec_eval(built1, c) == spec_eval(built2, c));
                let keep1 = n1.take(n1.len() - arv);
                let keep2 = n2.take(n2.len() - arv);
                assert forall|i: int| 0 <= i < keep1.len() implies #[trigger] rel_at(
                    keep1,
                    keep2,
                    c,
                    i,
                ) by {
                    assert(rel_at(n1, n2, c, i));
                }
                lemma_rel_push(keep1, keep2, built1, built2, c);
            }
        }
    }
}

/// An unwinding of the operator stack keeps the two runs in step.
proof fn lemma_drain_rel<C: KilaCtx>(
    opr: Seq<TokenV>,
    n1: Seq<AstV>,
    n2: Seq<AstV>,
    ar: Seq<usize>,
    kind: StopKind,
    c: C,
)
    requires
        rel_nodes(n1, n2, c),
    ensures
        match (
            spec_drain(opr, n1, ar, kind, BasicApp, c),
            spec_drain(opr, n2, ar, kind, EmptyApp, c),
        ) {
            (Ok(t1), Ok(t2)) => t1.0 == t2.0 && t1.2 == t2.2 && rel_nodes(t1.1, t2.1, c),
            (Err(e1), Err(e2)) => e1 == e2,
            _ => false,
        },
    decreases opr.len(),
{
    if opr.len() > 0 {
        let op = opr.last();
        let stop = match kind {
            StopKind::AtParen => op is ParL,
            StopKind::ThroughParen => op is ParL,
            StopKind::AtAddSub => op is ParL || op is Add || op is Sub,
            StopKind::All => false,
        };
        if !stop {
            lemma_reduce_rel(op, n1, n2, ar, c);
            match (spec_reduce(op, n1, ar, BasicApp, c), spec_reduce(op, n2, ar, EmptyApp, c)) {
                (Ok(p1), Ok(p2)) => {
                    lemma_drain_rel(opr.drop_last(), p1.0, p2.0, p1.1, kind, c);
                }
                _ => {}
            }
        }
    }
}

/// The states of the two runs: identical but for the output stacks,
/// which match fragment for fragment.
pub open spec fn rel_st<C: KilaCtx>(st1: ParseSt, st2: ParseSt, c: C) -> bool {
    st1.opr == st2.opr && st1.arity == st2.arity && st1.prev == st2.prev && rel_nodes(
        st1.node,
        st2.node,
        c,
    )
}

/// One token keeps the two runs in step, as long as it is not a
/// variable reference.
proof fn lemma_step_rel<C: KilaCtx>(t: TokenV, st1: ParseSt, st2: ParseSt, c: C)
    requires
        rel_st(st1, st2, c),
        !(t is Expr),
    ensures
        match (spec_step(t, st1, BasicApp, c), spec_step(t, st2, EmptyApp, c)) {
            (Ok(r1), Ok(r2)) => rel_st(r1, r2, c),
            (Err(e1), Err(e2)) => e1 == e2,
            _ => false,
        },
{
    match t {
        TokenV::Num(n) => {
            lemma_rel_push(st1.node, st2.node, AstV::Leaf(n), AstV::Leaf(n), c);
        }
        TokenV::Comma => {
            if st1.arity.len() > 0 {
                let grown = if st1.arity.last() < usize::MAX {
                    (st1.arity.last() + 1) as usize
                } else {
                    st1.arity.last()
                };
                let a2 = st1.arity.update(st1.arity.len() - 1, grown);
                lemma_drain_rel(st1.opr, st1.node, st2.node, a2, StopKind::AtParen, c);
            }
        }
        TokenV::ParR => {
            lemma_drain_rel(st1.opr, st1.node, st2.node, st1.arity, StopKind::ThroughParen, c);
        }
        TokenV::Eq | TokenV::Neq | TokenV::Gt | TokenV::Ge | TokenV::Lt | TokenV::Le
            | TokenV::Add | TokenV::Sub => {
            let binary = st1.prev.len() > 0 && (st1.prev.last() is ParR || st1.prev.last() is Num
                || st1.prev.last() is Expr);
            if binary {
                lemma_drain_rel(st1.opr, st1.node, st2.node, st1.arity, StopKind::AtParen, c);
            }
        }
        TokenV::Mul | TokenV::Div | TokenV::Imod => {
            lemma_drain_rel(st1.opr, st1.node, st2.node, st1.arity, StopKind::AtAddSub, c);
        }
        _ => {}
    }
}

/// The whole parse keeps the two runs in step, token by token.
proof fn lemma_iter_rel<C: KilaCtx>(toks: Seq<TokenV>, i: int, st1: ParseSt, st2: ParseSt, c: C)
    requires
        forall|j: int| 0 <= j < toks.len() ==> !((#[trigger] toks[j]) is Expr),
        rel_st(st1, st2, c),
        0 <= i,
    ensures
        match (
            spec_parse_iter(toks, i, st1, BasicApp, c),
            spec_parse_iter(toks, i, st2, EmptyApp, c),
        ) {
            (Ok(a1), Ok(a2)) => spec_eval(a1, c) == spec_eval(a2, c),
            (Err(e1), Err(e2)) => e1 == e2,
            _ => false,
        },
    decreases toks.len() - i,
{
    if i >= toks.len() {
        lemma_drain_rel(st1.opr, st1.node, st2.node, st1.arity, StopKind::All, c);
        match (
            spec_drain(st1.opr, st1.node, st1.arity, StopKind::All, BasicApp, c),
            spec_drain(st2.opr, st2.node, st2.arity, StopKind::All, EmptyApp, c),
        ) {
            (Ok(t1), Ok(t2)) => {
                if t1.1.len() == 1 {
                    assert(rel_at(t1.1, t2.1, c, 0));
                }
            }
            _ => {}
        }
    } else {
        lemma_step_rel(toks[i], st1, st2, c);
        match (spec_step(toks[i], st1, BasicApp, c), spec_step(toks[i], st2, EmptyApp, c)) {
            (Ok(r1), Ok(r2)) => {
                lemma_iter_rel(toks, i + 1, r1, r2, c);
            }
            _ => {}
        }
    }
}

/// Constant folding is a pure optimization, not a semantic change: on
/// any token sequence without variable references, parsing with the
/// fold strategy and parsing with the identity strategy either fail
/// with the same error, or build trees that evaluate to the same value
/// under the same context.
pub proof fn theorem_fold_identity_agree<C: KilaCtx>(toks: Seq<TokenV>, c: C)
    requires
        forall|j: int| 0 <= j < toks.len() ==> !((#[trigger] toks[j]) is Expr),
    ensures
        match (spec_parse_fn(toks, BasicApp, c), spec_parse_fn(toks, EmptyApp, c)) {
            (Ok(a1), Ok(a2)) => spec_eval(a1, c) == spec_eval(a2, c),
            (Err(e1), Err(e2)) => e1 == e2,
            _ => false,
        },
{
    let st = ParseSt {
        opr: Seq::empty(),
        node: Seq::empty(),
        arity: Seq::empty(),
        prev: Seq::empty(),
    };
    assert(rel_nodes(st.node, st.node, c));
    lemma_iter_rel(toks, 0, st, st, c);
}

} // verus!
