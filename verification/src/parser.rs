//! The parser's data model: the closed set of operator and function
//! tags, and the syntax tree the parser builds. The shunting-yard
//! machinery itself is in the second half of this file.
use vstd::prelude::*;

use crate::lexer::Token;
use crate::lexer::TokenV;
use crate::num::Num;
use crate::applicators::Applicator;
use crate::ctx::KilaCtx;

verus! {

broadcast use vstd::std_specs::vec::group_vec_axioms, vstd::seq::group_seq_axioms;

/// Identity of an operator or function in the tree.
#[derive(Debug, Clone, Copy, PartialEq, Eq, Structural)]
pub enum Fun {
    Add,
    Sub,
    Div,
    Mul,
    Sin,
    Cos,
    Tan,
    Arcsin,
    Arccos,
    Arctan,
    Logb,
    Interp,
    Aikainterp,
    Mod,
    Pow,
    Aikavali,
    Abs,
    Log,
    Ln,
    Floor,
    Ceil,
    Sqrt,
    Exp,
    Interpoloi,
    Min,
    Max,
    Sum,
    Med,
    Kesk,
    If,
    SS,
    List,
    Pair,
    Eq,
    Neq,
    Lt,
    Le,
    Gt,
    Ge,
    Empty,
    Minus,
    Plus,
}

/// The tag a token stands for. Structural tokens and identifiers map to
/// the empty tag, which the parser never reduces.
pub open spec fn spec_fun_of(t: TokenV) -> Fun {
    match t {
        TokenV::Abs => Fun::Abs,
        TokenV::Add => Fun::Add,
        TokenV::Aikainterp => Fun::Aikainterp,
        TokenV::Aikavali => Fun::Aikavali,
        TokenV::Arccos => Fun::Arccos,
        TokenV::Arcsin => Fun::Arcsin,
        TokenV::Arctan => Fun::Arctan,
        TokenV::Ceil => Fun::Ceil,
        TokenV::Cos => Fun::Cos,
        TokenV::Div => Fun::Div,
        TokenV::Eq => Fun::Eq,
        TokenV::Exp => Fun::Exp,
        TokenV::Floor => Fun::Floor,
        TokenV::Ge => Fun::Ge,
        TokenV::Gt => Fun::Gt,
        TokenV::If => Fun::If,
        TokenV::Imod => Fun::Mod,
        TokenV::Mod => Fun::Mod,
        TokenV::Interpoloi => Fun::Interpoloi,
        TokenV::Ipow => Fun::Pow,
        TokenV::Pow => Fun::Pow,
        TokenV::Kesk => Fun::Kesk,
        TokenV::Le => Fun::Le,
        TokenV::List => Fun::List,
        TokenV::Ln => Fun::Ln,
        TokenV::Log => Fun::Log,
        TokenV::Logb => Fun::Logb,
        TokenV::Lt => Fun::Lt,
        TokenV::Max => Fun::Max,
        TokenV::Med => Fun::Med,
        TokenV::Min => Fun::Min,
        TokenV::Minus => Fun::Minus,
        TokenV::Mul => Fun::Mul,
        TokenV::Neq => Fun::Neq,
        TokenV::Plus => Fun::Plus,
        TokenV::SS => Fun::SS,
        TokenV::Sin => Fun::Sin,
        TokenV::Sqrt => Fun::Sqrt,
        TokenV::Sub => Fun::Sub,
        TokenV::Sum => Fun::Sum,
        TokenV::Tan => Fun::Tan,
        _ => Fun::Empty,
    }
}

impl Fun {
    /// The tag a token stands for.
    pub fn from(token: Token) -> (r: Fun)
        ensures
            r == spec_fun_of(token@),
    {
        match token {
            Token::Abs => Fun::Abs,
            Token::Add => Fun::Add,
            Token::Aikainterp => Fun::Aikainterp,
            Token::Aikavali => Fun::Aikavali,
            Token::Arccos => Fun::Arccos,
            Token::Arcsin => Fun::Arcsin,
            Token::Arctan => Fun::Arctan,
            Token::Ceil => Fun::Ceil,
            Token::Cos => Fun::Cos,
            Token::Div => Fun::Div,
            Token::Eq => Fun::Eq,
            Token::Exp => Fun::Exp,
            Token::Floor => Fun::Floor,
            Token::Ge => Fun::Ge,
            Token::Gt => Fun::Gt,
            Token::If => Fun::If,
            Token::Imod | Token::Mod => Fun::Mod,
            Token::Interpoloi => Fun::Interpoloi,
            Token::Ipow | Token::Pow => Fun::Pow,
            Token::Kesk => Fun::Kesk,
            Token::Le => Fun::Le,
            Token::List => Fun::List,
            Token::Ln => Fun::Ln,
            Token::Log => Fun::Log,
            Token::Logb => Fun::Logb,
            Token::Lt => Fun::Lt,
            Token::Max => Fun::Max,
            Token::Med => Fun::Med,
            Token::Min => Fun::Min,
            Token::Minus => Fun::Minus,
            Token::Mul => Fun::Mul,
            Token::Neq => Fun::Neq,
            Token::Plus => Fun::Plus,
            Token::SS => Fun::SS,
            Token::Sin => Fun::Sin,
            Token::Sqrt => Fun::Sqrt,
            Token::Sub => Fun::Sub,
            Token::Sum => Fun::Sum,
            Token::Tan => Fun::Tan,
            _ => Fun::Empty,
        }
    }

    /// Declared child count: a fixed count for operators and the
    /// fixed-arity functions, none for the variable-arity ones, whose
    /// count the parser tracks while arguments accumulate.
    pub fn arity(&self) -> (r: Option<usize>)
        ensures
            r == spec_arity(*self),
    {
        match *self {
            Fun::Add | Fun::Sub | Fun::Div | Fun::Mul | Fun::Mod | Fun::Pow => Some(2),
            Fun::Eq | Fun::Neq | Fun::Ge | Fun::Gt | Fun::Le | Fun::Lt => Some(2),
            Fun::Aikavali | Fun::Logb => Some(2),
            Fun::Log | Fun::Ln | Fun::Floor | Fun::Ceil | Fun::Sqrt | Fun::Exp => Some(1),
            Fun::Sin | Fun::Cos | Fun::Tan | Fun::Arcsin | Fun::Arccos | Fun::Arctan => Some(1),
            Fun::Aikainterp => Some(3),
            Fun::Minus | Fun::Plus => Some(1),
            _ => None,
        }
    }
}

/// Declared child count of a tag.
pub open spec fn spec_arity(f: Fun) -> Option<usize> {
    match f {
        Fun::Add | Fun::Sub | Fun::Div | Fun::Mul | Fun::Mod | Fun::Pow => Some(2usize),
        Fun::Eq | Fun::Neq | Fun::Ge | Fun::Gt | Fun::Le | Fun::Lt => Some(2usize),
        Fun::Aikavali | Fun::Logb => Some(2usize),
        Fun::Log | Fun::Ln | Fun::Floor | Fun::Ceil | Fun::Sqrt | Fun::Exp => Some(1usize),
        Fun::Sin | Fun::Cos | Fun::Tan | Fun::Arcsin | Fun::Arccos | Fun::Arctan => Some(1usize),
        Fun::Aikainterp => Some(3usize),
        Fun::Minus | Fun::Plus => Some(1usize),
        _ => None,
    }
}

/// A node of the syntax tree: an operator or call with its children, a
/// numeric leaf, a variable-path reference, or the empty marker that a
/// correctly built tree never contains.
#[derive(Debug, PartialEq)]
pub enum Ast {
    Node(Vec<Ast>, Fun),
    Leaf(Num),
    Get(String),
    Empty,
}

/// The mathematical shape of a tree.
pub enum AstV {
    Node(Seq<AstV>, Fun),
    Leaf(Num),
    Get(Seq<char>),
    Empty,
}

/// The mathematical shape of a tree.
pub open spec fn ast_view(a: Ast) -> AstV
    decreases a,
{
    match a {
        Ast::Node(v, f) => AstV::Node(asts_view(v@), f),
        Ast::Leaf(n) => AstV::Leaf(n),
        Ast::Get(s) => AstV::Get(s@),
        Ast::Empty => AstV::Empty,
    }
}

/// The view of a node sequence, element by element.
pub open spec fn asts_view(s: Seq<Ast>) -> Seq<AstV>
    decreases s,
{
    if s.len() == 0 {
        Seq::empty()
    } else {
        asts_view(s.drop_last()).push(ast_view(s.last()))
    }
}

impl View for Ast {
    type V = AstV;

    open spec fn view(&self) -> AstV {
        ast_view(*self)
    }
}

pub broadcast proof fn lemma_asts_view_len(s: Seq<Ast>)
    ensures
        (#[trigger] asts_view(s)).len() == s.len(),
    decreases s,
{
    if s.len() > 0 {
        lemma_asts_view_len(s.drop_last());
    }
}

pub broadcast proof fn lemma_asts_view_index(s: Seq<Ast>, i: int)
    requires
        0 <= i < s.len(),
    ensures
        #[trigger] asts_view(s)[i] == ast_view(s[i]),
    decreases s,
{
    lemma_asts_view_len(s);
    if s.len() > 0 {
        if i < s.len() - 1 {
            lemma_asts_view_index(s.drop_last(), i);
            lemma_asts_view_len(s.drop_last());
        }
    }
}

pub broadcast proof fn lemma_asts_view_push(s: Seq<Ast>, x: Ast)
    ensures
        #[trigger] asts_view(s.push(x)) == asts_view(s).push(ast_view(x)),
{
    assert(s.push(x).drop_last() =~= s);
    assert(asts_view(s.push(x)) =~= asts_view(s).push(ast_view(x)));
}

proof fn lemma_asts_view_subrange(s: Seq<Ast>, i: int, j: int)
    requires
        0 <= i <= j <= s.len(),
    ensures
        asts_view(s.subrange(i, j)) == asts_view(s).subrange(i, j),
{
    lemma_asts_view_len(s);
    lemma_asts_view_len(s.subrange(i, j));
    assert forall|k: int| 0 <= k < j - i implies asts_view(s.subrange(i, j))[k] == asts_view(
        s,
    ).subrange(i, j)[k] by {
        lemma_asts_view_index(s.subrange(i, j), k);
        lemma_asts_view_index(s, i + k);
    }
    assert(asts_view(s.subrange(i, j)) =~= asts_view(s).subrange(i, j));
}

/// The view of a result of parsing.
pub open spec fn ast_res_view(r: Result<Ast, String>) -> Result<AstV, Seq<char>> {
    match r {
        Ok(a) => Ok(a@),
        Err(e) => Err(e@),
    }
}

pub open spec fn msg_empty_token() -> Seq<char> {
    "Got empty"@
}

pub open spec fn msg_unary() -> Seq<char> {
    "An operator stands where an operand begins"@
}

pub open spec fn msg_malformed() -> Seq<char> {
    "The expression is malformed"@
}

pub open spec fn msg_too_many() -> Seq<char> {
    "Too many members remain after parsing"@
}

pub open spec fn msg_no_result() -> Seq<char> {
    "The expression is empty"@
}

/// Where an unwinding of the operator stack stops: at a grouping
/// parenthesis which stays; at one which is consumed; at a parenthesis
/// or an additive operator; or nowhere, draining everything.
#[derive(Debug, Clone, Copy, PartialEq, Eq, Structural)]
pub enum StopKind {
    AtParen,
    ThroughParen,
    AtAddSub,
    All,
}

/// One reduction: map the popped token to its tag, take the declared
/// child count — or the gathered argument count for a variable-arity
/// tag — pop that many fragments, and push what the strategy builds
/// from them. Too few fragments or a missing argument count is a
/// malformed expression.
pub open spec fn spec_reduce<C: KilaCtx, A: Applicator<C>>(
    op: TokenV,
    node: Seq<AstV>,
    arity: Seq<usize>,
    app: A,
    c: C,
) -> Result<(Seq<AstV>, Seq<usize>), Seq<char>> {
    let fun = spec_fun_of(op);
    let picked: Option<(usize, Seq<usize>)> = match spec_arity(fun) {
        Some(k) => Some((k, arity)),
        None => if arity.len() > 0 {
            Some((arity.last(), arity.drop_last()))
        } else {
            None
        },
    };
    match picked {
        None => Err(msg_malformed()),
        Some((ar, arity2)) => if node.len() < ar {
            Err(msg_malformed())
        } else {
            let children = node.subrange(node.len() - ar, node.len() as int);
            let built = app.spec_apply(children, fun, c);
            Ok((node.take(node.len() - ar).push(built), arity2))
        },
    }
}

/// Unwind the operator stack, reducing each popped token, until the
/// stop for this unwinding is reached or the stack is empty.
pub open spec fn spec_drain<C: KilaCtx, A: Applicator<C>>(
    opr: Seq<TokenV>,
    node: Seq<AstV>,
    arity: Seq<usize>,
    kind: StopKind,
    app: A,
    c: C,
) -> Result<(Seq<TokenV>, Seq<AstV>, Seq<usize>), Seq<char>>
    decreases opr.len(),
{
    if opr.len() == 0 {
        Ok((opr, node, arity))
    } else {
        let op = opr.last();
        let stop = match kind {
            StopKind::AtParen => op is ParL,
            StopKind::ThroughParen => op is ParL,
            StopKind::AtAddSub => op is ParL || op is Add || op is Sub,
            StopKind::All => false,
        };
        if stop {
            if kind is ThroughParen {
                Ok((opr.drop_last(), node, arity))
            } else {
                Ok((opr, node, arity))
            }
        } else {
            match spec_reduce(op, node, arity, app, c) {
                Err(e) => Err(e),
                Ok((n2, a2)) => spec_drain(opr.drop_last(), n2, a2, kind, app, c),
            }
        }
    }
}

/// The parser's working state: pending operators, completed fragments,
/// per-call argument counts, and the tokens already seen.
pub struct ParseSt {
    pub opr: Seq<TokenV>,
    pub node: Seq<AstV>,
    pub arity: Seq<usize>,
    pub prev: Seq<TokenV>,
}

/// One token's effect on the state. Values become fragments; commas
/// count an argument and flush pending operators; a plus or minus after
/// a completed value is binary and unwinds first, and is otherwise its
/// unary form; multiplicative operators unwind everything that binds at
/// least as tightly; the power operator pushes without unwinding, which
/// makes it right-associative; every other recognized keyword opens a
/// call with one argument gathered so far.
pub open spec fn spec_step<C: KilaCtx, A: Applicator<C>>(
    t: TokenV,
    st: ParseSt,
    app: A,
    c: C,
) -> Result<ParseSt, Seq<char>> {
    let after: Result<ParseSt, Seq<char>> = match t {
        TokenV::Num(n) => Ok(
            ParseSt {
                opr: st.opr,
                node: st.node.push(AstV::Leaf(n)),
                arity: st.arity,
                prev: st.prev,
            },
        ),
        TokenV::Expr(s) => Ok(
            ParseSt {
                opr: st.opr,
                node: st.node.push(AstV::Get(s)),
                arity: st.arity,
                prev: st.prev,
            },
        ),
        TokenV::Empty => Err(msg_empty_token()),
        TokenV::Comma => if st.arity.len() == 0 {
            Err(msg_malformed())
        } else {
            let grown = if st.arity.last() < usize::MAX {
                (st.arity.last() + 1) as usize
            } else {
                st.arity.last()
            };
            let a2 = st.arity.update(st.arity.len() - 1, grown);
            match spec_drain(st.opr, st.node, a2, StopKind::AtParen, app, c) {
                Err(e) => Err(e),
                Ok((o, n, a)) => Ok(ParseSt { opr: o, node: n, arity: a, prev: st.prev }),
            }
        },
        TokenV::ParL => Ok(
            ParseSt { opr: st.opr.push(TokenV::ParL), node: st.node, arity: st.arity, prev: st.prev },
        ),
        TokenV::ParR => match spec_drain(
            st.opr,
            st.node,
            st.arity,
            StopKind::ThroughParen,
            app,
            c,
        ) {
            Err(e) => Err(e),
            Ok((o, n, a)) => Ok(ParseSt { opr: o, node: n, arity: a, prev: st.prev }),
        },
        TokenV::Eq | TokenV::Neq | TokenV::Gt | TokenV::Ge | TokenV::Lt | TokenV::Le | TokenV::Add
            | TokenV::Sub => {
            let binary = st.prev.len() > 0 && (st.prev.last() is ParR || st.prev.last() is Num
                || st.prev.last() is Expr);
            if binary {
                match spec_drain(st.opr, st.node, st.arity, StopKind::AtParen, app, c) {
                    Err(e) => Err(e),
                    Ok((o, n, a)) => Ok(
                        ParseSt { opr: o.push(t), node: n, arity: a, prev: st.prev },
                    ),
                }
            } else {
                if t is Add {
                    Ok(
                        ParseSt {
                            opr: st.opr.push(TokenV::Plus),
                            node: st.node,
                            arity: st.arity,
                            prev: st.prev,
                        },
                    )
                } else if t is Sub {
                    Ok(
                        ParseSt {
                            opr: st.opr.push(TokenV::Minus),
                            node: st.node,
                            arity: st.arity,
                            prev: st.prev,
                        },
                    )
                } else {
                    Err(msg_unary())
                }
            }
        },
        TokenV::Mul | TokenV::Div | TokenV::Imod => match spec_drain(
            st.opr,
            st.node,
            st.arity,
            StopKind::AtAddSub,
            app,
            c,
        ) {
            Err(e) => Err(e),
            Ok((o, n, a)) => Ok(ParseSt { opr: o.push(t), node: n, arity: a, prev: st.prev }),
        },
        TokenV::Ipow => Ok(
            ParseSt { opr: st.opr.push(TokenV::Ipow), node: st.node, arity: st.arity, prev: st.prev },
        ),
        _ => Ok(
            ParseSt {
                opr: st.opr.push(t),
                node: st.node,
                arity: st.arity.push(1),
                prev: st.prev,
            },
        ),
    };
    match after {
        Err(e) => Err(e),
        Ok(st2) => Ok(
            ParseSt { opr: st2.opr, node: st2.node, arity: st2.arity, prev: st2.prev.push(t) },
        ),
    }
}

/// The whole parse from token `i` onward: step through the tokens,
/// drain what remains, and accept exactly one fragment.
pub open spec fn spec_parse_iter<C: KilaCtx, A: Applicator<C>>(
    toks: Seq<TokenV>,
    i: int,
    st: ParseSt,
    app: A,
    c: C,
) -> Result<AstV, Seq<char>>
    decreases toks.len() - i,
{
    if i < 0 || i >= toks.len() {
        match spec_drain(st.opr, st.node, st.arity, StopKind::All, app, c) {
            Err(e) => Err(e),
            Ok((o, n, a)) => if n.len() > 1 {
                Err(msg_too_many())
            } else if n.len() == 0 {
                Err(msg_no_result())
            } else {
                Ok(n[0])
            },
        }
    } else {
        match spec_step(toks[i], st, app, c) {
            Err(e) => Err(e),
            Ok(st2) => spec_parse_iter(toks, i + 1, st2, app, c),
        }
    }
}

/// What parsing a token sequence with a strategy and a context builds.
pub open spec fn spec_parse_fn<C: KilaCtx, A: Applicator<C>>(
    toks: Seq<TokenV>,
    app: A,
    c: C,
) -> Result<AstV, Seq<char>> {
    spec_parse_iter(
        toks,
        0,
        ParseSt {
            opr: Seq::empty(),
            node: Seq::empty(),
            arity: Seq::empty(),
            prev: Seq::empty(),
        },
        app,
        c,
    )
}

/// What parsing with the default strategy builds.
pub open spec fn spec_parse<C: KilaCtx>(toks: Seq<TokenV>, c: C) -> Result<AstV, Seq<char>> {
    spec_parse_fn(toks, crate::applicators::BasicApp, c)
}

fn malformed() -> (r: String)
    ensures
        r@ == msg_malformed(),
{
    String::from_str("The expression is malformed")
}

/// Parse a token sequence with the default strategy: the domain rewrite
/// plus constant folding.
pub fn parse<C: KilaCtx>(input: Vec<Token>, c: &C) -> (r: Result<Ast, String>)
    ensures
        ast_res_view(r) == spec_parse(crate::lexer::toks_view(input@), *c),
{
    parse_fn(input, &crate::applicators::BasicApp, c)
}

/// One reduction on the working stacks.
#[verifier::loop_isolation(false)]
fn reduce<C: KilaCtx, A: Applicator<C>>(
    op: Token,
    node: &mut Vec<Ast>,
    arity: &mut Vec<usize>,
    app: &A,
    c: &C,
) -> (r: Option<String>)
    ensures
        match spec_reduce(op@, asts_view(old(node)@), old(arity)@, *app, *c) {
            Ok(pair) => r is None && asts_view(final(node)@) == pair.0 && final(arity)@ == pair.1,
            Err(e) => match r {
                Some(s) => s@ == e,
                None => false,
            },
        },
{
    proof {
        lemma_asts_view_len(node@);
    }
    let fun = Fun::from(op);
    let ar: usize = match fun.arity() {
        Some(k) => k,
        None => match arity.pop() {
            Some(x) => x,
            None => {
                return Some(malformed());
            }
        },
    };
    if node.len() < ar {
        return Some(malformed());
    }
    let at = node.len() - ar;
    let ghost node0 = node@;
    let children = node.split_off(at);
    proof {
        lemma_asts_view_subrange(node0, at as int, node0.len() as int);
        lemma_asts_view_subrange(node0, 0, at as int);
        assert(node0.subrange(0, at as int) =~= node0.take(at as int));
        assert(asts_view(node0).subrange(0, at as int) =~= asts_view(node0).take(at as int));
    }
    let built = app.apply(children, fun, c);
    node.push(built);
    proof {
        lemma_asts_view_len(node0.take(at as int));
        assert(asts_view(node0.take(at as int).push(built)) =~= asts_view(
            node0.take(at as int),
        ).push(built@)) by {
            let w = node0.take(at as int).push(built);
            assert(w.drop_last() =~= node0.take(at as int));
            assert(w.last() == built);
        }
    }
    None
}

/// Parse a token sequence into one tree, building each reduced node
/// through the given strategy. Returns the single remaining fragment,
/// or a descriptive error for malformed input.
#[verifier::loop_isolation(false)]
#[verifier::rlimit(100)]
pub fn parse_fn<C: KilaCtx, A: Applicator<C>>(input: Vec<Token>, app: &A, ctx: &C) -> (r: Result<
    Ast,
    String,
>)
    ensures
        ast_res_view(r) == spec_parse_fn(crate::lexer::toks_view(input@), *app, *ctx),
{
    let ghost toks = crate::lexer::toks_view(input@);
    let mut prev: Vec<Token> = Vec::new();
    let mut opr: Vec<Token> = Vec::new();
    let mut node: Vec<Ast> = Vec::new();
    let mut arity: Vec<usize> = Vec::new();
    let mut i: usize = 0;
    proof {
        assert(crate::lexer::toks_view(prev@) =~= Seq::<TokenV>::empty());
        assert(crate::lexer::toks_view(opr@) =~= Seq::<TokenV>::empty());
        assert(asts_view(node@) =~= Seq::<AstV>::empty());
    }
    while i < input.len()
        invariant
            0 <= i <= input@.len(),
            spec_parse_iter(
                toks,
                i as int,
                ParseSt {
                    opr: crate::lexer::toks_view(opr@),
                    node: asts_view(node@),
                    arity: arity@,
                    prev: crate::lexer::toks_view(prev@),
                },
                *app,
                *ctx,
            ) == spec_parse_fn(toks, *app, *ctx),
        decreases input@.len() - i,
    {
        let ghost st_pre = ParseSt {
            opr: crate::lexer::toks_view(opr@),
            node: asts_view(node@),
            arity: arity@,
            prev: crate::lexer::toks_view(prev@),
        };
        let t = &input[i];
        proof {
            assert(toks[i as int] == input@[i as int]@);
        }
        match t {
            Token::Num(n) => {
                let ghost node_pre = node@;
                node.push(Ast::Leaf(*n));
                proof {
                    lemma_asts_view_push(node_pre, Ast::Leaf(*n));
                }
            }
            Token::Expr(s) => {
                let ghost node_pre = node@;
                node.push(Ast::Get(s.clone()));
                proof {
                    lemma_asts_view_push(node_pre, node@.last());
                    assert(node@ =~= node_pre.push(node@.last()));
                    assert(asts_view(node@) == st_pre.node.push(AstV::Get(s@)));
                }
            }
            Token::Empty => {
                return Err(String::from_str("Got empty"));
            }
            Token::Comma => {
                if arity.len() == 0 {
                    return Err(malformed());
                }
                let alen = arity.len();
                let lastv = arity[alen - 1];
                let newv: usize = if lastv < usize::MAX {
                    lastv + 1
                } else {
                    lastv
                };
                arity[alen - 1] = newv;
                match drain_ops(StopKind::AtParen, &mut opr, &mut node, &mut arity, app, ctx) {
                    Some(e) => {
                        return Err(e);
                    }
                    None => {}
                }
            }
            Token::ParL => {
                opr.push(Token::ParL);
                proof {
                    assert(crate::lexer::toks_view(opr@) =~= st_pre.opr.push(TokenV::ParL));
                }
            }
            Token::ParR => {
                match drain_ops(
                    StopKind::ThroughParen,
                    &mut opr,
                    &mut node,
                    &mut arity,
                    app,
                    &ctx,
                ) {
                    Some(e) => {
                        return Err(e);
                    }
                    None => {}
                }
            }
            Token::Eq | Token::Neq | Token::Gt | Token::Ge | Token::Lt | Token::Le | Token::Add
                | Token::Sub => {
                let binary = if prev.len() > 0 {
                    match &prev[prev.len() - 1] {
                        Token::ParR | Token::Num(_) | Token::Expr(_) => true,
                        _ => false,
                    }
                } else {
                    false
                };
                proof {
                    if prev@.len() > 0 {
                        assert(st_pre.prev.last() == prev@[prev@.len() - 1]@);
                    }
                }
                if binary {
                    match drain_ops(StopKind::AtParen, &mut opr, &mut node, &mut arity, app, ctx) {
                        Some(e) => {
                            return Err(e);
                        }
                        None => {}
                    }
                    let ghost opr_mid = crate::lexer::toks_view(opr@);
                    opr.push(t.clone());
                    proof {
                        assert(crate::lexer::toks_view(opr@) =~= opr_mid.push(t@));
                    }
                } else {
                    match t {
                        Token::Add => {
                            opr.push(Token::Plus);
                            proof {
                                assert(crate::lexer::toks_view(opr@) =~= st_pre.opr.push(
                                    TokenV::Plus,
                                ));
                            }
                        }
                        Token::Sub => {
                            opr.push(Token::Minus);
                            proof {
                                assert(crate::lexer::toks_view(opr@) =~= st_pre.opr.push(
                                    TokenV::Minus,
                                ));
                            }
                        }
                        _ => {
                            return Err(
                                String::from_str("An operator stands where an operand begins"),
                            );
                        }
                    }
                }
            }
            Token::Mul | Token::Div | Token::Imod => {
                match drain_ops(StopKind::AtAddSub, &mut opr, &mut node, &mut arity, app, ctx) {
                    Some(e) => {
                        return Err(e);
                    }
                    None => {}
                }
                let ghost opr_mid = crate::lexer::toks_view(opr@);
                opr.push(t.clone());
                proof {
                    assert(crate::lexer::toks_view(opr@) =~= opr_mid.push(t@));
                }
            }
            Token::Ipow => {
                opr.push(Token::Ipow);
                proof {
                    assert(crate::lexer::toks_view(opr@) =~= st_pre.opr.push(TokenV::Ipow));
                }
            }
            _ => {
                opr.push(t.clone());
                arity.push(1);
                proof {
                    assert(crate::lexer::toks_view(opr@) =~= st_pre.opr.push(t@));
                    assert(arity@ =~= st_pre.arity.push(1usize));
                }
            }
        }
        let ghost prev_mid = crate::lexer::toks_view(prev@);
        prev.push(t.clone());
        proof {
            assert(crate::lexer::toks_view(prev@) =~= prev_mid.push(t@));
        }
        i = i + 1;
    }
    match drain_ops(StopKind::All, &mut opr, &mut node, &mut arity, app, ctx) {
        Some(e) => {
            return Err(e);
        }
        None => {}
    }
    proof {
        lemma_asts_view_len(node@);
    }
    if node.len() > 1 {
        return Err(String::from_str("Too many members remain after parsing"));
    }
    match node.pop() {
        Some(a) => {
            proof {
                lemma_asts_view_index(node@.push(a), 0);
            }
            Ok(a)
        }
        None => Err(String::from_str("The expression is empty")),
    }
}

/// Unwind the operator stack to the stop, reducing along the way.
#[verifier::loop_isolation(false)]
fn drain_ops<C: KilaCtx, A: Applicator<C>>(
    kind: StopKind,
    opr: &mut Vec<Token>,
    node: &mut Vec<Ast>,
    arity: &mut Vec<usize>,
    app: &A,
    c: &C,
) -> (r: Option<String>)
    ensures
        match spec_drain(
            crate::lexer::toks_view(old(opr)@),
            asts_view(old(node)@),
            old(arity)@,
            kind,
            *app,
            *c,
        ) {
            Ok(triple) => r is None && crate::lexer::toks_view(final(opr)@) == triple.0
                && asts_view(final(node)@) == triple.1 && final(arity)@ == triple.2,
            Err(e) => match r {
                Some(s) => s@ == e,
                None => false,
            },
        },
{
    loop
        invariant
            spec_drain(
                crate::lexer::toks_view(opr@),
                asts_view(node@),
                arity@,
                kind,
                *app,
                *c,
            ) == spec_drain(
                crate::lexer::toks_view(old(opr)@),
                asts_view(old(node)@),
                old(arity)@,
                kind,
                *app,
                *c,
            ),
        decreases opr@.len(),
    {
        let oplen = opr.len();
        if oplen == 0 {
            return None;
        }
        proof {
            assert(crate::lexer::toks_view(opr@).len() == opr@.len());
            assert(crate::lexer::toks_view(opr@).last() == opr@[oplen - 1]@);
        }
        let is_parl = match &opr[oplen - 1] {
            Token::ParL => true,
            _ => false,
        };
        let is_addsub = match &opr[oplen - 1] {
            Token::Add | Token::Sub => true,
            _ => false,
        };
        let stop = match kind {
            StopKind::AtParen => is_parl,
            StopKind::ThroughParen => is_parl,
            StopKind::AtAddSub => is_parl || is_addsub,
            StopKind::All => false,
        };
        if stop {
            let ghost opr_pre = opr@;
            match kind {
                StopKind::ThroughParen => {
                    opr.pop();
                    proof {
                        assert(crate::lexer::toks_view(opr@) =~= crate::lexer::toks_view(
                            opr_pre,
                        ).drop_last());
                    }
                }
                _ => {}
            }
            return None;
        }
        let ghost opr0 = opr@;
        let op = match opr.pop() {
            Some(x) => x,
            None => {
                return Some(malformed());
            }
        };
        proof {
            assert(crate::lexer::toks_view(opr@) =~= crate::lexer::toks_view(opr0).drop_last());
            assert(op@ == crate::lexer::toks_view(opr0).last());
        }
        match reduce(op, node, arity, app, c) {
            Some(e) => {
                return Some(e);
            }
            None => {}
        }
    }
}

} // verus!
