use kilac::applicators::{basic, empty, fix_mulget, optimize, EmptyApp};
use kilac::ctx::EmptyCtx;
use kilac::lexer::{lex, Token};
use kilac::num::Num;
use kilac::parser::{parse, parse_fn, Ast, Fun};

fn n(s: &str) -> Num {
    kilac::num::from_literal(s).unwrap()
}

#[test]
fn test_plus() {
    assert_eq!(
        Ast::Node(vec![Ast::Leaf(n("5")), Ast::Leaf(n("7"))], Fun::Add),
        parse_fn(lex("5+7"), &EmptyApp, &EmptyCtx).ok().unwrap()
    );
    assert_eq!(Ast::Leaf(n("12")), parse(lex("5+7"), &EmptyCtx).ok().unwrap());
}

#[test]
fn test_optimize() {
    assert_eq!(
        Ast::Leaf(n("12")),
        optimize(vec![Ast::Leaf(n("5")), Ast::Leaf(n("7"))], Fun::Add, EmptyCtx)
    );
}

#[test]
fn optimize_keeps_unresolved_nodes() {
    let nodes = vec![Ast::Get(String::from(".a")), Ast::Leaf(n("1"))];
    assert_eq!(
        Ast::Node(vec![Ast::Get(String::from(".a")), Ast::Leaf(n("1"))], Fun::Add),
        optimize(nodes, Fun::Add, EmptyCtx)
    );
}

#[test]
fn empty_applicator_builds_verbatim() {
    assert_eq!(
        Ast::Node(vec![Ast::Leaf(n("1"))], Fun::Minus),
        empty(vec![Ast::Leaf(n("1"))], Fun::Minus, EmptyCtx)
    );
}

#[test]
fn fix_mulget_rewrites_muk_pairs() {
    let nodes = vec![
        Ast::Get(String::from(".a")),
        Ast::Get(String::from("muk")),
    ];
    assert_eq!(
        Some(Ast::Get(String::from("muk.a"))),
        fix_mulget(nodes, Fun::Mul)
    );
    let nodes2 = vec![
        Ast::Get(String::from("muk")),
        Ast::Get(String::from(".a")),
    ];
    assert_eq!(
        Some(Ast::Get(String::from("muk.a"))),
        fix_mulget(nodes2, Fun::Mul)
    );
    let both = vec![
        Ast::Get(String::from("muk")),
        Ast::Get(String::from("muk")),
    ];
    assert_eq!(None, fix_mulget(both, Fun::Mul));
    let not_mul = vec![
        Ast::Get(String::from("muk")),
        Ast::Get(String::from(".a")),
    ];
    assert_eq!(None, fix_mulget(not_mul, Fun::Add));
}

#[test]
fn basic_applies_rewrite_without_resolving() {
    let nodes = vec![
        Ast::Get(String::from("muk")),
        Ast::Get(String::from(".a")),
    ];
    assert_eq!(Some(Ast::Get(String::from("muk.a"))), fix_mulget(nodes, Fun::Mul));
    let nodes2 = vec![
        Ast::Get(String::from("muk")),
        Ast::Get(String::from(".a")),
    ];
    assert_eq!(
        Ast::Get(String::from("muk.a")),
        basic(nodes2, Fun::Mul, EmptyCtx)
    );
}

#[test]
fn parse_min_max_structure() {
    let tree = parse_fn(lex("min(5, max(2, -2))"), &EmptyApp, &EmptyCtx).ok().unwrap();
    let expected = Ast::Node(
        vec![
            Ast::Leaf(n("5")),
            Ast::Node(
                vec![
                    Ast::Leaf(n("2")),
                    Ast::Node(vec![Ast::Leaf(n("2"))], Fun::Minus),
                ],
                Fun::Max,
            ),
        ],
        Fun::Min,
    );
    assert_eq!(expected, tree);
    assert_eq!(Ast::Leaf(n("2")), parse(lex("min(5, max(2, -2))"), &EmptyCtx).ok().unwrap());
}

#[test]
fn parse_rejects_disconnected_fragments() {
    assert!(parse(lex("5 5"), &EmptyCtx).is_err());
}

#[test]
fn parse_rejects_empty_input() {
    assert!(parse(lex(""), &EmptyCtx).is_err());
}

#[test]
fn parse_rejects_missing_operand() {
    assert!(parse(lex("5+"), &EmptyCtx).is_err());
    assert!(parse(lex("5,6"), &EmptyCtx).is_err());
}

#[test]
fn mulget_rewrite_through_the_pipeline() {
    assert_eq!(
        Ast::Get(String::from("muk.a")),
        parse(lex(".a*muk"), &EmptyCtx).ok().unwrap()
    );
    assert_eq!(
        Ast::Get(String::from("muk.a")),
        parse(lex("muk*.a"), &EmptyCtx).ok().unwrap()
    );
}

#[test]
fn each_trig_token_keeps_its_own_tag() {
    assert_eq!(
        Ast::Node(vec![Ast::Leaf(n("5"))], Fun::Tan),
        parse_fn(lex("tan(5)"), &EmptyApp, &EmptyCtx).ok().unwrap()
    );
    assert_eq!(
        Ast::Node(vec![Ast::Leaf(n("5"))], Fun::Cos),
        parse_fn(lex("cos(5)"), &EmptyApp, &EmptyCtx).ok().unwrap()
    );
    assert_eq!(
        Ast::Node(vec![Ast::Leaf(n("5"))], Fun::Sin),
        parse_fn(lex("sin(5)"), &EmptyApp, &EmptyCtx).ok().unwrap()
    );
}

#[test]
fn modulo_with_nothing_before_it_still_scans() {
    assert_eq!(vec![Token::Imod, Token::Num(n("5"))], lex("%5"));
}

#[test]
fn parse_rejects_unary_comparison() {
    assert!(parse(lex("== 5"), &EmptyCtx).is_err());
}
