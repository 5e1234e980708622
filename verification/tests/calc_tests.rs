use kilac::applicators::{optimize, EmptyApp};
use kilac::calc::{calculate, calculate_err, eval, Value};
use kilac::ctx::EmptyCtx;
use kilac::lexer::lex;
use kilac::num::Num;
use kilac::parser::{parse, parse_fn, Ast, Fun};

fn n(s: &str) -> Num {
    kilac::num::from_literal(s).unwrap()
}

#[test]
fn test_add() {
    let s = "5+6";
    assert_eq!(n("11"), calculate(s.into()));
}

#[test]
fn test_sub() {
    let s = "12-2";
    assert_eq!(n("10"), calculate(s.into()));
}

#[test]
fn test_div() {
    let s = "12/2";
    assert_eq!(n("6"), calculate(s.into()));
}

#[test]
fn test_mul() {
    let s = "12*2";
    assert_eq!(n("24"), calculate(s.into()));
}

#[test]
fn test_mod() {
    let s = "12%2";
    assert_eq!(n("0"), calculate(s.into()));
    assert_eq!(n("2"), calculate("12%5".into()));
    assert_eq!(n("2"), calculate("17%5".into()));
    assert_eq!(n("2"), calculate("14%4".into()));
}

#[test]
fn test_pow() {
    let s = "2^2";
    assert_eq!(n("4"), calculate(s.into()));
}

#[test]
fn test_arithmetic() {
    let s = "5+5-6*12/2";
    assert_eq!(n("26").neg(), calculate(s.into()));
}

#[test]
fn test_min() {
    assert_eq!(n("2"), calculate("min(5, 10, 2)".into()));
    assert_eq!(n("10").neg(), calculate("min(5, -10, 2)".into()));
}

#[test]
fn unary() {
    assert_eq!(n("10").neg(), calculate("-5*2".into()));
}

#[test]
fn power_is_right_associative() {
    assert_eq!(n("512"), calculate("2^3^2".into()));
}

#[test]
fn unary_and_binary_minus() {
    assert_eq!(n("3"), calculate("5-2".into()));
    assert_eq!(n("10").neg(), calculate("-5*2".into()));
    assert_eq!(n("10").neg(), calculate("5*-2".into()));
}

#[test]
fn comparison_truth_table() {
    assert_eq!(n("1"), calculate("5 > 3".into()));
    assert_eq!(n("0"), calculate("5 < 3".into()));
    assert_eq!(n("1"), calculate("5 >= 5".into()));
    assert_eq!(n("0"), calculate("5 <= 3".into()));
    assert_eq!(n("1"), calculate("5 == 5".into()));
    assert_eq!(n("0"), calculate("5 != 5".into()));
}

#[test]
fn variable_arity_reducers() {
    assert_eq!(n("5"), calculate("max(5,1,-10,4.99999,2.5)".into()));
    assert_eq!(n("2"), calculate("mean(1,2,3)".into()));
    assert_eq!(n("2"), calculate("med(1,2,3)".into()));
    assert_eq!(n("2"), calculate("median(1,2,3)".into()));
    assert_eq!(n("2.5"), calculate("med(1,2,3,4)".into()));
    assert_eq!(n("6"), calculate("sum(1,2,3)".into()));
}

#[test]
fn conditional_selector() {
    assert_eq!(n("10"), calculate("if(0,10,20,30)".into()));
    assert_eq!(n("30"), calculate("if(2,10,20,30)".into()));
}

#[test]
fn selector_out_of_range_is_an_error() {
    assert!(calculate_err("if(5,10,20)".into(), EmptyCtx).is_err());
}

#[test]
fn list_evaluates_to_sequence() {
    let ast = parse(lex("[1,2,3]"), &EmptyCtx).ok().unwrap();
    match eval(&ast, &EmptyCtx).ok().unwrap() {
        Value::Vec(v) => assert_eq!(vec![n("1"), n("2"), n("3")], v),
        Value::Num(_) => panic!("expected a sequence"),
    }
    assert!(calculate_err("[1,2,3]".into(), EmptyCtx).is_err());
}

#[test]
fn sequence_child_shadows_earlier_operands() {
    let ast = Ast::Node(
        vec![
            Ast::Leaf(n("100")),
            Ast::Node(vec![Ast::Leaf(n("1")), Ast::Leaf(n("2"))], Fun::List),
        ],
        Fun::Sum,
    );
    match eval(&ast, &EmptyCtx).ok().unwrap() {
        Value::Num(v) => assert_eq!(n("3"), v),
        Value::Vec(_) => panic!("expected a number"),
    }
}

#[test]
fn unresolved_reference_is_an_error() {
    assert!(calculate_err("unknownname".into(), EmptyCtx).is_err());
    let ast = parse_fn(lex("missing"), &EmptyApp, &EmptyCtx).ok().unwrap();
    assert!(eval(&ast, &EmptyCtx).is_err());
}

#[test]
fn empty_marker_is_an_evaluation_error() {
    assert!(eval(&Ast::Empty, &EmptyCtx).is_err());
}

#[test]
fn transcendental_dispatch_is_an_error() {
    assert!(calculate_err("sqrt(4)".into(), EmptyCtx).is_err());
    assert!(calculate_err("ln(1)".into(), EmptyCtx).is_err());
}

#[test]
fn unknown_dispatch_is_an_error() {
    let ast = Ast::Node(vec![Ast::Leaf(n("1"))], Fun::SS);
    assert!(eval(&ast, &EmptyCtx).is_err());
}

#[test]
fn division_by_zero_is_infinite_not_an_error() {
    assert_eq!(Num::Inf, calculate("5/0".into()));
    assert_eq!(Num::NaN, calculate("0/0".into()));
}

#[test]
fn folding_twice_keeps_the_leaf() {
    let once = optimize(vec![Ast::Leaf(n("5")), Ast::Leaf(n("7"))], Fun::Add, EmptyCtx);
    assert_eq!(Ast::Leaf(n("12")), once);
    let twice = optimize(vec![once], Fun::Plus, EmptyCtx);
    assert_eq!(Ast::Leaf(n("12")), twice);
}

#[test]
fn fold_and_identity_agree() {
    for src in ["2^3^2", "min(5, max(2, -2))", "5+5-6*12/2", "med(1,2,3,4)"] {
        let folded = parse(lex(src), &EmptyCtx).ok().unwrap();
        let plain = parse_fn(lex(src), &EmptyApp, &EmptyCtx).ok().unwrap();
        let a = eval(&folded, &EmptyCtx).ok().unwrap();
        let b = eval(&plain, &EmptyCtx).ok().unwrap();
        match (a, b) {
            (Value::Num(x), Value::Num(y)) => assert_eq!(x, y),
            _ => panic!("expected numbers"),
        }
    }
}

#[test]
fn aikavali_in_expression() {
    assert_eq!(n("5"), calculate("aikavali(5, 10)".into()));
    assert_eq!(n("86300"), calculate("aikavali(200, 100)".into()));
}

#[test]
fn grouping_overrides_precedence() {
    assert_eq!(n("14"), calculate("2*(3+4)".into()));
    assert_eq!(n("10"), calculate("(2+3)*2".into()));
}

#[test]
fn named_constants_evaluate() {
    assert_eq!(n("3.141592653589793"), calculate("pi".into()));
    assert_eq!(n("2.718281828459045"), calculate("neper".into()));
}

#[test]
fn special_literals_flow_through() {
    assert_eq!(Num::Inf, calculate("inf".into()));
    assert_eq!(Num::NaN, calculate("nan".into()));
    assert_eq!(Num::Inf, calculate("inf+1".into()));
    assert_eq!(Num::NaN, calculate("inf-inf".into()));
}

#[test]
fn trailing_whitespace_is_harmless() {
    assert_eq!(n("11"), calculate("5+6  ".into()));
    assert_eq!(n("11"), calculate("  5 + 6".into()));
}

#[test]
fn unknown_word_gives_resolution_error() {
    match calculate_err("abc".into(), EmptyCtx) {
        Err(e) => assert_eq!("The node is not a leaf", e),
        Ok(_) => panic!("expected an error"),
    }
}
