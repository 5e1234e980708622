use kilac::lexer::{lex, Lexer, Token};
use kilac::num::Num;

fn n(s: &str) -> Num {
    kilac::num::from_literal(s).unwrap()
}

#[test]
fn test_lexer_simple() {
    let mut lexer = Lexer::new("ss");
    assert_eq!(vec![Token::SS], lexer.lex());
}

#[test]
fn test_function_kipa_interpolate() {
    let inp = "max(interpoloi(max([(a-0),0.5*med((.a*..mukana-0))]),
        max((.a*..mukana-0)),5,0.5*med((.a*..mukana-0))))";
    let res = vec![
        Token::Max,
        Token::ParL,
        Token::Interpoloi,
        Token::ParL,
        Token::Max,
        Token::ParL,
        Token::List,
        Token::ParL,
        Token::ParL,
        Token::Expr(String::from("a")),
        Token::Sub,
        Token::Num(n("0")),
        Token::ParR,
        Token::Comma,
        Token::Num(n("0.5")),
        Token::Mul,
        Token::Med,
        Token::ParL,
        Token::ParL,
        Token::Expr(String::from(".a")),
        Token::Mul,
        Token::Expr(String::from("..mukana")),
        Token::Sub,
        Token::Num(n("0")),
        Token::ParR,
        Token::ParR,
        Token::ParR,
        Token::ParR,
        Token::Comma,
        Token::Max,
        Token::ParL,
        Token::ParL,
        Token::Expr(String::from(".a")),
        Token::Mul,
        Token::Expr(String::from("..mukana")),
        Token::Sub,
        Token::Num(n("0")),
        Token::ParR,
        Token::ParR,
        Token::Comma,
        Token::Num(n("5")),
        Token::Comma,
        Token::Num(n("0.5")),
        Token::Mul,
        Token::Med,
        Token::ParL,
        Token::ParL,
        Token::Expr(String::from(".a")),
        Token::Mul,
        Token::Expr(String::from("..mukana")),
        Token::Sub,
        Token::Num(n("0")),
        Token::ParR,
        Token::ParR,
        Token::ParR,
        Token::ParR,
    ];
    let mut lexer = Lexer::new(inp);
    assert_eq!(res, lexer.lex());
}

#[test]
fn lexer_modulo_relocates_previous_token() {
    assert_eq!(
        vec![Token::Imod, Token::Num(n("12")), Token::Num(n("2"))],
        lex("12%2")
    );
}

#[test]
fn lexer_bracket_is_list_sugar() {
    assert_eq!(
        vec![
            Token::List,
            Token::ParL,
            Token::Num(n("1")),
            Token::Comma,
            Token::Num(n("2")),
            Token::ParR
        ],
        lex("[1,2]")
    );
}

#[test]
fn lexer_comparisons_and_constants() {
    assert_eq!(vec![Token::Eq], lex("=="));
    assert_eq!(vec![Token::Neq], lex("!="));
    assert_eq!(vec![Token::Ge], lex(">="));
    assert_eq!(vec![Token::Le], lex("<="));
    assert_eq!(vec![Token::Lt], lex(">"));
    assert_eq!(vec![Token::Gt], lex("<"));
    assert_eq!(vec![Token::Num(Num::Fin(3_141_592_653_589_793))], lex("pi"));
    assert_eq!(vec![Token::Num(Num::Fin(2_718_281_828_459_045))], lex("neper"));
}

#[test]
fn lexer_skips_whitespace_and_survives_trailing_blanks() {
    assert_eq!(
        vec![Token::Expr(String::from("a")), Token::Expr(String::from("b"))],
        lex("  a  b  ")
    );
}

#[test]
fn lexer_identifier_words() {
    assert_eq!(vec![Token::Expr(String::from("..mukana"))], lex("..mukana"));
    assert_eq!(vec![Token::Expr(String::from("1e"))], lex("1e"));
}

#[test]
fn literal_forms() {
    assert_eq!(Num::Fin(5_000_000_000_000_000), n("5"));
    assert_eq!(Num::Fin(500_000_000_000_000), n("0.5"));
    assert_eq!(Num::Fin(500_000_000_000_000), n(".5"));
    assert_eq!(Num::Fin(5_000_000_000_000_000), n("5."));
    assert_eq!(Num::Fin(2_500_000_000_000_000_000), n("2.5E3"));
    assert_eq!(Num::Fin(100_000_000_000_000_000_000), n("1e5"));
    assert_eq!(Num::Inf, n("inf"));
    assert_eq!(Num::Inf, n("Infinity"));
    assert_eq!(Num::NaN, n("nan"));
    assert_eq!(Num::Inf, n("1e9999"));
    assert_eq!(None, kilac::num::from_literal("."));
    assert_eq!(None, kilac::num::from_literal("x5"));
    assert_eq!(None, kilac::num::from_literal(""));
}
