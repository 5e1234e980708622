use kilac::lexer::lex;
use kilac::lisp::lispify;

#[test]
fn test_lispify_fn() {
    let lexer = lex("min(5 + (5 + 5) + 5, 10.0)");
    let res = lex("min(+ 5 (+ 5 5 +) 5, 10.0)");
    assert_eq!(res, lispify(lexer));
}

#[test]
fn lispify_leaves_plain_tokens_alone() {
    assert_eq!(lex("5"), lispify(lex("5")));
    assert_eq!(lex("min"), lispify(lex("min")));
}
