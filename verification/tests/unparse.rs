//! Tests of printing token trees back to source text, and of tokenizer
//! edge cases around keywords and chained postfix operators.

use xcomponent::errors::EngineError;
use xcomponent::eval::eval_expression;
use xcomponent::catalog::XCatalog;
use xcomponent::host::NullHost;
use xcomponent::parser::tokenize;
use xcomponent::tokens::ExpressionToken;
use xcomponent::value::{Env, Literal, LiteralKey};

fn unparse(src: &str) -> String {
    tokenize(src, &NullHost).unwrap().to_source()
}

#[test]
fn binary_chains_print_with_spaced_operators() {
    assert_eq!(unparse("1+2*3"), "1 + 2 * 3");
    assert_eq!(unparse("a and b or c"), "a and b or c");
    assert_eq!(unparse("x >= 2"), "x >= 2");
}

#[test]
fn literals_print_back() {
    assert_eq!(unparse("-42"), "-42");
    assert_eq!(unparse("true"), "true");
    assert_eq!(unparse("\"a\\\"b\""), "\"a\\\"b\"");
    assert_eq!(unparse("[1, \"x\", false]"), "[1, \"x\", false]");
}

#[test]
fn control_and_postfix_print_back() {
    assert_eq!(unparse("if x { 1 } else { 2 }"), "if x { 1 } else { 2 }");
    assert_eq!(unparse("if x { 1 }"), "if x { 1 }");
    assert_eq!(unparse("for x in xs { x }"), "for x in xs { x }");
    assert_eq!(unparse("a.b.c(1, k=2)[0]"), "a.b.c(1, k=2)[0]");
    assert_eq!(unparse("f()"), "f()");
    assert_eq!(unparse("f(a=1, b=2)"), "f(a=1, b=2)");
}

#[test]
fn operator_tokens_never_stand_alone() {
    assert!(matches!(
        tokenize("+", &NullHost).unwrap_err(),
        EngineError::SyntaxError { .. }
    ));
    assert!(matches!(
        tokenize("1 2", &NullHost).unwrap_err(),
        EngineError::SyntaxError { .. }
    ));
}

#[test]
fn word_operators_respect_word_boundaries() {
    // `android` is one identifier, not `and` against `roid`
    match tokenize("android", &NullHost).unwrap() {
        ExpressionToken::Ident(s) => assert_eq!(s, "android"),
        other => panic!("unexpected: {:?}", other),
    }
    let env: Env = vec![
        ("orb".to_string(), Literal::Int(7)),
        ("anda".to_string(), Literal::Int(3)),
    ];
    let catalog = XCatalog::new();
    assert!(matches!(
        eval_expression("orb + anda", &catalog, &env, &NullHost),
        Ok(Literal::Int(10))
    ));
}

#[test]
fn list_literals_reject_non_literal_elements() {
    assert!(matches!(
        tokenize("[1, x]", &NullHost).unwrap_err(),
        EngineError::SyntaxError { .. }
    ));
    // nested literal lists are fine
    assert!(tokenize("[[1, 2], [3]]", &NullHost).is_ok());
}

#[test]
fn chained_postfix_evaluates_left_to_right() {
    let env: Env = vec![(
        "d".to_string(),
        Literal::Dict(vec![(
            LiteralKey::Str("xs".to_string()),
            Literal::List(vec![Literal::Int(9), Literal::Int(8)]),
        )]),
    )];
    let catalog = XCatalog::new();
    assert!(matches!(
        eval_expression("d.xs[1]", &catalog, &env, &NullHost),
        Ok(Literal::Int(8))
    ));
    assert!(matches!(
        eval_expression("d[\"xs\"][0]", &catalog, &env, &NullHost),
        Ok(Literal::Int(9))
    ));
}

#[test]
fn uuid_keys_are_distinct_from_string_keys() {
    let env: Env = vec![(
        "d".to_string(),
        Literal::Dict(vec![(LiteralKey::Uuid("k".to_string()), Literal::Int(1))]),
    )];
    let catalog = XCatalog::new();
    // field access falls back from the string key to the identifier key
    assert!(matches!(
        eval_expression("d.k", &catalog, &env, &NullHost),
        Ok(Literal::Int(1))
    ));
}

#[test]
fn booleans_compare_and_order_like_integers() {
    let catalog = XCatalog::new();
    let env: Env = Vec::new();
    assert!(matches!(
        eval_expression("true == 1", &catalog, &env, &NullHost),
        Ok(Literal::Bool(true))
    ));
    assert!(matches!(
        eval_expression("false < true", &catalog, &env, &NullHost),
        Ok(Literal::Bool(true))
    ));
    assert!(matches!(
        eval_expression("true / false", &catalog, &env, &NullHost),
        Err(EngineError::DivisionByZero)
    ));
    assert!(matches!(
        eval_expression("7 / true", &catalog, &env, &NullHost),
        Ok(Literal::Int(7))
    ));
}
