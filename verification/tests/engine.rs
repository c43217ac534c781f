//! End-to-end tests of the expression engine: tokenizing, building and
//! evaluating source text against environments, catalogs and a test host.

use xcomponent::catalog::XCatalog;
use xcomponent::errors::EngineError;
use xcomponent::eval::eval_expression;
use xcomponent::host::{Host, NullHost};
use xcomponent::markup::XNode;
use xcomponent::value::{Env, Literal, LiteralKey};

/// A host with a tiny markup parser and a few functions, for tests.
struct TestHost;

impl Host for TestHost {
    fn parse_markup(&self, source: &str) -> Result<XNode, EngineError> {
        if source.trim() == "<hello />" {
            Ok(XNode::Element {
                tag: "hello".to_string(),
                attrs: vec![],
                children: vec![],
            })
        } else {
            Err(EngineError::SyntaxError { position: 0 })
        }
    }

    fn call_function(
        &self,
        name: &str,
        args: Vec<Literal>,
        kwargs: Vec<(String, Literal)>,
    ) -> Result<Literal, EngineError> {
        match name {
            "add1" => match args.first() {
                Some(Literal::Int(i)) => Ok(Literal::Int(i + 1)),
                _ => Err(EngineError::TypeError),
            },
            "gettext" => match args.first() {
                Some(v) => Ok(v.duplicate()),
                None => Err(EngineError::TypeError),
            },
            "named_only" => match kwargs.first() {
                Some((k, Literal::Int(i))) if k == "n" => Ok(Literal::Int(*i * 10)),
                _ => Err(EngineError::TypeError),
            },
            _ => Err(EngineError::UnknownFunction),
        }
    }
}

fn empty_env() -> Env {
    Vec::new()
}

fn eval(src: &str, env: &Env) -> Result<Literal, EngineError> {
    let catalog = XCatalog::new();
    eval_expression(src, &catalog, env, &TestHost)
}

#[test]
fn bool_int_addition_coerces_both_ways() {
    assert!(matches!(eval("true + 1", &empty_env()), Ok(Literal::Int(2))));
    assert!(matches!(eval("1 + true", &empty_env()), Ok(Literal::Int(2))));
}

#[test]
fn string_repetition() {
    match eval("\"ab\" * 3", &empty_env()) {
        Ok(Literal::Str(s)) => assert_eq!(s, "ababab"),
        other => panic!("unexpected: {:?}", other),
    }
    match eval("\"ab\" * 0", &empty_env()) {
        Ok(Literal::Str(s)) => assert_eq!(s, ""),
        other => panic!("unexpected: {:?}", other),
    }
}

#[test]
fn division_by_zero_is_its_own_error() {
    assert_eq!(
        eval("1 / 0", &empty_env()).unwrap_err(),
        EngineError::DivisionByZero
    );
}

#[test]
fn division_type_error() {
    assert_eq!(
        eval("\"a\" / 1", &empty_env()).unwrap_err(),
        EngineError::TypeError
    );
}

#[test]
fn division_truncates_toward_zero() {
    assert!(matches!(eval("7 / 2", &empty_env()), Ok(Literal::Int(3))));
    assert!(matches!(eval("0 - 7 / 2", &empty_env()), Ok(Literal::Int(-3))));
    assert!(matches!(eval("(0 - 7) / 2", &empty_env()), Ok(Literal::Int(-3))));
}

#[test]
fn and_or_select_original_values() {
    assert!(matches!(eval("0 and \"x\"", &empty_env()), Ok(Literal::Int(0))));
    match eval("0 or \"x\"", &empty_env()) {
        Ok(Literal::Str(s)) => assert_eq!(s, "x"),
        other => panic!("unexpected: {:?}", other),
    }
    match eval("\"y\" and \"x\"", &empty_env()) {
        Ok(Literal::Str(s)) => assert_eq!(s, "x"),
        other => panic!("unexpected: {:?}", other),
    }
}

#[test]
fn if_without_else_yields_empty_string() {
    match eval("if false { \"a\" }", &empty_env()) {
        Ok(Literal::Str(s)) => assert_eq!(s, ""),
        other => panic!("unexpected: {:?}", other),
    }
}

#[test]
fn if_with_else_takes_then_branch() {
    match eval("if true { \"a\" } else { \"b\" }", &empty_env()) {
        Ok(Literal::Str(s)) => assert_eq!(s, "a"),
        other => panic!("unexpected: {:?}", other),
    }
}

#[test]
fn if_branches_on_truthiness() {
    match eval("if 0 { \"a\" } else { \"b\" }", &empty_env()) {
        Ok(Literal::Str(s)) => assert_eq!(s, "b"),
        other => panic!("unexpected: {:?}", other),
    }
}

#[test]
fn for_loop_renders_each_iteration() {
    match eval("for x in [1, 2, 3] { x }", &empty_env()) {
        Ok(Literal::Str(s)) => assert_eq!(s, "123"),
        other => panic!("unexpected: {:?}", other),
    }
}

#[test]
fn for_loop_binding_does_not_leak() {
    let env: Env = vec![("x".to_string(), Literal::Int(42))];
    match eval("for x in [1, 2, 3] { x }", &env) {
        Ok(Literal::Str(s)) => assert_eq!(s, "123"),
        other => panic!("unexpected: {:?}", other),
    }
    // the outer binding is untouched after the loop
    assert!(matches!(eval("x", &env), Ok(Literal::Int(42))));
}

#[test]
fn for_loop_body_may_compute() {
    match eval("for x in [1, 2, 3] { x * 2 }", &empty_env()) {
        Ok(Literal::Str(s)) => assert_eq!(s, "246"),
        other => panic!("unexpected: {:?}", other),
    }
    match eval("for x in [1, 2] { if x > 1 { \"big\" } else { \"small\" } }", &empty_env()) {
        Ok(Literal::Str(s)) => assert_eq!(s, "smallbig"),
        other => panic!("unexpected: {:?}", other),
    }
}

#[test]
fn for_loop_over_non_list_fails() {
    assert_eq!(
        eval("for x in 5 { x }", &empty_env()).unwrap_err(),
        EngineError::NotIterable
    );
}

#[test]
fn field_access_on_dict() {
    let env: Env = vec![(
        "d".to_string(),
        Literal::Dict(vec![(LiteralKey::Str("k".to_string()), Literal::Int(5))]),
    )];
    assert!(matches!(eval("d.k", &env), Ok(Literal::Int(5))));
    assert_eq!(eval("d.missing", &env).unwrap_err(), EngineError::UnboundField);
}

#[test]
fn field_access_on_non_dict_fails() {
    let env: Env = vec![("n".to_string(), Literal::Int(1))];
    assert_eq!(eval("n.k", &env).unwrap_err(), EngineError::TypeError);
}

#[test]
fn index_access_on_list_and_dict() {
    let env: Env = vec![
        (
            "xs".to_string(),
            Literal::List(vec![Literal::Int(10), Literal::Int(20)]),
        ),
        (
            "d".to_string(),
            Literal::Dict(vec![(LiteralKey::Str("k".to_string()), Literal::Int(5))]),
        ),
    ];
    assert!(matches!(eval("xs[1]", &env), Ok(Literal::Int(20))));
    assert_eq!(eval("xs[2]", &env).unwrap_err(), EngineError::UnboundField);
    assert!(matches!(eval("d[\"k\"]", &env), Ok(Literal::Int(5))));
    assert_eq!(eval("xs[\"k\"]", &env).unwrap_err(), EngineError::TypeError);
}

#[test]
fn undefined_variable_always_fails() {
    assert_eq!(
        eval("nope", &empty_env()).unwrap_err(),
        EngineError::UndefinedVariable
    );
}

#[test]
fn malformed_source_is_a_syntax_error() {
    assert!(matches!(
        eval("1 +", &empty_env()).unwrap_err(),
        EngineError::SyntaxError { .. }
    ));
    assert!(matches!(
        eval("for x in { }", &empty_env()).unwrap_err(),
        EngineError::SyntaxError { .. }
    ));
}

#[test]
fn empty_source_is_an_empty_expression_error() {
    assert!(matches!(
        eval("", &empty_env()).unwrap_err(),
        EngineError::EmptyExpression { .. }
    ));
    assert!(matches!(
        eval("   ", &empty_env()).unwrap_err(),
        EngineError::EmptyExpression { .. }
    ));
}

#[test]
fn comparison_operators() {
    assert!(matches!(eval("2 > 1", &empty_env()), Ok(Literal::Bool(true))));
    assert!(matches!(eval("1 >= 2", &empty_env()), Ok(Literal::Bool(false))));
    assert!(matches!(eval("1 <= 1", &empty_env()), Ok(Literal::Bool(true))));
    assert!(matches!(eval("\"a\" < \"b\"", &empty_env()), Ok(Literal::Bool(true))));
    assert!(matches!(eval("\"a\" == \"a\"", &empty_env()), Ok(Literal::Bool(true))));
    assert!(matches!(eval("1 != true", &empty_env()), Ok(Literal::Bool(false))));
    assert_eq!(
        eval("\"a\" > 1", &empty_env()).unwrap_err(),
        EngineError::TypeError
    );
}

#[test]
fn string_concatenation_and_subtraction() {
    match eval("\"foo\" + \"bar\"", &empty_env()) {
        Ok(Literal::Str(s)) => assert_eq!(s, "foobar"),
        other => panic!("unexpected: {:?}", other),
    }
    assert!(matches!(eval("10 - 2 - 3", &empty_env()), Ok(Literal::Int(5))));
    assert_eq!(
        eval("\"a\" - \"b\"", &empty_env()).unwrap_err(),
        EngineError::TypeError
    );
}

#[test]
fn precedence_and_grouping() {
    assert!(matches!(eval("1 + 2 * 3", &empty_env()), Ok(Literal::Int(7))));
    assert!(matches!(eval("(1 + 2) * 3", &empty_env()), Ok(Literal::Int(9))));
    assert!(matches!(
        eval("1 + 1 == 2 and 3 > 2", &empty_env()),
        Ok(Literal::Bool(true))
    ));
}

#[test]
fn negative_integer_literals() {
    assert!(matches!(eval("-5", &empty_env()), Ok(Literal::Int(-5))));
    assert!(matches!(eval("2 + -5", &empty_env()), Ok(Literal::Int(-3))));
}

#[test]
fn addition_overflow_is_reported() {
    assert_eq!(
        eval("9223372036854775807 + 1", &empty_env()).unwrap_err(),
        EngineError::Overflow
    );
}

#[test]
fn string_escapes_unescape_quotes() {
    match eval("\"a\\\"b\"", &empty_env()) {
        Ok(Literal::Str(s)) => assert_eq!(s, "a\"b"),
        other => panic!("unexpected: {:?}", other),
    }
}

#[test]
fn host_function_calls() {
    assert!(matches!(eval("add1(2)", &empty_env()), Ok(Literal::Int(3))));
    assert_eq!(
        eval("frobnicate(2)", &empty_env()).unwrap_err(),
        EngineError::UnknownFunction
    );
    assert!(matches!(eval("named_only(n=4)", &empty_env()), Ok(Literal::Int(40))));
}

#[test]
fn host_call_through_field_dispatches_by_field_name() {
    let env: Env = vec![("t".to_string(), Literal::Int(0))];
    match eval("t.gettext(\"hello\")", &env) {
        Ok(Literal::Str(s)) => assert_eq!(s, "hello"),
        other => panic!("unexpected: {:?}", other),
    }
}

#[test]
fn call_argument_errors_propagate() {
    assert_eq!(
        eval("add1(nope)", &empty_env()).unwrap_err(),
        EngineError::UndefinedVariable
    );
}

#[test]
fn markup_literal_parses_through_host() {
    match eval("<hello />", &empty_env()) {
        Ok(Literal::XNode(XNode::Element { tag, .. })) => assert_eq!(tag, "hello"),
        other => panic!("unexpected: {:?}", other),
    }
    assert!(matches!(
        eval("<broken", &empty_env()).unwrap_err(),
        EngineError::SyntaxError { .. }
    ));
}

#[test]
fn variable_holding_markup_renders_eagerly() {
    let env: Env = vec![(
        "x".to_string(),
        Literal::XNode(XNode::Text("yo".to_string())),
    )];
    match eval("x", &env) {
        Ok(Literal::Str(s)) => assert_eq!(s, "yo"),
        other => panic!("unexpected: {:?}", other),
    }
}

#[test]
fn null_host_rejects_markup_and_calls() {
    let catalog = XCatalog::new();
    let env = empty_env();
    assert!(matches!(
        eval_expression("<hello />", &catalog, &env, &NullHost).unwrap_err(),
        EngineError::SyntaxError { .. }
    ));
    assert_eq!(
        eval_expression("f(1)", &catalog, &env, &NullHost).unwrap_err(),
        EngineError::UnknownFunction
    );
}

#[test]
fn i18n_messages_are_extracted() {
    let host = TestHost;
    assert_eq!(
        xcomponent::i18n::extract_expr_i18n_messages("t.gettext(\"hello\")", &host).unwrap(),
        vec!["hello".to_string()]
    );
    assert_eq!(
        xcomponent::i18n::extract_expr_i18n_messages("t.ngettext(\"one\", \"many\", 3)", &host)
            .unwrap(),
        vec!["one".to_string(), "many".to_string()]
    );
    assert_eq!(
        xcomponent::i18n::extract_expr_i18n_messages("1 + 2", &host).unwrap(),
        Vec::<String>::new()
    );
}
