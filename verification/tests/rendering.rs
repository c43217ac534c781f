//! Tests of HTML rendering and the template catalog: value
//! serialization, node serialization, component resolution and the
//! registration round trip.

use xcomponent::catalog::XCatalog;
use xcomponent::errors::EngineError;
use xcomponent::host::{Host, NullHost};
use xcomponent::markup::{NodeType, XNode};
use xcomponent::render::render_node_depth;
use xcomponent::tokens::{Operator, OperatorErr};
use xcomponent::value::{Env, Literal, LiteralKey};

/// A host whose markup parser maps one fixed source to one fixed tree.
struct OneTemplateHost;

impl Host for OneTemplateHost {
    fn parse_markup(&self, source: &str) -> Result<XNode, EngineError> {
        if source == "<p>hi</p>" {
            Ok(XNode::Element {
                tag: "p".to_string(),
                attrs: vec![],
                children: vec![XNode::Text("hi".to_string())],
            })
        } else {
            Err(EngineError::SyntaxError { position: 0 })
        }
    }

    fn call_function(
        &self,
        _name: &str,
        _args: Vec<Literal>,
        _kwargs: Vec<(String, Literal)>,
    ) -> Result<Literal, EngineError> {
        Err(EngineError::UnknownFunction)
    }
}

fn empty_env() -> Env {
    Vec::new()
}

fn text(s: &str) -> XNode {
    XNode::Text(s.to_string())
}

fn element(tag: &str, attrs: Vec<(String, XNode)>, children: Vec<XNode>) -> XNode {
    XNode::Element {
        tag: tag.to_string(),
        attrs,
        children,
    }
}

#[test]
fn scalar_values_render_as_text() {
    let catalog = XCatalog::new();
    assert_eq!(Literal::Bool(true).to_html(&catalog, 8).unwrap(), "true");
    assert_eq!(Literal::Bool(false).to_html(&catalog, 8).unwrap(), "false");
    assert_eq!(Literal::Int(42).to_html(&catalog, 8).unwrap(), "42");
    assert_eq!(Literal::Int(-7).to_html(&catalog, 8).unwrap(), "-7");
    assert_eq!(Literal::Int(0).to_html(&catalog, 8).unwrap(), "0");
    assert_eq!(
        Literal::Str("plain".to_string()).to_html(&catalog, 8).unwrap(),
        "plain"
    );
    assert_eq!(
        Literal::Uuid("abc123".to_string()).to_html(&catalog, 8).unwrap(),
        "abc123"
    );
}

#[test]
fn list_renders_as_concatenation_without_separator() {
    let catalog = XCatalog::new();
    let v = Literal::List(vec![
        Literal::Int(1),
        Literal::Str("x".to_string()),
        Literal::Bool(false),
    ]);
    assert_eq!(v.to_html(&catalog, 8).unwrap(), "1xfalse");
}

#[test]
fn dict_renders_as_definition_list() {
    let catalog = XCatalog::new();
    let v = Literal::Dict(vec![
        (LiteralKey::Str("k".to_string()), Literal::Int(5)),
        (LiteralKey::Uuid("u1".to_string()), Literal::Str("v".to_string())),
    ]);
    assert_eq!(
        v.to_html(&catalog, 8).unwrap(),
        "<dl><dt>k</dt><dt>5</dt><dt>u1</dt><dt>v</dt></dl>"
    );
}

#[test]
fn element_serializes_with_attributes_and_children() {
    let catalog = XCatalog::new();
    let node = element(
        "div",
        vec![
            ("id".to_string(), text("main")),
            ("data".to_string(), element("b", vec![], vec![])),
        ],
        vec![text("one"), element("i", vec![], vec![text("two")])],
    );
    assert_eq!(
        render_node_depth(&catalog, &node, 8).unwrap(),
        "<div id=\"main\" data={<b></b>}>one<i>two</i></div>"
    );
}

#[test]
fn registered_tag_resolves_as_component() {
    let mut catalog = XCatalog::new();
    catalog.register_node("inner".to_string(), text("hi"), vec![]);
    let node = element("inner", vec![], vec![]);
    assert_eq!(render_node_depth(&catalog, &node, 8).unwrap(), "hi");
    // embedded one level deeper
    let outer = element("div", vec![], vec![element("inner", vec![], vec![])]);
    assert_eq!(
        render_node_depth(&catalog, &outer, 8).unwrap(),
        "<div>hi</div>"
    );
}

#[test]
fn cyclic_templates_exhaust_the_depth_budget() {
    let mut catalog = XCatalog::new();
    catalog.register_node("spin".to_string(), element("spin", vec![], vec![]), vec![]);
    let node = element("spin", vec![], vec![]);
    assert_eq!(
        render_node_depth(&catalog, &node, 16).unwrap_err(),
        EngineError::RecursionLimit
    );
}

#[test]
fn register_then_render_by_name_equals_render_node() {
    let mut catalog = XCatalog::new();
    let host = OneTemplateHost;
    catalog
        .register("card".to_string(), "<p>hi</p>", vec![], &host)
        .unwrap();
    let env = empty_env();
    let by_name = catalog.render("card", &env).unwrap();
    let root = host.parse_markup("<p>hi</p>").unwrap();
    let direct = catalog.render_node(&root, &env).unwrap();
    assert_eq!(by_name, direct);
    assert_eq!(by_name, "<p>hi</p>");
    // repeated calls with identical input give identical output
    assert_eq!(catalog.render("card", &env).unwrap(), by_name);
}

#[test]
fn register_rejects_bad_source_and_keeps_catalog() {
    let mut catalog = XCatalog::new();
    let host = OneTemplateHost;
    assert!(matches!(
        catalog
            .register("bad".to_string(), "<broken", vec![], &host)
            .unwrap_err(),
        EngineError::SyntaxError { .. }
    ));
    assert_eq!(
        catalog.render("bad", &empty_env()).unwrap_err(),
        EngineError::UnknownTemplate
    );
}

#[test]
fn unknown_template_name_fails() {
    let catalog = XCatalog::new();
    assert_eq!(
        catalog.render("ghost", &empty_env()).unwrap_err(),
        EngineError::UnknownTemplate
    );
}

#[test]
fn later_registration_of_a_name_wins() {
    let mut catalog = XCatalog::new();
    catalog.register_node("t".to_string(), text("first"), vec![]);
    catalog.register_node("t".to_string(), text("second"), vec![]);
    assert_eq!(catalog.render("t", &empty_env()).unwrap(), "second");
}

#[test]
fn template_getters_expose_node_and_params() {
    let mut catalog = XCatalog::new();
    catalog.register_node(
        "t".to_string(),
        text("body"),
        vec![("title".to_string(), "str".to_string())],
    );
    let t = catalog.get("t").unwrap();
    assert_eq!(t.node().node_type(), NodeType::Text);
    assert_eq!(t.params().len(), 1);
    assert_eq!(t.params()[0].0, "title");
    assert!(catalog.get("missing").is_none());
}

#[test]
fn node_duplicate_preserves_structure() {
    let node = element("a", vec![("x".to_string(), text("1"))], vec![text("c")]);
    let copy = node.duplicate();
    let catalog = XCatalog::new();
    assert_eq!(
        render_node_depth(&catalog, &node, 4).unwrap(),
        render_node_depth(&catalog, &copy, 4).unwrap()
    );
}

#[test]
fn markup_value_renders_through_the_catalog() {
    let mut catalog = XCatalog::new();
    catalog.register_node("inner".to_string(), text("hi"), vec![]);
    let v = Literal::XNode(element("inner", vec![], vec![]));
    assert_eq!(v.to_html(&catalog, 8).unwrap(), "hi");
}

#[test]
fn operator_symbols_round_trip() {
    assert_eq!(Operator::from_str("+").unwrap(), Operator::Add);
    assert_eq!(Operator::from_str("and").unwrap(), Operator::And);
    assert_eq!(Operator::from_str(">=").unwrap(), Operator::Gte);
    assert_eq!(Operator::from_str("?").unwrap_err(), OperatorErr);
    assert_eq!(Operator::Mul.symbol(), "*");
    assert_eq!(Operator::Or.symbol(), "or");
}

#[test]
fn for_loop_body_renders_markup_values() {
    let env: Env = vec![(
        "xs".to_string(),
        Literal::List(vec![
            Literal::XNode(text("a")),
            Literal::XNode(text("b")),
        ]),
    )];
    let catalog = XCatalog::new();
    match xcomponent::eval::eval_expression("for x in xs { x }", &catalog, &env, &NullHost) {
        Ok(Literal::Str(s)) => assert_eq!(s, "ab"),
        other => panic!("unexpected: {:?}", other),
    }
}

#[test]
fn truthiness_of_collections() {
    let env: Env = vec![
        ("empty_list".to_string(), Literal::List(vec![])),
        ("full_list".to_string(), Literal::List(vec![Literal::Int(1)])),
    ];
    let catalog = XCatalog::new();
    match xcomponent::eval::eval_expression(
        "if empty_list { \"y\" } else { \"n\" }",
        &catalog,
        &env,
        &NullHost,
    ) {
        Ok(Literal::Str(s)) => assert_eq!(s, "n"),
        other => panic!("unexpected: {:?}", other),
    }
    match xcomponent::eval::eval_expression(
        "if full_list { \"y\" } else { \"n\" }",
        &catalog,
        &env,
        &NullHost,
    ) {
        Ok(Literal::Str(s)) => assert_eq!(s, "y"),
        other => panic!("unexpected: {:?}", other),
    }
}
