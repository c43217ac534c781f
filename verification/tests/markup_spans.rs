//! Tests of embedded markup recognition: the tokenizer must hand the
//! host's parser exactly one balanced span, nested tags, quoted
//! attribute text and self-closing tags included.

use xcomponent::catalog::XCatalog;
use xcomponent::errors::EngineError;
use xcomponent::eval::eval_expression;
use xcomponent::host::Host;
use xcomponent::markup::XNode;
use xcomponent::value::{Env, Literal};

/// A host whose markup parser wraps the span it was handed as a text
/// node, so tests can observe exactly what was delegated.
struct SpanHost;

impl Host for SpanHost {
    fn parse_markup(&self, source: &str) -> Result<XNode, EngineError> {
        Ok(XNode::Text(source.to_string()))
    }

    fn call_function(
        &self,
        _name: &str,
        _args: Vec<Literal>,
        _kwargs: Vec<(String, Literal)>,
    ) -> Result<Literal, EngineError> {
        Err(EngineError::UnknownFunction)
    }
}

fn span_of(src: &str) -> String {
    let catalog = XCatalog::new();
    let env: Env = Vec::new();
    match eval_expression(src, &catalog, &env, &SpanHost) {
        Ok(Literal::XNode(XNode::Text(s))) => s,
        other => panic!("unexpected: {:?}", other),
    }
}

#[test]
fn nested_tags_stay_in_one_span() {
    assert_eq!(span_of("<a><b>hi</b></a>"), "<a><b>hi</b></a>");
}

#[test]
fn self_closing_tags_close_the_span() {
    assert_eq!(span_of("<br/>"), "<br/>");
    assert_eq!(span_of("<a><br/></a>"), "<a><br/></a>");
}

#[test]
fn quoted_attribute_text_may_hold_angle_brackets() {
    assert_eq!(span_of("<a title=\"x > y\">t</a>"), "<a title=\"x > y\">t</a>");
}

#[test]
fn text_after_the_span_belongs_to_the_expression() {
    let catalog = XCatalog::new();
    let env: Env = Vec::new();
    // the span ends at the outer closing tag; the rest must be grammar
    match eval_expression("<b>x</b> or 1", &catalog, &env, &SpanHost) {
        Ok(Literal::XNode(XNode::Text(s))) => assert_eq!(s, "<b>x</b>"),
        other => panic!("unexpected: {:?}", other),
    }
}

#[test]
fn unterminated_markup_is_a_syntax_error() {
    let catalog = XCatalog::new();
    let env: Env = Vec::new();
    assert!(matches!(
        eval_expression("<a><b></b>", &catalog, &env, &SpanHost).unwrap_err(),
        EngineError::SyntaxError { .. }
    ));
}
