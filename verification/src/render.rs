//! HTML rendering: serialization of values and markup trees to text.
//!
//! Booleans, integers, strings and identifiers render as their textual
//! form; a list renders as the concatenation of its elements' renderings
//! with no separator; a dictionary renders as a definition list wrapping
//! each key and value rendering; a markup tree renders tag by tag, except
//! that an element whose tag names a registered template renders as that
//! template's root instead, so embedded components resolve recursively.
//! The caller-supplied depth budget bounds that recursion, since nothing
//! stops a catalog from holding cyclic template references.

use vstd::prelude::*;

use crate::catalog::{cat_lookup, CatModel, XCatalog};
use crate::errors::EngineError;
use crate::markup::{
    lemma_nodes_view_index, lemma_nodes_view_len, node_view, nodes_view, NodeModel, XNode,
};
use crate::strutil::{bool_str, bool_to_string, int_str, int_to_string};
use crate::value::{
    entries_view, lemma_entries_view_index, lemma_entries_view_len, lemma_lits_view_index,
    lemma_lits_view_len, lits_view, Env, KeyModel, LitModel, Literal, LiteralKey,
};

verus! {

/// The default depth budget for nested template resolution.
pub const DEFAULT_DEPTH: usize = 64;

/// The model of a rendering result.
pub open spec fn str_res_view(r: Result<String, EngineError>) -> Result<Seq<char>, EngineError> {
    match r {
        Ok(s) => Ok(s@),
        Err(e) => Err(e),
    }
}

/// The textual form of a dictionary key: its characters.
pub open spec fn key_str(k: KeyModel) -> Seq<char> {
    match k {
        KeyModel::Str(s) => s,
        KeyModel::Uid(s) => s,
    }
}

/// Catalog-free serialization of one markup node: text verbatim, an
/// element as its tag, attributes and children between angle brackets.
/// Used for attribute values, which never resolve components.
pub open spec fn repr_node(n: NodeModel) -> Seq<char>
    decreases n,
{
    match n {
        NodeModel::Text(t) => t,
        NodeModel::Element { tag, attrs, children } => "<"@ + tag + repr_attrs(attrs) + ">"@
            + repr_nodes(children) + "</"@ + tag + ">"@,
    }
}

/// Catalog-free serialization of a node sequence, left to right.
pub open spec fn repr_nodes(s: Seq<NodeModel>) -> Seq<char>
    decreases s,
{
    if s.len() == 0 {
        Seq::empty()
    } else {
        repr_nodes(s.drop_last()) + repr_node(s.last())
    }
}

/// Serialization of an attribute list: each attribute as a space, its
/// name, an equals sign, and its value — a text value between quotes, an
/// element value between braces.
pub open spec fn repr_attrs(s: Seq<(Seq<char>, NodeModel)>) -> Seq<char>
    decreases s,
{
    if s.len() == 0 {
        Seq::empty()
    } else {
        repr_attrs(s.drop_last()) + " "@ + s.last().0 + "="@ + (match s.last().1 {
            NodeModel::Text(t) => "\""@ + t + "\""@,
            el => "{"@ + repr_node(el) + "}"@,
        })
    }
}

/// What rendering a registered template by name returns: the rendering
/// of the registered root against the whole catalog, or an
/// unknown-template error for an absent name.
pub open spec fn render_by_name_model(cat: CatModel, name: Seq<char>, fuel: nat) -> Result<
    Seq<char>,
    EngineError,
> {
    match cat_lookup(cat, name) {
        Some(t) => render_node_model(t.node, cat, fuel),
        None => Err(EngineError::UnknownTemplate),
    }
}

/// What rendering one markup node returns: text verbatim; an element
/// whose tag names a registered template renders as that template's root
/// under one less unit of depth budget, any other element serializes tag
/// by tag with its children rendered in order.
pub open spec fn render_node_model(n: NodeModel, cat: CatModel, fuel: nat) -> Result<
    Seq<char>,
    EngineError,
>
    decreases fuel, n, 0nat,
{
    match n {
        NodeModel::Text(t) => Ok(t),
        NodeModel::Element { tag, attrs, children } => match cat_lookup(cat, tag) {
            Some(t) => if fuel == 0 {
                Err(EngineError::RecursionLimit)
            } else {
                render_node_model(t.node, cat, (fuel - 1) as nat)
            },
            None => match render_nodes_model(children, cat, fuel) {
                Ok(body) => Ok(
                    "<"@ + tag + repr_attrs(attrs) + ">"@ + body + "</"@ + tag + ">"@,
                ),
                Err(e) => Err(e),
            },
        },
    }
}

/// What rendering a node sequence returns: the concatenation left to
/// right, aborted by the first failure.
pub open spec fn render_nodes_model(s: Seq<NodeModel>, cat: CatModel, fuel: nat) -> Result<
    Seq<char>,
    EngineError,
>
    decreases fuel, s, 1nat,
{
    if s.len() == 0 {
        Ok(Seq::empty())
    } else {
        match render_nodes_model(s.drop_last(), cat, fuel) {
            Ok(a) => match render_node_model(s.last(), cat, fuel) {
                Ok(b) => Ok(a + b),
                Err(e) => Err(e),
            },
            Err(e) => Err(e),
        }
    }
}

/// What rendering one value returns.
pub open spec fn render_lit(v: LitModel, cat: CatModel, fuel: nat) -> Result<
    Seq<char>,
    EngineError,
>
    decreases fuel, v, 0nat,
{
    match v {
        LitModel::Bool(b) => Ok(bool_str(b)),
        LitModel::Int(i) => Ok(int_str(i)),
        LitModel::Str(s) => Ok(s),
        LitModel::Uid(s) => Ok(s),
        LitModel::Node(n) => render_node_model(n, cat, fuel),
        LitModel::List(items) => render_lits(items, cat, fuel),
        LitModel::Dict(entries) => match render_entries(entries, cat, fuel) {
            Ok(body) => Ok("<dl>"@ + body + "</dl>"@),
            Err(e) => Err(e),
        },
    }
}

/// What rendering a value sequence returns: the concatenation left to
/// right, aborted by the first failure.
pub open spec fn render_lits(s: Seq<LitModel>, cat: CatModel, fuel: nat) -> Result<
    Seq<char>,
    EngineError,
>
    decreases fuel, s, 1nat,
{
    if s.len() == 0 {
        Ok(Seq::empty())
    } else {
        match render_lits(s.drop_last(), cat, fuel) {
            Ok(a) => match render_lit(s.last(), cat, fuel) {
                Ok(b) => Ok(a + b),
                Err(e) => Err(e),
            },
            Err(e) => Err(e),
        }
    }
}

/// What rendering a dictionary's entries returns: for each entry its key
/// and its value rendering, each wrapped in a definition-term tag.
pub open spec fn render_entries(s: Seq<(KeyModel, LitModel)>, cat: CatModel, fuel: nat) -> Result<
    Seq<char>,
    EngineError,
>
    decreases fuel, s, 1nat,
{
    if s.len() == 0 {
        Ok(Seq::empty())
    } else {
        match render_entries(s.drop_last(), cat, fuel) {
            Ok(a) => match render_lit(s.last().1, cat, fuel) {
                Ok(b) => Ok(
                    a + "<dt>"@ + key_str(s.last().0) + "</dt>"@ + "<dt>"@ + b + "</dt>"@,
                ),
                Err(e) => Err(e),
            },
            Err(e) => Err(e),
        }
    }
}

/// A failing element aborts the rendering of the whole node sequence
/// with its error.
proof fn lemma_render_nodes_err(s: Seq<NodeModel>, cat: CatModel, fuel: nat, j: int, e: EngineError)
    requires
        0 <= j < s.len(),
        render_nodes_model(s.take(j), cat, fuel) is Ok,
        render_node_model(s[j], cat, fuel) == Err::<Seq<char>, EngineError>(e),
    ensures
        render_nodes_model(s, cat, fuel) == Err::<Seq<char>, EngineError>(e),
    decreases s.len(),
{
    if j == s.len() - 1 {
        assert(s.drop_last() =~= s.take(j));
    } else {
        assert(s.drop_last().take(j) =~= s.take(j));
        lemma_render_nodes_err(s.drop_last(), cat, fuel, j, e);
    }
}

/// A failing element aborts the rendering of the whole value sequence
/// with its error.
proof fn lemma_render_lits_err(s: Seq<LitModel>, cat: CatModel, fuel: nat, j: int, e: EngineError)
    requires
        0 <= j < s.len(),
        render_lits(s.take(j), cat, fuel) is Ok,
        render_lit(s[j], cat, fuel) == Err::<Seq<char>, EngineError>(e),
    ensures
        render_lits(s, cat, fuel) == Err::<Seq<char>, EngineError>(e),
    decreases s.len(),
{
    if j == s.len() - 1 {
        assert(s.drop_last() =~= s.take(j));
    } else {
        assert(s.drop_last().take(j) =~= s.take(j));
        lemma_render_lits_err(s.drop_last(), cat, fuel, j, e);
    }
}

/// A failing value aborts the rendering of the whole entry sequence with
/// its error.
proof fn lemma_render_entries_err(
    s: Seq<(KeyModel, LitModel)>,
    cat: CatModel,
    fuel: nat,
    j: int,
    e: EngineError,
)
    requires
        0 <= j < s.len(),
        render_entries(s.take(j), cat, fuel) is Ok,
        render_lit(s[j].1, cat, fuel) == Err::<Seq<char>, EngineError>(e),
    ensures
        render_entries(s, cat, fuel) == Err::<Seq<char>, EngineError>(e),
    decreases s.len(),
{
    if j == s.len() - 1 {
        assert(s.drop_last() =~= s.take(j));
    } else {
        assert(s.drop_last().take(j) =~= s.take(j));
        lemma_render_entries_err(s.drop_last(), cat, fuel, j, e);
    }
}

impl LiteralKey {
    /// The textual form of the key.
    pub fn key_string(&self) -> (r: String)
        ensures
            r@ == key_str(self@),
    {
        match self {
            LiteralKey::Str(s) => s.clone(),
            LiteralKey::Uuid(s) => s.clone(),
        }
    }
}

/// Serializes an attribute list, catalog-free.
#[verifier::loop_isolation(false)]
fn repr_attrs_exec(attrs: &Vec<(String, XNode)>) -> (r: String)
    ensures
        r@ == repr_attrs(crate::markup::attrs_view(attrs@)),
    decreases attrs@,
{
    let ghost model = crate::markup::attrs_view(attrs@);
    proof {
        crate::markup::lemma_attrs_view_len(attrs@);
        assert(model.take(0) =~= Seq::empty());
    }
    let mut out = String::new();
    let mut i: usize = 0;
    while i < attrs.len()
        invariant
            i <= attrs@.len(),
            out@ == repr_attrs(model.take(i as int)),
        decreases attrs@.len() - i,
    {
        proof {
            crate::markup::lemma_attrs_view_index(attrs@, i as int);
        }
        out.append(" ");
        out.append(attrs[i].0.as_str());
        out.append("=");
        match &attrs[i].1 {
            XNode::Text(t) => {
                out.append("\"");
                out.append(t.as_str());
                out.append("\"");
            },
            el => {
                let inner = repr_node_exec(el);
                out.append("{");
                out.append(inner.as_str());
                out.append("}");
            },
        }
        proof {
            assert(model.take(i as int + 1).drop_last() =~= model.take(i as int));
            assert(model.take(i as int + 1).last() == model[i as int]);
        }
        i = i + 1;
    }
    proof {
        assert(model.take(attrs@.len() as int) =~= model);
    }
    out
}

/// Serializes one markup node, catalog-free.
#[verifier::loop_isolation(false)]
pub fn repr_node_exec(node: &XNode) -> (r: String)
    ensures
        r@ == repr_node(node@),
    decreases *node,
{
    match node {
        XNode::Text(t) => t.clone(),
        XNode::Element { tag, attrs, children } => {
            let ghost model = nodes_view(children@);
            proof {
                lemma_nodes_view_len(children@);
                assert(model.take(0) =~= Seq::empty());
            }
            let mut body = String::new();
            let mut j: usize = 0;
            while j < children.len()
                invariant
                    j <= children@.len(),
                    body@ == repr_nodes(model.take(j as int)),
                decreases children@.len() - j,
            {
                proof {
                    lemma_nodes_view_index(children@, j as int);
                }
                let rendered = repr_node_exec(&children[j]);
                body.append(rendered.as_str());
                proof {
                    assert(model.take(j as int + 1).drop_last() =~= model.take(j as int));
                    assert(model.take(j as int + 1).last() == model[j as int]);
                }
                j = j + 1;
            }
            proof {
                assert(model.take(children@.len() as int) =~= model);
            }
            let at = repr_attrs_exec(attrs);
            let mut out = String::new();
            out.append("<");
            out.append(tag.as_str());
            out.append(at.as_str());
            out.append(">");
            out.append(body.as_str());
            out.append("</");
            out.append(tag.as_str());
            out.append(">");
            out
        },
    }
}

/// Renders one markup node against a catalog under a depth budget.
#[verifier::loop_isolation(false)]
pub fn render_node_depth(cat: &XCatalog, node: &XNode, fuel: usize) -> (res: Result<
    String,
    EngineError,
>)
    ensures
        str_res_view(res) == render_node_model(node@, cat@, fuel as nat),
    decreases fuel, *node, 0nat,
{
    match node {
        XNode::Text(t) => Ok(t.clone()),
        XNode::Element { tag, attrs, children } => {
            match cat.get(tag.as_str()) {
                Some(t) => {
                    if fuel == 0 {
                        Err(EngineError::RecursionLimit)
                    } else {
                        render_node_depth(cat, t.node(), fuel - 1)
                    }
                },
                None => {
                    let ghost model = nodes_view(children@);
                    proof {
                        lemma_nodes_view_len(children@);
                        assert(model.take(0) =~= Seq::empty());
                    }
                    let mut body = String::new();
                    let mut j: usize = 0;
                    while j < children.len()
                        invariant
                            j <= children@.len(),
                            render_nodes_model(model.take(j as int), cat@, fuel as nat)
                                == Ok::<Seq<char>, EngineError>(body@),
                        decreases children@.len() - j,
                    {
                        proof {
                            lemma_nodes_view_index(children@, j as int);
                        }
                        match render_node_depth(cat, &children[j], fuel) {
                            Ok(s) => {
                                body.append(s.as_str());
                                proof {
                                    assert(model.take(j as int + 1).drop_last() =~= model.take(
                                        j as int,
                                    ));
                                    assert(model.take(j as int + 1).last() == model[j as int]);
                                }
                                j = j + 1;
                            },
                            Err(e) => {
                                proof {
                                    lemma_render_nodes_err(
                                        model,
                                        cat@,
                                        fuel as nat,
                                        j as int,
                                        e,
                                    );
                                }
                                return Err(e);
                            },
                        }
                    }
                    proof {
                        assert(model.take(children@.len() as int) =~= model);
                    }
                    let at = repr_attrs_exec(attrs);
                    let mut out = String::new();
                    out.append("<");
                    out.append(tag.as_str());
                    out.append(at.as_str());
                    out.append(">");
                    out.append(body.as_str());
                    out.append("</");
                    out.append(tag.as_str());
                    out.append(">");
                    Ok(out)
                },
            }
        },
    }
}

impl Literal {
    /// Renders the value to HTML text against a catalog under a depth
    /// budget.
    #[verifier::loop_isolation(false)]
    pub fn to_html(&self, cat: &XCatalog, fuel: usize) -> (res: Result<String, EngineError>)
        ensures
            str_res_view(res) == render_lit(self@, cat@, fuel as nat),
        decreases fuel, *self, 0nat,
    {
        match self {
            Literal::Bool(b) => Ok(bool_to_string(*b)),
            Literal::Int(i) => Ok(int_to_string(*i)),
            Literal::Str(s) => Ok(s.clone()),
            Literal::Uuid(s) => Ok(s.clone()),
            Literal::XNode(n) => render_node_depth(cat, n, fuel),
            Literal::List(items) => {
                let ghost model = lits_view(items@);
                proof {
                    lemma_lits_view_len(items@);
                    assert(model.take(0) =~= Seq::empty());
                }
                let mut out = String::new();
                let mut j: usize = 0;
                while j < items.len()
                    invariant
                        j <= items@.len(),
                        render_lits(model.take(j as int), cat@, fuel as nat) == Ok::<
                            Seq<char>,
                            EngineError,
                        >(out@),
                    decreases items@.len() - j,
                {
                    proof {
                        lemma_lits_view_index(items@, j as int);
                    }
                    match items[j].to_html(cat, fuel) {
                        Ok(s) => {
                            out.append(s.as_str());
                            proof {
                                assert(model.take(j as int + 1).drop_last() =~= model.take(
                                    j as int,
                                ));
                                assert(model.take(j as int + 1).last() == model[j as int]);
                            }
                            j = j + 1;
                        },
                        Err(e) => {
                            proof {
                                lemma_render_lits_err(model, cat@, fuel as nat, j as int, e);
                            }
                            return Err(e);
                        },
                    }
                }
                proof {
                    assert(model.take(items@.len() as int) =~= model);
                }
                Ok(out)
            },
            Literal::Dict(entries) => {
                let ghost model = entries_view(entries@);
                proof {
                    lemma_entries_view_len(entries@);
                    assert(model.take(0) =~= Seq::empty());
                }
                let mut body = String::new();
                let mut j: usize = 0;
                while j < entries.len()
                    invariant
                        j <= entries@.len(),
                        render_entries(model.take(j as int), cat@, fuel as nat) == Ok::<
                            Seq<char>,
                            EngineError,
                        >(body@),
                    decreases entries@.len() - j,
                {
                    proof {
                        lemma_entries_view_index(entries@, j as int);
                    }
                    match entries[j].1.to_html(cat, fuel) {
                        Ok(s) => {
                            let k = entries[j].0.key_string();
                            body.append("<dt>");
                            body.append(k.as_str());
                            body.append("</dt>");
                            body.append("<dt>");
                            body.append(s.as_str());
                            body.append("</dt>");
                            proof {
                                assert(model.take(j as int + 1).drop_last() =~= model.take(
                                    j as int,
                                ));
                                assert(model.take(j as int + 1).last() == model[j as int]);
                            }
                            j = j + 1;
                        },
                        Err(e) => {
                            proof {
                                lemma_render_entries_err(model, cat@, fuel as nat, j as int, e);
                            }
                            return Err(e);
                        },
                    }
                }
                proof {
                    assert(model.take(entries@.len() as int) =~= model);
                }
                let mut out = String::new();
                out.append("<dl>");
                out.append(body.as_str());
                out.append("</dl>");
                Ok(out)
            },
        }
    }
}

impl XCatalog {
    /// Renders a markup node against this catalog, under the default
    /// depth budget. Markup trees carry no expressions, so the
    /// caller-supplied parameters do not influence the text.
    pub fn render_node(&self, node: &XNode, params: &Env) -> (res: Result<String, EngineError>)
        ensures
            str_res_view(res) == render_node_model(node@, self@, DEFAULT_DEPTH as nat),
    {
        render_node_depth(self, node, DEFAULT_DEPTH)
    }

    /// Renders a registered template by name, under the default depth
    /// budget: the template's root is rendered; an unregistered name is
    /// an unknown-template error.
    pub fn render(&self, name: &str, params: &Env) -> (res: Result<String, EngineError>)
        ensures
            str_res_view(res) == render_by_name_model(self@, name@, DEFAULT_DEPTH as nat),
    {
        match self.get(name) {
            Some(t) => render_node_depth(self, t.node(), DEFAULT_DEPTH),
            None => Err(EngineError::UnknownTemplate),
        }
    }
}

} // verus!
