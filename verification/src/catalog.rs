//! The template catalog: a registry from template names to parsed markup
//! roots and their declared parameters.
//!
//! Registration appends; a later registration of the same name wins, so
//! the model is a sequence of entries looked up back to front.

use vstd::prelude::*;

use crate::errors::EngineError;
use crate::host::Host;
use crate::markup::{node_view, NodeModel, XNode};

verus! {

/// The model of one registered template: the root tree and the declared
/// parameters (name and type text, opaque to the engine).
pub struct TemplateModel {
    pub node: NodeModel,
    pub params: Seq<(Seq<char>, Seq<char>)>,
}

/// The model of a declared-parameter list.
pub open spec fn params_view(s: Seq<(String, String)>) -> Seq<(Seq<char>, Seq<char>)> {
    Seq::new(s.len(), |i: int| (s[i].0@, s[i].1@))
}

/// One registered template: a parsed markup root and its declared
/// parameters. Never mutated after registration.
#[derive(Debug)]
pub struct XTemplate {
    node: XNode,
    params: Vec<(String, String)>,
}

impl View for XTemplate {
    type V = TemplateModel;

    closed spec fn view(&self) -> TemplateModel {
        TemplateModel { node: node_view(self.node), params: params_view(self.params@) }
    }
}

impl XTemplate {
    /// Wraps a parsed root and its declared parameters.
    pub fn new(node: XNode, params: Vec<(String, String)>) -> (r: XTemplate)
        ensures
            r@.node == node@,
            r@.params == params_view(params@),
    {
        XTemplate { node, params }
    }

    /// The template's root node.
    pub fn node(&self) -> (r: &XNode)
        ensures
            r@ == self@.node,
    {
        &self.node
    }

    /// The template's declared parameters.
    pub fn params(&self) -> (r: &Vec<(String, String)>)
        ensures
            params_view(r@) == self@.params,
    {
        &self.params
    }
}

/// The model of a whole catalog: its entries in registration order.
pub type CatModel = Seq<(Seq<char>, TemplateModel)>;

/// Looks a template name up, back to front: the latest registration of
/// the name wins.
pub open spec fn cat_lookup(cat: CatModel, name: Seq<char>) -> Option<TemplateModel>
    decreases cat.len(),
{
    if cat.len() == 0 {
        None
    } else if cat.last().0 == name {
        Some(cat.last().1)
    } else {
        cat_lookup(cat.drop_last(), name)
    }
}

/// A lookup that has not matched the latest entries continues below
/// them.
proof fn lemma_cat_lookup_take(cat: CatModel, name: Seq<char>, i: int)
    requires
        0 <= i <= cat.len(),
        forall|j: int| i <= j < cat.len() ==> (#[trigger] cat[j]).0 != name,
    ensures
        cat_lookup(cat, name) == cat_lookup(cat.take(i), name),
    decreases cat.len() - i,
{
    if i == cat.len() {
        assert(cat.take(i) =~= cat);
    } else {
        lemma_cat_lookup_take(cat, name, i + 1);
        assert(cat.take(i + 1).drop_last() =~= cat.take(i));
        assert(cat.take(i + 1).last() == cat[i]);
    }
}

/// The registry of named templates. The catalog is the engine's only
/// long-lived state; it grows by registration and is read by rendering.
pub struct XCatalog {
    entries: Vec<(String, XTemplate)>,
}

impl View for XCatalog {
    type V = CatModel;

    closed spec fn view(&self) -> CatModel {
        Seq::new(self.entries@.len(), |i: int| (self.entries@[i].0@, self.entries@[i].1@))
    }
}

impl XCatalog {
    /// An empty catalog.
    pub fn new() -> (r: XCatalog)
        ensures
            r@ =~= Seq::<(Seq<char>, TemplateModel)>::empty(),
    {
        XCatalog { entries: Vec::new() }
    }

    /// Registers an already parsed template root under a name,
    /// overriding any earlier registration of that name.
    pub fn register_node(&mut self, name: String, node: XNode, params: Vec<(String, String)>)
        ensures
            final(self)@ =~= old(self)@.push(
                (name@, TemplateModel { node: node@, params: params_view(params@) }),
            ),
    {
        self.entries.push((name, XTemplate::new(node, params)));
    }

    /// Registers a template from its source text: the external markup
    /// parser supplied by the host turns the text into a node tree, and
    /// the tree is stored under the name. A source text the parser
    /// rejects leaves the catalog unchanged and returns the parser's
    /// syntax error.
    pub fn register<H: Host>(
        &mut self,
        name: String,
        template: &str,
        params: Vec<(String, String)>,
        host: &H,
    ) -> (res: Result<(), EngineError>)
        ensures
            res matches Ok(r) ==> exists|n: NodeModel|
                final(self)@ =~= old(self)@.push(
                    (name@, TemplateModel { node: n, params: params_view(params@) }),
                ),
            res is Err ==> final(self)@ == old(self)@,
    {
        match host.parse_markup(template) {
            Ok(node) => {
                self.register_node(name, node, params);
                Ok(())
            },
            Err(e) => Err(e),
        }
    }

    /// Looks a template up by name: the latest registration wins.
    pub fn get(&self, name: &str) -> (res: Option<&XTemplate>)
        ensures
            match res {
                Some(t) => cat_lookup(self@, name@) == Some(t@),
                None => cat_lookup(self@, name@) is None,
            },
    {
        let ghost model = self@;
        let mut i: usize = self.entries.len();
        while i > 0
            invariant
                i <= self.entries@.len(),
                model == self@,
                forall|j: int| i <= j < model.len() ==> (#[trigger] model[j]).0 != name@,
            decreases i,
        {
            i = i - 1;
            if crate::strutil::str_eq_exec(self.entries[i].0.as_str(), name) {
                proof {
                    lemma_cat_lookup_take(model, name@, i as int + 1);
                    assert(model.take(i as int + 1).last() == model[i as int]);
                }
                return Some(&self.entries[i].1);
            }
        }
        proof {
            lemma_cat_lookup_take(model, name@, 0);
            assert(model.take(0) =~= Seq::empty());
        }
        None
    }
}

} // verus!
