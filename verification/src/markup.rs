//! The markup node model: an immutable tree of element and text nodes.
//!
//! Trees of this shape are produced outside the engine by a markup parser;
//! the engine consumes them when a template is registered, when a value
//! holds a markup fragment, and when a tree is serialized to HTML.

use vstd::prelude::*;

verus! {

/// The two node kinds, exposed so that callers can classify a node
/// without matching on the tree itself.
#[derive(Debug, Clone, PartialEq, Eq, Structural)]
pub enum NodeType {
    Element,
    Text,
}

/// One markup node: an element with a tag, named attribute nodes and
/// ordered children, or a run of literal text.
///
/// A text node never carries attributes or children, and an element
/// always carries a tag: the shape of the enum enforces the invariant.
#[derive(Debug)]
pub enum XNode {
    Element { tag: String, attrs: Vec<(String, XNode)>, children: Vec<XNode> },
    Text(String),
}

/// The mathematical model of a markup tree: the same shape over
/// character sequences.
pub enum NodeModel {
    Element { tag: Seq<char>, attrs: Seq<(Seq<char>, NodeModel)>, children: Seq<NodeModel> },
    Text(Seq<char>),
}

/// The model of one node.
pub open spec fn node_view(n: XNode) -> NodeModel
    decreases n,
{
    match n {
        XNode::Element { tag, attrs, children } => NodeModel::Element {
            tag: tag@,
            attrs: attrs_view(attrs@),
            children: nodes_view(children@),
        },
        XNode::Text(t) => NodeModel::Text(t@),
    }
}

/// The model of a sequence of child nodes, elementwise.
pub open spec fn nodes_view(s: Seq<XNode>) -> Seq<NodeModel>
    decreases s,
{
    if s.len() == 0 {
        Seq::empty()
    } else {
        nodes_view(s.drop_last()).push(node_view(s.last()))
    }
}

/// The model of an attribute list, elementwise.
pub open spec fn attrs_view(s: Seq<(String, XNode)>) -> Seq<(Seq<char>, NodeModel)>
    decreases s,
{
    if s.len() == 0 {
        Seq::empty()
    } else {
        attrs_view(s.drop_last()).push((s.last().0@, node_view(s.last().1)))
    }
}

impl View for XNode {
    type V = NodeModel;

    open spec fn view(&self) -> NodeModel {
        node_view(*self)
    }
}

/// Extending a node sequence extends its model by the new node's model.
pub proof fn lemma_nodes_view_push(s: Seq<XNode>, x: XNode)
    ensures
        nodes_view(s.push(x)) == nodes_view(s).push(node_view(x)),
{
    assert(s.push(x).drop_last() =~= s);
    assert(s.push(x).last() == x);
}

/// Extending an attribute sequence extends its model by the new
/// attribute's model.
pub proof fn lemma_attrs_view_push(s: Seq<(String, XNode)>, x: (String, XNode))
    ensures
        attrs_view(s.push(x)) == attrs_view(s).push((x.0@, node_view(x.1))),
{
    assert(s.push(x).drop_last() =~= s);
    assert(s.push(x).last() == x);
}

/// An element of a modelled node sequence is the model of the element.
pub proof fn lemma_nodes_view_index(s: Seq<XNode>, i: int)
    requires
        0 <= i < s.len(),
    ensures
        nodes_view(s).len() == s.len(),
        nodes_view(s)[i] == node_view(s[i]),
    decreases s.len(),
{
    if s.len() > 0 {
        if i < s.len() - 1 {
            lemma_nodes_view_index(s.drop_last(), i);
        } else {
            lemma_nodes_view_len(s.drop_last());
        }
    }
}

/// A modelled node sequence keeps its length.
pub proof fn lemma_nodes_view_len(s: Seq<XNode>)
    ensures
        nodes_view(s).len() == s.len(),
    decreases s.len(),
{
    if s.len() > 0 {
        lemma_nodes_view_len(s.drop_last());
    }
}

/// An element of a modelled attribute sequence is the model of the
/// element.
pub proof fn lemma_attrs_view_index(s: Seq<(String, XNode)>, i: int)
    requires
        0 <= i < s.len(),
    ensures
        attrs_view(s).len() == s.len(),
        attrs_view(s)[i] == (s[i].0@, node_view(s[i].1)),
    decreases s.len(),
{
    if s.len() > 0 {
        if i < s.len() - 1 {
            lemma_attrs_view_index(s.drop_last(), i);
        } else {
            lemma_attrs_view_len(s.drop_last());
        }
    }
}

/// A modelled attribute sequence keeps its length.
pub proof fn lemma_attrs_view_len(s: Seq<(String, XNode)>)
    ensures
        attrs_view(s).len() == s.len(),
    decreases s.len(),
{
    if s.len() > 0 {
        lemma_attrs_view_len(s.drop_last());
    }
}

impl XNode {
    /// Builds a copy of the tree with the same model.
    #[verifier::loop_isolation(false)]
    pub fn duplicate(&self) -> (r: XNode)
        ensures
            r@ == self@,
        decreases *self,
    {
        match self {
            XNode::Text(t) => XNode::Text(t.clone()),
            XNode::Element { tag, attrs, children } => {
                let mut attrs2: Vec<(String, XNode)> = Vec::new();
                let mut i: usize = 0;
                proof {
                    assert(attrs@.take(0) =~= Seq::empty());
                    assert(attrs_view(attrs2@) =~= attrs_view(attrs@.take(0)));
                }
                while i < attrs.len()
                    invariant
                        i <= attrs.len(),
                        attrs_view(attrs2@) == attrs_view(attrs@.take(i as int)),
                    decreases attrs.len() - i,
                {
                    let pair = &attrs[i];
                    let copied = (pair.0.clone(), pair.1.duplicate());
                    proof {
                        lemma_attrs_view_push(attrs2@, copied);
                        assert(attrs@.take(i as int + 1).drop_last() =~= attrs@.take(i as int));
                        assert(attrs@.take(i as int + 1).last() == attrs@[i as int]);
                    }
                    attrs2.push(copied);
                    i = i + 1;
                }
                proof {
                    assert(attrs@.take(attrs@.len() as int) =~= attrs@);
                }
                let mut children2: Vec<XNode> = Vec::new();
                let mut j: usize = 0;
                proof {
                    assert(children@.take(0) =~= Seq::empty());
                    assert(nodes_view(children2@) =~= nodes_view(children@.take(0)));
                }
                while j < children.len()
                    invariant
                        j <= children.len(),
                        nodes_view(children2@) == nodes_view(children@.take(j as int)),
                    decreases children.len() - j,
                {
                    let copied = children[j].duplicate();
                    proof {
                        lemma_nodes_view_push(children2@, copied);
                        assert(children@.take(j as int + 1).drop_last() =~= children@.take(
                            j as int,
                        ));
                        assert(children@.take(j as int + 1).last() == children@[j as int]);
                    }
                    children2.push(copied);
                    j = j + 1;
                }
                proof {
                    assert(children@.take(children@.len() as int) =~= children@);
                }
                XNode::Element { tag: tag.clone(), attrs: attrs2, children: children2 }
            },
        }
    }

    /// Decides deep structural equality of two trees: the same models.
    #[verifier::loop_isolation(false)]
    pub fn node_eq(&self, other: &XNode) -> (r: bool)
        ensures
            r == (self@ == other@),
        decreases *self,
    {
        match (self, other) {
            (XNode::Text(a), XNode::Text(b)) => crate::strutil::str_eq_exec(
                a.as_str(),
                b.as_str(),
            ),
            (
                XNode::Element { tag: t1, attrs: a1, children: c1 },
                XNode::Element { tag: t2, attrs: a2, children: c2 },
            ) => {
                proof {
                    lemma_attrs_view_len(a1@);
                    lemma_attrs_view_len(a2@);
                    lemma_nodes_view_len(c1@);
                    lemma_nodes_view_len(c2@);
                }
                if !crate::strutil::str_eq_exec(t1.as_str(), t2.as_str()) {
                    return false;
                }
                if a1.len() != a2.len() || c1.len() != c2.len() {
                    return false;
                }
                let mut i: usize = 0;
                while i < a1.len()
                    invariant
                        i <= a1@.len(),
                        forall|j: int|
                            0 <= j < i ==> attrs_view(a1@)[j] == #[trigger] attrs_view(a2@)[j],
                    decreases a1@.len() - i,
                {
                    proof {
                        lemma_attrs_view_index(a1@, i as int);
                        lemma_attrs_view_index(a2@, i as int);
                    }
                    if !crate::strutil::str_eq_exec(a1[i].0.as_str(), a2[i].0.as_str()) {
                        return false;
                    }
                    if !a1[i].1.node_eq(&a2[i].1) {
                        return false;
                    }
                    i = i + 1;
                }
                let mut j: usize = 0;
                while j < c1.len()
                    invariant
                        j <= c1@.len(),
                        forall|k: int|
                            0 <= k < j ==> nodes_view(c1@)[k] == #[trigger] nodes_view(c2@)[k],
                    decreases c1@.len() - j,
                {
                    proof {
                        lemma_nodes_view_index(c1@, j as int);
                        lemma_nodes_view_index(c2@, j as int);
                    }
                    if !c1[j].node_eq(&c2[j]) {
                        return false;
                    }
                    j = j + 1;
                }
                proof {
                    assert(attrs_view(a1@) =~= attrs_view(a2@));
                    assert(nodes_view(c1@) =~= nodes_view(c2@));
                }
                true
            },
            _ => false,
        }
    }

    /// Classifies the node without exposing the tree.
    pub fn node_type(&self) -> (t: NodeType)
        ensures
            t == NodeType::Element <==> self@ is Element,
            t == NodeType::Text <==> self@ is Text,
    {
        match self {
            XNode::Element { .. } => NodeType::Element,
            XNode::Text(_) => NodeType::Text,
        }
    }
}

} // verus!
