//! The runtime value algebra: the closed set of value shapes the engine
//! computes with, together with its mathematical model and truthiness.
//!
//! A value is immutable; evaluation only builds new values. Dictionaries
//! are keyed by plain strings or by opaque identifier strings, and are
//! modelled as sequences of key/value pairs looked up front to back.

use vstd::prelude::*;

use crate::markup::{node_view, NodeModel, XNode};

verus! {

/// A dictionary key: a plain string or an opaque unique-identifier string.
/// The two kinds never compare equal, even over the same characters.
#[derive(Debug)]
pub enum LiteralKey {
    Str(String),
    Uuid(String),
}

/// One runtime value.
#[derive(Debug)]
pub enum Literal {
    Bool(bool),
    Int(isize),
    Str(String),
    Uuid(String),
    XNode(XNode),
    List(Vec<Literal>),
    Dict(Vec<(LiteralKey, Literal)>),
}

/// The model of a dictionary key.
#[verifier::ext_equal]
pub enum KeyModel {
    Str(Seq<char>),
    Uid(Seq<char>),
}

/// The model of a runtime value: the same shape over mathematical
/// integers and character sequences.
#[verifier::ext_equal]
pub enum LitModel {
    Bool(bool),
    Int(int),
    Str(Seq<char>),
    Uid(Seq<char>),
    Node(NodeModel),
    List(Seq<LitModel>),
    Dict(Seq<(KeyModel, LitModel)>),
}

/// The model of one key.
pub open spec fn key_view(k: LiteralKey) -> KeyModel {
    match k {
        LiteralKey::Str(s) => KeyModel::Str(s@),
        LiteralKey::Uuid(s) => KeyModel::Uid(s@),
    }
}

/// The model of one value.
pub open spec fn lit_view(v: Literal) -> LitModel
    decreases v,
{
    match v {
        Literal::Bool(b) => LitModel::Bool(b),
        Literal::Int(i) => LitModel::Int(i as int),
        Literal::Str(s) => LitModel::Str(s@),
        Literal::Uuid(s) => LitModel::Uid(s@),
        Literal::XNode(n) => LitModel::Node(node_view(n)),
        Literal::List(items) => LitModel::List(lits_view(items@)),
        Literal::Dict(entries) => LitModel::Dict(entries_view(entries@)),
    }
}

/// The model of a sequence of values, elementwise.
pub open spec fn lits_view(s: Seq<Literal>) -> Seq<LitModel>
    decreases s,
{
    if s.len() == 0 {
        Seq::empty()
    } else {
        lits_view(s.drop_last()).push(lit_view(s.last()))
    }
}

/// The model of a sequence of dictionary entries, elementwise.
pub open spec fn entries_view(s: Seq<(LiteralKey, Literal)>) -> Seq<(KeyModel, LitModel)>
    decreases s,
{
    if s.len() == 0 {
        Seq::empty()
    } else {
        entries_view(s.drop_last()).push((key_view(s.last().0), lit_view(s.last().1)))
    }
}

impl View for LiteralKey {
    type V = KeyModel;

    open spec fn view(&self) -> KeyModel {
        key_view(*self)
    }
}

impl View for Literal {
    type V = LitModel;

    open spec fn view(&self) -> LitModel {
        lit_view(*self)
    }
}

/// An element of a modelled value sequence is the model of the element.
pub proof fn lemma_lits_view_index(s: Seq<Literal>, i: int)
    requires
        0 <= i < s.len(),
    ensures
        lits_view(s).len() == s.len(),
        lits_view(s)[i] == lit_view(s[i]),
    decreases s.len(),
{
    if s.len() > 0 {
        if i < s.len() - 1 {
            lemma_lits_view_index(s.drop_last(), i);
        } else {
            lemma_lits_view_len(s.drop_last());
        }
    }
}

/// A modelled value sequence keeps its length.
pub proof fn lemma_lits_view_len(s: Seq<Literal>)
    ensures
        lits_view(s).len() == s.len(),
    decreases s.len(),
{
    if s.len() > 0 {
        lemma_lits_view_len(s.drop_last());
    }
}

/// An element of a modelled entry sequence is the model of the entry.
pub proof fn lemma_entries_view_index(s: Seq<(LiteralKey, Literal)>, i: int)
    requires
        0 <= i < s.len(),
    ensures
        entries_view(s).len() == s.len(),
        entries_view(s)[i] == (key_view(s[i].0), lit_view(s[i].1)),
    decreases s.len(),
{
    if s.len() > 0 {
        if i < s.len() - 1 {
            lemma_entries_view_index(s.drop_last(), i);
        } else {
            lemma_entries_view_len(s.drop_last());
        }
    }
}

/// A modelled entry sequence keeps its length.
pub proof fn lemma_entries_view_len(s: Seq<(LiteralKey, Literal)>)
    ensures
        entries_view(s).len() == s.len(),
    decreases s.len(),
{
    if s.len() > 0 {
        lemma_entries_view_len(s.drop_last());
    }
}

/// Extending a value sequence extends its model by the new value's model.
pub proof fn lemma_lits_view_push(s: Seq<Literal>, x: Literal)
    ensures
        lits_view(s.push(x)) == lits_view(s).push(lit_view(x)),
{
    assert(s.push(x).drop_last() =~= s);
    assert(s.push(x).last() == x);
}

/// Extending an entry sequence extends its model by the new entry's
/// model.
pub proof fn lemma_entries_view_push(s: Seq<(LiteralKey, Literal)>, x: (LiteralKey, Literal))
    ensures
        entries_view(s.push(x)) == entries_view(s).push((key_view(x.0), lit_view(x.1))),
{
    assert(s.push(x).drop_last() =~= s);
    assert(s.push(x).last() == x);
}

impl LiteralKey {
    /// Builds a copy of the key with the same model.
    pub fn duplicate(&self) -> (r: LiteralKey)
        ensures
            r@ == self@,
    {
        match self {
            LiteralKey::Str(s) => LiteralKey::Str(s.clone()),
            LiteralKey::Uuid(s) => LiteralKey::Uuid(s.clone()),
        }
    }

    /// Decides whether two keys are the same key: same kind, same text.
    pub fn key_eq(&self, other: &LiteralKey) -> (r: bool)
        ensures
            r == (self@ == other@),
    {
        match (self, other) {
            (LiteralKey::Str(a), LiteralKey::Str(b)) => crate::strutil::str_eq_exec(
                a.as_str(),
                b.as_str(),
            ),
            (LiteralKey::Uuid(a), LiteralKey::Uuid(b)) => crate::strutil::str_eq_exec(
                a.as_str(),
                b.as_str(),
            ),
            _ => false,
        }
    }
}

impl Literal {
    /// Builds a copy of the value with the same model.
    #[verifier::loop_isolation(false)]
    pub fn duplicate(&self) -> (r: Literal)
        ensures
            r@ == self@,
        decreases *self,
    {
        match self {
            Literal::Bool(b) => Literal::Bool(*b),
            Literal::Int(i) => Literal::Int(*i),
            Literal::Str(s) => Literal::Str(s.clone()),
            Literal::Uuid(s) => Literal::Uuid(s.clone()),
            Literal::XNode(n) => Literal::XNode(n.duplicate()),
            Literal::List(items) => {
                let mut items2: Vec<Literal> = Vec::new();
                let mut i: usize = 0;
                proof {
                    assert(items@.take(0) =~= Seq::empty());
                    assert(lits_view(items2@) =~= lits_view(items@.take(0)));
                }
                while i < items.len()
                    invariant
                        i <= items.len(),
                        lits_view(items2@) == lits_view(items@.take(i as int)),
                    decreases items.len() - i,
                {
                    let copied = items[i].duplicate();
                    proof {
                        lemma_lits_view_push(items2@, copied);
                        assert(items@.take(i as int + 1).drop_last() =~= items@.take(i as int));
                        assert(items@.take(i as int + 1).last() == items@[i as int]);
                    }
                    items2.push(copied);
                    i = i + 1;
                }
                proof {
                    assert(items@.take(items@.len() as int) =~= items@);
                }
                Literal::List(items2)
            },
            Literal::Dict(entries) => {
                let mut entries2: Vec<(LiteralKey, Literal)> = Vec::new();
                let mut i: usize = 0;
                proof {
                    assert(entries@.take(0) =~= Seq::empty());
                    assert(entries_view(entries2@) =~= entries_view(entries@.take(0)));
                }
                while i < entries.len()
                    invariant
                        i <= entries.len(),
                        entries_view(entries2@) == entries_view(entries@.take(i as int)),
                    decreases entries.len() - i,
                {
                    let pair = &entries[i];
                    let copied = (pair.0.duplicate(), pair.1.duplicate());
                    proof {
                        lemma_entries_view_push(entries2@, copied);
                        assert(entries@.take(i as int + 1).drop_last() =~= entries@.take(
                            i as int,
                        ));
                        assert(entries@.take(i as int + 1).last() == entries@[i as int]);
                    }
                    entries2.push(copied);
                    i = i + 1;
                }
                proof {
                    assert(entries@.take(entries@.len() as int) =~= entries@);
                }
                Literal::Dict(entries2)
            },
        }
    }
}

/// Looks a key up in a modelled dictionary, front to back: the first
/// entry with the key wins.
pub open spec fn dict_lookup(s: Seq<(KeyModel, LitModel)>, k: KeyModel) -> Option<LitModel>
    decreases s.len(),
{
    if s.len() == 0 {
        None
    } else if s[0].0 == k {
        Some(s[0].1)
    } else {
        dict_lookup(s.drop_first(), k)
    }
}

/// A lookup that has not matched the first entries continues past them.
proof fn lemma_dict_lookup_skip(s: Seq<(KeyModel, LitModel)>, k: KeyModel, i: int)
    requires
        0 <= i <= s.len(),
        forall|j: int| 0 <= j < i ==> (#[trigger] s[j]).0 != k,
    ensures
        dict_lookup(s, k) == dict_lookup(s.skip(i), k),
    decreases i,
{
    if i > 0 {
        lemma_dict_lookup_skip(s, k, i - 1);
        assert(s.skip(i - 1).drop_first() =~= s.skip(i));
        assert(s.skip(i - 1)[0] == s[i - 1]);
    } else {
        assert(s.skip(0) =~= s);
    }
}

/// Looks a key up in a dictionary's entry list, first match wins.
pub fn dict_get<'a>(entries: &'a Vec<(LiteralKey, Literal)>, key: &LiteralKey) -> (res: Option<
    &'a Literal,
>)
    ensures
        match res {
            Some(v) => dict_lookup(entries_view(entries@), key@) == Some(v@),
            None => dict_lookup(entries_view(entries@), key@) is None,
        },
{
    let ghost model = entries_view(entries@);
    proof {
        lemma_entries_view_len(entries@);
    }
    let mut i: usize = 0;
    while i < entries.len()
        invariant
            i <= entries.len(),
            model == entries_view(entries@),
            model.len() == entries@.len(),
            forall|j: int| 0 <= j < i ==> (#[trigger] model[j]).0 != key@,
        decreases entries.len() - i,
    {
        proof {
            lemma_entries_view_index(entries@, i as int);
        }
        if entries[i].0.key_eq(key) {
            proof {
                lemma_dict_lookup_skip(model, key@, i as int);
                assert(model.skip(i as int)[0] == model[i as int]);
            }
            return Some(&entries[i].1);
        }
        i = i + 1;
    }
    proof {
        lemma_dict_lookup_skip(model, key@, i as int);
        assert(model.skip(i as int) =~= Seq::empty());
    }
    None
}

/// The variable environment: name-to-value bindings, looked up back to
/// front so that a later binding of a name shadows an earlier one.
pub type Env = Vec<(String, Literal)>;

/// The model of an environment.
pub open spec fn env_view(e: Seq<(String, Literal)>) -> Seq<(Seq<char>, LitModel)> {
    Seq::new(e.len(), |i: int| (e[i].0@, lit_view(e[i].1)))
}

/// Looks a name up in a modelled environment: the latest binding wins.
pub open spec fn env_lookup(env: Seq<(Seq<char>, LitModel)>, name: Seq<char>) -> Option<LitModel>
    decreases env.len(),
{
    if env.len() == 0 {
        None
    } else if env.last().0 == name {
        Some(env.last().1)
    } else {
        env_lookup(env.drop_last(), name)
    }
}

/// A lookup that has not matched the latest bindings continues below
/// them.
proof fn lemma_env_lookup_take(env: Seq<(Seq<char>, LitModel)>, name: Seq<char>, i: int)
    requires
        0 <= i <= env.len(),
        forall|j: int| i <= j < env.len() ==> (#[trigger] env[j]).0 != name,
    ensures
        env_lookup(env, name) == env_lookup(env.take(i), name),
    decreases env.len() - i,
{
    if i == env.len() {
        assert(env.take(i) =~= env);
    } else {
        lemma_env_lookup_take(env, name, i + 1);
        assert(env.take(i + 1).drop_last() =~= env.take(i));
        assert(env.take(i + 1).last() == env[i]);
    }
}

/// Looks a name up in an environment: the latest binding wins.
pub fn env_get<'a>(env: &'a Env, name: &str) -> (res: Option<&'a Literal>)
    ensures
        match res {
            Some(v) => env_lookup(env_view(env@), name@) == Some(v@),
            None => env_lookup(env_view(env@), name@) is None,
        },
{
    let ghost model = env_view(env@);
    let mut i: usize = env.len();
    while i > 0
        invariant
            i <= env@.len(),
            model == env_view(env@),
            forall|j: int| i <= j < model.len() ==> (#[trigger] model[j]).0 != name@,
        decreases i,
    {
        i = i - 1;
        if crate::strutil::str_eq_exec(env[i].0.as_str(), name) {
            proof {
                lemma_env_lookup_take(model, name@, i as int + 1);
                assert(model.take(i as int + 1).last() == model[i as int]);
            }
            return Some(&env[i].1);
        }
    }
    proof {
        lemma_env_lookup_take(model, name@, 0);
        assert(model.take(0) =~= Seq::empty());
    }
    None
}

/// Builds a copy of an environment with the same model.
pub fn env_duplicate(env: &Env) -> (r: Env)
    ensures
        env_view(r@) == env_view(env@),
{
    let mut out: Env = Vec::new();
    let mut i: usize = 0;
    while i < env.len()
        invariant
            i <= env@.len(),
            out@.len() == i,
            forall|j: int|
                0 <= j < i ==> (#[trigger] out@[j]).0@ == env@[j].0@ && out@[j].1@ == env@[j].1@,
        decreases env@.len() - i,
    {
        out.push((env[i].0.clone(), env[i].1.duplicate()));
        i = i + 1;
    }
    proof {
        assert(env_view(out@) =~= env_view(env@));
    }
    out
}

/// Truthiness: the per-shape rule deciding how a value behaves in
/// conditionals and logical operators. Booleans are themselves; integers
/// are truthy iff non-zero; strings iff non-empty; identifiers and markup
/// nodes always; lists and dictionaries iff non-empty.
pub open spec fn truthy(v: LitModel) -> bool {
    match v {
        LitModel::Bool(b) => b,
        LitModel::Int(i) => i != 0,
        LitModel::Str(s) => s.len() != 0,
        LitModel::Uid(_) => true,
        LitModel::Node(_) => true,
        LitModel::List(items) => items.len() != 0,
        LitModel::Dict(entries) => entries.len() != 0,
    }
}

impl Literal {
    /// Decides truthiness of the value.
    pub fn is_truthy(&self) -> (r: bool)
        ensures
            r == truthy(self@),
    {
        match self {
            Literal::Bool(b) => *b,
            Literal::Int(i) => *i != 0,
            Literal::Str(s) => s.as_str().unicode_len() != 0,
            Literal::Uuid(_) => true,
            Literal::XNode(_) => true,
            Literal::List(items) => {
                proof {
                    lemma_lits_view_len(items@);
                }
                items.len() != 0
            },
            Literal::Dict(entries) => {
                proof {
                    lemma_entries_view_len(entries@);
                }
                entries.len() != 0
            },
        }
    }
}

} // verus!
