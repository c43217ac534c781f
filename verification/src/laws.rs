//! General laws of the engine, each proved once and for all inputs.

use vstd::prelude::*;

use crate::ast::{buildable, fold_buildable, AST};
use crate::catalog::{cat_lookup, CatModel, TemplateModel};
use crate::errors::EngineError;
use crate::eval::{eval_model, field_model};
use crate::ops::{add_model, and_model, mul_model, or_model, raw_eq_model};
use crate::render::{render_by_name_model, render_node_model};
use crate::tokens::{wf_token, ExpressionToken};
use crate::value::{dict_lookup, env_lookup, truthy, KeyModel, LitModel};
use crate::markup::NodeModel;

verus! {

/// A well-formed token tree always lowers into an abstract syntax tree:
/// the tokenizer's output never makes the builder fail, so a tokenized
/// expression never yields a partial tree.
pub proof fn lemma_wf_buildable(t: ExpressionToken)
    ensures
        wf_token(t) ==> buildable(t),
    decreases t,
{
    if wf_token(t) {
        match t {
            ExpressionToken::BinaryExpression(ts) => {
                assert forall|i: int|
                    0 <= i < ts@.len() && i % 2 == 0 implies buildable(#[trigger] ts@[i]) by {
                    lemma_wf_buildable(ts@[i]);
                }
                assert(fold_buildable(ts@));
            },
            ExpressionToken::FieldAccess(base, _) => {
                lemma_wf_buildable(*base);
            },
            ExpressionToken::IndexAccess(base, index) => {
                lemma_wf_buildable(*base);
                lemma_wf_buildable(*index);
            },
            ExpressionToken::FuncCall { target, args, kwargs } => {
                lemma_wf_buildable(*target);
                assert forall|i: int|
                    0 <= i < args@.len() implies buildable(#[trigger] args@[i]) by {
                    lemma_wf_buildable(args@[i]);
                }
                assert forall|i: int|
                    0 <= i < kwargs@.len() implies buildable((#[trigger] kwargs@[i]).1) by {
                    lemma_wf_buildable(kwargs@[i].1);
                }
            },
            ExpressionToken::IfExpression { condition, then_branch, else_branch } => {
                lemma_wf_buildable(*condition);
                lemma_wf_buildable(*then_branch);
                match else_branch {
                    Some(e) => {
                        lemma_wf_buildable(*e);
                    },
                    None => {},
                }
            },
            ExpressionToken::ForExpression { ident: _, iterable, body } => {
                lemma_wf_buildable(*iterable);
                lemma_wf_buildable(*body);
            },
            _ => {},
        }
    }
}

/// `and` and `or` select one of the original operand values — they never
/// collapse to a boolean: `and` returns the right operand when the left
/// is truthy, else the left itself; `or` returns the left operand when
/// it is truthy, else the right itself.
pub proof fn lemma_and_or_select(l: LitModel, r: LitModel)
    ensures
        and_model(l, r) == (if truthy(l) {
            r
        } else {
            l
        }),
        or_model(l, r) == (if truthy(l) {
            l
        } else {
            r
        }),
        and_model(l, r) == l || and_model(l, r) == r,
        or_model(l, r) == l || or_model(l, r) == r,
{
}

/// Addition, multiplication and equality are symmetric wherever the
/// coercion table defines them on the integer/boolean family, and
/// equality is symmetric on every pairing, failures included.
pub proof fn lemma_coercion_symmetry(l: LitModel, r: LitModel)
    requires
        l is Int || l is Bool,
        r is Int || r is Bool,
    ensures
        add_model(l, r) == add_model(r, l),
        mul_model(l, r) == mul_model(r, l),
{
    match (l, r) {
        (LitModel::Int(a), LitModel::Int(b)) => {
            assert(a * b == b * a) by (nonlinear_arith);
        },
        (LitModel::Int(a), LitModel::Bool(b)) => {
            let bi = crate::ops::bool_int(b);
            assert(a * bi == bi * a) by (nonlinear_arith);
        },
        (LitModel::Bool(a), LitModel::Int(b)) => {
            let ai = crate::ops::bool_int(a);
            assert(ai * b == b * ai) by (nonlinear_arith);
        },
        _ => {},
    }
}

/// Equality is symmetric on every pairing of values, failures included.
pub proof fn lemma_eq_symmetry(l: LitModel, r: LitModel)
    ensures
        raw_eq_model(l, r) == raw_eq_model(r, l),
{
}

/// A conditional without an else branch yields the empty string on a
/// falsy condition, not an error.
pub proof fn lemma_if_no_else_empty(
    ast: AST,
    env: Seq<(Seq<char>, LitModel)>,
    cat: CatModel,
    fuel: nat,
    c: LitModel,
)
    requires
        ast matches AST::IfStatement { condition, then_branch: _, else_branch: None }
            && eval_model(*condition, env, cat, fuel) == Ok::<LitModel, EngineError>(c),
        !truthy(c),
    ensures
        eval_model(ast, env, cat, fuel) == Ok::<LitModel, EngineError>(
            LitModel::Str(Seq::empty()),
        ),
{
}

/// A loop binding shadows an outer binding of the same name for the
/// iteration only: under the pushed binding the name reads the element,
/// every other name reads what it read outside, and the outer
/// environment itself is never changed — evaluation only ever pushes on
/// a copy.
pub proof fn lemma_binding_shadows(
    env: Seq<(Seq<char>, LitModel)>,
    name: Seq<char>,
    v: LitModel,
    other: Seq<char>,
)
    requires
        other != name,
    ensures
        env_lookup(env.push((name, v)), name) == Some(v),
        env_lookup(env.push((name, v)), other) == env_lookup(env, other),
{
    assert(env.push((name, v)).drop_last() =~= env);
}

/// Field access yields exactly the value under the key when the
/// dictionary holds it, and exactly an unbound-field failure when it
/// holds it under neither key kind.
pub proof fn lemma_field_access(entries: Seq<(KeyModel, LitModel)>, f: Seq<char>)
    ensures
        dict_lookup(entries, KeyModel::Str(f)) matches Some(v) ==> field_model(entries, f)
            == Ok::<LitModel, EngineError>(v),
        dict_lookup(entries, KeyModel::Str(f)) is None && dict_lookup(entries, KeyModel::Uid(f))
            is None ==> field_model(entries, f) == Err::<LitModel, EngineError>(
            EngineError::UnboundField,
        ),
{
}

/// An undefined variable always fails with the undefined-variable error,
/// whatever the catalog holds and whatever depth budget is given.
pub proof fn lemma_undefined_variable(
    ast: AST,
    env: Seq<(Seq<char>, LitModel)>,
    cat: CatModel,
    fuel: nat,
)
    requires
        ast matches AST::Variable(n) && env_lookup(env, n@) is None,
    ensures
        eval_model(ast, env, cat, fuel) == Err::<LitModel, EngineError>(
            EngineError::UndefinedVariable,
        ),
{
}

/// Registering a template and then rendering it by name renders exactly
/// the registered root against the same catalog: rendering by name is
/// the lookup followed by node rendering, nothing more. Both sides are
/// functions of the catalog's value alone, so repeated calls with the
/// same inputs return the same text.
pub proof fn lemma_register_render_round_trip(
    cat: CatModel,
    name: Seq<char>,
    node: NodeModel,
    params: Seq<(Seq<char>, Seq<char>)>,
    fuel: nat,
)
    ensures
        cat_lookup(cat.push((name, TemplateModel { node, params })), name) == Some(
            TemplateModel { node, params },
        ),
        render_by_name_model(cat.push((name, TemplateModel { node, params })), name, fuel)
            == render_node_model(node, cat.push((name, TemplateModel { node, params })), fuel),
{
    assert(cat.push((name, TemplateModel { node, params })).last() == (
        name,
        TemplateModel { node, params },
    ));
}

} // verus!
