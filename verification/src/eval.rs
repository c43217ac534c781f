//! The evaluator: a recursive tree walk over an abstract syntax tree
//! against a variable environment and a catalog handle.
//!
//! Evaluation never mutates the tree or the environment; a loop iteration
//! sees a child environment holding its binding on top, so an outer
//! binding of the same name is shadowed for that iteration only and is
//! untouched afterwards. Every failure aborts the whole evaluation and
//! propagates to the caller; nothing is retried and no partial result
//! survives.
//!
//! Host-function calls go through the injected host capability, about
//! which nothing is assumed; the evaluation of every call-free tree is
//! pinned exactly to the mathematical model `eval_model`.

use vstd::prelude::*;

use crate::ast::AST;
use crate::catalog::{CatModel, XCatalog};
use crate::errors::EngineError;
use crate::host::Host;
use crate::ops::{apply_op, op_model, res_view};
use crate::render::{render_lit, render_node_depth, render_node_model};
use crate::value::{
    dict_get, dict_lookup, env_duplicate, env_get, env_lookup, env_view, lemma_lits_view_index,
    lemma_lits_view_len, lit_view, lits_view, truthy, Env, KeyModel, LitModel, Literal,
    LiteralKey,
};

verus! {

/// Whether the tree is free of host-function calls. Evaluating such a
/// tree depends only on the environment and the catalog.
pub open spec fn no_calls(ast: AST) -> bool
    decreases ast,
{
    match ast {
        AST::Variable(_) => true,
        AST::Literal(_) => true,
        AST::Binary { left, op: _, right } => no_calls(*left) && no_calls(*right),
        AST::FieldAccess(base, _) => no_calls(*base),
        AST::IndexAccess(base, index) => no_calls(*base) && no_calls(*index),
        AST::CallAccess { .. } => false,
        AST::IfStatement { condition, then_branch, else_branch } => {
            &&& no_calls(*condition)
            &&& no_calls(*then_branch)
            &&& match else_branch {
                Some(e) => no_calls(*e),
                None => true,
            }
        },
        AST::ForStatement { ident: _, iterable, body } => no_calls(*iterable) && no_calls(*body),
    }
}

/// What field access returns: the value under the string key, else under
/// the identifier key, else an unbound-field error.
pub open spec fn field_model(entries: Seq<(KeyModel, LitModel)>, field: Seq<char>) -> Result<
    LitModel,
    EngineError,
> {
    match dict_lookup(entries, KeyModel::Str(field)) {
        Some(v) => Ok(v),
        None => match dict_lookup(entries, KeyModel::Uid(field)) {
            Some(v) => Ok(v),
            None => Err(EngineError::UnboundField),
        },
    }
}

/// What index access returns: a list under an in-range integer index
/// yields the element and any other integer an unbound-field error; a
/// dictionary under a string or identifier index is looked up like a
/// field; every other pairing is a type error.
pub open spec fn index_model(base: LitModel, index: LitModel) -> Result<LitModel, EngineError> {
    match (base, index) {
        (LitModel::List(items), LitModel::Int(i)) => if 0 <= i < items.len() {
            Ok(items[i])
        } else {
            Err(EngineError::UnboundField)
        },
        (LitModel::Dict(entries), LitModel::Str(s)) => field_model(entries, s),
        (LitModel::Dict(entries), LitModel::Uid(s)) => match dict_lookup(
            entries,
            KeyModel::Uid(s),
        ) {
            Some(v) => Ok(v),
            None => Err(EngineError::UnboundField),
        },
        _ => Err(EngineError::TypeError),
    }
}

/// Whether a call's callee has dispatchable shape: a variable reference
/// dispatches by its name, a field access by its field's name.
pub open spec fn callee_ok(left: AST) -> bool {
    left is Variable || left is FieldAccess
}

/// The first failure among a call's arguments, positional then named,
/// as far as the arguments are call-free: a call-bearing argument ends
/// the scan, since its outcome belongs to the host.
pub open spec fn first_arg_err(
    args: Seq<AST>,
    kwargs: Seq<(String, AST)>,
    env: Seq<(Seq<char>, LitModel)>,
    cat: CatModel,
    fuel: nat,
) -> Option<EngineError>
    decreases args.len() + kwargs.len(),
{
    if args.len() > 0 {
        if !no_calls(args[0]) {
            None
        } else {
            match eval_model(args[0], env, cat, fuel) {
                Err(e) => Some(e),
                Ok(_) => first_arg_err(args.drop_first(), kwargs, env, cat, fuel),
            }
        }
    } else if kwargs.len() > 0 {
        if !no_calls(kwargs[0].1) {
            None
        } else {
            match eval_model(kwargs[0].1, env, cat, fuel) {
                Err(e) => Some(e),
                Ok(_) => first_arg_err(args, kwargs.drop_first(), env, cat, fuel),
            }
        }
    } else {
        None
    }
}

/// What evaluating a call-free tree returns, for a given environment,
/// catalog and depth budget.
///
/// A literal is itself. A variable is its binding — except that a bound
/// markup tree renders eagerly, against one less unit of depth budget,
/// and comes back as a string — and an absent name is an
/// undefined-variable error. A binary node evaluates both operands, left
/// to right, then applies the coercion table. A conditional branches on
/// truthiness, and a falsy condition without an else yields the empty
/// string. A loop needs a list, and concatenates the rendering of every
/// iteration's value into one string. Call nodes are beyond this model:
/// their result belongs to the host.
pub open spec fn eval_model(ast: AST, env: Seq<(Seq<char>, LitModel)>, cat: CatModel, fuel: nat) -> Result<
    LitModel,
    EngineError,
>
    decreases fuel, ast, 0nat,
{
    match ast {
        AST::Literal(lit) => Ok(lit_view(lit)),
        AST::Variable(name) => match env_lookup(env, name@) {
            Some(v) => match v {
                LitModel::Node(n) => if fuel == 0 {
                    Err(EngineError::RecursionLimit)
                } else {
                    match render_node_model(n, cat, (fuel - 1) as nat) {
                        Ok(s) => Ok(LitModel::Str(s)),
                        Err(e) => Err(e),
                    }
                },
                _ => Ok(v),
            },
            None => Err(EngineError::UndefinedVariable),
        },
        AST::Binary { left, op, right } => match eval_model(*left, env, cat, fuel) {
            Ok(l) => match eval_model(*right, env, cat, fuel) {
                Ok(r) => op_model(op, l, r),
                Err(e) => Err(e),
            },
            Err(e) => Err(e),
        },
        AST::FieldAccess(base, field) => match eval_model(*base, env, cat, fuel) {
            Ok(LitModel::Dict(entries)) => field_model(entries, field@),
            Ok(_) => Err(EngineError::TypeError),
            Err(e) => Err(e),
        },
        AST::IndexAccess(base, index) => match eval_model(*base, env, cat, fuel) {
            Ok(b) => match eval_model(*index, env, cat, fuel) {
                Ok(ix) => index_model(b, ix),
                Err(e) => Err(e),
            },
            Err(e) => Err(e),
        },
        AST::CallAccess { .. } => Err(EngineError::UnknownFunction),
        AST::IfStatement { condition, then_branch, else_branch } => match eval_model(
            *condition,
            env,
            cat,
            fuel,
        ) {
            Ok(c) => if truthy(c) {
                eval_model(*then_branch, env, cat, fuel)
            } else {
                match else_branch {
                    Some(e) => eval_model(*e, env, cat, fuel),
                    None => Ok(LitModel::Str(Seq::empty())),
                }
            },
            Err(e) => Err(e),
        },
        AST::ForStatement { ident, iterable, body } => match eval_model(*iterable, env, cat, fuel) {
            Ok(LitModel::List(items)) => match for_model(items, ident@, *body, env, cat, fuel) {
                Ok(s) => Ok(LitModel::Str(s)),
                Err(e) => Err(e),
            },
            Ok(_) => Err(EngineError::NotIterable),
            Err(e) => Err(e),
        },
    }
}

/// What one loop returns: for each element in order, the body evaluates
/// under the element bound on top of the environment, the value renders
/// to text against one less unit of depth budget, and the texts
/// concatenate; the first failure aborts the loop.
pub open spec fn for_model(
    items: Seq<LitModel>,
    ident: Seq<char>,
    body: AST,
    env: Seq<(Seq<char>, LitModel)>,
    cat: CatModel,
    fuel: nat,
) -> Result<Seq<char>, EngineError>
    decreases fuel, body, items.len() + 1,
{
    if items.len() == 0 {
        Ok(Seq::empty())
    } else {
        match eval_model(body, env.push((ident, items[0])), cat, fuel) {
            Ok(v) => if fuel == 0 {
                Err(EngineError::RecursionLimit)
            } else {
                match render_lit(v, cat, (fuel - 1) as nat) {
                    Ok(s) => match for_model(items.drop_first(), ident, body, env, cat, fuel) {
                        Ok(rest) => Ok(s + rest),
                        Err(e) => Err(e),
                    },
                    Err(e) => Err(e),
                }
            },
            Err(e) => Err(e),
        }
    }
}

/// Evaluates a tree against an environment, a catalog and a host, under
/// a depth budget. On every call-free tree the result is exactly the
/// model's; on a tree with calls, the host's answers flow through
/// unchanged and the same structural rules apply around them.
#[verifier::loop_isolation(false)]
pub fn eval_ast<H: Host>(
    ast: &AST,
    catalog: &XCatalog,
    params: &Env,
    host: &H,
    fuel: usize,
) -> (res: Result<Literal, EngineError>)
    ensures
        no_calls(*ast) ==> res_view(res) == eval_model(
            *ast,
            env_view(params@),
            catalog@,
            fuel as nat,
        ),
        *ast is ForStatement ==> (res matches Ok(v) ==> lit_view(v) is Str),
        *ast matches AST::CallAccess { left, args, kwargs } ==> {
            &&& (!callee_ok(*left) ==> res == Err::<Literal, EngineError>(EngineError::TypeError))
            &&& (callee_ok(*left) ==> (first_arg_err(
                args@,
                kwargs@,
                env_view(params@),
                catalog@,
                fuel as nat,
            ) matches Some(e) ==> res == Err::<Literal, EngineError>(e)))
        },
    decreases fuel, *ast, 0nat,
{
    match ast {
        AST::Literal(lit) => Ok(lit.duplicate()),
        AST::Variable(name) => match env_get(params, name.as_str()) {
            Some(v) => match v {
                Literal::XNode(n) => {
                    if fuel == 0 {
                        Err(EngineError::RecursionLimit)
                    } else {
                        match render_node_depth(catalog, n, fuel - 1) {
                            Ok(s) => Ok(Literal::Str(s)),
                            Err(e) => Err(e),
                        }
                    }
                },
                _ => Ok(v.duplicate()),
            },
            None => Err(EngineError::UndefinedVariable),
        },
        AST::Binary { left, op, right } => {
            let l = match eval_ast(left, catalog, params, host, fuel) {
                Ok(l) => l,
                Err(e) => {
                    return Err(e);
                },
            };
            let r = match eval_ast(right, catalog, params, host, fuel) {
                Ok(r) => r,
                Err(e) => {
                    return Err(e);
                },
            };
            apply_op(*op, l, r)
        },
        AST::FieldAccess(base, field) => {
            let b = match eval_ast(base, catalog, params, host, fuel) {
                Ok(b) => b,
                Err(e) => {
                    return Err(e);
                },
            };
            match b {
                Literal::Dict(entries) => {
                    let skey = LiteralKey::Str(field.clone());
                    match dict_get(&entries, &skey) {
                        Some(v) => Ok(v.duplicate()),
                        None => {
                            let ukey = LiteralKey::Uuid(field.clone());
                            match dict_get(&entries, &ukey) {
                                Some(v) => Ok(v.duplicate()),
                                None => Err(EngineError::UnboundField),
                            }
                        },
                    }
                },
                _ => Err(EngineError::TypeError),
            }
        },
        AST::IndexAccess(base, index) => {
            let b = match eval_ast(base, catalog, params, host, fuel) {
                Ok(b) => b,
                Err(e) => {
                    return Err(e);
                },
            };
            let ix = match eval_ast(index, catalog, params, host, fuel) {
                Ok(ix) => ix,
                Err(e) => {
                    return Err(e);
                },
            };
            match (b, ix) {
                (Literal::List(items), Literal::Int(i)) => {
                    if 0 <= i && (i as usize) < items.len() {
                        proof {
                            lemma_lits_view_index(items@, i as int);
                        }
                        Ok(items[i as usize].duplicate())
                    } else {
                        proof {
                            lemma_lits_view_len(items@);
                        }
                        Err(EngineError::UnboundField)
                    }
                },
                (Literal::Dict(entries), Literal::Str(s)) => {
                    let skey = LiteralKey::Str(s.clone());
                    match dict_get(&entries, &skey) {
                        Some(v) => Ok(v.duplicate()),
                        None => {
                            let ukey = LiteralKey::Uuid(s.clone());
                            match dict_get(&entries, &ukey) {
                                Some(v) => Ok(v.duplicate()),
                                None => Err(EngineError::UnboundField),
                            }
                        },
                    }
                },
                (Literal::Dict(entries), Literal::Uuid(s)) => {
                    let ukey = LiteralKey::Uuid(s.clone());
                    match dict_get(&entries, &ukey) {
                        Some(v) => Ok(v.duplicate()),
                        None => Err(EngineError::UnboundField),
                    }
                },
                _ => Err(EngineError::TypeError),
            }
        },
        AST::CallAccess { left, args, kwargs } => {
            let ghost envm = env_view(params@);
            let ghost fae = first_arg_err(args@, kwargs@, envm, catalog@, fuel as nat);
            let name: &String = match &**left {
                AST::Variable(n) => n,
                AST::FieldAccess(_, f) => f,
                _ => {
                    return Err(EngineError::TypeError);
                },
            };
            let mut argvals: Vec<Literal> = Vec::new();
            let mut i: usize = 0;
            proof {
                assert(args@.skip(0) =~= args@);
            }
            while i < args.len()
                invariant
                    i <= args@.len(),
                    fae == first_arg_err(args@.skip(i as int), kwargs@, envm, catalog@, fuel as nat)
                        || fae is None,
                decreases args@.len() - i,
            {
                proof {
                    assert(args@.skip(i as int)[0] == args@[i as int]);
                    assert(args@.skip(i as int).drop_first() =~= args@.skip(i as int + 1));
                }
                match eval_ast(&args[i], catalog, params, host, fuel) {
                    Ok(v) => {
                        argvals.push(v);
                    },
                    Err(e) => {
                        return Err(e);
                    },
                }
                i = i + 1;
            }
            proof {
                assert(args@.skip(args@.len() as int) =~= Seq::<AST>::empty());
            }
            let mut kwargvals: Vec<(String, Literal)> = Vec::new();
            let mut k: usize = 0;
            proof {
                assert(kwargs@.skip(0) =~= kwargs@);
            }
            while k < kwargs.len()
                invariant
                    k <= kwargs@.len(),
                    fae == first_arg_err(
                        Seq::<AST>::empty(),
                        kwargs@.skip(k as int),
                        envm,
                        catalog@,
                        fuel as nat,
                    ) || fae is None,
                decreases kwargs@.len() - k,
            {
                proof {
                    assert(kwargs@.skip(k as int)[0] == kwargs@[k as int]);
                    assert(kwargs@.skip(k as int).drop_first() =~= kwargs@.skip(k as int + 1));
                }
                match eval_ast(&kwargs[k].1, catalog, params, host, fuel) {
                    Ok(v) => {
                        kwargvals.push((kwargs[k].0.clone(), v));
                    },
                    Err(e) => {
                        return Err(e);
                    },
                }
                k = k + 1;
            }
            proof {
                assert(kwargs@.skip(kwargs@.len() as int) =~= Seq::<(String, AST)>::empty());
            }
            host.call_function(name.as_str(), argvals, kwargvals)
        },
        AST::IfStatement { condition, then_branch, else_branch } => {
            let c = match eval_ast(condition, catalog, params, host, fuel) {
                Ok(c) => c,
                Err(e) => {
                    return Err(e);
                },
            };
            if c.is_truthy() {
                eval_ast(then_branch, catalog, params, host, fuel)
            } else {
                match else_branch {
                    Some(e) => eval_ast(e, catalog, params, host, fuel),
                    None => Ok(Literal::Str(String::new())),
                }
            }
        },
        AST::ForStatement { ident, iterable, body } => {
            let itv = match eval_ast(iterable, catalog, params, host, fuel) {
                Ok(v) => v,
                Err(e) => {
                    return Err(e);
                },
            };
            match itv {
                Literal::List(items) => {
                    let ghost model = lits_view(items@);
                    proof {
                        lemma_lits_view_len(items@);
                        assert(model.skip(0) =~= model);
                    }
                    let mut out = String::new();
                    let mut j: usize = 0;
                    while j < items.len()
                        invariant
                            j <= items@.len(),
                            no_calls(**body) ==> match for_model(
                                model.skip(j as int),
                                ident@,
                                **body,
                                env_view(params@),
                                catalog@,
                                fuel as nat,
                            ) {
                                Ok(rest) => for_model(
                                    model,
                                    ident@,
                                    **body,
                                    env_view(params@),
                                    catalog@,
                                    fuel as nat,
                                ) == Ok::<Seq<char>, EngineError>(out@ + rest),
                                Err(e) => for_model(
                                    model,
                                    ident@,
                                    **body,
                                    env_view(params@),
                                    catalog@,
                                    fuel as nat,
                                ) == Err::<Seq<char>, EngineError>(e),
                            },
                        decreases items@.len() - j,
                    {
                        proof {
                            lemma_lits_view_index(items@, j as int);
                        }
                        let mut env2 = env_duplicate(params);
                        env2.push((ident.clone(), items[j].duplicate()));
                        proof {
                            assert(env_view(env2@) =~= env_view(params@).push(
                                (ident@, model[j as int]),
                            ));
                            assert(model.skip(j as int)[0] == model[j as int]);
                        }
                        proof {
                            assert(model.skip(j as int).drop_first() =~= model.skip(j as int + 1));
                        }
                        let item = match eval_ast(body, catalog, &env2, host, fuel) {
                            Ok(v) => v,
                            Err(e) => {
                                return Err(e);
                            },
                        };
                        if fuel == 0 {
                            return Err(EngineError::RecursionLimit);
                        }
                        let ghost out0 = out@;
                        match item.to_html(catalog, fuel - 1) {
                            Ok(s) => {
                                out.append(s.as_str());
                                proof {
                                    if no_calls(**body) {
                                        let fm1 = for_model(
                                            model.skip(j as int + 1),
                                            ident@,
                                            **body,
                                            env_view(params@),
                                            catalog@,
                                            fuel as nat,
                                        );
                                        if fm1 is Ok {
                                            assert(out0 + (s@ + fm1->Ok_0) =~= (out0 + s@)
                                                + fm1->Ok_0);
                                        }
                                    }
                                }
                            },
                            Err(e) => {
                                return Err(e);
                            },
                        }
                        j = j + 1;
                    }
                    proof {
                        assert(model.skip(items@.len() as int) =~= Seq::<LitModel>::empty());
                        if no_calls(**body) {
                            assert(out@ + Seq::<char>::empty() =~= out@);
                        }
                    }
                    Ok(Literal::Str(out))
                },
                _ => Err(EngineError::NotIterable),
            }
        },
    }
}

/// Evaluates one expression source text end to end: the text is
/// tokenized against the grammar, the token tree is lowered — which
/// cannot fail on a well-formed token tree — and the resulting tree is
/// evaluated against the environment, the catalog and the host under the
/// default depth budget. A text outside the grammar fails with the
/// grammar's own error before any evaluation starts, and a grammatical
/// text free of markup spans and host calls evaluates exactly per the
/// evaluation model of some tree the grammar derives for it.
pub fn eval_expression<H: Host>(
    expression: &str,
    catalog: &XCatalog,
    params: &Env,
    host: &H,
) -> (res: Result<Literal, EngineError>)
    ensures
        (forall|i: int| 0 <= i < expression@.len() ==> crate::parser::ws_char(
            #[trigger] expression@[i],
        )) ==> (res matches Err(e) && e is EmptyExpression),
        match crate::parser::lex_expr(expression@).out {
            Err(e) => (res matches Err(er) && (er == e || (er is SyntaxError
                && crate::parser::lex_expr(expression@).saw_markup))),
            Ok(end) => !crate::parser::lex_expr(expression@).saw_markup ==> exists|
                t: crate::tokens::ExpressionToken,
                a: AST,
            |
                {
                    &&& crate::tokens::wf_token(t)
                    &&& #[trigger] crate::ast::builds_to(t, a)
                    &&& (no_calls(a) ==> res_view(res) == eval_model(
                        a,
                        env_view(params@),
                        catalog@,
                        crate::render::DEFAULT_DEPTH as nat,
                    ))
                },
        },
{
    let token = match crate::parser::tokenize(expression, host) {
        Ok(t) => t,
        Err(e) => {
            return Err(e);
        },
    };
    proof {
        crate::laws::lemma_wf_buildable(token);
    }
    let ast = match crate::ast::token_to_ast(&token) {
        Ok(a) => a,
        Err(e) => {
            proof {
                assert(false);
            }
            return Err(e);
        },
    };
    let res = eval_ast(&ast, catalog, params, host, crate::render::DEFAULT_DEPTH);
    proof {
        assert(crate::tokens::wf_token(token) && crate::ast::builds_to(token, ast) && (no_calls(
            ast,
        ) ==> res_view(res) == eval_model(
            ast,
            env_view(params@),
            catalog@,
            crate::render::DEFAULT_DEPTH as nat,
        )));
    }
    res
}

} // verus!
