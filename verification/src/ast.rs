//! The abstract syntax tree and its builder.
//!
//! The builder lowers a syntax-token tree into an AST with no remaining
//! surface ambiguity: a binary token list, already grouped by precedence,
//! folds into left-associative binary nodes — the first operand is the
//! accumulator and each following operator/operand pair wraps it. The
//! builder translates shapes only; no type checking happens here.

use vstd::prelude::*;

use crate::errors::EngineError;
use crate::markup::{node_view, XNode};
use crate::tokens::{literal_token, token_lit, token_lits, ExpressionToken, Operator};
use crate::value::{lit_view, LitModel, Literal};

verus! {

/// One node of the abstract syntax tree. The tree is immutable once
/// built; evaluation never changes it.
#[derive(Debug)]
pub enum AST {
    /// A variable reference by name.
    Variable(String),
    /// A literal value.
    Literal(Literal),
    /// One binary application.
    Binary { left: Box<AST>, op: Operator, right: Box<AST> },
    /// Field access on a dictionary.
    FieldAccess(Box<AST>, String),
    /// Index access on a list or dictionary.
    IndexAccess(Box<AST>, Box<AST>),
    /// A call: the callee expression, positional and named arguments.
    CallAccess { left: Box<AST>, args: Vec<AST>, kwargs: Vec<(String, AST)> },
    /// A conditional; a missing else branch yields the empty string.
    IfStatement { condition: Box<AST>, then_branch: Box<AST>, else_branch: Option<Box<AST>> },
    /// A loop over a list, rendering each iteration to text.
    ForStatement { ident: String, iterable: Box<AST>, body: Box<AST> },
}

/// Whether building the token can succeed: binary lists carry operands
/// at even and operators at odd positions with odd length, an operator
/// token never stands for an operand, and list literals hold literals.
pub open spec fn buildable(t: ExpressionToken) -> bool
    decreases t, 0nat,
{
    match t {
        ExpressionToken::BinaryExpression(ts) => fold_buildable(ts@),
        ExpressionToken::Ident(_) => true,
        ExpressionToken::Operator(_) => false,
        ExpressionToken::Str(_) => true,
        ExpressionToken::Integer(_) => true,
        ExpressionToken::Boolean(_) => true,
        ExpressionToken::XNode(_) => true,
        ExpressionToken::List(ts) => forall|i: int|
            0 <= i < ts@.len() ==> literal_token(#[trigger] ts@[i]),
        ExpressionToken::FieldAccess(base, _) => buildable(*base),
        ExpressionToken::IndexAccess(base, index) => buildable(*base) && buildable(*index),
        ExpressionToken::FuncCall { target, args, kwargs } => {
            &&& buildable(*target)
            &&& forall|i: int| 0 <= i < args@.len() ==> buildable(#[trigger] args@[i])
            &&& forall|i: int| 0 <= i < kwargs@.len() ==> buildable((#[trigger] kwargs@[i]).1)
        },
        ExpressionToken::IfExpression { condition, then_branch, else_branch } => {
            &&& buildable(*condition)
            &&& buildable(*then_branch)
            &&& match else_branch {
                Some(e) => buildable(*e),
                None => true,
            }
        },
        ExpressionToken::ForExpression { ident: _, iterable, body } => buildable(*iterable)
            && buildable(*body),
    }
}

/// Whether folding the token list into left-associative binary nodes can
/// succeed: odd length, operands at even and operators at odd positions.
pub open spec fn fold_buildable(ts: Seq<ExpressionToken>) -> bool
    decreases ts, 1nat,
{
    &&& ts.len() >= 1
    &&& ts.len() % 2 == 1
    &&& forall|i: int| 0 <= i < ts.len() && i % 2 == 0 ==> buildable(#[trigger] ts[i])
    &&& forall|i: int| 0 <= i < ts.len() && i % 2 == 1 ==> (#[trigger] ts[i]) is Operator
}

/// The relation between a token and the tree built from it.
pub open spec fn builds_to(t: ExpressionToken, a: AST) -> bool
    decreases t, 0nat,
{
    match t {
        ExpressionToken::BinaryExpression(ts) => fold_builds_to(ts@, a),
        ExpressionToken::Ident(s) => a matches AST::Variable(n) && n@ == s@,
        ExpressionToken::Operator(_) => false,
        ExpressionToken::Str(s) => a matches AST::Literal(l) && lit_view(l) == LitModel::Str(s@),
        ExpressionToken::Integer(i) => a matches AST::Literal(l) && lit_view(l) == LitModel::Int(
            i as int,
        ),
        ExpressionToken::Boolean(b) => a matches AST::Literal(l) && lit_view(l)
            == LitModel::Bool(b),
        ExpressionToken::XNode(n) => a matches AST::Literal(l) && lit_view(l) == LitModel::Node(
            node_view(n),
        ),
        ExpressionToken::List(ts) => {
            &&& forall|i: int| 0 <= i < ts@.len() ==> literal_token(#[trigger] ts@[i])
            &&& a matches AST::Literal(l) && lit_view(l) == LitModel::List(token_lits(ts@))
        },
        ExpressionToken::FieldAccess(base, f) => a matches AST::FieldAccess(b2, f2) && f2@ == f@
            && builds_to(*base, *b2),
        ExpressionToken::IndexAccess(base, index) => a matches AST::IndexAccess(b2, i2)
            && builds_to(*base, *b2) && builds_to(*index, *i2),
        ExpressionToken::FuncCall { target, args, kwargs } => {
            a matches AST::CallAccess { left, args: bargs, kwargs: bkwargs } && {
                &&& builds_to(*target, *left)
                &&& bargs@.len() == args@.len()
                &&& forall|i: int|
                    0 <= i < args@.len() ==> builds_to(#[trigger] args@[i], bargs@[i])
                &&& bkwargs@.len() == kwargs@.len()
                &&& forall|i: int|
                    0 <= i < kwargs@.len() ==> (#[trigger] bkwargs@[i]).0@ == kwargs@[i].0@
                        && builds_to(kwargs@[i].1, bkwargs@[i].1)
            }
        },
        ExpressionToken::IfExpression { condition, then_branch, else_branch } => {
            a matches AST::IfStatement { condition: c2, then_branch: t2, else_branch: e2 } && {
                &&& builds_to(*condition, *c2)
                &&& builds_to(*then_branch, *t2)
                &&& match (else_branch, e2) {
                    (Some(e), Some(e2b)) => builds_to(*e, *e2b),
                    (None, None) => true,
                    _ => false,
                }
            }
        },
        ExpressionToken::ForExpression { ident, iterable, body } => {
            a matches AST::ForStatement { ident: id2, iterable: it2, body: b2 } && {
                &&& id2@ == ident@
                &&& builds_to(*iterable, *it2)
                &&& builds_to(*body, *b2)
            }
        },
    }
}

/// The relation between a binary token list and its left-associative
/// fold: a single operand builds directly; a longer list ends in one
/// operator/operand pair wrapping the fold of the rest.
pub open spec fn fold_builds_to(ts: Seq<ExpressionToken>, a: AST) -> bool
    decreases ts, 1nat,
{
    if ts.len() == 1 {
        builds_to(ts[0], a)
    } else if ts.len() >= 3 && ts.len() % 2 == 1 {
        a matches AST::Binary { left, op, right } && {
            &&& ts[ts.len() - 2] matches ExpressionToken::Operator(o) && o == op
            &&& builds_to(ts.last(), *right)
            &&& fold_builds_to(ts.take(ts.len() - 2), *left)
        }
    } else {
        false
    }
}

/// Lowers one syntax token into an abstract syntax tree. Succeeds on
/// exactly the buildable tokens; a malformed token list — one of even
/// length, an operand where an operator belongs or the reverse, or a
/// non-literal inside a list literal — is a syntax error, and an empty
/// list is an empty-expression error.
#[verifier::loop_isolation(false)]
pub fn token_to_ast(tok: &ExpressionToken) -> (res: Result<AST, EngineError>)
    ensures
        res is Ok <==> buildable(*tok),
        res matches Ok(a) ==> builds_to(*tok, a),
        res matches Err(e) ==> (e is SyntaxError || e is EmptyExpression),
        (tok matches ExpressionToken::BinaryExpression(ts) && ts@.len() == 0) ==> res == Err::<
            AST,
            EngineError,
        >(EngineError::EmptyExpression { position: 0 }),
        (tok matches ExpressionToken::BinaryExpression(ts) && ts@.len() == 2) ==> res == Err::<
            AST,
            EngineError,
        >(EngineError::SyntaxError { position: 0 }),
    decreases *tok, 0nat,
{
    match tok {
        ExpressionToken::BinaryExpression(ts) => {
            if ts.len() == 0 {
                proof {
                    assert(!fold_buildable(ts@));
                }
                Err(EngineError::EmptyExpression { position: 0 })
            } else if ts.len() == 2 {
                proof {
                    assert(!fold_buildable(ts@));
                }
                Err(EngineError::SyntaxError { position: 0 })
            } else {
                parse(ts.as_slice())
            }
        },
        ExpressionToken::Ident(s) => Ok(AST::Variable(s.clone())),
        ExpressionToken::Operator(_) => Err(EngineError::SyntaxError { position: 0 }),
        ExpressionToken::Str(s) => Ok(AST::Literal(Literal::Str(s.clone()))),
        ExpressionToken::Integer(i) => Ok(AST::Literal(Literal::Int(*i))),
        ExpressionToken::Boolean(b) => Ok(AST::Literal(Literal::Bool(*b))),
        ExpressionToken::XNode(n) => Ok(AST::Literal(Literal::XNode(n.duplicate()))),
        ExpressionToken::List(ts) => match tokens_to_literals(ts) {
            Ok(items) => Ok(AST::Literal(Literal::List(items))),
            Err(e) => Err(e),
        },
        ExpressionToken::FieldAccess(base, f) => match token_to_ast(base) {
            Ok(b) => Ok(AST::FieldAccess(Box::new(b), f.clone())),
            Err(e) => Err(e),
        },
        ExpressionToken::IndexAccess(base, index) => match token_to_ast(base) {
            Ok(b) => match token_to_ast(index) {
                Ok(ix) => Ok(AST::IndexAccess(Box::new(b), Box::new(ix))),
                Err(e) => Err(e),
            },
            Err(e) => Err(e),
        },
        ExpressionToken::FuncCall { target, args, kwargs } => {
            let left = match token_to_ast(target) {
                Ok(b) => b,
                Err(e) => {
                    return Err(e);
                },
            };
            let mut bargs: Vec<AST> = Vec::new();
            let mut i: usize = 0;
            while i < args.len()
                invariant
                    i <= args@.len(),
                    bargs@.len() == i,
                    forall|j: int| 0 <= j < i ==> buildable(#[trigger] args@[j]),
                    forall|j: int| 0 <= j < i ==> builds_to(args@[j], #[trigger] bargs@[j]),
                decreases args@.len() - i,
            {
                match token_to_ast(&args[i]) {
                    Ok(a) => {
                        bargs.push(a);
                    },
                    Err(e) => {
                        return Err(e);
                    },
                }
                i = i + 1;
            }
            let mut bkwargs: Vec<(String, AST)> = Vec::new();
            let mut k: usize = 0;
            while k < kwargs.len()
                invariant
                    k <= kwargs@.len(),
                    bkwargs@.len() == k,
                    forall|j: int| 0 <= j < k ==> buildable((#[trigger] kwargs@[j]).1),
                    forall|j: int|
                        0 <= j < k ==> (#[trigger] bkwargs@[j]).0@ == kwargs@[j].0@ && builds_to(
                            kwargs@[j].1,
                            bkwargs@[j].1,
                        ),
                decreases kwargs@.len() - k,
            {
                match token_to_ast(&kwargs[k].1) {
                    Ok(a) => {
                        bkwargs.push((kwargs[k].0.clone(), a));
                    },
                    Err(e) => {
                        return Err(e);
                    },
                }
                k = k + 1;
            }
            Ok(AST::CallAccess { left: Box::new(left), args: bargs, kwargs: bkwargs })
        },
        ExpressionToken::IfExpression { condition, then_branch, else_branch } => {
            let c = match token_to_ast(condition) {
                Ok(c) => c,
                Err(e) => {
                    return Err(e);
                },
            };
            let t = match token_to_ast(then_branch) {
                Ok(t) => t,
                Err(e) => {
                    return Err(e);
                },
            };
            let e2 = match else_branch {
                Some(els) => match token_to_ast(els) {
                    Ok(x) => Some(Box::new(x)),
                    Err(e) => {
                        return Err(e);
                    },
                },
                None => None,
            };
            Ok(
                AST::IfStatement {
                    condition: Box::new(c),
                    then_branch: Box::new(t),
                    else_branch: e2,
                },
            )
        },
        ExpressionToken::ForExpression { ident, iterable, body } => {
            let it = match token_to_ast(iterable) {
                Ok(x) => x,
                Err(e) => {
                    return Err(e);
                },
            };
            let b = match token_to_ast(body) {
                Ok(x) => x,
                Err(e) => {
                    return Err(e);
                },
            };
            Ok(
                AST::ForStatement {
                    ident: ident.clone(),
                    iterable: Box::new(it),
                    body: Box::new(b),
                },
            )
        },
    }
}

/// Converts the element tokens of a list literal into values. Succeeds
/// on exactly the lists whose elements are all literal tokens.
#[verifier::loop_isolation(false)]
fn tokens_to_literals(ts: &Vec<ExpressionToken>) -> (res: Result<Vec<Literal>, EngineError>)
    ensures
        res is Ok <==> (forall|i: int| 0 <= i < ts@.len() ==> literal_token(#[trigger] ts@[i])),
        res matches Ok(items) ==> crate::value::lits_view(items@) == token_lits(ts@),
        res matches Err(e) ==> e is SyntaxError,
    decreases ts@, 1nat,
{
    let mut items: Vec<Literal> = Vec::new();
    let mut i: usize = 0;
    while i < ts.len()
        invariant
            i <= ts@.len(),
            forall|j: int| 0 <= j < i ==> literal_token(#[trigger] ts@[j]),
            crate::value::lits_view(items@) == token_lits(ts@.take(i as int)),
        decreases ts@.len() - i,
    {
        match token_to_literal(&ts[i]) {
            Ok(v) => {
                proof {
                    crate::value::lemma_lits_view_push(items@, v);
                    assert(ts@.take(i as int + 1).drop_last() =~= ts@.take(i as int));
                    assert(ts@.take(i as int + 1).last() == ts@[i as int]);
                }
                items.push(v);
            },
            Err(e) => {
                return Err(e);
            },
        }
        i = i + 1;
    }
    proof {
        assert(ts@.take(ts@.len() as int) =~= ts@);
    }
    Ok(items)
}

/// Converts one literal token into the value it denotes. Succeeds on
/// exactly the literal tokens.
fn token_to_literal(t: &ExpressionToken) -> (res: Result<Literal, EngineError>)
    ensures
        res is Ok <==> literal_token(*t),
        res matches Ok(v) ==> lit_view(v) == token_lit(*t),
        res matches Err(e) ==> e is SyntaxError,
    decreases *t, 0nat,
{
    match t {
        ExpressionToken::Str(s) => Ok(Literal::Str(s.clone())),
        ExpressionToken::Integer(i) => Ok(Literal::Int(*i)),
        ExpressionToken::Boolean(b) => Ok(Literal::Bool(*b)),
        ExpressionToken::XNode(n) => Ok(Literal::XNode(n.duplicate())),
        ExpressionToken::List(ts) => match tokens_to_literals(ts) {
            Ok(items) => Ok(Literal::List(items)),
            Err(e) => Err(e),
        },
        _ => Err(EngineError::SyntaxError { position: 0 }),
    }
}

/// Folds a binary token list into left-associative binary nodes: the
/// first operand is the accumulator, and each following operator/operand
/// pair wraps it. Succeeds on exactly the foldable lists: an empty list
/// is an empty-expression error; an even-length list, an operand where
/// an operator belongs or the reverse is a syntax error.
#[verifier::loop_isolation(false)]
pub fn parse(tokens: &[ExpressionToken]) -> (res: Result<AST, EngineError>)
    ensures
        res is Ok <==> fold_buildable(tokens@),
        res matches Ok(a) ==> fold_builds_to(tokens@, a),
        res matches Err(e) ==> (e is SyntaxError || e is EmptyExpression),
        tokens@.len() == 0 ==> res == Err::<AST, EngineError>(
            EngineError::EmptyExpression { position: 0 },
        ),
    decreases tokens@, 1nat,
{
    if tokens.len() == 0 {
        return Err(EngineError::EmptyExpression { position: 0 });
    }
    let mut left = match token_to_ast(&tokens[0]) {
        Ok(a) => a,
        Err(e) => {
            return Err(e);
        },
    };
    let mut i: usize = 1;
    while i < tokens.len() - 1
        invariant
            1 <= i <= tokens@.len(),
            i % 2 == 1,
            fold_builds_to(tokens@.take(i as int), left),
            forall|j: int| 0 <= j < i && j % 2 == 0 ==> buildable(#[trigger] tokens@[j]),
            forall|j: int| 0 <= j < i && j % 2 == 1 ==> (#[trigger] tokens@[j]) is Operator,
        decreases tokens@.len() - i,
    {
        let op = match &tokens[i] {
            ExpressionToken::Operator(o) => *o,
            _ => {
                return Err(EngineError::SyntaxError { position: 0 });
            },
        };
        let right = match token_to_ast(&tokens[i + 1]) {
            Ok(a) => a,
            Err(e) => {
                return Err(e);
            },
        };
        left = AST::Binary { left: Box::new(left), op, right: Box::new(right) };
        proof {
            assert(tokens@.take(i as int + 2).take(i as int) =~= tokens@.take(i as int));
            assert(tokens@.take(i as int + 2).last() == tokens@[i as int + 1]);
            assert(tokens@.take(i as int + 2)[i as int] == tokens@[i as int]);
        }
        i = i + 2;
    }
    if i != tokens.len() {
        return Err(EngineError::SyntaxError { position: 0 });
    }
    proof {
        assert(tokens@.take(i as int) =~= tokens@);
    }
    Ok(left)
}

} // verus!
