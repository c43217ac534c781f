//! Syntax tokens: the tree the tokenizer produces from expression source
//! text, consumed by the abstract-syntax-tree builder.
//!
//! A token carries no scope or type information. Binary expressions are
//! kept as alternating operand/operator lists, already grouped by
//! precedence, and are folded left-associatively by the builder.

use vstd::prelude::*;

use crate::markup::{node_view, XNode};
use crate::render::{repr_node, repr_node_exec};
use crate::strutil::{
    bool_str, bool_to_string, esc_quotes, escape_quotes, int_str, int_to_string,
};
use crate::value::LitModel;

verus! {

/// The coarse classification of a token.
#[derive(Debug, Clone, PartialEq, Eq, Structural)]
pub enum ExpType {
    Expression,
    Ident,
    Operator,
    String,
    Integer,
}

/// The error of reading an operator from an unknown symbol.
#[derive(Debug, PartialEq, Eq, Structural)]
pub struct OperatorErr;

/// A binary operator, in increasing binding strength: logical, equality,
/// relational, additive, multiplicative.
#[derive(Debug, Clone, Copy, PartialEq, Eq, Structural)]
pub enum Operator {
    Or,
    And,
    Eq,
    Neq,
    Gt,
    Lt,
    Gte,
    Lte,
    Add,
    Sub,
    Mul,
    Div,
}

/// The surface symbol of an operator.
pub open spec fn op_sym(op: Operator) -> Seq<char> {
    match op {
        Operator::Add => "+"@,
        Operator::Sub => "-"@,
        Operator::Mul => "*"@,
        Operator::Div => "/"@,
        Operator::And => "and"@,
        Operator::Or => "or"@,
        Operator::Eq => "=="@,
        Operator::Neq => "!="@,
        Operator::Gt => ">"@,
        Operator::Lt => "<"@,
        Operator::Gte => ">="@,
        Operator::Lte => "<="@,
    }
}

impl Operator {
    /// Reads an operator from its surface symbol: succeeds on exactly
    /// the twelve operator symbols, yielding the operator that prints
    /// back as the given text.
    pub fn from_str(op: &str) -> (r: Result<Operator, OperatorErr>)
        ensures
            r matches Ok(o) ==> op_sym(o) == op@,
            r is Ok <==> (op@ == "+"@ || op@ == "-"@ || op@ == "*"@ || op@ == "/"@ || op@
                == "and"@ || op@ == "or"@ || op@ == "=="@ || op@ == "!="@ || op@ == ">="@ || op@
                == "<="@ || op@ == ">"@ || op@ == "<"@),
    {
        if str_is(op, "+") {
            Ok(Operator::Add)
        } else if str_is(op, "-") {
            Ok(Operator::Sub)
        } else if str_is(op, "*") {
            Ok(Operator::Mul)
        } else if str_is(op, "/") {
            Ok(Operator::Div)
        } else if str_is(op, "and") {
            Ok(Operator::And)
        } else if str_is(op, "or") {
            Ok(Operator::Or)
        } else if str_is(op, "==") {
            Ok(Operator::Eq)
        } else if str_is(op, "!=") {
            Ok(Operator::Neq)
        } else if str_is(op, ">=") {
            Ok(Operator::Gte)
        } else if str_is(op, "<=") {
            Ok(Operator::Lte)
        } else if str_is(op, ">") {
            Ok(Operator::Gt)
        } else if str_is(op, "<") {
            Ok(Operator::Lt)
        } else {
            Err(OperatorErr)
        }
    }

    /// The surface symbol of the operator.
    pub fn symbol(&self) -> (r: &'static str)
        ensures
            r@ == op_sym(*self),
    {
        match self {
            Operator::Add => "+",
            Operator::Sub => "-",
            Operator::Mul => "*",
            Operator::Div => "/",
            Operator::And => "and",
            Operator::Or => "or",
            Operator::Eq => "==",
            Operator::Neq => "!=",
            Operator::Gt => ">",
            Operator::Lt => "<",
            Operator::Gte => ">=",
            Operator::Lte => "<=",
        }
    }
}

/// Compares a string against a literal symbol.
fn str_is(s: &str, lit: &str) -> (r: bool)
    ensures
        r == (s@ == lit@),
{
    crate::strutil::str_eq_exec(s, lit)
}

/// One syntax token.
#[derive(Debug)]
pub enum ExpressionToken {
    /// An alternating operand/operator list of one precedence tier.
    BinaryExpression(Vec<ExpressionToken>),
    /// A variable reference.
    Ident(String),
    /// An infix operator.
    Operator(Operator),
    /// A string literal, unescaped.
    Str(String),
    /// A signed integer literal.
    Integer(isize),
    /// A boolean literal.
    Boolean(bool),
    /// An embedded markup fragment, parsed by the external markup parser.
    XNode(XNode),
    /// A list literal of literal elements.
    List(Vec<ExpressionToken>),
    /// Postfix field access on an operand.
    FieldAccess(Box<ExpressionToken>, String),
    /// Postfix index access on an operand.
    IndexAccess(Box<ExpressionToken>, Box<ExpressionToken>),
    /// Postfix call application on an operand.
    FuncCall {
        target: Box<ExpressionToken>,
        args: Vec<ExpressionToken>,
        kwargs: Vec<(String, ExpressionToken)>,
    },
    /// A conditional expression; a missing else branch renders empty.
    IfExpression {
        condition: Box<ExpressionToken>,
        then_branch: Box<ExpressionToken>,
        else_branch: Option<Box<ExpressionToken>>,
    },
    /// A loop expression over a list.
    ForExpression {
        ident: String,
        iterable: Box<ExpressionToken>,
        body: Box<ExpressionToken>,
    },
}

/// Whether the token is a self-contained literal: the only tokens allowed
/// as elements of a list literal.
pub open spec fn literal_token(t: ExpressionToken) -> bool
    decreases t,
{
    match t {
        ExpressionToken::Str(_) => true,
        ExpressionToken::Integer(_) => true,
        ExpressionToken::Boolean(_) => true,
        ExpressionToken::XNode(_) => true,
        ExpressionToken::List(ts) => forall|i: int|
            0 <= i < ts@.len() ==> literal_token(#[trigger] ts@[i]),
        _ => false,
    }
}

/// The value a literal token denotes.
pub open spec fn token_lit(t: ExpressionToken) -> LitModel
    decreases t,
{
    match t {
        ExpressionToken::Str(s) => LitModel::Str(s@),
        ExpressionToken::Integer(i) => LitModel::Int(i as int),
        ExpressionToken::Boolean(b) => LitModel::Bool(b),
        ExpressionToken::XNode(n) => LitModel::Node(node_view(n)),
        ExpressionToken::List(ts) => LitModel::List(token_lits(ts@)),
        _ => LitModel::Bool(false),
    }
}

/// The values a sequence of literal tokens denotes, elementwise.
pub open spec fn token_lits(s: Seq<ExpressionToken>) -> Seq<LitModel>
    decreases s,
{
    if s.len() == 0 {
        Seq::empty()
    } else {
        token_lits(s.drop_last()).push(token_lit(s.last()))
    }
}

/// An element of a modelled literal-token sequence is the model of the
/// element.
pub proof fn lemma_token_lits_index(s: Seq<ExpressionToken>, i: int)
    requires
        0 <= i < s.len(),
    ensures
        token_lits(s).len() == s.len(),
        token_lits(s)[i] == token_lit(s[i]),
    decreases s.len(),
{
    if s.len() > 0 {
        if i < s.len() - 1 {
            lemma_token_lits_index(s.drop_last(), i);
        } else {
            lemma_token_lits_len(s.drop_last());
        }
    }
}

/// A modelled literal-token sequence keeps its length.
pub proof fn lemma_token_lits_len(s: Seq<ExpressionToken>)
    ensures
        token_lits(s).len() == s.len(),
    decreases s.len(),
{
    if s.len() > 0 {
        lemma_token_lits_len(s.drop_last());
    }
}

/// The source text a token prints back as. A binary list prints its
/// operands and spaced operators end to end; a string literal prints
/// quoted with its double quotes escaped; a markup fragment prints as
/// its serialized tree.
pub open spec fn token_src(t: ExpressionToken) -> Seq<char>
    decreases t, 0nat,
{
    match t {
        ExpressionToken::BinaryExpression(ts) => tokens_src(ts@),
        ExpressionToken::Ident(s) => s@,
        ExpressionToken::Operator(op) => " "@ + op_sym(op) + " "@,
        ExpressionToken::Str(s) => "\""@ + esc_quotes(s@) + "\""@,
        ExpressionToken::Integer(i) => int_str(i as int),
        ExpressionToken::Boolean(b) => bool_str(b),
        ExpressionToken::XNode(n) => repr_node(node_view(n)),
        ExpressionToken::List(ts) => "["@ + tokens_src_sep(ts@) + "]"@,
        ExpressionToken::FieldAccess(base, f) => token_src(*base) + "."@ + f@,
        ExpressionToken::IndexAccess(base, index) => token_src(*base) + "["@ + token_src(*index)
            + "]"@,
        ExpressionToken::FuncCall { target, args, kwargs } => token_src(*target) + "("@ + (
        if args@.len() == 0 {
            kwargs_src(kwargs@)
        } else {
            tokens_src_sep(args@) + kwargs_src_rest(kwargs@)
        }) + ")"@,
        ExpressionToken::IfExpression { condition, then_branch, else_branch } => "if "@
            + token_src(*condition) + " { "@ + token_src(*then_branch) + " }"@ + (
        match else_branch {
            Some(e) => " else { "@ + token_src(*e) + " }"@,
            None => Seq::empty(),
        }),
        ExpressionToken::ForExpression { ident, iterable, body } => "for "@ + ident@ + " in "@
            + token_src(*iterable) + " { "@ + token_src(*body) + " }"@,
    }
}

/// The source of a token list, end to end.
pub open spec fn tokens_src(ts: Seq<ExpressionToken>) -> Seq<char>
    decreases ts, 1nat,
{
    if ts.len() == 0 {
        Seq::empty()
    } else {
        tokens_src(ts.drop_last()) + token_src(ts.last())
    }
}

/// The source of a token list, comma-separated.
pub open spec fn tokens_src_sep(ts: Seq<ExpressionToken>) -> Seq<char>
    decreases ts, 1nat,
{
    if ts.len() == 0 {
        Seq::empty()
    } else if ts.len() == 1 {
        token_src(ts[0])
    } else {
        tokens_src_sep(ts.drop_last()) + ", "@ + token_src(ts.last())
    }
}

/// The source of named arguments standing first, comma-separated.
pub open spec fn kwargs_src(ks: Seq<(String, ExpressionToken)>) -> Seq<char>
    decreases ks, 1nat,
{
    if ks.len() == 0 {
        Seq::empty()
    } else if ks.len() == 1 {
        ks[0].0@ + "="@ + token_src(ks[0].1)
    } else {
        kwargs_src(ks.drop_last()) + ", "@ + ks.last().0@ + "="@ + token_src(ks.last().1)
    }
}

/// The source of named arguments following positional ones, each
/// preceded by a comma.
pub open spec fn kwargs_src_rest(ks: Seq<(String, ExpressionToken)>) -> Seq<char>
    decreases ks, 1nat,
{
    if ks.len() == 0 {
        Seq::empty()
    } else {
        kwargs_src_rest(ks.drop_last()) + ", "@ + ks.last().0@ + "="@ + token_src(ks.last().1)
    }
}

impl ExpressionToken {
    /// Prints the token back as expression source text.
    #[verifier::loop_isolation(false)]
    #[verifier::rlimit(50)]
    pub fn to_source(&self) -> (r: String)
        ensures
            r@ == token_src(*self),
        decreases *self,
    {
        match self {
            ExpressionToken::BinaryExpression(ts) => {
                let mut out = String::new();
                let mut i: usize = 0;
                proof {
                    assert(ts@.take(0) =~= Seq::<ExpressionToken>::empty());
                }
                while i < ts.len()
                    invariant
                        i <= ts@.len(),
                        out@ == tokens_src(ts@.take(i as int)),
                    decreases ts@.len() - i,
                {
                    let piece = ts[i].to_source();
                    proof {
                        assert(ts@.take(i as int + 1).drop_last() =~= ts@.take(i as int));
                        assert(ts@.take(i as int + 1).last() == ts@[i as int]);
                    }
                    out.append(piece.as_str());
                    i = i + 1;
                }
                proof {
                    assert(ts@.take(ts@.len() as int) =~= ts@);
                }
                out
            },
            ExpressionToken::Ident(s) => s.clone(),
            ExpressionToken::Operator(op) => {
                let mut out = String::new();
                out.append(" ");
                out.append(op.symbol());
                out.append(" ");
                out
            },
            ExpressionToken::Str(s) => {
                let escaped = escape_quotes(s.as_str());
                let mut out = String::new();
                out.append("\"");
                out.append(escaped.as_str());
                out.append("\"");
                out
            },
            ExpressionToken::Integer(i) => int_to_string(*i),
            ExpressionToken::Boolean(b) => bool_to_string(*b),
            ExpressionToken::XNode(n) => repr_node_exec(n),
            ExpressionToken::List(ts) => {
                let mut body = String::new();
                let mut i: usize = 0;
                proof {
                    assert(ts@.take(0) =~= Seq::<ExpressionToken>::empty());
                }
                while i < ts.len()
                    invariant
                        i <= ts@.len(),
                        body@ == tokens_src_sep(ts@.take(i as int)),
                    decreases ts@.len() - i,
                {
                    let piece = ts[i].to_source();
                    proof {
                        assert(ts@.take(i as int + 1).drop_last() =~= ts@.take(i as int));
                        assert(ts@.take(i as int + 1).last() == ts@[i as int]);
                        assert(ts@.take(i as int + 1)[0] == ts@[0]);
                    }
                    if i > 0 {
                        body.append(", ");
                    }
                    body.append(piece.as_str());
                    i = i + 1;
                }
                proof {
                    assert(ts@.take(ts@.len() as int) =~= ts@);
                }
                let mut out = String::new();
                out.append("[");
                out.append(body.as_str());
                out.append("]");
                out
            },
            ExpressionToken::FieldAccess(base, f) => {
                let mut out = base.to_source();
                out.append(".");
                out.append(f.as_str());
                out
            },
            ExpressionToken::IndexAccess(base, index) => {
                let mut out = base.to_source();
                let ix = index.to_source();
                out.append("[");
                out.append(ix.as_str());
                out.append("]");
                out
            },
            ExpressionToken::FuncCall { target, args, kwargs } => {
                let mut out = target.to_source();
                out.append("(");
                let mut i: usize = 0;
                proof {
                    assert(args@.take(0) =~= Seq::<ExpressionToken>::empty());
                }
                while i < args.len()
                    invariant
                        i <= args@.len(),
                        out@ == token_src(**target) + "("@ + tokens_src_sep(
                            args@.take(i as int),
                        ),
                    decreases args@.len() - i,
                {
                    let piece = args[i].to_source();
                    proof {
                        assert(args@.take(i as int + 1).drop_last() =~= args@.take(i as int));
                        assert(args@.take(i as int + 1).last() == args@[i as int]);
                        assert(args@.take(i as int + 1)[0] == args@[0]);
                    }
                    if i > 0 {
                        out.append(", ");
                    }
                    out.append(piece.as_str());
                    i = i + 1;
                }
                proof {
                    assert(args@.take(args@.len() as int) =~= args@);
                }
                let mut k: usize = 0;
                if args.len() == 0 {
                    proof {
                        assert(kwargs@.take(0) =~= Seq::<(String, ExpressionToken)>::empty());
                    }
                    while k < kwargs.len()
                        invariant
                            k <= kwargs@.len(),
                            args@.len() == 0,
                            out@ == token_src(**target) + "("@ + kwargs_src(
                                kwargs@.take(k as int),
                            ),
                        decreases kwargs@.len() - k,
                    {
                        let piece = kwargs[k].1.to_source();
                        proof {
                            assert(kwargs@.take(k as int + 1).drop_last() =~= kwargs@.take(
                                k as int,
                            ));
                            assert(kwargs@.take(k as int + 1).last() == kwargs@[k as int]);
                            assert(kwargs@.take(k as int + 1)[0] == kwargs@[0]);
                        }
                        if k > 0 {
                            out.append(", ");
                        }
                        out.append(kwargs[k].0.as_str());
                        out.append("=");
                        out.append(piece.as_str());
                        k = k + 1;
                    }
                    proof {
                        assert(kwargs@.take(kwargs@.len() as int) =~= kwargs@);
                    }
                } else {
                    proof {
                        assert(kwargs@.take(0) =~= Seq::<(String, ExpressionToken)>::empty());
                    }
                    while k < kwargs.len()
                        invariant
                            k <= kwargs@.len(),
                            args@.len() > 0,
                            out@ == token_src(**target) + "("@ + tokens_src_sep(args@)
                                + kwargs_src_rest(kwargs@.take(k as int)),
                        decreases kwargs@.len() - k,
                    {
                        let piece = kwargs[k].1.to_source();
                        proof {
                            assert(kwargs@.take(k as int + 1).drop_last() =~= kwargs@.take(
                                k as int,
                            ));
                            assert(kwargs@.take(k as int + 1).last() == kwargs@[k as int]);
                        }
                        out.append(", ");
                        out.append(kwargs[k].0.as_str());
                        out.append("=");
                        out.append(piece.as_str());
                        k = k + 1;
                    }
                    proof {
                        assert(kwargs@.take(kwargs@.len() as int) =~= kwargs@);
                    }
                }
                out.append(")");
                out
            },
            ExpressionToken::IfExpression { condition, then_branch, else_branch } => {
                let c = condition.to_source();
                let t = then_branch.to_source();
                let mut out = String::new();
                out.append("if ");
                out.append(c.as_str());
                out.append(" { ");
                out.append(t.as_str());
                out.append(" }");
                match else_branch {
                    Some(e) => {
                        let es = e.to_source();
                        out.append(" else { ");
                        out.append(es.as_str());
                        out.append(" }");
                    },
                    None => {
                        proof {
                            assert(out@ + Seq::<char>::empty() =~= out@);
                        }
                    },
                }
                out
            },
            ExpressionToken::ForExpression { ident, iterable, body } => {
                let it = iterable.to_source();
                let b = body.to_source();
                let mut out = String::new();
                out.append("for ");
                out.append(ident.as_str());
                out.append(" in ");
                out.append(it.as_str());
                out.append(" { ");
                out.append(b.as_str());
                out.append(" }");
                out
            },
        }
    }
}

/// Whether the token is well formed as an operand: every binary list
/// alternates well-formed operands with operators and has odd length of
/// at least three, list literals hold only literals, and an operator
/// token never stands alone.
pub open spec fn wf_token(t: ExpressionToken) -> bool
    decreases t,
{
    match t {
        ExpressionToken::BinaryExpression(ts) => {
            &&& ts@.len() >= 3
            &&& ts@.len() % 2 == 1
            &&& forall|i: int|
                0 <= i < ts@.len() && i % 2 == 0 ==> wf_token(#[trigger] ts@[i])
                    && !(ts@[i] is Operator)
            &&& forall|i: int|
                0 <= i < ts@.len() && i % 2 == 1 ==> (#[trigger] ts@[i]) is Operator
        },
        ExpressionToken::Ident(_) => true,
        ExpressionToken::Operator(_) => false,
        ExpressionToken::Str(_) => true,
        ExpressionToken::Integer(_) => true,
        ExpressionToken::Boolean(_) => true,
        ExpressionToken::XNode(_) => true,
        ExpressionToken::List(ts) => forall|i: int|
            0 <= i < ts@.len() ==> literal_token(#[trigger] ts@[i]),
        ExpressionToken::FieldAccess(base, _) => wf_token(*base),
        ExpressionToken::IndexAccess(base, index) => wf_token(*base) && wf_token(*index),
        ExpressionToken::FuncCall { target, args, kwargs } => {
            &&& wf_token(*target)
            &&& forall|i: int| 0 <= i < args@.len() ==> wf_token(#[trigger] args@[i])
            &&& forall|i: int| 0 <= i < kwargs@.len() ==> wf_token((#[trigger] kwargs@[i]).1)
        },
        ExpressionToken::IfExpression { condition, then_branch, else_branch } => {
            &&& wf_token(*condition)
            &&& wf_token(*then_branch)
            &&& match else_branch {
                Some(e) => wf_token(*e),
                None => true,
            }
        },
        ExpressionToken::ForExpression { ident: _, iterable, body } => wf_token(*iterable)
            && wf_token(*body),
    }
}

} // verus!
