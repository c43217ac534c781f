//! Extraction of translatable messages from expressions: the string
//! literals handed to the conventional translation calls.

use vstd::prelude::*;

use crate::ast::AST;
use crate::errors::EngineError;
use crate::host::Host;
use crate::value::{lit_view, LitModel, Literal};

verus! {

/// The model of a list of extracted messages.
pub open spec fn strs_view(s: Seq<String>) -> Seq<Seq<char>> {
    Seq::new(s.len(), |i: int| s[i]@)
}

/// The string literal a call argument contributes, if any.
pub open spec fn arg_message(a: AST) -> Option<Seq<char>> {
    match a {
        AST::Literal(l) => match lit_view(l) {
            LitModel::Str(s) => Some(s),
            _ => None,
        },
        _ => None,
    }
}

/// The messages one tree contributes: the first string-literal argument
/// of a call whose callee field is the translation function, and the
/// first two for the plural-aware one; any other tree contributes none.
pub open spec fn messages_model(ast: AST) -> Seq<Seq<char>> {
    match ast {
        AST::CallAccess { left, args, kwargs: _ } => match *left {
            AST::FieldAccess(_, f) => if f@ == "gettext"@ {
                opt_seq(if args@.len() > 0 { arg_message(args@[0]) } else { None })
            } else if f@ == "ngettext"@ {
                opt_seq(if args@.len() > 0 { arg_message(args@[0]) } else { None }) + opt_seq(
                    if args@.len() > 1 { arg_message(args@[1]) } else { None },
                )
            } else {
                Seq::empty()
            },
            _ => Seq::empty(),
        },
        _ => Seq::empty(),
    }
}

/// A zero- or one-element sequence from an optional message.
pub open spec fn opt_seq(o: Option<Seq<char>>) -> Seq<Seq<char>> {
    match o {
        Some(s) => seq![s],
        None => Seq::empty(),
    }
}

/// Picks the string literal a call argument contributes, if any.
fn arg_message_exec(a: &AST) -> (r: Option<String>)
    ensures
        match r {
            Some(s) => arg_message(*a) == Some(s@),
            None => arg_message(*a) is None,
        },
{
    match a {
        AST::Literal(Literal::Str(s)) => Some(s.clone()),
        _ => None,
    }
}

/// Collects the translatable messages of one tree.
pub fn extract_from_ast(ast: &AST) -> (r: Vec<String>)
    ensures
        strs_view(r@) == messages_model(*ast),
{
    let mut res: Vec<String> = Vec::new();
    match ast {
        AST::CallAccess { left, args, kwargs: _ } => match &**left {
            AST::FieldAccess(_, f) => {
                let is_gettext = crate::strutil::str_eq_exec(f.as_str(), "gettext");
                let is_ngettext = crate::strutil::str_eq_exec(f.as_str(), "ngettext");
                if is_gettext {
                    if args.len() > 0 {
                        match arg_message_exec(&args[0]) {
                            Some(s) => {
                                res.push(s);
                            },
                            None => {},
                        }
                    }
                } else if is_ngettext {
                    if args.len() > 0 {
                        match arg_message_exec(&args[0]) {
                            Some(s) => {
                                res.push(s);
                            },
                            None => {},
                        }
                    }
                    if args.len() > 1 {
                        match arg_message_exec(&args[1]) {
                            Some(s) => {
                                res.push(s);
                            },
                            None => {},
                        }
                    }
                }
            },
            _ => {},
        },
        _ => {},
    }
    proof {
        assert(strs_view(res@) =~~= messages_model(*ast));
    }
    res
}

/// Tokenizes and lowers one expression, then collects its translatable
/// messages. A text outside the grammar fails with the grammar's own
/// error; a grammatical text free of markup spans yields exactly the
/// messages of some tree the grammar derives for it.
pub fn extract_expr_i18n_messages<H: Host>(raw: &str, host: &H) -> (res: Result<
    Vec<String>,
    EngineError,
>)
    ensures
        res matches Err(e) ==> (e is SyntaxError || e is EmptyExpression),
        match crate::parser::lex_expr(raw@).out {
            Err(e) => (res matches Err(er) && (er == e || (er is SyntaxError
                && crate::parser::lex_expr(raw@).saw_markup))),
            Ok(end) => !crate::parser::lex_expr(raw@).saw_markup ==> (res matches Ok(msgs)
                && exists|t: crate::tokens::ExpressionToken, a: AST|
                {
                    &&& crate::tokens::wf_token(t)
                    &&& #[trigger] crate::ast::builds_to(t, a)
                    &&& strs_view(msgs@) == messages_model(a)
                }),
        },
{
    let token = match crate::parser::tokenize(raw, host) {
        Ok(t) => t,
        Err(e) => {
            return Err(e);
        },
    };
    proof {
        crate::laws::lemma_wf_buildable(token);
    }
    let ast = match crate::ast::token_to_ast(&token) {
        Ok(a) => a,
        Err(e) => {
            proof {
                assert(false);
            }
            return Err(e);
        },
    };
    let msgs = extract_from_ast(&ast);
    proof {
        assert(crate::tokens::wf_token(token) && crate::ast::builds_to(token, ast) && strs_view(
            msgs@,
        ) == messages_model(ast));
    }
    Ok(msgs)
}

} // verus!
