//! The host capability surface: what the embedding environment supplies
//! to the engine.
//!
//! The engine never reaches outside by itself. Markup parsing and
//! host-defined function dispatch are injected as a capability value, so
//! an embedding can supply its real implementations and a test can supply
//! doubles. Nothing is assumed of either method: the engine's contracts
//! hold for every implementation.

use vstd::prelude::*;

use crate::errors::EngineError;
use crate::markup::XNode;
use crate::value::Literal;

verus! {

/// The two capabilities an embedding supplies: parsing an embedded
/// markup span into a node tree, and dispatching a host-defined function
/// by name over positional and named argument values.
pub trait Host {
    /// Parses one markup fragment. A fragment the host's parser rejects
    /// is reported as a syntax error by the caller.
    fn parse_markup(&self, source: &str) -> Result<XNode, EngineError>;

    /// Dispatches a host-defined function. An unknown name is expected
    /// to yield `EngineError::UnknownFunction`; the result value crosses
    /// back into the engine's value algebra unchanged.
    fn call_function(
        &self,
        name: &str,
        args: Vec<Literal>,
        kwargs: Vec<(String, Literal)>,
    ) -> Result<Literal, EngineError>;
}

/// The empty host: no markup parser and no functions. Suits embeddings
/// whose templates use neither capability.
pub struct NullHost;

impl Host for NullHost {
    fn parse_markup(&self, source: &str) -> Result<XNode, EngineError> {
        Err(EngineError::SyntaxError { position: 0 })
    }

    fn call_function(
        &self,
        name: &str,
        args: Vec<Literal>,
        kwargs: Vec<(String, Literal)>,
    ) -> Result<Literal, EngineError> {
        Err(EngineError::UnknownFunction)
    }
}

} // verus!
