//! The engine's error taxonomy.
//!
//! Every failure of tokenizing, template registration or evaluation is one
//! of these variants; an error aborts the whole evaluation and is returned
//! to the caller unchanged, so callers always see exactly one structured
//! error and never partial output.

use vstd::prelude::*;

verus! {

/// One structured failure of the engine.
#[derive(Debug, Clone, PartialEq, Eq, Structural)]
pub enum EngineError {
    /// The source text does not match the expression grammar; carries the
    /// character position at which tokenizing gave up.
    SyntaxError { position: usize },
    /// The source text is empty or ends before a grammar production is
    /// complete; carries the character position of the end of the input.
    EmptyExpression { position: usize },
    /// A caller-supplied parameter cannot enter the value algebra. The
    /// engine's own functions take values already inside the algebra, so
    /// this failure belongs to an embedding's ingestion boundary.
    InvalidParameter,
    /// A variable name is not bound in the environment.
    UndefinedVariable,
    /// A field or key is missing on the dictionary it was looked up in.
    UnboundField,
    /// A `for` loop was asked to iterate something that is not a list.
    NotIterable,
    /// An operator, field access or index access was applied to a value
    /// combination that the coercion table rejects.
    TypeError,
    /// The right operand of `/` coerced to zero.
    DivisionByZero,
    /// Signed arithmetic left the machine integer range.
    Overflow,
    /// A rendered template name is not registered in the catalog.
    UnknownTemplate,
    /// The host dispatched a function name it does not define.
    UnknownFunction,
    /// Nested template rendering exhausted the caller-supplied depth
    /// budget; guards against cyclic template references.
    RecursionLimit,
}

} // verus!
