//! Error taxonomy surfaced by the engine core: parse failures, schema and
//! semantic validation failures, missing providers, expression failures, and
//! opaque provider failures. Every error aborts the current operation.
use vstd::prelude::*;

verus! {

#[derive(Debug)]
pub enum DscError {
    /// Malformed document text or an unsupported property shape.
    Parser(String),
    /// A schema or semantic rule of the document was violated.
    Validation(String),
    /// A resource type with no registered provider.
    ResourceNotFound(String),
    /// The expression engine rejected a bracketed statement.
    Expression(String),
    /// An opaque failure returned by a provider.
    Provider(String),
}

impl DscError {
    /// The human-readable message carried by the error.
    pub fn message(&self) -> (r: &String)
        ensures
            r@ == self.spec_message(),
    {
        match self {
            DscError::Parser(m) => m,
            DscError::Validation(m) => m,
            DscError::ResourceNotFound(m) => m,
            DscError::Expression(m) => m,
            DscError::Provider(m) => m,
        }
    }

    pub open spec fn spec_message(&self) -> Seq<char> {
        match self {
            DscError::Parser(m) => m@,
            DscError::Validation(m) => m@,
            DscError::ResourceNotFound(m) => m@,
            DscError::Expression(m) => m@,
            DscError::Provider(m) => m@,
        }
    }
}

} // verus!
