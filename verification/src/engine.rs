//! The consumed collaborator interfaces: the expression engine that parses
//! and evaluates bracketed statements, and the discovery-and-provider
//! facility that executes the four operations for a resource type. Both are
//! supplied by the caller; nothing is assumed of their behaviour.
use vstd::prelude::*;

use crate::context::Context;
use crate::error::DscError;
use crate::value::PropValue;

verus! {

/// The expression engine consumed by the core: it evaluates one bracketed
/// statement against a context snapshot, and names the resources a statement
/// references. The core assumes nothing about either answer.
pub trait ExpressionEngine {
    /// Parse and execute a statement, reading the given context snapshot.
    fn evaluate(&mut self, statement: &String, context: &Context) -> Result<String, DscError>;

    /// The names of the resources a statement references.
    fn references(&mut self, statement: &String) -> Result<Vec<String>, DscError>;
}

/// The discovery facility and provider transport consumed by the core. Type
/// names handed in are lower-cased by the caller of the trait.
pub trait ProviderHost {
    /// Bulk discovery of the providers for a set of type names.
    fn discover(&mut self, resource_types: &Vec<String>);

    /// Whether a provider is registered for a type name.
    fn find(&mut self, resource_type: &String) -> bool;

    /// The get operation: read the current state selected by a filter.
    fn get(&mut self, resource_type: &String, filter: &Option<Vec<(String, PropValue)>>) -> Result<
        PropValue,
        DscError,
    >;

    /// The set operation: enforce a desired state.
    fn set(&mut self, resource_type: &String, desired: &Option<Vec<(String, PropValue)>>, skip_test: bool) -> Result<
        PropValue,
        DscError,
    >;

    /// The test operation: compare an expected state with the actual one.
    fn test(&mut self, resource_type: &String, expected: &Option<Vec<(String, PropValue)>>) -> Result<
        PropValue,
        DscError,
    >;

    /// The export operation: harvest every actual instance state.
    fn export(&mut self, resource_type: &String, input: &Option<Vec<(String, PropValue)>>) -> Result<
        Vec<PropValue>,
        DscError,
    >;
}

} // verus!
