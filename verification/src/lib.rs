//! Core of a declarative configuration engine: document model, parameter
//! constraint checking, dependency-ordered invocation, property-tree
//! expression walking, and export escaping.
use vstd::prelude::*;

pub mod configure;
pub mod constraints;
pub mod json;
pub mod sshd;
pub mod context;
pub mod depends_on;
pub mod doc;
pub mod engine;
pub mod error;
pub mod value;
pub mod walker;

verus! {

} // verus!
