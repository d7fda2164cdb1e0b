//! A small CI orchestrator library: a pipeline is a named set of repositories,
//! packages and build steps; the steps form a dependency DAG that is validated
//! and then scheduled with maximal parallelism while each child's output is
//! forwarded line by line to a log sink.

use vstd::prelude::*;

pub mod dag;
pub mod filterable;
pub mod package;
pub mod persist;
pub mod pipeline;
pub mod repl;
pub mod repo;
pub mod runnable;
pub mod sink;
pub mod step;
pub mod text;
pub mod zones;

verus! {

/// A draft field: either not yet given, or set to a value.
#[derive(Debug, Clone)]
pub enum Value<T> {
    Unset,
    Given(T),
}

/// The reasons a draft entity or a step graph is rejected.
#[derive(Debug, Clone, PartialEq, Eq)]
pub enum ValidationError {
    UnsetField,
    UnknownAttribute(String),
    DuplicateStep(String),
    UnknownDependency(String, String),
    DependencyCycle(Vec<String>),
}

/// The reasons an interactive selection fails.
#[derive(Debug, Clone, PartialEq, Eq)]
pub enum SelectError {
    NoMatch,
    AmbiguousMatch,
    UnknownKind(String),
    NotSelectable,
}

impl<T> Value<T> {
    /// Returns the held value, or an error when the field was never set.
    pub fn ensure(&self) -> (r: Result<&T, ValidationError>)
        ensures
            match r {
                Ok(v) => self is Given && v == &self->Given_0,
                Err(e) => self is Unset && e == ValidationError::UnsetField,
            },
    {
        match self {
            Value::Unset => Err(ValidationError::UnsetField),
            Value::Given(v) => Ok(v),
        }
    }
}

} // verus!
