//! The vocabulary shared by all effect handlers: role identifiers, branch
//! labels and the runtime errors that every operation may return.

use vstd::prelude::*;

verus! {

/// Roles of a generated choreography: usually a small `Copy` enum.
pub trait RoleId: Copy + Eq + std::hash::Hash + std::fmt::Debug + Send + Sync {}

impl<T: Copy + Eq + std::hash::Hash + std::fmt::Debug + Send + Sync> RoleId for T {}

/// A branch label of an internal or external choice.
#[derive(Clone, Copy, Debug, PartialEq, Eq, Hash)]
pub struct Label(pub &'static str);

/// Errors of choreographic execution. Durations are in milliseconds.
#[derive(Debug)]
pub enum ChoreographyError {
    Transport(String),
    Serialization(String),
    Timeout(u64),
    ProtocolViolation(String),
    UnknownRole(String),
}

/// A handler that performs nothing: sends and choices succeed, receiving fails.
pub struct NoOpHandler<R> {
    _phantom: std::marker::PhantomData<R>,
}

impl<R> NoOpHandler<R> {
    pub fn new() -> Self {
        NoOpHandler { _phantom: std::marker::PhantomData }
    }
}

impl<R> Default for NoOpHandler<R> {
    fn default() -> Self {
        Self::new()
    }
}

/// The handler that runs over per-peer byte channels held by an endpoint.
pub struct RumpsteakHandler<R, M> {
    _phantom: std::marker::PhantomData<(R, M)>,
}

impl<R, M> RumpsteakHandler<R, M> {
    pub fn new() -> Self {
        RumpsteakHandler { _phantom: std::marker::PhantomData }
    }
}

impl<R, M> Default for RumpsteakHandler<R, M> {
    fn default() -> Self {
        Self::new()
    }
}

} // verus!
