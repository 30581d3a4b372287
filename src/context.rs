//! The extension point for a future backing store: a key/value blob store, a
//! typed request/response cache and an append-only alias association. No
//! backend exists yet, so every store operation reports that it is unsupported
//! and alias association leaves the context unchanged.
use std::sync::Arc;
use vstd::prelude::*;

verus! {

/// Why a store operation did not happen.
#[derive(Clone, Copy, Debug, PartialEq, Eq)]
pub enum ContextError {
    /// No backend serves this operation.
    Unsupported,
}

/// A request scope over an optional backing store `S`, holding the request
/// and the aliases that are to share its result.
pub struct Context<S, R> {
    storage: Option<Arc<S>>,
    request_and_aliases: Vec<R>,
}

impl<S, R> Context<S, R> {
    pub closed spec fn storage(&self) -> Option<Arc<S>> {
        self.storage
    }

    pub closed spec fn aliases(&self) -> Seq<R> {
        self.request_and_aliases@
    }

    pub fn new(storage: Option<Arc<S>>) -> (r: Self)
        ensures
            r.storage() == storage,
            r.aliases().len() == 0,
    {
        Context { storage, request_and_aliases: Vec::new() }
    }

    /// Answers a request through the store: unsupported without a backend.
    pub fn query(&mut self, request: R) -> (r: Result<Vec<u8>, ContextError>)
        ensures
            r == Err::<Vec<u8>, ContextError>(ContextError::Unsupported),
            final(self).aliases() == old(self).aliases(),
            final(self).storage() == old(self).storage(),
    {
        Err(ContextError::Unsupported)
    }

    /// Reads a blob by id: unsupported without a backend.
    pub fn get_blob(&self, id: &str) -> (r: Result<Option<Vec<u8>>, ContextError>)
        ensures
            r == Err::<Option<Vec<u8>>, ContextError>(ContextError::Unsupported),
    {
        Err(ContextError::Unsupported)
    }

    /// Stores a blob and returns its id: unsupported without a backend.
    pub fn insert_blob(&self, data: Vec<u8>) -> (r: Result<String, ContextError>)
        ensures
            r is Err && r->Err_0 == ContextError::Unsupported,
    {
        Err(ContextError::Unsupported)
    }

    /// The stored response to a request: unsupported without a backend.
    pub fn get_responses(&self, request: R) -> (r: Result<Vec<u8>, ContextError>)
        ensures
            r == Err::<Vec<u8>, ContextError>(ContextError::Unsupported),
    {
        Err(ContextError::Unsupported)
    }

    /// Stores the response to a request: unsupported without a backend.
    pub fn insert_response(&self, request: R, response: Vec<u8>) -> (r: Result<(), ContextError>)
        ensures
            r == Err::<(), ContextError>(ContextError::Unsupported),
    {
        Err(ContextError::Unsupported)
    }

    /// Adds an alias request that will also be associated with this request's
    /// result. Alias association has no backend yet, so the context is left
    /// as it was.
    pub fn populate(&self, request: R) {
    }
}

/// Two stores in layers: reads go to `inner` first, then to `next`.
pub struct LayeredStorage<I, N> {
    pub inner: Arc<I>,
    pub next: Arc<N>,
}

} // verus!
