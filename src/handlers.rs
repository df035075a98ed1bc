//! The map from unit id to the handler that serves it, shared by all
//! connections of a server.
use vstd::prelude::*;

use std::collections::BTreeMap;
use std::sync::Arc;

use crate::server::ServerHandler;
use crate::types::UnitId;

verus! {

/// tokio's asynchronous mutex, which serializes the calls into one unit's
/// handler; it is only carried here, never looked into.
#[verifier::external_type_specification]
#[verifier::external_body]
#[verifier::reject_recursive_types(T)]
pub struct ExMutex<T: ?Sized>(tokio::sync::Mutex<T>);

/// A handler shared between connections: each unit is served under its
/// own asynchronous mutex.
pub type ServerHandlerType<T> = Arc<tokio::sync::Mutex<Box<T>>>;

/// The handlers of a server, by unit id.
#[verifier::reject_recursive_types(T)]
pub struct ServerHandlerMap<T: ServerHandler> {
    handlers: BTreeMap<u8, ServerHandlerType<T>>,
}

impl<T: ServerHandler> ServerHandlerMap<T> {
    /// The handler of each unit, by the unit's id.
    pub closed spec fn units(&self) -> Map<u8, ServerHandlerType<T>> {
        self.handlers@
    }

    /// A map with no unit.
    pub fn new() -> (r: Self)
        ensures
            r.units() == Map::<u8, ServerHandlerType<T>>::empty(),
    {
        Self { handlers: BTreeMap::new() }
    }

    /// A map with one unit.
    pub fn single(id: UnitId, handler: ServerHandlerType<T>) -> (r: Self)
        ensures
            r.units() == Map::<u8, ServerHandlerType<T>>::empty().insert(id.value, handler),
    {
        let mut map: BTreeMap<u8, ServerHandlerType<T>> = BTreeMap::new();
        map.insert(id.value, handler);
        Self { handlers: map }
    }

    /// The handler of unit `id`, if it has one.
    pub fn get(&self, id: UnitId) -> (r: Option<&ServerHandlerType<T>>)
        ensures
            match r {
                Some(h) => self.units().contains_key(id.value) && self.units()[id.value] == *h,
                None => !self.units().contains_key(id.value),
            },
    {
        self.handlers.get(&id.value)
    }

    /// Serves unit `id` with `server`, in place of any handler it had.
    pub fn add(&mut self, id: UnitId, server: ServerHandlerType<T>)
        ensures
            final(self).units() == old(self).units().insert(id.value, server),
    {
        self.handlers.insert(id.value, server);
    }
}

impl<T: ServerHandler> Clone for ServerHandlerMap<T> {
    /// Another map that shares the same handlers.
    fn clone(&self) -> (r: Self)
        ensures
            r.units() == self.units(),
    {
        ServerHandlerMap { handlers: self.handlers.clone() }
    }
}

} // verus!
