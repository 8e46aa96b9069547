use vstd::prelude::*;

use crate::ident::{Pid, ENV_PID};

verus! {

/// The identifier of the poll that asks a component whether its background
/// work has completed.
pub const ASYNC_CHECK: &'static str = "async-check";

/// The identifier of a request for a dependency's address.
pub const REQUEST_DEPENDENCY: &'static str = "request-dependency";

/// The identifier of the answer to a `REQUEST_DEPENDENCY` message.
pub const DEPENDENCY_LOOKUP: &'static str = "dependency-lookup";

/// The identifier of the registry message sent to the main component at
/// startup.
pub const DEPENDENCIES: &'static str = "dependencies";

/// The payload of a `request-dependency` message.
#[derive(Clone, Debug)]
pub struct RequestDependency {
    pub id: String,
}

/// The payload of a `dependency-lookup` message: the name asked for and, when
/// a dependency was registered under it, its address.
#[derive(Clone, Debug)]
pub struct DependencyLookup {
    pub id: String,
    pub pid: Option<Pid>,
}

/// The typed data a message may carry.
#[derive(Clone, Debug)]
pub enum Payload {
    RequestDependency(RequestDependency),
    DependencyLookup(DependencyLookup),
    /// The registry: each dependency's name with its address, in registration
    /// order.
    Dependencies(Vec<(String, Pid)>),
    /// Data in a format that only the two ends agree on.
    Bytes(Vec<u8>),
}

/// An addressed, identified envelope.
#[derive(Clone, Debug)]
pub struct Message {
    pub id: String,
    pub sender: Pid,
    pub recipient: Pid,
    pub data: Option<Payload>,
}

impl Message {
    /// A message to `recipient` that carries `data`. The orchestrator fills
    /// in the sender when the message is queued.
    pub fn new(recipient: Pid, id: &str, data: Payload) -> (r: Message)
        ensures
            r.id@ == id@,
            r.sender == Pid(ENV_PID),
            r.recipient == recipient,
            r.data == Some(data),
    {
        Message { id: id.to_owned(), sender: Pid::env(), recipient, data: Some(data) }
    }

    /// A message to `recipient` without data.
    pub fn empty(recipient: Pid, id: &str) -> (r: Message)
        ensures
            r.id@ == id@,
            r.sender == Pid(ENV_PID),
            r.recipient == recipient,
            r.data.is_none(),
    {
        Message { id: id.to_owned(), sender: Pid::env(), recipient, data: None }
    }

    /// Whether the message's identifier is `tag`.
    pub fn is(&self, tag: &str) -> (r: bool)
        ensures
            r == (self.id@ == tag@),
    {
        let t = tag.to_owned();
        self.id == t
    }
}

} // verus!
