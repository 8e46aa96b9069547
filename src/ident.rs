use vstd::prelude::*;

verus! {

/// The address of the orchestrator itself.
pub const ENV_PID: u64 = 0;

/// The address of the main component.
pub const APP_PID: u64 = 1;

/// The "reply to sender" sentinel: resolved to a concrete address before a
/// message is queued, never a component's real address.
pub const ME_PID: u64 = 2;

/// The address given to the first registered dependency; the next ones follow
/// in registration order.
pub const FIRST_DEP_PID: u64 = 3;

/// A routing address.
#[derive(Clone, Copy, Debug, PartialEq, Eq, Structural)]
pub struct Pid(pub u64);

/// A human-facing dependency name.
#[derive(Clone, Debug)]
pub struct Id(pub String);

/// The address given to the dependency registered at position `index`.
/// Past `u64::MAX` the addresses wrap around.
pub open spec fn dep_pid(index: int) -> Pid {
    if FIRST_DEP_PID + index <= u64::MAX {
        Pid((FIRST_DEP_PID + index) as u64)
    } else {
        Pid((FIRST_DEP_PID + index - u64::MAX - 1) as u64)
    }
}

impl Pid {
    /// The orchestrator's address.
    pub fn env() -> (r: Pid)
        ensures
            r == Pid(ENV_PID),
    {
        Pid(ENV_PID)
    }

    /// The main component's address.
    pub fn app() -> (r: Pid)
        ensures
            r == Pid(APP_PID),
    {
        Pid(APP_PID)
    }

    /// The "reply to sender" sentinel.
    pub fn me() -> (r: Pid)
        ensures
            r == Pid(ME_PID),
    {
        Pid(ME_PID)
    }

    /// The address of the dependency registered at position `index`
    /// (wrapping past `u64::MAX`, as `dep_pid` does).
    pub fn dep(index: u64) -> (r: Pid)
        ensures
            r == dep_pid(index as int),
    {
        if index <= u64::MAX - FIRST_DEP_PID {
            Pid(FIRST_DEP_PID + index)
        } else {
            Pid(index - (u64::MAX - FIRST_DEP_PID) - 1)
        }
    }
}

impl Id {
    /// Wraps a name.
    pub fn new(name: String) -> (r: Id)
        ensures
            r.0@ == name@,
    {
        Id(name)
    }
}

} // verus!
