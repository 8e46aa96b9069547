use vstd::prelude::*;

use crate::message::Message;

verus! {

/// What a component hands back when it is started.
pub enum Init {
    NoMessages,
    Messages(Vec<Message>),
}

/// What a component hands back for each message delivered to it.
pub enum Update {
    NoMessages,
    /// Messages to send, in order.
    Messages(Vec<Message>),
    /// The component is in the middle of background work and has nothing to
    /// report yet.
    NotReady,
    /// A fatal failure: the whole run stops.
    Error(String),
}

/// A runnable unit: the main component or a dependency.
pub trait Application: Sized {
    /// What `init` does: from state `self` to state `next`, handing back `r`.
    /// A component that states nothing about itself leaves it `true`.
    open spec fn started(self, next: Self, r: Init) -> bool {
        true
    }

    /// What `update` does with `msg`: from state `self` to state `next`,
    /// handing back `r`. A component that states nothing about itself leaves
    /// it `true`.
    open spec fn updated(self, msg: Message, next: Self, r: Update) -> bool {
        true
    }

    /// Called once, before any message is delivered.
    fn init(&mut self) -> (r: Init)
        ensures
            old(self).started(*final(self), r),
    ;

    /// Called once for each message addressed to this component.
    fn update(&mut self, msg: Message) -> (r: Update)
        ensures
            old(self).updated(msg, *final(self), r),
    ;
}

} // verus!
