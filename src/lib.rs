//! An in-process orchestrator that lets a main component talk to registered
//! dependency components through addressed messages, polling them for
//! completed background work; and the text scanners that a site built on it
//! uses: clink section and tag anchors, indentation of source files, and
//! writing samples.
use vstd::prelude::*;

pub mod application;
pub mod code;
pub mod environment;
pub mod ident;
pub mod links;
pub mod message;
pub mod poll;
pub mod text;
pub mod writing;

verus! {

} // verus!
