//! Runtime toolkit for locating and safely patching in-memory binary objects
//! of a host process: a build-time descriptor compiler, a module-extent model,
//! a wildcard byte-pattern scanner, and a virtual-table hook engine with
//! guaranteed restoration.

pub mod compiler;
pub mod module;
pub mod vmt;
pub mod interface;

use vstd::prelude::*;

verus! {

/// Disposition returned by the feature loop to its driver: stop cleanly,
/// invoke again, or report a message and stop.
pub enum Dispatch {
    Success,
    Loopback,
    Error(String),
}

} // verus!
