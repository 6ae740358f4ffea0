//! Verified core of a dynamic-DNS reconciliation daemon.
//!
//! The library holds everything the daemon decides or computes: the dotted-quad
//! address codec, the state-file codec, the interpretation of the resolver's and
//! the provider's replies, and the reconciliation state machine that drives one
//! tick of the loop. The surrounding binary performs the HTTP and file I/O and
//! feeds the outcomes back in as events.

pub mod addr;
pub mod provider;
pub mod reconcile;
pub mod resolver;
pub mod statefile;

use vstd::prelude::*;

verus! {

/// The canonical HTTP success status expected from the address resolver.
pub const SUCCESS_STATUS: u16 = 200;

} // verus!
