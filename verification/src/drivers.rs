//! Device discovery and drivers. Everything here is the pure part: register
//! decoding, classification and scan decisions. The embedding program owns
//! the configuration-space ports and memory-mapped register windows and feeds
//! their raw values to these functions.

use vstd::prelude::*;

pub mod network;
pub mod pci;
pub mod storage;

verus! {

/// A device driver started once during device discovery.
pub trait Driver {
    fn start(&self);
}

} // verus!
