//! Host runtime for a live-reloadable simulation: a fixed-capacity arena that
//! holds all mutable simulation state, a hot-reload module loader with
//! staleness detection, a frame driver, and a deterministic session
//! recorder/replayer.

use vstd::prelude::*;

pub mod arena;
pub mod driver;
pub mod loader;
pub mod session;

verus! {

/// Which step of loading a logic module failed.
#[derive(Clone, Copy, Debug, PartialEq, Eq, Structural)]
pub enum LoadFailure {
    /// The module artifact could not be found or inspected.
    MissingFile,
    /// The artifact exists but could not be opened as a library.
    OpenFailure,
    /// The library lacks the frame-entry symbol.
    MissingSymbol,
}

/// Every failure the host distinguishes.
#[derive(Clone, Copy, Debug, PartialEq, Eq, Structural)]
pub enum HostError {
    /// An allocation did not fit in the arena, or the arena was constructed
    /// twice; carries the requested size and the bytes still available.
    FatalAllocation { requested: usize, available: usize },
    /// A logic module could not be loaded.
    FatalLoad(LoadFailure),
    /// The module signaled failure through the frame context's error slot.
    FatalAbort,
    /// A persisted session or a snapshot had the wrong length; carries the
    /// expected and the actual length.
    SessionFormatError { expected: usize, actual: usize },
}

} // verus!
