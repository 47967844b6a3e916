//! Loading and hot-swapping of the compiled logic module.
//!
//! The work only an operating system can do — staging the artifact, opening
//! it, resolving the entry symbol, reading timestamps — happens outside this
//! library; the host shell reports what it observed as plain values in a
//! [`LoadObservation`]. Everything the loader decides from those
//! observations is verified here: when a load succeeds, which failure it
//! names otherwise, and when a module is stale and must be swapped.

use vstd::prelude::*;

use crate::{HostError, LoadFailure};

verus! {

/// Handle to an opened shared library, as the host shell reported it. A raw
/// value of `0` means the open failed.
#[derive(Clone, Copy, Debug, PartialEq, Eq, Structural)]
pub struct Handle(pub usize);

/// The frame-entry capability: the resolved address of the module's entry
/// symbol. The host never interprets it; it only hands it back to the shell
/// to invoke. A raw value of `0` means resolution failed.
#[derive(Clone, Copy, Debug, PartialEq, Eq, Structural)]
pub struct Symbol {
    /// Raw address of the resolved symbol.
    pub addr: usize,
}

/// What the host shell observed while staging and opening one module
/// artifact: the artifact's modification timestamp (`None` when the file
/// could not be found or inspected), the raw library handle from opening the
/// staged copy (`0` when opening failed), and the raw address of the
/// frame-entry symbol (`0` when the library lacks it).
#[derive(Clone, Copy, Debug, PartialEq, Eq, Structural)]
pub struct LoadObservation {
    /// Modification timestamp of the artifact, if it could be inspected.
    pub modified_time: Option<u64>,
    /// Raw handle from opening the staged artifact.
    pub library: usize,
    /// Raw address of the frame-entry symbol.
    pub entry_address: usize,
}

/// The currently loaded logic module: the library handle, the resolved
/// frame-entry capability, and the artifact timestamp recorded at load time,
/// used for staleness detection.
#[derive(Clone, Copy, Debug, PartialEq, Eq, Structural)]
pub struct GameFuncs {
    /// Handle to the library the symbol was resolved from; surrendered to
    /// the host shell on release so it can unload the library.
    pub handle: Handle,
    /// The module's frame-entry point.
    pub game_update_and_render: Symbol,
    /// Modification timestamp of the artifact when it was loaded.
    pub created_time: u64,
}

/// What resolving a symbol yields: the capability when the shell found an
/// address, and a load failure naming the missing symbol otherwise.
pub open spec fn symbol_model(entry_address: usize) -> Result<Symbol, HostError> {
    if entry_address == 0 {
        Err(HostError::FatalLoad(LoadFailure::MissingSymbol))
    } else {
        Ok(Symbol { addr: entry_address })
    }
}

/// What loading a module from an observation yields: a loaded module exactly
/// when the artifact could be inspected, opened, and its entry symbol
/// resolved; otherwise the first failure in that order.
pub open spec fn load_model(observation: LoadObservation) -> Result<GameFuncs, HostError> {
    if observation.modified_time is None {
        Err(HostError::FatalLoad(LoadFailure::MissingFile))
    } else if observation.library == 0 {
        Err(HostError::FatalLoad(LoadFailure::OpenFailure))
    } else if observation.entry_address == 0 {
        Err(HostError::FatalLoad(LoadFailure::MissingSymbol))
    } else {
        Ok(
            GameFuncs {
                handle: Handle(observation.library),
                game_update_and_render: Symbol { addr: observation.entry_address },
                created_time: observation.modified_time.unwrap(),
            },
        )
    }
}

/// Validate a resolved symbol address: a missing symbol never yields a
/// usable capability.
pub fn get_symbol(entry_address: usize) -> (r: Result<Symbol, HostError>)
    ensures
        r == symbol_model(entry_address),
{
    if entry_address == 0 {
        Err(HostError::FatalLoad(LoadFailure::MissingSymbol))
    } else {
        Ok(Symbol { addr: entry_address })
    }
}

/// Assemble the loaded module from what the host shell observed. A missing
/// file, a failed open, and a missing symbol each yield the matching
/// [`LoadFailure`] and never a usable module.
pub fn get_game_funcs(observation: &LoadObservation) -> (r: Result<GameFuncs, HostError>)
    ensures
        r == load_model(*observation),
{
    let created_time = match observation.modified_time {
        None => {
            return Err(HostError::FatalLoad(LoadFailure::MissingFile));
        },
        Some(t) => t,
    };
    if observation.library == 0 {
        return Err(HostError::FatalLoad(LoadFailure::OpenFailure));
    }
    let game_update_and_render = match get_symbol(observation.entry_address) {
        Err(e) => {
            return Err(e);
        },
        Ok(s) => s,
    };
    Ok(GameFuncs { handle: Handle(observation.library), game_update_and_render, created_time })
}

impl GameFuncs {
    /// Staleness: true exactly when the artifact's current modification
    /// timestamp differs from the one recorded at load time. Two rebuilds
    /// within one timestamp tick are reported as unchanged — a precision
    /// limit of the signal, not corrected here.
    pub fn is_library_updated(&self, current_time: u64) -> (r: bool)
        ensures
            r == (current_time != self.created_time),
    {
        current_time != self.created_time
    }

    /// What a reload yields: the module itself, unchanged, when the artifact
    /// is not stale; the result of loading the fresh observation otherwise.
    pub open spec fn reload_model(self, current_time: u64, fresh: Option<LoadObservation>) -> Result<
        GameFuncs,
        HostError,
    > {
        if current_time == self.created_time {
            Ok(self)
        } else {
            load_model(fresh.unwrap())
        }
    }

    /// Swap the module for a freshly built one when it is stale; do nothing
    /// otherwise.
    ///
    /// When staleness reports false this is a no-op: the very same module,
    /// handle included, comes back, and the shell must not have loaded
    /// anything (`fresh` is `None`). When staleness reports true the handle
    /// is swapped for the one in the fresh observation. A reload never
    /// receives the arena, so arena contents are untouched either way.
    pub fn reload(self, current_time: u64, fresh: &Option<LoadObservation>) -> (r: Result<
        GameFuncs,
        HostError,
    >)
        requires
            fresh is Some <==> current_time != self.created_time,
        ensures
            r == self.reload_model(current_time, *fresh),
            current_time == self.created_time ==> r == Ok::<GameFuncs, HostError>(self),
    {
        if !self.is_library_updated(current_time) {
            return Ok(self);
        }
        match fresh {
            Some(observation) => get_game_funcs(observation),
            None => {
                proof {
                    assert(false);
                }
                Err(HostError::FatalLoad(LoadFailure::MissingFile))
            },
        }
    }

    /// Unload the module: the loaded module is surrendered, which
    /// invalidates its resolved entry point, and the raw library handle goes
    /// back to the host shell, which closes it.
    pub fn release(self) -> (h: Handle)
        ensures
            h == self.handle,
    {
        self.handle
    }
}

} // verus!
