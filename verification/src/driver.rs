//! The frame driver: assembles the per-frame context the module's entry
//! point receives, chooses the frame's input source according to the session
//! mode, and turns a populated error slot into the driver's verdict.
//!
//! Invoking the entry point itself is the host shell's job — the resolved
//! capability is opaque here — but everything the driver decides around that
//! call is verified.

use vstd::prelude::*;

use crate::HostError;
use crate::arena::{restore_model, Memory};
use crate::session::{copy_codes, LoopData, LoopState};

verus! {

/// Per-invocation bundle passed to the module's entry point each frame: an
/// error slot the module populates to signal failure, the input set sampled
/// for this frame, and the elapsed time of the previous frame. The arena
/// travels beside it as the module's mutable view of all simulation state.
pub struct GameContext {
    /// Potential error when executing the module's logic; the module
    /// communicates failure only by populating it.
    pub error: Result<(), ()>,
    /// The key codes held during this frame.
    pub buttons: Vec<u32>,
    /// Elapsed time of the previous frame, in microseconds.
    pub frame_time: u32,
}

/// Assemble the context for one frame, with a clear error slot.
pub fn make_context(buttons: Vec<u32>, frame_time: u32) -> (c: GameContext)
    ensures
        c.error == Ok::<(), ()>(()),
        c.buttons == buttons,
        c.frame_time == frame_time,
{
    GameContext { error: Ok(()), buttons, frame_time }
}

/// The driver's verdict on a finished frame: a populated error slot
/// surfaces to the driver's caller as a fatal abort — no frame is silently
/// skipped — and a clear slot passes.
pub fn handle_frame_result(context: &GameContext) -> (r: Result<(), HostError>)
    ensures
        context.error is Ok ==> r == Ok::<(), HostError>(()),
        context.error is Err ==> r == Err::<(), HostError>(HostError::FatalAbort),
{
    match context.error {
        Ok(()) => Ok(()),
        Err(()) => Err(HostError::FatalAbort),
    }
}

/// Choose the input set for the coming frame from the session mode: normal
/// play passes the live inputs through; recording passes them through and
/// logs them; playback ignores them and serves the recorded set, restoring
/// the captured snapshot at the start of each pass.
pub fn frame_inputs(
    state: LoopState,
    data: &mut LoopData,
    memory: &mut Memory,
    game_state: &mut Option<Vec<u8>>,
    live: Vec<u32>,
) -> (r: Vec<u32>)
    requires
        old(data).wf(),
        state is Play ==> old(data)@.buttons.len() > 0 && old(data)@.memory.len() == old(
            memory,
        )@.bytes.len(),
    ensures
        final(data).wf(),
        final(memory).wf() == old(memory).wf(),
        match state {
            LoopState::Normal => {
                &&& r == live
                &&& *final(data) == *old(data)
                &&& *final(memory) == *old(memory)
                &&& *final(game_state) == *old(game_state)
            },
            LoopState::Record => {
                &&& r@ == live@
                &&& final(data)@.buttons == old(data)@.buttons.push(live@)
                &&& final(data)@.memory == old(data)@.memory
                &&& final(data)@.game_state == old(data)@.game_state
                &&& final(data)@.next_index == old(data)@.next_index
                &&& *final(memory) == *old(memory)
                &&& *final(game_state) == *old(game_state)
            },
            LoopState::Play => {
                &&& r@ == old(data)@.buttons[old(data)@.next_index as int]
                &&& final(data)@.next_index == (old(data)@.next_index + 1) % old(
                    data,
                )@.buttons.len()
                &&& final(data)@.buttons == old(data)@.buttons
                &&& final(data)@.memory == old(data)@.memory
                &&& final(data)@.game_state == old(data)@.game_state
                &&& (old(data)@.next_index == 0 ==> final(memory)@ == restore_model(
                    old(memory)@,
                    old(data)@.memory,
                ) && final(game_state).deep_view() == old(data)@.game_state)
                &&& (old(data)@.next_index != 0 ==> *final(memory) == *old(memory)
                    && *final(game_state) == *old(game_state))
            },
        },
{
    match state {
        LoopState::Normal => live,
        LoopState::Record => {
            let logged = copy_codes(&live);
            data.record_frame(logged);
            proof {
                assert(final(data)@.buttons =~= old(data)@.buttons.push(live@));
            }
            live
        },
        LoopState::Play => data.tick(memory, game_state),
    }
}

} // verus!
