use hotreload::arena::Memory;
use hotreload::driver::{frame_inputs, handle_frame_result, make_context, GameContext};
use hotreload::session::{next_loop_state, LoopData, LoopState};
use hotreload::HostError;

// Arbitrary key codes for the scenarios.
const RIGHT: u32 = 262;
const SPACE: u32 = 32;

#[test]
fn mode_cycle() {
    assert_eq!(next_loop_state(LoopState::Normal), LoopState::Record);
    assert_eq!(next_loop_state(LoopState::Record), LoopState::Play);
    assert_eq!(next_loop_state(LoopState::Play), LoopState::Normal);
}

#[test]
fn record_five_frames_playback_wraps() {
    // Record 5 frames with inputs [{}, {Right}, {Right}, {}, {Space}]; five
    // ticks in Play mode return exactly that sequence, and a sixth call
    // serves index 0 again.
    let mut m = Memory::with_capacity(32);
    let mut data = LoopData::start_recording(&m, None);
    data.record_frame(vec![]);
    data.record_frame(vec![RIGHT]);
    data.record_frame(vec![RIGHT]);
    data.record_frame(vec![]);
    data.record_frame(vec![SPACE]);
    assert_eq!(data.frames(), 5);

    let mut game_state: Option<Vec<u8>> = None;
    let expected: Vec<Vec<u32>> = vec![vec![], vec![RIGHT], vec![RIGHT], vec![], vec![SPACE]];
    for frame in &expected {
        assert_eq!(&data.tick(&mut m, &mut game_state), frame);
    }
    assert_eq!(data.tick(&mut m, &mut game_state), expected[0]);
    assert_eq!(data.next_index(), 1);
}

#[test]
fn tick_restores_snapshot_at_start_of_each_pass() {
    let mut m = Memory::with_capacity(8);
    m.write_byte(0, 11);
    let mut data = LoopData::start_recording(&m, Some(vec![1, 2, 3]));
    data.record_frame(vec![RIGHT]);
    data.record_frame(vec![SPACE]);

    // Mutate everything after recording started.
    m.write_byte(0, 99);
    let mut game_state: Option<Vec<u8>> = Some(vec![9]);

    // Cursor 0: the snapshot comes back.
    assert_eq!(data.tick(&mut m, &mut game_state), vec![RIGHT]);
    assert_eq!(m.read_byte(0), 11);
    assert_eq!(game_state, Some(vec![1, 2, 3]));

    // Cursor 1: no restore happens mid-pass.
    m.write_byte(0, 50);
    assert_eq!(data.tick(&mut m, &mut game_state), vec![SPACE]);
    assert_eq!(m.read_byte(0), 50);

    // Cursor wrapped to 0: the next tick restores again.
    assert_eq!(data.tick(&mut m, &mut game_state), vec![RIGHT]);
    assert_eq!(m.read_byte(0), 11);
}

// A stand-in for the module's entry point: a deterministic step that mutates
// the arena and the mutable state from the frame's inputs.
fn step(m: &mut Memory, game_state: &mut Option<Vec<u8>>, inputs: &[u32]) {
    let mut acc = match game_state.take() {
        Some(bytes) => bytes,
        None => vec![0u8],
    };
    for code in inputs {
        let offset = (*code as usize) % m.capacity();
        let bumped = m.read_byte(offset).wrapping_add(1);
        m.write_byte(offset, bumped);
        acc[0] = acc[0].wrapping_add(*code as u8);
    }
    *game_state = Some(acc);
}

#[test]
fn replaying_twice_is_deterministic() {
    // Replaying a recorded 3-frame session twice from the same initial
    // snapshot produces identical arena contents and identical mutable-state
    // contents after each of the 3 steps.
    let mut m = Memory::with_capacity(16);
    m.write_byte(3, 200);
    let mut data = LoopData::start_recording(&m, Some(vec![0]));
    data.record_frame(vec![RIGHT, SPACE]);
    data.record_frame(vec![]);
    data.record_frame(vec![SPACE]);

    let mut run = |m: &mut Memory| -> Vec<(Vec<u8>, Option<Vec<u8>>)> {
        let mut game_state: Option<Vec<u8>> = None;
        let mut states = Vec::new();
        for _ in 0..3 {
            let inputs = data.tick(m, &mut game_state);
            step(m, &mut game_state, &inputs);
            states.push((m.data_as_vec(), game_state.clone()));
        }
        states
    };

    let first = run(&mut m);
    let second = run(&mut m);
    assert_eq!(first, second);
}

#[test]
fn serialize_then_deserialize_round_trips() {
    let mut m = Memory::with_capacity(16);
    m.write_byte(1, 23);
    let mut data = LoopData::start_recording(&m, Some(vec![7, 8]));
    data.record_frame(vec![RIGHT]);
    data.record_frame(vec![]);
    data.record_frame(vec![SPACE, RIGHT]);

    let bytes = data.serialize();
    let mut loaded = LoopData::deserialize(&bytes).unwrap();
    assert_eq!(loaded.frames(), 3);
    assert_eq!(loaded.next_index(), 0);
    // The loaded session replays the same inputs and restores the same
    // snapshot and mutable state.
    let mut m2 = Memory::with_capacity(16);
    let mut game_state: Option<Vec<u8>> = None;
    assert_eq!(loaded.tick(&mut m2, &mut game_state), vec![RIGHT]);
    assert_eq!(m2.data_as_vec(), m.data_as_vec());
    assert_eq!(game_state, Some(vec![7, 8]));
    assert_eq!(loaded.tick(&mut m2, &mut game_state), vec![]);
    assert_eq!(loaded.tick(&mut m2, &mut game_state), vec![SPACE, RIGHT]);
    // A second serialization is byte-identical.
    assert_eq!(loaded.serialize(), bytes);
}

#[test]
fn deserialize_round_trips_absent_state() {
    let m = Memory::with_capacity(4);
    let mut data = LoopData::start_recording(&m, None);
    data.record_frame(vec![]);
    let bytes = data.serialize();
    let loaded = LoopData::deserialize(&bytes).unwrap();
    assert_eq!(loaded.serialize(), bytes);
}

#[test]
fn deserialize_rejects_malformed_files() {
    // Too short for the length header.
    assert!(matches!(
        LoopData::deserialize(&vec![1u8, 2, 3]),
        Err(HostError::SessionFormatError { .. })
    ));

    let m = Memory::with_capacity(8);
    let mut data = LoopData::start_recording(&m, Some(vec![5]));
    data.record_frame(vec![RIGHT]);
    let good = data.serialize();

    // Truncation anywhere is rejected.
    for cut in [1, 8, 9, 12, good.len() - 1] {
        let truncated = good[..cut].to_vec();
        assert!(LoopData::deserialize(&truncated).is_err());
    }

    // A trailing byte is rejected.
    let mut padded = good.clone();
    padded.push(0);
    assert!(LoopData::deserialize(&padded).is_err());

    // An unknown state tag is rejected.
    let mut bad_tag = good.clone();
    bad_tag[16] = 2;
    assert!(matches!(
        LoopData::deserialize(&bad_tag),
        Err(HostError::SessionFormatError { .. })
    ));
}

#[test]
fn context_assembly_and_verdict() {
    let context = make_context(vec![RIGHT, SPACE], 16_667);
    assert_eq!(context.error, Ok(()));
    assert_eq!(context.buttons, vec![RIGHT, SPACE]);
    assert_eq!(context.frame_time, 16_667);
    assert_eq!(handle_frame_result(&context), Ok(()));

    let failed = GameContext { error: Err(()), buttons: vec![], frame_time: 0 };
    assert_eq!(handle_frame_result(&failed), Err(HostError::FatalAbort));
}

#[test]
fn frame_inputs_by_mode() {
    let mut m = Memory::with_capacity(8);
    m.write_byte(0, 3);
    let mut data = LoopData::start_recording(&m, None);
    let mut game_state: Option<Vec<u8>> = None;

    // Normal: live passthrough, nothing logged.
    let r = frame_inputs(LoopState::Normal, &mut data, &mut m, &mut game_state, vec![RIGHT]);
    assert_eq!(r, vec![RIGHT]);
    assert_eq!(data.frames(), 0);

    // Record: live passthrough plus logging.
    let r = frame_inputs(LoopState::Record, &mut data, &mut m, &mut game_state, vec![SPACE]);
    assert_eq!(r, vec![SPACE]);
    assert_eq!(data.frames(), 1);

    // Play: recorded playback, live inputs ignored; the snapshot is
    // restored at the start of the pass.
    m.write_byte(0, 9);
    let r = frame_inputs(LoopState::Play, &mut data, &mut m, &mut game_state, vec![RIGHT]);
    assert_eq!(r, vec![SPACE]);
    assert_eq!(m.read_byte(0), 3);
}

#[test]
fn new_recording_discards_prior_session() {
    let m = Memory::with_capacity(4);
    let mut data = LoopData::start_recording(&m, None);
    data.record_frame(vec![RIGHT]);
    data = LoopData::start_recording(&m, None);
    assert_eq!(data.frames(), 0);
}
