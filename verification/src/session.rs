//! Session capture and replay: the recorder snapshots the whole arena plus
//! the module's mutable state when recording starts, logs one input set per
//! frame, and during playback restores the snapshot at the start of every
//! pass and hands the recorded inputs back out, so a recorded session
//! replays bit-for-bit.

use vstd::prelude::*;
use vstd::arithmetic::div_mod::{lemma_add_mod_noop, lemma_mod_bound, lemma_small_mod};
use vstd::bytes::{
    spec_u32_from_le_bytes, spec_u32_to_le_bytes, spec_u64_from_le_bytes, spec_u64_to_le_bytes,
    u32_from_le_bytes, u32_to_le_bytes, u64_from_le_bytes, u64_to_le_bytes,
};
use vstd::slice::{slice_subrange, slice_to_vec};

use crate::HostError;
use crate::arena::{copy_bytes, restore_model, Memory};

verus! {

/// The three modes the frame loop's input source runs in: live passthrough,
/// live passthrough plus logging, and recorded playback.
#[derive(Clone, Copy, Debug, PartialEq, Eq, Structural)]
pub enum LoopState {
    Normal,
    Record,
    Play,
}

/// The mode that follows when the operator cycles modes: recording starts
/// from normal play, playback follows recording, and playback returns to
/// normal play.
pub fn next_loop_state(state: LoopState) -> (r: LoopState)
    ensures
        r == (match state {
            LoopState::Normal => LoopState::Record,
            LoopState::Record => LoopState::Play,
            LoopState::Play => LoopState::Normal,
        }),
{
    match state {
        LoopState::Normal => LoopState::Record,
        LoopState::Record => LoopState::Play,
        LoopState::Play => LoopState::Normal,
    }
}

/// Mathematical model of a [`LoopData`]: the captured mutable state, the
/// captured arena snapshot, the ordered per-frame input sets, and the replay
/// cursor.
#[verifier::ext_equal]
pub ghost struct LoopDataModel {
    pub game_state: Option<Seq<u8>>,
    pub memory: Seq<u8>,
    pub buttons: Seq<Seq<u32>>,
    pub next_index: nat,
}

/// Well-formedness of a session model: the cursor points at a recorded
/// frame, or at zero while nothing is recorded yet.
pub open spec fn wf_loop_model(m: LoopDataModel) -> bool {
    m.next_index < m.buttons.len() || m.next_index == 0
}

/// A recorded session: a snapshot of the arena taken when recording began, a
/// copy of the module's mutable state from the same moment, the ordered
/// sequence of per-frame input sets, and the replay cursor.
pub struct LoopData {
    /// The module's mutable state when recording began, as opaque bytes.
    game_state: Option<Vec<u8>>,
    /// Snapshot of the full arena region when recording began.
    memory: Vec<u8>,
    /// One set of held key codes per recorded frame, ordered by frame index.
    buttons: Vec<Vec<u32>>,
    /// Index of the recorded frame the next playback tick will serve.
    next_index: usize,
}

impl View for LoopData {
    type V = LoopDataModel;

    closed spec fn view(&self) -> LoopDataModel {
        LoopDataModel {
            game_state: self.game_state.deep_view(),
            memory: self.memory@,
            buttons: self.buttons.deep_view(),
            next_index: self.next_index as nat,
        }
    }
}

impl LoopData {
    /// Well-formedness carried by every session this module hands out.
    pub open spec fn wf(&self) -> bool {
        wf_loop_model(self@)
    }

    /// Begin a recording: snapshot the arena and adopt a copy of the
    /// module's current mutable state, with an empty input sequence. A
    /// session that was in flight is simply replaced by its caller — last
    /// writer wins.
    pub fn start_recording(memory: &Memory, game_state: Option<Vec<u8>>) -> (r: LoopData)
        ensures
            r.wf(),
            r@.memory == memory@.bytes,
            r@.game_state == game_state.deep_view(),
            r@.buttons =~= Seq::<Seq<u32>>::empty(),
            r@.next_index == 0,
    {
        LoopData {
            game_state,
            memory: memory.data_as_vec(),
            buttons: Vec::new(),
            next_index: 0,
        }
    }

    /// Number of recorded frames.
    pub fn frames(&self) -> (n: usize)
        ensures
            n == self@.buttons.len(),
    {
        self.buttons.len()
    }

    /// The replay cursor.
    pub fn next_index(&self) -> (n: usize)
        ensures
            n == self@.next_index,
    {
        self.next_index
    }

    /// Append the input set of the frame being recorded.
    pub fn record_frame(&mut self, buttons: Vec<u32>)
        requires
            old(self).wf(),
        ensures
            final(self).wf(),
            final(self)@.buttons =~= old(self)@.buttons.push(buttons@),
            final(self)@.game_state == old(self)@.game_state,
            final(self)@.memory == old(self)@.memory,
            final(self)@.next_index == old(self)@.next_index,
    {
        self.buttons.push(buttons);
        proof {
            assert(self@.buttons =~= old(self)@.buttons.push(buttons.deep_view()));
            assert(buttons.deep_view() =~= buttons@);
        }
    }

    /// Serve the input set at the cursor and advance the cursor, wrapping to
    /// zero after the last recorded frame, so playback loops indefinitely.
    pub fn next_input(&mut self) -> (r: Vec<u32>)
        requires
            old(self).wf(),
            old(self)@.buttons.len() > 0,
        ensures
            final(self).wf(),
            r@ == old(self)@.buttons[old(self)@.next_index as int],
            final(self)@.next_index == (old(self)@.next_index + 1) % old(self)@.buttons.len(),
            final(self)@.game_state == old(self)@.game_state,
            final(self)@.memory == old(self)@.memory,
            final(self)@.buttons == old(self)@.buttons,
    {
        let index = self.next_index;
        let len = self.buttons.len();
        proof {
            assert(self@.buttons.len() == self.buttons@.len());
        }
        self.next_index = (self.next_index + 1) % len;
        proof {
            lemma_mod_bound(old(self)@.next_index + 1 as int, self@.buttons.len() as int);
            assert(self@.buttons[index as int] == self.buttons@[index as int].deep_view());
        }
        copy_codes(&self.buttons[index])
    }

    /// One playback tick: when the cursor is at zero — the start of a pass —
    /// first restore the arena and the module's mutable state from the
    /// captured snapshot, undoing every mutation since recording began; then
    /// serve the input set at the cursor and advance it modulo the number of
    /// recorded frames.
    pub fn tick(&mut self, memory: &mut Memory, game_state: &mut Option<Vec<u8>>) -> (r: Vec<u32>)
        requires
            old(self).wf(),
            old(self)@.buttons.len() > 0,
            old(self)@.memory.len() == old(memory)@.bytes.len(),
        ensures
            final(self).wf(),
            r@ == old(self)@.buttons[old(self)@.next_index as int],
            final(self)@.next_index == (old(self)@.next_index + 1) % old(self)@.buttons.len(),
            final(self)@.game_state == old(self)@.game_state,
            final(self)@.memory == old(self)@.memory,
            final(self)@.buttons == old(self)@.buttons,
            old(self)@.next_index == 0 ==> {
                &&& final(memory)@ == restore_model(old(memory)@, old(self)@.memory)
                &&& final(game_state).deep_view() == old(self)@.game_state
            },
            old(self)@.next_index != 0 ==> {
                &&& *final(memory) == *old(memory)
                &&& *final(game_state) == *old(game_state)
            },
            final(memory).wf() == old(memory).wf(),
            final(self)@ == tick_cursor(old(self)@),
            r@ == tick_output(old(self)@),
    {
        if self.next_index == 0 {
            match memory.restore(&self.memory) {
                Ok(()) => {
                },
                Err(_) => {
                    proof {
                        assert(false);
                    }
                },
            }
            *game_state = match &self.game_state {
                None => None,
                Some(bytes) => Some(copy_bytes(bytes)),
            };
        }
        let r = self.next_input();
        proof {
            assert(self@ =~= tick_cursor(old(self)@));
        }
        r
    }

    /// Serialize the session in the exact binary layout of the session file
    /// format, for offline regression fixtures. The replay cursor is not
    /// persisted.
    pub fn serialize(&self) -> (r: Vec<u8>)
        requires
            self@.buttons.len() <= u32::MAX,
            forall|i: int|
                0 <= i < self@.buttons.len() ==> (#[trigger] self@.buttons[i]).len() <= u32::MAX,
        ensures
            r@ == spec_encode_session(self@),
    {
        let mut out = u64_to_le_bytes(self.memory.len() as u64);
        push_all(&mut out, &self.memory);
        match &self.game_state {
            None => {
                out.push(0u8);
                proof {
                    assert(out@ =~= spec_u64_to_le_bytes(self@.memory.len() as u64) + self@.memory
                        + spec_encode_state(self@.game_state));
                }
            },
            Some(state) => {
                out.push(1u8);
                let state_len_bytes = u64_to_le_bytes(state.len() as u64);
                push_all(&mut out, &state_len_bytes);
                push_all(&mut out, state);
                proof {
                    assert(out@ =~= spec_u64_to_le_bytes(self@.memory.len() as u64) + self@.memory
                        + spec_encode_state(self@.game_state));
                }
            },
        }
        let ghost header = out@;
        let count_bytes = u32_to_le_bytes(self.buttons.len() as u32);
        push_all(&mut out, &count_bytes);
        let n = self.buttons.len();
        let mut i: usize = 0;
        proof {
            assert(self@.buttons.subrange(0, 0) =~= Seq::<Seq<u32>>::empty());
            assert(out@ =~= header + spec_u32_to_le_bytes(n as u32) + spec_encode_frames(
                self@.buttons.subrange(0, 0),
            ));
        }
        while i < n
            invariant
                i <= n,
                n == self@.buttons.len(),
                n == self.buttons@.len(),
                n <= u32::MAX,
                forall|j: int|
                    0 <= j < self@.buttons.len() ==> (#[trigger] self@.buttons[j]).len()
                        <= u32::MAX,
                out@ =~= header + spec_u32_to_le_bytes(n as u32) + spec_encode_frames(
                    self@.buttons.subrange(0, i as int),
                ),
            decreases n - i,
        {
            proof {
                assert(self.buttons@[i as int].deep_view() =~= self.buttons@[i as int]@);
                assert(self.buttons@[i as int]@ =~= self@.buttons[i as int]);
            }
            let set_bytes = encode_input_set(&self.buttons[i]);
            push_all(&mut out, &set_bytes);
            proof {
                lemma_encode_frames_snoc(
                    self@.buttons.subrange(0, i as int),
                    self@.buttons[i as int],
                );
                assert(self@.buttons.subrange(0, i + 1 as int) =~= self@.buttons.subrange(
                    0,
                    i as int,
                ).push(self@.buttons[i as int]));
                assert(out@ =~= header + spec_u32_to_le_bytes(n as u32) + spec_encode_frames(
                    self@.buttons.subrange(0, (i + 1) as int),
                ));
            }
            i = i + 1;
        }
        proof {
            assert(self@.buttons.subrange(0, n as int) =~= self@.buttons);
            assert(out@ =~= spec_encode_session(self@));
        }
        out
    }

    /// Deserialize a persisted session. Succeeds exactly on a complete,
    /// untruncated encoding, yielding the session with its cursor at zero; a
    /// malformed file is rejected with a format error naming an expected and
    /// the actual length.
    #[verifier::loop_isolation(false)]
    pub fn deserialize(bytes: &Vec<u8>) -> (r: Result<LoopData, HostError>)
        ensures
            match r {
                Ok(session) => {
                    &&& spec_decode_session(bytes@) == Some(session@)
                    &&& session.wf()
                    &&& session@.next_index == 0
                },
                Err(e) => {
                    &&& spec_decode_session(bytes@) is None
                    &&& e is SessionFormatError
                },
            },
    {
        let total = bytes.len();
        if total < 8 {
            return Err(HostError::SessionFormatError { expected: 8, actual: total });
        }
        let memory_len64 = u64_from_le_bytes(slice_subrange(bytes.as_slice(), 0, 8));
        if memory_len64 > (total - 8) as u64 {
            let expected = if memory_len64 > usize::MAX as u64 {
                usize::MAX
            } else {
                memory_len64 as usize
            };
            return Err(HostError::SessionFormatError { expected, actual: total - 8 });
        }
        let memory_len = memory_len64 as usize;
        let memory = slice_to_vec(slice_subrange(bytes.as_slice(), 8, 8 + memory_len));
        let mut cur: usize = 8 + memory_len;
        let ghost state_start = cur as int;
        if total - cur < 1 {
            return Err(HostError::SessionFormatError { expected: 1, actual: total - cur });
        }
        let tag = bytes[cur];
        let game_state: Option<Vec<u8>>;
        if tag == 0 {
            game_state = None;
            cur = cur + 1;
        } else if tag == 1 {
            if total - (cur + 1) < 8 {
                return Err(
                    HostError::SessionFormatError { expected: 8, actual: total - (cur + 1) },
                );
            }
            let state_len64 = u64_from_le_bytes(slice_subrange(bytes.as_slice(), cur + 1, cur + 9));
            if state_len64 > (total - (cur + 9)) as u64 {
                let expected = if state_len64 > usize::MAX as u64 {
                    usize::MAX
                } else {
                    state_len64 as usize
                };
                return Err(
                    HostError::SessionFormatError { expected, actual: total - (cur + 9) },
                );
            }
            let state_len = state_len64 as usize;
            let state_bytes = slice_to_vec(
                slice_subrange(bytes.as_slice(), cur + 9, cur + 9 + state_len),
            );
            game_state = Some(state_bytes);
            cur = cur + 9 + state_len;
        } else {
            proof {
                assert(spec_decode_state(bytes@, state_start) is None);
                assert(spec_decode_session(bytes@) is None);
            }
            return Err(HostError::SessionFormatError { expected: 1, actual: total - cur });
        }
        proof {
            if game_state is Some {
                assert(game_state.unwrap().deep_view() =~= game_state.unwrap()@);
            }
            assert(spec_decode_state(bytes@, state_start) == Some(
                (game_state.deep_view(), cur as int),
            ));
        }
        if total - cur < 4 {
            proof {
                assert(spec_decode_session(bytes@) is None);
            }
            return Err(HostError::SessionFormatError { expected: 4, actual: total - cur });
        }
        let count = u32_from_le_bytes(slice_subrange(bytes.as_slice(), cur, cur + 4));
        let ghost frames_start = (cur + 4) as int;
        let mut frames: Vec<Vec<u32>> = Vec::new();
        let mut pos: usize = cur + 4;
        let mut k: u32 = 0;
        proof {
            let ghost rest = spec_decode_frames(bytes@, pos as int, count as nat);
            if rest is Some {
                assert(Seq::<Seq<u32>>::empty() + rest.unwrap().0 =~= rest.unwrap().0);
            }
            assert(frames.deep_view() =~= Seq::<Seq<u32>>::empty());
        }
        while k < count
            invariant
                k <= count,
                pos <= bytes@.len(),
                spec_decode_frames(bytes@, frames_start, count as nat) == cons_decoded_frames(
                    frames.deep_view(),
                    spec_decode_frames(bytes@, pos as int, (count - k) as nat),
                ),
            decreases count - k,
        {
            let ghost frames_before = frames.deep_view();
            let parsed = match decode_input_set(bytes, pos) {
                Ok(p) => p,
                Err(e) => {
                    proof {
                        assert(spec_decode_frames(bytes@, pos as int, (count - k) as nat) is None);
                        assert(spec_decode_frames(bytes@, frames_start, count as nat) is None);
                        assert(spec_decode_session(bytes@) is None);
                    }
                    return Err(e);
                },
            };
            let (codes, next_pos) = parsed;
            let ghost pv = codes@;
            proof {
                assert(codes.deep_view() =~= pv);
                let rest = spec_decode_frames(bytes@, next_pos as int, (count - k - 1) as nat);
                assert(spec_decode_frames(bytes@, pos as int, (count - k) as nat)
                    == cons_decoded_frames(seq![pv], rest));
                if rest is Some {
                    assert(frames_before + (seq![pv] + rest.unwrap().0) =~= frames_before.push(pv)
                        + rest.unwrap().0);
                }
            }
            frames.push(codes);
            proof {
                assert(frames.deep_view() =~= frames_before.push(pv));
            }
            pos = next_pos;
            k = k + 1;
        }
        proof {
            assert(spec_decode_frames(bytes@, pos as int, 0nat) == Some(
                (Seq::<Seq<u32>>::empty(), pos as int),
            ));
            assert(frames.deep_view() + Seq::<Seq<u32>>::empty() =~= frames.deep_view());
            assert(spec_decode_frames(bytes@, frames_start, count as nat) == Some(
                (frames.deep_view(), pos as int),
            ));
        }
        if pos != total {
            proof {
                assert(spec_decode_session(bytes@) is None);
            }
            return Err(HostError::SessionFormatError { expected: pos, actual: total });
        }
        let session = LoopData { game_state, memory, buttons: frames, next_index: 0 };
        proof {
            assert(spec_decode_session(bytes@) == Some(session@));
        }
        Ok(session)
    }
}

/// Byte-for-byte copy of an input set.
pub(crate) fn copy_codes(src: &Vec<u32>) -> (r: Vec<u32>)
    ensures
        r@ == src@,
{
    let len = src.len();
    let mut out: Vec<u32> = Vec::new();
    let mut i: usize = 0;
    while i < len
        invariant
            i <= len,
            len == src@.len(),
            out@ =~= src@.subrange(0, i as int),
        decreases len - i,
    {
        out.push(src[i]);
        i = i + 1;
    }
    proof {
        assert(out@ =~= src@);
    }
    out
}

// ---------------------------------------------------------------------------
// The persisted session format. All integers are little-endian:
//   [u64 snapshot length][snapshot bytes]
//   [u8 state tag: 0 absent, 1 present][u64 state length][state bytes]
//   [u32 frame count] then per frame [u32 count][count key codes]
// ---------------------------------------------------------------------------
/// Encoding of the key codes of one input set.
pub open spec fn spec_encode_codes(codes: Seq<u32>) -> Seq<u8>
    decreases codes.len(),
{
    if codes.len() == 0 {
        Seq::empty()
    } else {
        spec_u32_to_le_bytes(codes[0]) + spec_encode_codes(codes.drop_first())
    }
}

/// Encoding of one input set: its count, then its key codes.
pub open spec fn spec_encode_input_set(codes: Seq<u32>) -> Seq<u8> {
    spec_u32_to_le_bytes(codes.len() as u32) + spec_encode_codes(codes)
}

/// Encoding of the recorded frames, in frame order.
pub open spec fn spec_encode_frames(frames: Seq<Seq<u32>>) -> Seq<u8>
    decreases frames.len(),
{
    if frames.len() == 0 {
        Seq::empty()
    } else {
        spec_encode_input_set(frames[0]) + spec_encode_frames(frames.drop_first())
    }
}

/// Encoding of the captured mutable state: a presence tag, then its length
/// and bytes when present.
pub open spec fn spec_encode_state(state: Option<Seq<u8>>) -> Seq<u8> {
    match state {
        None => seq![0u8],
        Some(bytes) => seq![1u8] + spec_u64_to_le_bytes(bytes.len() as u64) + bytes,
    }
}

/// Encoding of a whole session. The replay cursor is not part of the format:
/// a loaded session always starts a fresh pass.
pub open spec fn spec_encode_session(m: LoopDataModel) -> Seq<u8> {
    spec_u64_to_le_bytes(m.memory.len() as u64) + m.memory + spec_encode_state(m.game_state)
        + spec_u32_to_le_bytes(m.buttons.len() as u32) + spec_encode_frames(m.buttons)
}

/// The counts the format can carry.
pub open spec fn session_encodable(m: LoopDataModel) -> bool {
    &&& m.memory.len() <= u64::MAX
    &&& (m.game_state matches Some(bytes) ==> bytes.len() <= u64::MAX)
    &&& m.buttons.len() <= u32::MAX
    &&& forall|i: int| 0 <= i < m.buttons.len() ==> (#[trigger] m.buttons[i]).len() <= u32::MAX
}

/// Decoding of `count` key codes starting at byte `i`: the codes and the
/// position after them, or nothing when the bytes run out.
pub open spec fn spec_decode_codes(bytes: Seq<u8>, i: int, count: nat) -> Option<(Seq<u32>, int)>
    decreases count,
{
    if count == 0 {
        Some((Seq::empty(), i))
    } else if i + 4 > bytes.len() {
        None
    } else {
        let code = spec_u32_from_le_bytes(bytes.subrange(i, i + 4));
        match spec_decode_codes(bytes, i + 4, (count - 1) as nat) {
            None => None,
            Some(rest) => Some((seq![code] + rest.0, rest.1)),
        }
    }
}

/// Decoding of one input set starting at byte `i`: its count, then that many
/// key codes.
pub open spec fn spec_decode_input_set(bytes: Seq<u8>, i: int) -> Option<(Seq<u32>, int)> {
    if i + 4 > bytes.len() {
        None
    } else {
        let count = spec_u32_from_le_bytes(bytes.subrange(i, i + 4));
        spec_decode_codes(bytes, i + 4, count as nat)
    }
}

/// Decoding of `count` recorded frames starting at byte `i`.
pub open spec fn spec_decode_frames(bytes: Seq<u8>, i: int, count: nat) -> Option<
    (Seq<Seq<u32>>, int),
>
    decreases count,
{
    if count == 0 {
        Some((Seq::empty(), i))
    } else {
        match spec_decode_input_set(bytes, i) {
            None => None,
            Some(first) => match spec_decode_frames(bytes, first.1, (count - 1) as nat) {
                None => None,
                Some(rest) => Some((seq![first.0] + rest.0, rest.1)),
            },
        }
    }
}

/// Decoding of the captured mutable state starting at byte `i`.
pub open spec fn spec_decode_state(bytes: Seq<u8>, i: int) -> Option<(Option<Seq<u8>>, int)> {
    if i + 1 > bytes.len() {
        None
    } else if bytes[i] == 0 {
        Some((None, i + 1))
    } else if bytes[i] == 1 {
        if i + 9 > bytes.len() {
            None
        } else {
            let state_len = spec_u64_from_le_bytes(bytes.subrange(i + 1, i + 9)) as int;
            if i + 9 + state_len > bytes.len() {
                None
            } else {
                Some((Some(bytes.subrange(i + 9, i + 9 + state_len)), i + 9 + state_len))
            }
        }
    } else {
        None
    }
}

/// Decoding of a whole persisted session: the session, with its cursor at
/// zero, exactly when the bytes are a complete encoding with nothing
/// trailing.
pub open spec fn spec_decode_session(bytes: Seq<u8>) -> Option<LoopDataModel> {
    if 8 > bytes.len() {
        None
    } else {
        let memory_len = spec_u64_from_le_bytes(bytes.subrange(0, 8)) as int;
        if 8 + memory_len > bytes.len() {
            None
        } else {
            let memory = bytes.subrange(8, 8 + memory_len);
            match spec_decode_state(bytes, 8 + memory_len) {
                None => None,
                Some(state) => {
                    if state.1 + 4 > bytes.len() {
                        None
                    } else {
                        let count = spec_u32_from_le_bytes(bytes.subrange(state.1, state.1 + 4));
                        match spec_decode_frames(bytes, state.1 + 4, count as nat) {
                            None => None,
                            Some(frames) => {
                                if frames.1 == bytes.len() {
                                    Some(
                                        LoopDataModel {
                                            game_state: state.0,
                                            memory: memory,
                                            buttons: frames.0,
                                            next_index: 0,
                                        },
                                    )
                                } else {
                                    None
                                }
                            },
                        }
                    }
                },
            }
        }
    }
}

/// Appending one code extends an encoding on the right.
proof fn lemma_encode_codes_snoc(codes: Seq<u32>, code: u32)
    ensures
        spec_encode_codes(codes.push(code)) == spec_encode_codes(codes) + spec_u32_to_le_bytes(
            code,
        ),
    decreases codes.len(),
{
    if codes.len() == 0 {
        let p = codes.push(code);
        assert(p[0] == code);
        assert(p.drop_first() =~= Seq::<u32>::empty());
        assert(spec_encode_codes(p) == spec_u32_to_le_bytes(code) + spec_encode_codes(
            Seq::<u32>::empty(),
        ));
        assert(spec_encode_codes(Seq::<u32>::empty()) == Seq::<u8>::empty());
        assert(codes =~= Seq::<u32>::empty());
        assert(spec_encode_codes(p) =~= spec_encode_codes(codes) + spec_u32_to_le_bytes(code));
    } else {
        lemma_encode_codes_snoc(codes.drop_first(), code);
        assert(codes.push(code).drop_first() =~= codes.drop_first().push(code));
        assert(codes.push(code)[0] == codes[0]);
        assert(spec_encode_codes(codes.push(code)) =~= spec_encode_codes(codes)
            + spec_u32_to_le_bytes(code));
    }
}

/// Appending one frame extends an encoding on the right.
proof fn lemma_encode_frames_snoc(frames: Seq<Seq<u32>>, frame: Seq<u32>)
    ensures
        spec_encode_frames(frames.push(frame)) == spec_encode_frames(frames)
            + spec_encode_input_set(frame),
    decreases frames.len(),
{
    if frames.len() == 0 {
        let p = frames.push(frame);
        assert(p[0] == frame);
        assert(p.drop_first() =~= Seq::<Seq<u32>>::empty());
        assert(spec_encode_frames(p) == spec_encode_input_set(frame) + spec_encode_frames(
            Seq::<Seq<u32>>::empty(),
        ));
        assert(spec_encode_frames(Seq::<Seq<u32>>::empty()) == Seq::<u8>::empty());
        assert(frames =~= Seq::<Seq<u32>>::empty());
        assert(spec_encode_frames(p) =~= spec_encode_frames(frames) + spec_encode_input_set(frame));
    } else {
        lemma_encode_frames_snoc(frames.drop_first(), frame);
        assert(frames.push(frame).drop_first() =~= frames.drop_first().push(frame));
        assert(frames.push(frame)[0] == frames[0]);
        assert(spec_encode_frames(frames.push(frame)) =~= spec_encode_frames(frames)
            + spec_encode_input_set(frame));
    }
}

/// A piece of a buffer that matches a known run also matches inside any
/// larger buffer that embeds the run.
proof fn lemma_subrange_of_matching(bytes: Seq<u8>, i: int, whole: Seq<u8>, off: int, part: Seq<u8>)
    requires
        0 <= i,
        0 <= off,
        off + part.len() <= whole.len(),
        i + whole.len() <= bytes.len(),
        bytes.subrange(i, i + whole.len()) == whole,
        whole.subrange(off, off + part.len()) == part,
    ensures
        bytes.subrange(i + off, i + off + part.len()) == part,
{
    assert forall|k: int|
        0 <= k < part.len() implies bytes.subrange(i + off, i + off + part.len())[k]
        == part[k] by {
        assert(whole[off + k] == bytes.subrange(i, i + whole.len())[off + k]);
        assert(part[k] == whole.subrange(off, off + part.len())[k]);
    }
    assert(bytes.subrange(i + off, i + off + part.len()) =~= part);
}

/// An encoded code sequence takes four bytes per code.
proof fn lemma_encode_codes_len(codes: Seq<u32>)
    ensures
        spec_encode_codes(codes).len() == 4 * codes.len(),
    decreases codes.len(),
{
    vstd::bytes::lemma_auto_spec_u32_to_from_le_bytes();
    if codes.len() > 0 {
        lemma_encode_codes_len(codes.drop_first());
    }
}

/// Decoding undoes encoding for a run of key codes embedded in a larger
/// buffer.
proof fn lemma_decode_codes_of_encode(bytes: Seq<u8>, i: int, codes: Seq<u32>)
    requires
        0 <= i,
        i + 4 * codes.len() <= bytes.len(),
        bytes.subrange(i, i + 4 * codes.len()) == spec_encode_codes(codes),
    ensures
        spec_decode_codes(bytes, i, codes.len()) == Some((codes, i + 4 * codes.len())),
    decreases codes.len(),
{
    vstd::bytes::lemma_auto_spec_u32_to_from_le_bytes();
    lemma_encode_codes_len(codes);
    if codes.len() == 0 {
        assert(codes =~= Seq::<u32>::empty());
    } else {
        let enc = spec_encode_codes(codes);
        let tail = codes.drop_first();
        lemma_encode_codes_len(tail);
        assert(enc == spec_u32_to_le_bytes(codes[0]) + spec_encode_codes(tail));
        assert(bytes.subrange(i, i + 4) =~= spec_u32_to_le_bytes(codes[0]));
        assert(spec_u32_from_le_bytes(bytes.subrange(i, i + 4)) == codes[0]);
        assert(enc.subrange(4, (4 + 4 * tail.len()) as int) =~= spec_encode_codes(tail));
        lemma_subrange_of_matching(bytes, i, enc, 4, spec_encode_codes(tail));
        lemma_decode_codes_of_encode(bytes, i + 4, tail);
        assert(seq![codes[0]] + tail =~= codes);
    }
}

/// Decoding undoes encoding for one input set embedded in a larger buffer.
proof fn lemma_decode_input_set_of_encode(bytes: Seq<u8>, i: int, codes: Seq<u32>)
    requires
        0 <= i,
        codes.len() <= u32::MAX,
        i + spec_encode_input_set(codes).len() <= bytes.len(),
        bytes.subrange(i, i + spec_encode_input_set(codes).len()) == spec_encode_input_set(codes),
    ensures
        spec_decode_input_set(bytes, i) == Some((codes, i + spec_encode_input_set(codes).len())),
{
    vstd::bytes::lemma_auto_spec_u32_to_from_le_bytes();
    lemma_encode_codes_len(codes);
    let enc = spec_encode_input_set(codes);
    assert(enc == spec_u32_to_le_bytes(codes.len() as u32) + spec_encode_codes(codes));
    assert(enc.len() == 4 + 4 * codes.len());
    assert(bytes.subrange(i, i + 4) =~= spec_u32_to_le_bytes(codes.len() as u32));
    assert(spec_u32_from_le_bytes(bytes.subrange(i, i + 4)) == codes.len() as u32);
    assert((codes.len() as u32) as nat == codes.len());
    assert(enc.subrange(4, (4 + 4 * codes.len()) as int) =~= spec_encode_codes(codes));
    lemma_subrange_of_matching(bytes, i, enc, 4, spec_encode_codes(codes));
    lemma_decode_codes_of_encode(bytes, i + 4, codes);
}

/// Decoding undoes encoding for a run of frames embedded in a larger buffer.
proof fn lemma_decode_frames_of_encode(bytes: Seq<u8>, i: int, frames: Seq<Seq<u32>>)
    requires
        0 <= i,
        forall|j: int| 0 <= j < frames.len() ==> (#[trigger] frames[j]).len() <= u32::MAX,
        i + spec_encode_frames(frames).len() <= bytes.len(),
        bytes.subrange(i, i + spec_encode_frames(frames).len()) == spec_encode_frames(frames),
    ensures
        spec_decode_frames(bytes, i, frames.len()) == Some(
            (frames, i + spec_encode_frames(frames).len()),
        ),
    decreases frames.len(),
{
    if frames.len() == 0 {
        assert(frames =~= Seq::<Seq<u32>>::empty());
    } else {
        let first = frames[0];
        let tail = frames.drop_first();
        let enc = spec_encode_frames(frames);
        let first_len = spec_encode_input_set(first).len() as int;
        lemma_encode_codes_len(first);
        assert(enc == spec_encode_input_set(first) + spec_encode_frames(tail));
        assert(enc.subrange(0, first_len) =~= spec_encode_input_set(first));
        lemma_subrange_of_matching(bytes, i, enc, 0, spec_encode_input_set(first));
        lemma_decode_input_set_of_encode(bytes, i, first);
        assert(enc.subrange(first_len, first_len + spec_encode_frames(tail).len())
            =~= spec_encode_frames(tail));
        lemma_subrange_of_matching(bytes, i, enc, first_len, spec_encode_frames(tail));
        lemma_decode_frames_of_encode(bytes, i + first_len, tail);
        assert(seq![first] + tail =~= frames);
    }
}

/// Law: the session file format round-trips. Decoding an encoded session
/// yields exactly the recorded snapshot, mutable state and input sequence,
/// with the replay cursor at zero.
pub proof fn lemma_session_format_round_trip(m: LoopDataModel)
    requires
        session_encodable(m),
    ensures
        spec_decode_session(spec_encode_session(m)) == Some(
            LoopDataModel {
                game_state: m.game_state,
                memory: m.memory,
                buttons: m.buttons,
                next_index: 0,
            },
        ),
{
    vstd::bytes::lemma_auto_spec_u64_to_from_le_bytes();
    vstd::bytes::lemma_auto_spec_u32_to_from_le_bytes();
    let bytes = spec_encode_session(m);
    let header = spec_u64_to_le_bytes(m.memory.len() as u64);
    let state_enc = spec_encode_state(m.game_state);
    let count_enc = spec_u32_to_le_bytes(m.buttons.len() as u32);
    let frames_enc = spec_encode_frames(m.buttons);
    assert(bytes == header + m.memory + state_enc + count_enc + frames_enc);
    let mlen = m.memory.len() as int;
    assert(bytes.subrange(0, 8) =~= header);
    assert(spec_u64_from_le_bytes(bytes.subrange(0, 8)) == m.memory.len() as u64);
    assert((m.memory.len() as u64) as int == mlen);
    assert(bytes.subrange(8, 8 + mlen) =~= m.memory);
    let state_start = 8 + mlen;
    let state_end = state_start + state_enc.len() as int;
    match m.game_state {
        None => {
            assert(state_enc == seq![0u8]);
            assert(bytes[state_start] == 0u8);
            assert(spec_decode_state(bytes, state_start) == Some(
                (None::<Seq<u8>>, state_start + 1),
            ));
        },
        Some(state_bytes) => {
            assert(state_enc == seq![1u8] + spec_u64_to_le_bytes(state_bytes.len() as u64)
                + state_bytes);
            assert(bytes[state_start] == state_enc[0]);
            assert(state_enc[0] == 1u8);
            assert(bytes.subrange(state_start + 1, state_start + 9) =~= spec_u64_to_le_bytes(
                state_bytes.len() as u64,
            ));
            assert(spec_u64_from_le_bytes(bytes.subrange(state_start + 1, state_start + 9))
                == state_bytes.len() as u64);
            assert((state_bytes.len() as u64) as int == state_bytes.len() as int);
            assert(bytes.subrange(
                state_start + 9,
                state_start + 9 + state_bytes.len(),
            ) =~= state_bytes);
            assert(spec_decode_state(bytes, state_start) == Some(
                (Some(state_bytes), state_start + 9 + state_bytes.len()),
            ));
            assert(state_end == state_start + 9 + state_bytes.len());
        },
    }
    assert(spec_decode_state(bytes, state_start) == Some((m.game_state, state_end)));
    assert(bytes.subrange(state_end, state_end + 4) =~= count_enc);
    assert(spec_u32_from_le_bytes(bytes.subrange(state_end, state_end + 4)) == m.buttons.len()
        as u32);
    assert((m.buttons.len() as u32) as nat == m.buttons.len());
    let frames_start = state_end + 4;
    assert(bytes.len() == frames_start + frames_enc.len());
    assert(bytes.subrange(frames_start, frames_start + frames_enc.len() as int) =~= frames_enc);
    lemma_decode_frames_of_encode(bytes, frames_start, m.buttons);
    assert(spec_decode_frames(bytes, frames_start, m.buttons.len()) == Some(
        (m.buttons, bytes.len() as int),
    ));
}

/// Append a buffer to the output being assembled.
fn push_all(out: &mut Vec<u8>, bytes: &Vec<u8>)
    ensures
        final(out)@ == old(out)@ + bytes@,
{
    let len = bytes.len();
    let mut i: usize = 0;
    while i < len
        invariant
            i <= len,
            len == bytes@.len(),
            out@ =~= old(out)@ + bytes@.subrange(0, i as int),
        decreases len - i,
    {
        out.push(bytes[i]);
        i = i + 1;
    }
    proof {
        assert(out@ =~= old(out)@ + bytes@);
    }
}

/// Prefixing decoded codes: what a partial parse composes to.
spec fn cons_decoded_codes(prefix: Seq<u32>, rest: Option<(Seq<u32>, int)>) -> Option<
    (Seq<u32>, int),
> {
    match rest {
        None => None,
        Some(r) => Some((prefix + r.0, r.1)),
    }
}

/// Prefixing decoded frames: what a partial parse composes to.
spec fn cons_decoded_frames(prefix: Seq<Seq<u32>>, rest: Option<(Seq<Seq<u32>>, int)>) -> Option<
    (Seq<Seq<u32>>, int),
> {
    match rest {
        None => None,
        Some(r) => Some((prefix + r.0, r.1)),
    }
}

/// Encode one input set: its count, then its key codes.
fn encode_input_set(codes: &Vec<u32>) -> (r: Vec<u8>)
    requires
        codes@.len() <= u32::MAX,
    ensures
        r@ == spec_encode_input_set(codes@),
{
    let n = codes.len();
    let mut out = u32_to_le_bytes(n as u32);
    let mut i: usize = 0;
    while i < n
        invariant
            i <= n,
            n == codes@.len(),
            n <= u32::MAX,
            out@ =~= spec_u32_to_le_bytes(n as u32) + spec_encode_codes(
                codes@.subrange(0, i as int),
            ),
        decreases n - i,
    {
        let code_bytes = u32_to_le_bytes(codes[i]);
        push_all(&mut out, &code_bytes);
        proof {
            lemma_encode_codes_snoc(codes@.subrange(0, i as int), codes@[i as int]);
            assert(codes@.subrange(0, i + 1 as int) =~= codes@.subrange(0, i as int).push(
                codes@[i as int],
            ));
        }
        i = i + 1;
    }
    proof {
        assert(codes@.subrange(0, n as int) =~= codes@);
    }
    out
}

/// Decode one input set starting at `start`: its count, then that many key
/// codes; rejected when the bytes run out.
#[verifier::loop_isolation(false)]
fn decode_input_set(bytes: &Vec<u8>, start: usize) -> (r: Result<(Vec<u32>, usize), HostError>)
    requires
        start <= bytes@.len(),
    ensures
        match r {
            Ok(parsed) => {
                &&& spec_decode_input_set(bytes@, start as int) == Some(
                    (parsed.0@, parsed.1 as int),
                )
                &&& start <= parsed.1 <= bytes@.len()
            },
            Err(e) => {
                &&& spec_decode_input_set(bytes@, start as int) is None
                &&& e is SessionFormatError
            },
        },
{
    let total = bytes.len();
    if total - start < 4 {
        return Err(HostError::SessionFormatError { expected: 4, actual: total - start });
    }
    let count = u32_from_le_bytes(slice_subrange(bytes.as_slice(), start, start + 4));
    let mut acc: Vec<u32> = Vec::new();
    let mut cur: usize = start + 4;
    let mut k: u32 = 0;
    proof {
        let ghost rest = spec_decode_codes(bytes@, cur as int, count as nat);
        if rest is Some {
            assert(Seq::<u32>::empty() + rest.unwrap().0 =~= rest.unwrap().0);
        }
    }
    while k < count
        invariant
            k <= count,
            start + 4 <= cur <= bytes@.len(),
            spec_decode_codes(bytes@, (start + 4) as int, count as nat) == cons_decoded_codes(
                acc@,
                spec_decode_codes(bytes@, cur as int, (count - k) as nat),
            ),
            spec_u32_from_le_bytes(bytes@.subrange(start as int, start + 4)) == count,
            start + 4 <= bytes@.len(),
        decreases count - k,
    {
        let total_now = bytes.len();
        if total_now - cur < 4 {
            proof {
                assert(spec_decode_codes(bytes@, cur as int, (count - k) as nat) is None);
                assert(spec_decode_codes(bytes@, (start + 4) as int, count as nat) is None);
            }
            return Err(HostError::SessionFormatError { expected: 4, actual: total_now - cur });
        }
        let code = u32_from_le_bytes(slice_subrange(bytes.as_slice(), cur, cur + 4));
        proof {
            let ghost rest = spec_decode_codes(bytes@, (cur + 4) as int, (count - k - 1) as nat);
            assert(spec_decode_codes(bytes@, cur as int, (count - k) as nat) == cons_decoded_codes(
                seq![code],
                rest,
            ));
            if rest is Some {
                assert(acc@ + (seq![code] + rest.unwrap().0) =~= acc@.push(code)
                    + rest.unwrap().0);
            }
        }
        acc.push(code);
        cur = cur + 4;
        k = k + 1;
    }
    proof {
        assert(spec_decode_codes(bytes@, cur as int, 0) == Some((Seq::<u32>::empty(), cur as int)));
        assert(acc@ + Seq::<u32>::empty() =~= acc@);
        assert(spec_decode_codes(bytes@, (start + 4) as int, count as nat) == Some(
            (acc@, cur as int),
        ));
    }
    Ok((acc, cur))
}

/// The session after one playback tick: only the cursor moves.
pub open spec fn tick_cursor(m: LoopDataModel) -> LoopDataModel {
    LoopDataModel {
        game_state: m.game_state,
        memory: m.memory,
        buttons: m.buttons,
        next_index: ((m.next_index + 1) % m.buttons.len()) as nat,
    }
}

/// The input set one playback tick serves.
pub open spec fn tick_output(m: LoopDataModel) -> Seq<u32> {
    m.buttons[m.next_index as int]
}

/// The session after `j` playback ticks.
pub open spec fn ticks(m: LoopDataModel, j: nat) -> LoopDataModel
    decreases j,
{
    if j == 0 {
        m
    } else {
        tick_cursor(ticks(m, (j - 1) as nat))
    }
}

/// Law: playback cycles. Starting a pass with the cursor at zero, the `j`-th
/// tick serves exactly the recorded input set of frame `j` modulo the number
/// of recorded frames — the whole input trace of a replay is a function of
/// the recorded sequence alone.
pub proof fn lemma_replay_inputs_cycle(m: LoopDataModel, j: nat)
    requires
        m.buttons.len() > 0,
        m.next_index == 0,
    ensures
        ticks(m, j).next_index == j % m.buttons.len(),
        tick_output(ticks(m, j)) == m.buttons[(j % m.buttons.len()) as int],
        ticks(m, j).game_state == m.game_state,
        ticks(m, j).memory == m.memory,
        ticks(m, j).buttons == m.buttons,
    decreases j,
{
    let len = m.buttons.len() as int;
    if j > 0 {
        lemma_replay_inputs_cycle(m, (j - 1) as nat);
        let prev = ticks(m, (j - 1) as nat);
        assert(ticks(m, j) == tick_cursor(prev));
        assert(prev.next_index == (j - 1) as int % len);
        lemma_add_mod_noop((j - 1) as int, 1, len);
        lemma_mod_bound((j - 1) as int, len);
        lemma_mod_bound(j as int, len);
        if len == 1 {
            lemma_mod_bound(1, len);
            lemma_mod_bound(j as int, len);
            assert(prev.next_index == 0);
            assert(1int % 1int == 0);
            assert((prev.next_index + 1) as int % len == 0);
            assert(j as int % len == 0);
        } else {
            lemma_small_mod(1, len as nat);
            assert(1int % len == 1);
            assert(((j - 1) as int % len + 1) % len == j as int % len);
        }
    } else {
        lemma_mod_bound(0, len);
        assert(0int % len == 0);
    }
}

/// One frame of replayed simulation: the module's entry point, modeled as a
/// pure step function from the arena's bytes, the module's mutable state and
/// the frame's input set to the next arena bytes and mutable state.
pub open spec fn replay_state(
    m: LoopDataModel,
    step: spec_fn(Seq<u8>, Option<Seq<u8>>, Seq<u32>) -> (Seq<u8>, Option<Seq<u8>>),
    k: nat,
) -> (Seq<u8>, Option<Seq<u8>>)
    decreases k,
{
    if k == 0 {
        (m.memory, m.game_state)
    } else {
        let prev = replay_state(m, step, (k - 1) as nat);
        step(prev.0, prev.1, m.buttons[(((k - 1) as nat) % m.buttons.len()) as int])
    }
}

/// Law: replay is deterministic. Two replays that start from the same
/// captured snapshot and mutable state and run the same recorded inputs
/// through the same step function produce identical arena contents and
/// identical mutable-state contents after each step.
pub proof fn lemma_replay_deterministic(
    m1: LoopDataModel,
    m2: LoopDataModel,
    step: spec_fn(Seq<u8>, Option<Seq<u8>>, Seq<u32>) -> (Seq<u8>, Option<Seq<u8>>),
    k: nat,
)
    requires
        m1.memory == m2.memory,
        m1.game_state == m2.game_state,
        m1.buttons == m2.buttons,
    ensures
        replay_state(m1, step, k) == replay_state(m2, step, k),
    decreases k,
{
    if k > 0 {
        lemma_replay_deterministic(m1, m2, step, (k - 1) as nat);
    }
}

} // verus!
