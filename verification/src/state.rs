//! The backend-agnostic snapshot of the game taken once per tick.
use vstd::prelude::*;

verus! {

/// Longest room name kept in a snapshot, in bytes.
pub const ROOM_CAPACITY: usize = 64;

/// One sample of the game's state.
#[derive(Clone, Copy)]
pub struct GameState {
    pub area: i32,
    pub mode: i32,
    pub started: bool,
    pub complete: bool,
    pub ch_cassette: bool,
    pub ch_heart: bool,
    /// Held-golden flag (Everest flag or vanilla session byte).
    pub ch_golden: bool,
    pub cassettes: i32,
    pub hearts: i32,
    pub strawberries: i32,
    /// Room name bytes; only the first `room_len` are meaningful.
    pub room: [u8; 64],
    pub room_len: usize,
    pub chapter_time_ms: i64,
    pub file_time_ms: i64,
}

impl GameState {
    /// The room name of this sample.
    pub open spec fn room_name(&self) -> Seq<u8> {
        self.room@.subrange(0, self.room_len as int)
    }

    /// The room length fits the room buffer.
    pub open spec fn wf(&self) -> bool {
        self.room_len <= ROOM_CAPACITY
    }

    /// The bytes of the room name.
    pub fn room(&self) -> (r: &[u8])
        requires
            self.wf(),
        ensures
            r@ == self.room_name(),
    {
        let all = self.room.as_slice();
        &all[0..self.room_len]
    }
}

} // verus!
