//! Turning raw reads of the Celeste process into a normalized `GameState`.
//!
//! The reads themselves happen outside this library; these functions take
//! what each read returned (`None` for a failed read) and decide what the
//! sample is.
use vstd::prelude::*;
use crate::state::{GameState, ROOM_CAPACITY};

verus! {

/// The permissions of a memory range of the process.
#[derive(Clone, Copy)]
pub struct RangeFlags {
    pub write: bool,
    pub execute: bool,
}

/// Everest's info block must be at least this version.
pub const EVEREST_MIN_VERSION: u8 = 3;

/// The signature Everest's info block starts with: `EVERESTAUTOSPLIT`
/// and `F0 F1 F2 F3`.
pub fn everest_magic() -> (r: &'static str)
    ensures
        r@ == "45 56 45 52 45 53 54 41 55 54 4F 53 50 4C 49 54 F0 F1 F2 F3"@,
{
    "45 56 45 52 45 53 54 41 55 54 4F 53 50 4C 49 54 F0 F1 F2 F3"
}

// Offsets inside Everest's info block.
pub const EV_VERSION: u64 = 0x17;
pub const EV_CHAPTER_ID: u64 = 0x30;
pub const EV_CHAPTER_MODE: u64 = 0x34;
pub const EV_ROOM_PTR: u64 = 0x38;
pub const EV_CHAPTER_TIME: u64 = 0x40;
pub const EV_CHAPTER_FLAGS: u64 = 0x4c;
pub const EV_FILE_TIME: u64 = 0x50;
pub const EV_FILE_STRAWBERRIES: u64 = 0x58;
pub const EV_FILE_CASSETTES: u64 = 0x60;
pub const EV_FILE_HEARTS: u64 = 0x64;

// Offsets inside vanilla's AutosplitterInfo.
pub const VA_CHAPTER_TIME: u64 = 0x4;
pub const VA_FILE_TIME: u64 = 0xc;
pub const VA_LEVEL: u64 = 0x14;
pub const VA_CHAPTER: u64 = 0x18;
pub const VA_MODE: u64 = 0x1c;
pub const VA_STRAWBERRIES: u64 = 0x24;
pub const VA_CASSETTES: u64 = 0x28;
pub const VA_HEARTS: u64 = 0x2c;
pub const VA_STARTED: u64 = 0x31;
pub const VA_COMPLETE: u64 = 0x32;
pub const VA_CH_CASSETTE: u64 = 0x33;
pub const VA_CH_HEART: u64 = 0x34;
/// The AutosplitterInfo field sits this far after the Title field.
pub const VAN_INFO_FROM_TITLE: u64 = 0x1c;

// Celeste.Instance -> scene -> Session (vanilla).
pub const VA_SCENE: u64 = 0x98;
pub const VA_SESSION: u64 = 0x2c;
pub const VA_SESSION_STRAWBERRIES: u64 = 0x18;
pub const VA_SESSION_DASHES: u64 = 0x44;
pub const VA_SESSION_DEATHS: u64 = 0x4c;
pub const VA_SESSION_GOLDEN: u64 = 0x68;
/// The count of a .NET Framework `HashSet`.
pub const HASHSET_COUNT: u64 = 0x14;

/// The builds of vanilla Celeste, in the order their code signatures are
/// looked for.
#[derive(Clone, Copy, PartialEq, Eq, Structural)]
pub enum VanillaBuild {
    Xna,
    OpenGl,
    Itch,
    OpenGl14,
}

/// The builds, in search order.
pub const VANILLA_BUILDS: [VanillaBuild; 4] = [
    VanillaBuild::Xna,
    VanillaBuild::OpenGl,
    VanillaBuild::Itch,
    VanillaBuild::OpenGl14,
];

/// Where, after the start of its signature, a build's code holds the
/// address of the `Celeste.Instance` static field.
pub open spec fn operand_offset_spec(b: VanillaBuild) -> u64 {
    match b {
        VanillaBuild::Xna => 21,
        VanillaBuild::OpenGl => 19,
        VanillaBuild::Itch => 10,
        VanillaBuild::OpenGl14 => 99,
    }
}

impl VanillaBuild {
    /// The code signature of the build (bytes in hex, `??` for any byte).
    pub fn signature(self) -> (r: &'static str)
        ensures
            r@ == (match self {
                VanillaBuild::Xna => "83 C6 04 F3 0F 7E 06 66 0F D6 07 8B CB FF 15 ?? ?? ?? ?? 8D 15"@,
                VanillaBuild::OpenGl => "8B 55 F0 8B 45 E8 8D 52 74 E8 ?? ?? ?? ?? 8B 45 F0 8D 15"@,
                VanillaBuild::Itch => "8D 56 74 E8 ?? ?? ?? ?? 8D 15 ?? ?? ?? ?? E8 ?? ?? ?? ?? C6 05"@,
                VanillaBuild::OpenGl14 => "68 38 04 00 00 68 C0 03 00 00 68 1C 02 00 00 FF 35"@,
            }),
    {
        match self {
            VanillaBuild::Xna => "83 C6 04 F3 0F 7E 06 66 0F D6 07 8B CB FF 15 ?? ?? ?? ?? 8D 15",
            VanillaBuild::OpenGl => "8B 55 F0 8B 45 E8 8D 52 74 E8 ?? ?? ?? ?? 8B 45 F0 8D 15",
            VanillaBuild::Itch => "8D 56 74 E8 ?? ?? ?? ?? 8D 15 ?? ?? ?? ?? E8 ?? ?? ?? ?? C6 05",
            VanillaBuild::OpenGl14 => "68 38 04 00 00 68 C0 03 00 00 68 1C 02 00 00 FF 35",
        }
    }

    /// Where the static field's address sits after the signature's start.
    pub fn operand_offset(self) -> (r: u64)
        ensures
            r == operand_offset_spec(self),
    {
        match self {
            VanillaBuild::Xna => 21,
            VanillaBuild::OpenGl => 19,
            VanillaBuild::Itch => 10,
            VanillaBuild::OpenGl14 => 99,
        }
    }
}

/// Everest chapter flag bits.
pub const FLAG_STARTED: u32 = 1;
pub const FLAG_COMPLETE: u32 = 2;
pub const FLAG_CASSETTE: u32 = 4;
pub const FLAG_HEART: u32 = 8;
/// Everest-only: the golden strawberry is held.
pub const FLAG_GRABBED_GOLDEN: u32 = 16;

/// Celeste timers count .NET ticks of 100ns.
pub const CELESTE_TICKS_PER_MS: i64 = 10_000;

/// Largest plausible session death or dash count.
pub const SESSION_COUNT_MAX: i32 = 1_000_000;

/// Largest plausible number of strawberries in a session.
pub const SESSION_STRAWBERRIES_MAX: i32 = 1000;

/// Longest .NET string read, in UTF-16 units.
pub const NET_STRING_MAX: i32 = 64;

/// Rust's `/` on integers: the quotient rounded toward zero.
pub open spec fn div_toward_zero(a: int, b: int) -> int
    recommends
        b > 0,
{
    if a >= 0 {
        a / b
    } else {
        -((-a) / b)
    }
}

/// A .NET tick count in milliseconds.
pub open spec fn ticks_to_ms_spec(t: i64) -> i64 {
    div_toward_zero(t as int, CELESTE_TICKS_PER_MS as int) as i64
}

/// A timer read in milliseconds; a failed read counts as 0.
pub open spec fn time_ms(t: Option<i64>) -> i64 {
    match t {
        Some(t) => ticks_to_ms_spec(t),
        None => 0,
    }
}

pub fn ticks_to_ms(t: i64) -> (r: i64)
    ensures
        r == ticks_to_ms_spec(t),
{
    t / CELESTE_TICKS_PER_MS
}

fn time_of(t: Option<i64>) -> (r: i64)
    ensures
        r == time_ms(t),
{
    match t {
        Some(t) => ticks_to_ms(t),
        None => 0,
    }
}

/// A room buffer holding `bytes` (at most `ROOM_CAPACITY` of them) followed
/// by zeros.
pub open spec fn room_buffer(bytes: Seq<u8>) -> Seq<u8> {
    let n = if bytes.len() < 64 {
        bytes.len() as int
    } else {
        64
    };
    bytes.take(n) + Seq::new((64 - n) as nat, |_i: int| 0u8)
}

/// How many bytes of `bytes` a room buffer keeps.
pub open spec fn room_kept(bytes: Seq<u8>) -> usize {
    if bytes.len() < 64 {
        bytes.len() as usize
    } else {
        64
    }
}

/// Copies at most `ROOM_CAPACITY` bytes into a zeroed room buffer.
pub fn room_from_bytes(bytes: &[u8]) -> (r: ([u8; 64], usize))
    ensures
        r.0@ == room_buffer(bytes@),
        r.1 == room_kept(bytes@),
        r.1 <= ROOM_CAPACITY,
{
    let mut room = [0u8; 64];
    let n: usize = if bytes.len() < 64 {
        bytes.len()
    } else {
        64
    };
    let mut i: usize = 0;
    while i < n
        invariant
            n <= 64,
            n <= bytes@.len(),
            i <= n,
            room@.len() == 64,
            forall|j: int| 0 <= j < i ==> room@[j] == bytes@[j],
            forall|j: int| i <= j < 64 ==> room@[j] == 0u8,
        decreases n - i,
    {
        room[i] = bytes[i];
        i = i + 1;
    }
    assert(room@ =~= room_buffer(bytes@));
    (room, n)
}

/// Everest: a room name is at most `ROOM_CAPACITY` bytes of the length it
/// announces.
pub fn everest_room_len(len: u16) -> (r: usize)
    ensures
        r == (if (len as int) < 64 {
            len as int
        } else {
            64
        }),
{
    if (len as usize) < ROOM_CAPACITY {
        len as usize
    } else {
        ROOM_CAPACITY
    }
}

/// What was read from Everest's info block for one sample.
pub struct EverestRead {
    pub area: Option<i32>,
    pub mode: Option<i32>,
    pub flags: Option<u32>,
    pub cassettes: Option<i32>,
    pub hearts: Option<i32>,
    pub strawberries: Option<i32>,
    pub chapter_time: Option<i64>,
    pub file_time: Option<i64>,
    /// The room name bytes; empty when it could not be read.
    pub room: Vec<u8>,
}

/// The sample that an Everest read gives: none when a required field failed
/// to read; time reads that failed count as 0.
pub open spec fn everest_state_spec(r: EverestRead, st: GameState) -> bool {
    &&& r.area == Some(st.area)
    &&& r.mode == Some(st.mode)
    &&& r.cassettes == Some(st.cassettes)
    &&& r.hearts == Some(st.hearts)
    &&& r.strawberries == Some(st.strawberries)
    &&& r.flags matches Some(f) && {
        &&& st.started == (f & FLAG_STARTED != 0)
        &&& st.complete == (f & FLAG_COMPLETE != 0)
        &&& st.ch_cassette == (f & FLAG_CASSETTE != 0)
        &&& st.ch_heart == (f & FLAG_HEART != 0)
        &&& st.ch_golden == (f & FLAG_GRABBED_GOLDEN != 0)
    }
    &&& st.chapter_time_ms == time_ms(r.chapter_time)
    &&& st.file_time_ms == time_ms(r.file_time)
    &&& st.room@ == room_buffer(r.room@)
    &&& st.room_len == room_kept(r.room@)
}

/// The chapter flags of an Everest read, bit by bit: bit 0 is `started`,
/// bit 1 `complete`, bit 2 the chapter's cassette, bit 3 its heart and
/// bit 4 the held golden berry.
pub proof fn law_everest_flag_bits(r: EverestRead, st: GameState)
    requires
        everest_state_spec(r, st),
    ensures
        r.flags matches Some(f) && {
            &&& st.started == (f % 2 == 1)
            &&& st.complete == ((f / 2) % 2 == 1)
            &&& st.ch_cassette == ((f / 4) % 2 == 1)
            &&& st.ch_heart == ((f / 8) % 2 == 1)
            &&& st.ch_golden == ((f / 16) % 2 == 1)
        },
{
    let f = r.flags->0;
    assert((f & 1u32 != 0) == (f % 2 == 1)) by (bit_vector);
    assert((f & 2u32 != 0) == ((f / 2) % 2 == 1)) by (bit_vector);
    assert((f & 4u32 != 0) == ((f / 4) % 2 == 1)) by (bit_vector);
    assert((f & 8u32 != 0) == ((f / 8) % 2 == 1)) by (bit_vector);
    assert((f & 16u32 != 0) == ((f / 16) % 2 == 1)) by (bit_vector);
}

/// A timer of `t` ticks (of 100 ns) is `t / 10000` milliseconds rounded
/// toward zero: the whole milliseconds it holds, never more, with the sign
/// of `t`.
pub proof fn law_ticks_to_ms(t: i64)
    ensures
        ({
            let r = ticks_to_ms_spec(t);
            &&& t >= 0 ==> r >= 0 && r * 10000 <= t < r * 10000 + 10000
            &&& t < 0 ==> r <= 0 && r * 10000 - 10000 < t <= r * 10000
        }),
{
}

/// The room name kept from `bytes`: at most 64 bytes, the first ones of
/// `bytes`, in a 64-byte buffer whose rest is zero.
pub proof fn law_room_kept(bytes: Seq<u8>)
    ensures
        room_buffer(bytes).len() == 64,
        room_kept(bytes) == (if bytes.len() < 64 {
            bytes.len()
        } else {
            64
        }),
        room_buffer(bytes).take(room_kept(bytes) as int) == bytes.take(room_kept(bytes) as int),
        forall|i: int| room_kept(bytes) <= i < 64 ==> #[trigger] room_buffer(bytes)[i] == 0,
{
    let n = room_kept(bytes) as int;
    assert(room_buffer(bytes).take(n) =~= bytes.take(n));
}

/// An Everest sample takes the area, mode and collectible counts as read,
/// the chapter and file times converted from ticks (0 when unreadable) and
/// the room name read.
pub proof fn law_everest_sample(r: EverestRead, st: GameState)
    requires
        everest_state_spec(r, st),
    ensures
        r.area == Some(st.area) && r.mode == Some(st.mode),
        r.cassettes == Some(st.cassettes) && r.hearts == Some(st.hearts) && r.strawberries == Some(
            st.strawberries,
        ),
        st.chapter_time_ms == (match r.chapter_time {
            Some(t) => ticks_to_ms_spec(t),
            None => 0,
        }),
        st.file_time_ms == (match r.file_time {
            Some(t) => ticks_to_ms_spec(t),
            None => 0,
        }),
        st.room_name() == r.room@.take(room_kept(r.room@) as int),
{
    law_room_kept(r.room@);
    assert(st.room_name() =~= room_buffer(r.room@).take(room_kept(r.room@) as int));
}

/// A vanilla sample takes each flag from its own byte (set when not zero),
/// the golden flag from the session's byte (clear when unreadable), and the
/// area, mode, counts, times and room as an Everest sample does.
pub proof fn law_vanilla_sample(r: VanillaRead, st: GameState)
    requires
        vanilla_state_spec(r, st),
    ensures
        r.area == Some(st.area) && r.mode == Some(st.mode),
        r.cassettes == Some(st.cassettes) && r.hearts == Some(st.hearts) && r.strawberries == Some(
            st.strawberries,
        ),
        r.started matches Some(b) && st.started == (b > 0),
        r.complete matches Some(b) && st.complete == (b > 0),
        r.ch_cassette matches Some(b) && st.ch_cassette == (b > 0),
        r.ch_heart matches Some(b) && st.ch_heart == (b > 0),
        st.ch_golden == (r.golden matches Some(b) && b > 0),
        st.chapter_time_ms == (match r.chapter_time {
            Some(t) => ticks_to_ms_spec(t),
            None => 0,
        }),
        st.file_time_ms == (match r.file_time {
            Some(t) => ticks_to_ms_spec(t),
            None => 0,
        }),
        st.room_name() == r.room@.take(room_kept(r.room@) as int),
{
    law_room_kept(r.room@);
    assert(st.room_name() =~= room_buffer(r.room@).take(room_kept(r.room@) as int));
}

/// The required fields of an Everest read all succeeded.
pub open spec fn everest_complete(r: EverestRead) -> bool {
    r.area is Some && r.mode is Some && r.flags is Some && r.cassettes is Some && r.hearts is Some
        && r.strawberries is Some
}

/// Builds the sample of an Everest read.
pub fn everest_state(r: &EverestRead) -> (st: Option<GameState>)
    ensures
        st is Some <==> everest_complete(*r),
        st matches Some(s) ==> everest_state_spec(*r, s) && s.wf(),
{
    let area = match r.area {
        Some(v) => v,
        None => return None,
    };
    let mode = match r.mode {
        Some(v) => v,
        None => return None,
    };
    let flags = match r.flags {
        Some(v) => v,
        None => return None,
    };
    let cassettes = match r.cassettes {
        Some(v) => v,
        None => return None,
    };
    let hearts = match r.hearts {
        Some(v) => v,
        None => return None,
    };
    let strawberries = match r.strawberries {
        Some(v) => v,
        None => return None,
    };
    let (room, room_len) = room_from_bytes(r.room.as_slice());
    Some(
        GameState {
            area,
            mode,
            started: flags & FLAG_STARTED != 0,
            complete: flags & FLAG_COMPLETE != 0,
            ch_cassette: flags & FLAG_CASSETTE != 0,
            ch_heart: flags & FLAG_HEART != 0,
            ch_golden: flags & FLAG_GRABBED_GOLDEN != 0,
            cassettes,
            hearts,
            strawberries,
            room,
            room_len,
            chapter_time_ms: time_of(r.chapter_time),
            file_time_ms: time_of(r.file_time),
        },
    )
}

/// What was read from vanilla Celeste's `AutosplitterInfo` for one sample.
pub struct VanillaRead {
    pub area: Option<i32>,
    pub mode: Option<i32>,
    pub cassettes: Option<i32>,
    pub hearts: Option<i32>,
    pub strawberries: Option<i32>,
    pub started: Option<u8>,
    pub complete: Option<u8>,
    pub ch_cassette: Option<u8>,
    pub ch_heart: Option<u8>,
    /// The session's golden byte; `None` when any read on the way failed.
    pub golden: Option<u8>,
    pub chapter_time: Option<i64>,
    pub file_time: Option<i64>,
    /// The room name bytes; empty when it could not be read.
    pub room: Vec<u8>,
}

/// The required fields of a vanilla read all succeeded.
pub open spec fn vanilla_complete(r: VanillaRead) -> bool {
    &&& r.area is Some && r.mode is Some && r.cassettes is Some && r.hearts is Some
    &&& r.strawberries is Some && r.started is Some && r.complete is Some
    &&& r.ch_cassette is Some && r.ch_heart is Some
}

/// The sample that a vanilla read gives; a flag byte is set when non-zero.
pub open spec fn vanilla_state_spec(r: VanillaRead, st: GameState) -> bool {
    &&& r.area == Some(st.area)
    &&& r.mode == Some(st.mode)
    &&& r.cassettes == Some(st.cassettes)
    &&& r.hearts == Some(st.hearts)
    &&& r.strawberries == Some(st.strawberries)
    &&& r.started matches Some(b) && st.started == (b != 0)
    &&& r.complete matches Some(b) && st.complete == (b != 0)
    &&& r.ch_cassette matches Some(b) && st.ch_cassette == (b != 0)
    &&& r.ch_heart matches Some(b) && st.ch_heart == (b != 0)
    &&& st.ch_golden == (r.golden matches Some(b) && b != 0)
    &&& st.chapter_time_ms == time_ms(r.chapter_time)
    &&& st.file_time_ms == time_ms(r.file_time)
    &&& st.room@ == room_buffer(r.room@)
    &&& st.room_len == room_kept(r.room@)
}

fn flag_byte(b: Option<u8>) -> (r: Option<bool>)
    ensures
        r == (match b {
            Some(v) => Some(v != 0),
            None => None,
        }),
{
    match b {
        Some(v) => Some(v != 0),
        None => None,
    }
}

/// Builds the sample of a vanilla read.
pub fn vanilla_state(r: &VanillaRead) -> (st: Option<GameState>)
    ensures
        st is Some <==> vanilla_complete(*r),
        st matches Some(s) ==> vanilla_state_spec(*r, s) && s.wf(),
{
    let area = match r.area {
        Some(v) => v,
        None => return None,
    };
    let mode = match r.mode {
        Some(v) => v,
        None => return None,
    };
    let cassettes = match r.cassettes {
        Some(v) => v,
        None => return None,
    };
    let hearts = match r.hearts {
        Some(v) => v,
        None => return None,
    };
    let strawberries = match r.strawberries {
        Some(v) => v,
        None => return None,
    };
    let started = match flag_byte(r.started) {
        Some(v) => v,
        None => return None,
    };
    let complete = match flag_byte(r.complete) {
        Some(v) => v,
        None => return None,
    };
    let ch_cassette = match flag_byte(r.ch_cassette) {
        Some(v) => v,
        None => return None,
    };
    let ch_heart = match flag_byte(r.ch_heart) {
        Some(v) => v,
        None => return None,
    };
    let ch_golden = match r.golden {
        Some(b) => b != 0,
        None => false,
    };
    let (room, room_len) = room_from_bytes(r.room.as_slice());
    Some(
        GameState {
            area,
            mode,
            started,
            complete,
            ch_cassette,
            ch_heart,
            ch_golden,
            cassettes,
            hearts,
            strawberries,
            room,
            room_len,
            chapter_time_ms: time_of(r.chapter_time),
            file_time_ms: time_of(r.file_time),
        },
    )
}

/// A pointer read: zero means null.
pub fn nonzero_address(v: u64) -> (r: Option<u64>)
    ensures
        r == (if v == 0 {
            None
        } else {
            Some(v)
        }),
{
    if v == 0 {
        None
    } else {
        Some(v)
    }
}

/// A .NET string length is read only when it is in `1..=64`.
pub fn net_string_len(len: i32) -> (r: Option<usize>)
    ensures
        r == (if len <= 0 || len > NET_STRING_MAX {
            None
        } else {
            Some(len as usize)
        }),
{
    if len <= 0 || len > NET_STRING_MAX {
        None
    } else {
        Some(len as usize)
    }
}

/// A UTF-16 unit as an ASCII byte: non-ASCII units become `?`.
pub open spec fn ascii_unit(u: u16) -> u8 {
    if u < 128 {
        u as u8
    } else {
        0x3Fu8
    }
}

/// The UTF-16 units of a .NET string as ASCII bytes.
pub fn ascii_from_utf16(units: &[u16]) -> (r: Vec<u8>)
    ensures
        r@ == units@.map_values(|u: u16| ascii_unit(u)),
{
    let mut r: Vec<u8> = Vec::new();
    let mut i: usize = 0;
    while i < units.len()
        invariant
            i <= units@.len(),
            r@ == units@.take(i as int).map_values(|u: u16| ascii_unit(u)),
        decreases units@.len() - i,
    {
        let u = units[i];
        let b: u8 = if u < 128 {
            u as u8
        } else {
            0x3F
        };
        r.push(b);
        i = i + 1;
        assert(r@ =~= units@.take(i as int).map_values(|u: u16| ascii_unit(u)));
    }
    assert(units@.take(units@.len() as int) =~= units@);
    r
}

/// The title field of the Celeste instance is searched backwards from the
/// end of the object, 4 bytes at a time, down to offset 4: the offsets
/// tried, in order, for an object of `size` bytes (none unless the size is
/// plausible).
pub open spec fn title_offsets_spec(size: u32) -> Option<Seq<u64>> {
    if 8 <= size <= 0x1000 {
        Some(Seq::new(((size - 8) / 4 + 1) as nat, |k: int| (size - 4 - 4 * k) as u64))
    } else {
        None
    }
}

/// The field offsets tried for the title, for an object of `size` bytes:
/// none unless 8 <= size <= 4096; otherwise every 4-byte slot from the
/// last one (`size - 4`) back to offset 4, each once, the header's first
/// word (offset 0) excluded.
pub proof fn law_title_offsets(size: u32)
    ensures
        title_offsets_spec(size) is Some <==> 8 <= size <= 4096,
        title_offsets_spec(size) matches Some(o) ==> {
            &&& o.len() >= 1
            &&& o[0] == size - 4
            &&& forall|k: int| 0 < k < o.len() ==> #[trigger] o[k] == o[k - 1] - 4
            &&& 4 <= o.last() < 8
        },
{
}

pub fn title_offsets(size: u32) -> (r: Option<Vec<u64>>)
    ensures
        match (r, title_offsets_spec(size)) {
            (Some(v), Some(s)) => v@ == s,
            (None, None) => true,
            _ => false,
        },
{
    if size < 8 || size > 0x1000 {
        return None;
    }
    let ghost total = ((size - 8) / 4 + 1) as nat;
    let mut r: Vec<u64> = Vec::new();
    let mut offs: u64 = size as u64 - 4;
    while offs >= 4
        invariant
            8 <= size <= 0x1000,
            total == ((size - 8) / 4 + 1) as nat,
            offs + 4 * r@.len() == size - 4,
            r@.len() <= total,
            offs < 4 ==> r@.len() == total,
            offs >= 4 ==> r@.len() < total,
            forall|k: int| 0 <= k < r@.len() ==> r@[k] == (size - 4 - 4 * k) as u64,
        decreases offs,
    {
        r.push(offs);
        offs = offs - 4;
    }
    assert(r@ =~= Seq::new(total, |k: int| (size - 4 - 4 * k) as u64));
    Some(r)
}

/// The bytes of `Celeste`.
pub open spec fn celeste_title() -> Seq<u8> {
    seq![0x43u8, 0x65, 0x6c, 0x65, 0x73, 0x74, 0x65]
}

/// Whether a string read is the game's title.
pub fn is_celeste_title(bytes: &[u8]) -> (r: bool)
    ensures
        r == (bytes@ == celeste_title()),
{
    let title: [u8; 7] = [0x43u8, 0x65, 0x6c, 0x65, 0x73, 0x74, 0x65];
    assert(title@ =~= celeste_title());
    crate::text::bytes_eq(bytes, title.as_slice())
}

/// The string the field at offset `o` points to may read as the game's
/// title, when `title_at` answers as it may.
pub open spec fn title_read<F: Fn(u64) -> Option<Vec<u8>>>(title_at: &F, o: u64, is_title: bool) -> bool {
    exists|res: Option<Vec<u8>>|
        #[trigger] title_at.ensures((o,), res) && is_title == (res matches Some(b) && b@
            == celeste_title())
}

/// The first of `offsets` whose field holds the game's title: `title_at`
/// reads the string that the field at an offset points to (`None` when
/// the pointer cannot be read).  `None` when no field does.
pub fn first_title_offset<F: Fn(u64) -> Option<Vec<u8>>>(offsets: &Vec<u64>, title_at: &F) -> (r:
    Option<u64>)
    requires
        forall|o: u64| #[trigger] title_at.requires((o,)),
    ensures
        match r {
            Some(o) => exists|i: int|
                0 <= i < offsets@.len() && #[trigger] offsets@[i] == o && title_read(title_at, o, true)
                    && forall|j: int| 0 <= j < i ==> title_read(title_at, #[trigger] offsets@[j], false),
            None => forall|j: int|
                0 <= j < offsets@.len() ==> title_read(title_at, #[trigger] offsets@[j], false),
        },
{
    let mut i: usize = 0;
    while i < offsets.len()
        invariant
            i <= offsets@.len(),
            forall|o: u64| #[trigger] title_at.requires((o,)),
            forall|j: int| 0 <= j < i ==> title_read(title_at, #[trigger] offsets@[j], false),
        decreases offsets@.len() - i,
    {
        let o = offsets[i];
        let res = title_at(o);
        let found = match &res {
            Some(b) => is_celeste_title(b.as_slice()),
            None => false,
        };
        assert(title_read(title_at, o, found));
        if found {
            assert(offsets@[i as int] == o);
            return Some(o);
        }
        i = i + 1;
    }
    None
}

/// Everest: the address of the length of the room-name string at
/// `str_ptr` (its two bytes precede the chars, the subtraction wrapping);
/// none for a null pointer.
pub fn room_length_address(str_ptr: u64) -> (r: Option<u64>)
    ensures
        r == (if str_ptr == 0 {
            None
        } else if str_ptr >= 2 {
            Some((str_ptr - 2) as u64)
        } else {
            Some(u64::MAX)
        }),
{
    if str_ptr == 0 {
        None
    } else if str_ptr >= 2 {
        Some(str_ptr - 2)
    } else {
        Some(u64::MAX)
    }
}

/// JIT code lives in memory that is both executable and writable; a region
/// whose flags cannot be read is scanned too.
pub fn is_jit_region(flags: Option<RangeFlags>) -> (r: bool)
    ensures
        r == (match flags {
            Some(f) => f.write && f.execute,
            None => true,
        }),
{
    match flags {
        Some(f) => f.write && f.execute,
        None => true,
    }
}

/// Everest's info block is used only from version 3 on; an unreadable
/// version counts as 0.
pub fn everest_version_ok(version: Option<u8>) -> (r: bool)
    ensures
        r == (match version {
            Some(v) => v >= EVEREST_MIN_VERSION,
            None => false,
        }),
{
    match version {
        Some(v) => v >= EVEREST_MIN_VERSION,
        None => false,
    }
}

/// A session counter read is trusted only within `0..=1_000_000`.
pub open spec fn session_count_spec(v: Option<i32>) -> Option<i32> {
    match v {
        Some(x) => if 0 <= x <= SESSION_COUNT_MAX {
            Some(x)
        } else {
            None
        },
        None => None,
    }
}

pub fn session_count(v: Option<i32>) -> (r: Option<i32>)
    ensures
        r == session_count_spec(v),
{
    match v {
        Some(x) => if 0 <= x && x <= SESSION_COUNT_MAX {
            Some(x)
        } else {
            None
        },
        None => None,
    }
}

/// A session strawberry count is trusted only within `0..=1000`.
pub open spec fn session_strawberries_spec(v: Option<i32>) -> Option<i32> {
    match v {
        Some(x) => if 0 <= x <= SESSION_STRAWBERRIES_MAX {
            Some(x)
        } else {
            None
        },
        None => None,
    }
}

pub fn session_strawberries(v: Option<i32>) -> (r: Option<i32>)
    ensures
        r == session_strawberries_spec(v),
{
    match v {
        Some(x) => if 0 <= x && x <= SESSION_STRAWBERRIES_MAX {
            Some(x)
        } else {
            None
        },
        None => None,
    }
}

} // verus!
