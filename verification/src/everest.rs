//! Finding the session counters of the Everest (64-bit .NET Core) build.
//!
//! The counters live in `[anchor] -> Level -> +EV_LEVEL_SESSION -> Session
//! -> {deaths, dashes}`. `EvChain` discovers that chain by scanning the
//! process memory a bounded amount per tick, then follows it every tick.
//!
//! Memory is reached through a reader handed in by the caller: a call
//! `read(addr, n)` returns the `n` bytes at `addr`, or `None` when they
//! cannot be read. Nothing is assumed of what a reader returns, so every
//! property stated here holds whatever the process memory holds.
use vstd::prelude::*;
use crate::memory::{RangeFlags, EV_CHAPTER_TIME};

verus! {

/// Bytes read per chunk while scanning.
pub const CHUNK: usize = 65536;
/// Bytes scanned per tick at most (16 MiB).
pub const BUDGET_PER_TICK: usize = 16777216;
/// Level candidates kept at most.
pub const MAX_LEVELS: usize = 32;
/// Anchor slots kept at most (live and benched together).
pub const MAX_ANCHORS: usize = 1024;
/// Successful reads between two prunes of the anchor set.
pub const PRUNE_INTERVAL: u32 = 600;
/// Consecutive missed ticks after which the chain is rediscovered.
pub const MISS_LIMIT: u32 = 180;
/// Ticks to wait after a full pass found nothing (5 s).
pub const COOLDOWN_TICKS: u32 = 600;
/// Largest region scanned for anchor slots (4 MiB).
pub const ANCHOR_REGION_MAX: u64 = 4194304;
/// Largest region scanned for sessions and levels.
pub const SCAN_REGION_MAX: u64 = 0x2_0000_0000;

/// Offset of `Level.Session`.
pub const EV_LEVEL_SESSION: u64 = 0x50;
/// Offset of the session time (tracks the chapter time).
pub const S_TIME_FROM_BASE: u64 = 0x78;
/// Offset of the session dash count (`i32`).
pub const S_DASHES_FROM_BASE: u64 = 0x84;
/// Offset of the session death count (`i32`).
pub const S_DEATHS_FROM_BASE: u64 = 0x8C;

/// The unsigned little-endian value of `s`.
pub open spec fn le_value(s: Seq<u8>) -> nat
    decreases s.len(),
{
    if s.len() == 0 {
        0
    } else {
        s[0] as nat + 256 * le_value(s.drop_first())
    }
}

/// `256` to the power `n`.
pub open spec fn pow256(n: nat) -> nat
    decreases n,
{
    if n == 0 {
        1
    } else {
        256 * pow256((n - 1) as nat)
    }
}

proof fn lemma_le_value_bound(s: Seq<u8>)
    ensures
        le_value(s) < pow256(s.len()),
    decreases s.len(),
{
    if s.len() > 0 {
        lemma_le_value_bound(s.drop_first());
        let v = le_value(s.drop_first());
        let p = pow256(s.drop_first().len());
        assert(s[0] as nat + 256 * v < 256 * p) by (nonlinear_arith)
            requires
                v < p,
                s[0] < 256,
        ;
    }
}

proof fn lemma_pow256_mono(a: nat, b: nat)
    requires
        a <= b,
    ensures
        pow256(a) <= pow256(b),
    decreases b,
{
    if a < b {
        lemma_pow256_mono(a, (b - 1) as nat);
    }
}

/// The unsigned little-endian value of the `n` bytes of `s` from `start`.
fn le_unsigned(s: &[u8], start: usize, n: usize) -> (r: u64)
    requires
        n <= 8,
        start + n <= s@.len(),
    ensures
        r == le_value(s@.subrange(start as int, start + n)),
{
    let mut v: u64 = 0;
    let mut k: usize = n;
    proof {
        reveal_with_fuel(pow256, 8);
        assert(pow256(7) == 0x100_0000_0000_0000);
    }
    while k > 0
        invariant
            n <= 8,
            start + n <= s.len(),
            k <= n,
            v == le_value(s@.subrange(start + k, start + n)),
            v < pow256((n - k) as nat),
            pow256(7) == 0x100_0000_0000_0000,
        decreases k,
    {
        k = k - 1;
        let ghost tail = s@.subrange(start + k + 1, start + n);
        let ghost sub = s@.subrange(start + k, start + n);
        proof {
            assert(sub.drop_first() =~= tail);
            lemma_pow256_mono((n - k - 1) as nat, 7);
        }
        let b = s[start + k];
        assert(b as int + 256 * v < 0x1_0000_0000_0000_0000) by (nonlinear_arith)
            requires
                v < 0x100_0000_0000_0000,
                b < 256,
        ;
        proof {
            assert(pow256((n - k) as nat) == 256 * pow256((n - k - 1) as nat));
            assert(b as nat + 256 * v < 256 * pow256((n - k - 1) as nat)) by (nonlinear_arith)
                requires
                    v < pow256((n - k - 1) as nat),
                    b < 256,
            ;
        }
        v = b as u64 + 256 * v;
    }
    v
}

/// The two's complement value of the 64-bit pattern `v`.
pub open spec fn signed64(v: nat) -> int {
    if v >= 0x8000_0000_0000_0000 {
        v - 0x1_0000_0000_0000_0000
    } else {
        v as int
    }
}

/// The two's complement value of the 32-bit pattern `v`.
pub open spec fn signed32(v: nat) -> int {
    if v >= 0x8000_0000 {
        v - 0x1_0000_0000
    } else {
        v as int
    }
}

fn as_i64(v: u64) -> (r: i64)
    ensures
        r == signed64(v as nat),
{
    if v < 0x8000_0000_0000_0000 {
        v as i64
    } else {
        let low: i64 = (v - 0x8000_0000_0000_0000) as i64;
        low + (-9223372036854775808i64)
    }
}

fn as_i32(v: u64) -> (r: i32)
    requires
        v < 0x1_0000_0000,
    ensures
        r == signed32(v as nat),
{
    if v < 0x8000_0000 {
        v as i32
    } else {
        let low: i32 = (v - 0x8000_0000) as i32;
        low + (-2147483648i32)
    }
}

/// Whatever a reader may be asked, it may be called.
pub open spec fn reader_total<R: Fn(u64, usize) -> Option<Vec<u8>>>(read: &R) -> bool {
    forall|a: u64, n: usize| #[trigger] read.requires((a, n))
}

/// `bytes` is an answer the reader may give when asked for the `n` bytes at
/// `addr`: the bytes it returned, or `None` when it returned nothing or a
/// wrong number of bytes.
pub open spec fn reader_answer<R: Fn(u64, usize) -> Option<Vec<u8>>>(
    read: &R,
    addr: u64,
    n: usize,
    bytes: Option<Seq<u8>>,
) -> bool {
    exists|res: Option<Vec<u8>>|
        #[trigger] read.ensures((addr, n), res) && match res {
            Some(b) => if b@.len() == n {
                bytes == Some(b@)
            } else {
                bytes is None
            },
            None => bytes is None,
        }
}

/// `v` is a value a `u64` read at `addr` may give (little-endian).
pub open spec fn answers_u64<R: Fn(u64, usize) -> Option<Vec<u8>>>(
    read: &R,
    addr: u64,
    v: Option<u64>,
) -> bool {
    exists|bytes: Option<Seq<u8>>|
        #[trigger] reader_answer(read, addr, 8, bytes) && v == match bytes {
            Some(s) => Some(le_value(s) as u64),
            None => None,
        }
}

/// `v` is a value a `u32` read at `addr` may give (little-endian).
pub open spec fn answers_u32<R: Fn(u64, usize) -> Option<Vec<u8>>>(
    read: &R,
    addr: u64,
    v: Option<u32>,
) -> bool {
    exists|bytes: Option<Seq<u8>>|
        #[trigger] reader_answer(read, addr, 4, bytes) && v == match bytes {
            Some(s) => Some(le_value(s) as u32),
            None => None,
        }
}

/// `v` is a value an `i64` read at `addr` may give (little-endian, two's
/// complement).
pub open spec fn answers_i64<R: Fn(u64, usize) -> Option<Vec<u8>>>(
    read: &R,
    addr: u64,
    v: Option<i64>,
) -> bool {
    exists|bytes: Option<Seq<u8>>|
        #[trigger] reader_answer(read, addr, 8, bytes) && v == match bytes {
            Some(s) => Some(signed64(le_value(s)) as i64),
            None => None,
        }
}

/// `v` is a value an `i32` read at `addr` may give (little-endian, two's
/// complement).
pub open spec fn answers_i32<R: Fn(u64, usize) -> Option<Vec<u8>>>(
    read: &R,
    addr: u64,
    v: Option<i32>,
) -> bool {
    exists|bytes: Option<Seq<u8>>|
        #[trigger] reader_answer(read, addr, 4, bytes) && v == match bytes {
            Some(s) => Some(signed32(le_value(s)) as i32),
            None => None,
        }
}

/// Reads the `n` bytes at `addr`; an answer of another length counts as a
/// failed read.
fn read_exact<R: Fn(u64, usize) -> Option<Vec<u8>>>(read: &R, addr: u64, n: usize) -> (r: Option<
    Vec<u8>,
>)
    requires
        reader_total(read),
    ensures
        r matches Some(b) ==> b@.len() == n,
        reader_answer(
            read,
            addr,
            n,
            match r {
                Some(b) => Some(b@),
                None => None,
            },
        ),
{
    let res = read(addr, n);
    let ghost answer = res;
    match res {
        Some(b) => {
            if b.len() == n {
                let r = Some(b);
                assert(read.ensures((addr, n), answer));
                r
            } else {
                assert(read.ensures((addr, n), answer));
                None
            }
        },
        None => {
            assert(read.ensures((addr, n), answer));
            None
        },
    }
}

/// Reads a little-endian `u64` at `addr`.
fn read_u64<R: Fn(u64, usize) -> Option<Vec<u8>>>(read: &R, addr: u64) -> (r: Option<u64>)
    requires
        reader_total(read),
    ensures
        answers_u64(read, addr, r),
{
    let res = read_exact(read, addr, 8);
    let ghost bytes: Option<Seq<u8>> = if res is Some {
        Some(res->0@)
    } else {
        None
    };
    match res {
        Some(b) => {
            let v = le_unsigned(b.as_slice(), 0, 8);
            proof {
                assert(b@.subrange(0, 8) =~= b@);
            }
            assert(reader_answer(read, addr, 8, bytes));
            Some(v)
        },
        None => {
            assert(reader_answer(read, addr, 8, bytes));
            None
        },
    }
}

/// Reads a little-endian `u32` at `addr`.
fn read_u32<R: Fn(u64, usize) -> Option<Vec<u8>>>(read: &R, addr: u64) -> (r: Option<u32>)
    requires
        reader_total(read),
    ensures
        answers_u32(read, addr, r),
{
    let res = read_exact(read, addr, 4);
    let ghost bytes: Option<Seq<u8>> = if res is Some {
        Some(res->0@)
    } else {
        None
    };
    match res {
        Some(b) => {
            let v = le_unsigned(b.as_slice(), 0, 4);
            proof {
                assert(b@.subrange(0, 4) =~= b@);
                lemma_le_value_bound(b@.subrange(0, 4));
                reveal_with_fuel(pow256, 5);
            }
            assert(reader_answer(read, addr, 4, bytes));
            Some(v as u32)
        },
        None => {
            assert(reader_answer(read, addr, 4, bytes));
            None
        },
    }
}

/// Reads a little-endian `i64` at `addr`.
fn read_i64<R: Fn(u64, usize) -> Option<Vec<u8>>>(read: &R, addr: u64) -> (r: Option<i64>)
    requires
        reader_total(read),
    ensures
        answers_i64(read, addr, r),
{
    let res = read_u64(read, addr);
    proof {
        let bytes = choose|bytes: Option<Seq<u8>>|
            #[trigger] reader_answer(read, addr, 8, bytes) && res == match bytes {
                Some(s) => Some(le_value(s) as u64),
                None => None,
            };
        if let Some(s) = bytes {
            assert(s.len() == 8);
            lemma_le_value_bound(s);
            reveal_with_fuel(pow256, 9);
        }
        assert(reader_answer(read, addr, 8, bytes));
    }
    match res {
        Some(v) => Some(as_i64(v)),
        None => None,
    }
}

/// Reads a little-endian `i32` at `addr`.
fn read_i32<R: Fn(u64, usize) -> Option<Vec<u8>>>(read: &R, addr: u64) -> (r: Option<i32>)
    requires
        reader_total(read),
    ensures
        answers_i32(read, addr, r),
{
    let res = read_u32(read, addr);
    proof {
        let bytes = choose|bytes: Option<Seq<u8>>|
            #[trigger] reader_answer(read, addr, 4, bytes) && res == match bytes {
                Some(s) => Some(le_value(s) as u32),
                None => None,
            };
        if let Some(s) = bytes {
            assert(s.len() == 4);
            lemma_le_value_bound(s);
            reveal_with_fuel(pow256, 5);
        }
        assert(reader_answer(read, addr, 4, bytes));
    }
    match res {
        Some(v) => Some(as_i32(v as u64)),
        None => None,
    }
}

/// `a + b` modulo 2^64, as address arithmetic wraps.
pub open spec fn wrap_add(a: u64, b: u64) -> u64 {
    ((a as int + b as int) % 0x1_0000_0000_0000_0000) as u64
}

/// `a - b` modulo 2^64.
pub open spec fn wrap_sub(a: u64, b: u64) -> u64 {
    ((a as int - b as int) % 0x1_0000_0000_0000_0000) as u64
}

fn addr_add(a: u64, b: u64) -> (r: u64)
    ensures
        r == wrap_add(a, b),
{
    a.wrapping_add(b)
}

fn addr_sub(a: u64, b: u64) -> (r: u64)
    ensures
        r == wrap_sub(a, b),
{
    a.wrapping_sub(b)
}

/// An object address the chain accepts: above the first 64 KiB and 8-aligned.
pub open spec fn object_address_ok(a: u64) -> bool {
    a >= 0x1_0000 && a % 8 == 0
}

/// A .NET method table pointer the chain accepts.
pub open spec fn method_table_ok(mt: u64) -> bool {
    mt % 8 == 0 && 0x1_0000 <= mt < 0x0000_7FFF_FFFF_FFFF
}

/// A method table of .NET Core's high region, which real levels have.
pub open spec fn strict_method_table(mt: u64) -> bool {
    mt >= 0x7FF0_0000_0000
}

/// The base size a session's method table may announce.
pub open spec fn session_size_ok(sz: u32) -> bool {
    sz % 8 == 0 && 0x80 <= sz <= 0x1000
}

/// The base size a level's method table may announce.
pub open spec fn level_size_ok(sz: u32) -> bool {
    sz % 8 == 0 && 0x100 <= sz <= 0x1000
}

/// A live session's time is within 50 ms of the chapter time.
pub open spec fn session_time_live(chapter_time: i64, session_time: i64) -> bool {
    -500_000 < session_time - chapter_time < 500_000
}

/// A plausible death or dash count.
pub open spec fn session_count_ok(v: i32) -> bool {
    0 <= v <= 1_000_000
}

pub fn object_address(a: u64) -> (r: bool)
    ensures
        r == object_address_ok(a),
{
    a >= 0x1_0000 && a % 8 == 0
}

pub fn method_table(mt: u64) -> (r: bool)
    ensures
        r == method_table_ok(mt),
{
    mt % 8 == 0 && 0x1_0000 <= mt && mt < 0x0000_7FFF_FFFF_FFFF
}

pub fn session_size(sz: u32) -> (r: bool)
    ensures
        r == session_size_ok(sz),
{
    sz % 8 == 0 && 0x80 <= sz && sz <= 0x1000
}

pub fn level_size(sz: u32) -> (r: bool)
    ensures
        r == level_size_ok(sz),
{
    sz % 8 == 0 && 0x100 <= sz && sz <= 0x1000
}

pub fn session_time(chapter_time: i64, time: i64) -> (r: bool)
    ensures
        r == session_time_live(chapter_time, time),
{
    let d: i128 = time as i128 - chapter_time as i128;
    -500_000 < d && d < 500_000
}

pub fn session_count(v: i32) -> (r: bool)
    ensures
        r == session_count_ok(v),
{
    0 <= v && v <= 1_000_000
}

/// The outcome once the death count `d` is read: the dash count is read,
/// and both counts are returned when both are plausible.
pub open spec fn dashes_outcome<R: Fn(u64, usize) -> Option<Vec<u8>>>(
    read: &R,
    sbase: u64,
    d: i32,
    r: Option<(i32, i32)>,
) -> bool {
    exists|da: Option<i32>|
        #[trigger] answers_i32(read, wrap_add(sbase, S_DASHES_FROM_BASE), da) && match da {
            None => r is None,
            Some(da) => r == if session_count_ok(d) && session_count_ok(da) {
                Some((d, da))
            } else {
                None
            },
        }
}

/// The outcome once the session is known live: the death count is read.
pub open spec fn deaths_outcome<R: Fn(u64, usize) -> Option<Vec<u8>>>(
    read: &R,
    sbase: u64,
    r: Option<(i32, i32)>,
) -> bool {
    exists|d: Option<i32>|
        #[trigger] answers_i32(read, wrap_add(sbase, S_DEATHS_FROM_BASE), d) && match d {
            None => r is None,
            Some(d) => dashes_outcome(read, sbase, d, r),
        }
}

/// The outcome once the chapter time `ct` is read: the session time is
/// read and must track it.
pub open spec fn session_time_outcome<R: Fn(u64, usize) -> Option<Vec<u8>>>(
    read: &R,
    sbase: u64,
    ct: i64,
    r: Option<(i32, i32)>,
) -> bool {
    exists|t: Option<i64>|
        #[trigger] answers_i64(read, wrap_add(sbase, S_TIME_FROM_BASE), t) && match t {
            None => r is None,
            Some(t) => if session_time_live(ct, t) {
                deaths_outcome(read, sbase, r)
            } else {
                r is None
            },
        }
}

/// The outcome once the object's size is checked: the chapter time is read
/// from the info block at `base`.
pub open spec fn chapter_time_outcome<R: Fn(u64, usize) -> Option<Vec<u8>>>(
    read: &R,
    base: u64,
    sbase: u64,
    r: Option<(i32, i32)>,
) -> bool {
    exists|ct: Option<i64>|
        #[trigger] answers_i64(read, wrap_add(base, EV_CHAPTER_TIME), ct) && match ct {
            None => r is None,
            Some(ct) => session_time_outcome(read, sbase, ct, r),
        }
}

/// The outcome once the method table `mt` is checked: the object size it
/// announces is read and must be a session's.
pub open spec fn session_size_outcome<R: Fn(u64, usize) -> Option<Vec<u8>>>(
    read: &R,
    base: u64,
    sbase: u64,
    mt: u64,
    r: Option<(i32, i32)>,
) -> bool {
    exists|sz: Option<u32>|
        #[trigger] answers_u32(read, (mt + 4) as u64, sz) && match sz {
            None => r is None,
            Some(sz) => if session_size_ok(sz) {
                chapter_time_outcome(read, base, sbase, r)
            } else {
                r is None
            },
        }
}

/// `r` is what validating the session at `sbase` gives when the reader
/// answers as it may: the address, then in order its method table, the
/// size that announces, the chapter time, the session time, the deaths and
/// the dashes are read and checked, and the first failed read or check
/// gives `None`.
pub open spec fn session_outcome<R: Fn(u64, usize) -> Option<Vec<u8>>>(
    read: &R,
    base: u64,
    sbase: u64,
    r: Option<(i32, i32)>,
) -> bool {
    if !object_address_ok(sbase) {
        r is None
    } else {
        exists|mt: Option<u64>|
            #[trigger] answers_u64(read, sbase, mt) && match mt {
                None => r is None,
                Some(mt) => if method_table_ok(mt) {
                    session_size_outcome(read, base, sbase, mt, r)
                } else {
                    r is None
                },
            }
    }
}

/// `r` is what checking `lvl` as a `Level` gives when the reader answers as
/// it may: the address, its method table and the size that announces are
/// checked (`None` at the first failure), and the result says whether the
/// method table is a strict one.
pub open spec fn level_outcome<R: Fn(u64, usize) -> Option<Vec<u8>>>(
    read: &R,
    lvl: u64,
    r: Option<bool>,
) -> bool {
    if !object_address_ok(lvl) {
        r is None
    } else {
        exists|mt: Option<u64>|
            #[trigger] answers_u64(read, lvl, mt) && match mt {
                None => r is None,
                Some(mt) => if !method_table_ok(mt) {
                    r is None
                } else {
                    exists|sz: Option<u32>|
                        #[trigger] answers_u32(read, (mt + 4) as u64, sz) && match sz {
                            None => r is None,
                            Some(sz) => r == if level_size_ok(sz) {
                                Some(strict_method_table(mt))
                            } else {
                                None
                            },
                        }
                },
            }
    }
}

/// `r` is what following `slot -> Level -> Session` gives when the reader
/// answers as it may: the level pointer read at `slot` must be an object
/// address, the session pointer is read from the level, and the session is
/// validated.
pub open spec fn chain_outcome<R: Fn(u64, usize) -> Option<Vec<u8>>>(
    read: &R,
    base: u64,
    slot: u64,
    r: Option<(i32, i32)>,
) -> bool {
    exists|lvl: Option<u64>|
        #[trigger] answers_u64(read, slot, lvl) && match lvl {
            None => r is None,
            Some(lvl) => if !object_address_ok(lvl) {
                r is None
            } else {
                exists|sb: Option<u64>|
                    #[trigger] answers_u64(read, wrap_add(lvl, EV_LEVEL_SESSION), sb) && match sb {
                        None => r is None,
                        Some(sb) => session_outcome(read, base, sb, r),
                    }
            },
        }
}

/// Reads the session at `sbase` and returns its (deaths, dashes) if it is a
/// live session: a sane object whose time tracks the chapter time read at
/// `base`, with plausible counts.
fn validate_session<R: Fn(u64, usize) -> Option<Vec<u8>>>(read: &R, base: u64, sbase: u64) -> (r:
    Option<(i32, i32)>)
    requires
        reader_total(read),
    ensures
        session_outcome(read, base, sbase, r),
        !object_address_ok(sbase) ==> r is None,
        r matches Some((d, da)) ==> object_address_ok(sbase) && session_count_ok(d)
            && session_count_ok(da),
{
    if !object_address(sbase) {
        return None;
    }
    let mt = match read_u64(read, sbase) {
        Some(v) => v,
        None => return None,
    };
    if !method_table(mt) {
        return None;
    }
    let sz = match read_u32(read, mt + 4) {
        Some(v) => v,
        None => return None,
    };
    if !session_size(sz) {
        return None;
    }
    let ct = match read_i64(read, addr_add(base, EV_CHAPTER_TIME)) {
        Some(v) => v,
        None => return None,
    };
    let t = match read_i64(read, addr_add(sbase, S_TIME_FROM_BASE)) {
        Some(v) => v,
        None => return None,
    };
    if !session_time(ct, t) {
        return None;
    }
    let d = match read_i32(read, addr_add(sbase, S_DEATHS_FROM_BASE)) {
        Some(v) => v,
        None => return None,
    };
    let da = match read_i32(read, addr_add(sbase, S_DASHES_FROM_BASE)) {
        Some(v) => v,
        None => return None,
    };
    if session_count(d) && session_count(da) {
        Some((d, da))
    } else {
        None
    }
}

/// Whether `lvl` may be a `Level` object: `None` when it is not, else
/// whether its method table is a strict one.
fn plausible_level<R: Fn(u64, usize) -> Option<Vec<u8>>>(read: &R, lvl: u64) -> (r: Option<bool>)
    requires
        reader_total(read),
    ensures
        level_outcome(read, lvl, r),
        !object_address_ok(lvl) ==> r is None,
        r is Some ==> object_address_ok(lvl),
{
    if !object_address(lvl) {
        return None;
    }
    let mt = match read_u64(read, lvl) {
        Some(v) => v,
        None => return None,
    };
    if !method_table(mt) {
        return None;
    }
    let sz = match read_u32(read, mt + 4) {
        Some(v) => v,
        None => return None,
    };
    if !level_size(sz) {
        return None;
    }
    Some(mt >= 0x7FF0_0000_0000)
}

/// One memory range of the process as the caller lists it: its
/// `(base, size)` when that could be read, and its permissions when those
/// could be read.
#[derive(Clone, Copy)]
pub struct MemRange {
    pub range: Option<(u64, u64)>,
    pub flags: Option<RangeFlags>,
}

/// A range worth scanning: known, at most `max` bytes, and writable data
/// (writable and not executable; unknown permissions count as such).
pub open spec fn scan_candidate(r: MemRange, max: u64) -> bool {
    match r.range {
        Some((_, size)) => size <= max && match r.flags {
            Some(f) => f.write && !f.execute,
            None => true,
        },
        None => false,
    }
}

/// The `(base, size)` of each range worth scanning, in listing order.
pub open spec fn scan_ranges(rs: Seq<MemRange>, max: u64) -> Seq<(u64, u64)>
    decreases rs.len(),
{
    if rs.len() == 0 {
        Seq::empty()
    } else {
        let prev = scan_ranges(rs.drop_last(), max);
        if scan_candidate(rs.last(), max) {
            prev.push(rs.last().range.unwrap())
        } else {
            prev
        }
    }
}

proof fn lemma_scan_ranges_bounded(rs: Seq<MemRange>, max: u64)
    ensures
        forall|i: int| 0 <= i < scan_ranges(rs, max).len() ==> #[trigger] scan_ranges(rs, max)[i].1 <= max,
    decreases rs.len(),
{
    if rs.len() > 0 {
        lemma_scan_ranges_bounded(rs.drop_last(), max);
        let prev = scan_ranges(rs.drop_last(), max);
        if scan_candidate(rs.last(), max) {
            assert forall|i: int| 0 <= i < prev.len() + 1 implies #[trigger] prev.push(
                rs.last().range.unwrap(),
            )[i].1 <= max by {
                if i < prev.len() {
                    assert(prev.push(rs.last().range.unwrap())[i] == prev[i]);
                }
            }
        }
    }
}

/// `x` placed after every element of `s` whose size is at most its own
/// (for `s` sorted by size: its stable place).
pub open spec fn insert_by_size(s: Seq<(u64, u64)>, x: (u64, u64)) -> Seq<(u64, u64)>
    decreases s.len(),
{
    if s.len() == 0 || s.last().1 <= x.1 {
        s.push(x)
    } else {
        insert_by_size(s.drop_last(), x).push(s.last())
    }
}

/// `s` stably sorted by size.
pub open spec fn sort_by_size(s: Seq<(u64, u64)>) -> Seq<(u64, u64)>
    decreases s.len(),
{
    if s.len() == 0 {
        s
    } else {
        insert_by_size(sort_by_size(s.drop_last()), s.last())
    }
}

/// Sizes never decrease along `s`.
pub open spec fn sorted_by_size(s: Seq<(u64, u64)>) -> bool {
    forall|i: int, j: int| 0 <= i < j < s.len() ==> s[i].1 <= s[j].1
}

proof fn lemma_insert_at(s: Seq<(u64, u64)>, x: (u64, u64), j: int)
    requires
        0 <= j <= s.len(),
        forall|k: int| j <= k < s.len() ==> s[k].1 > x.1,
        j > 0 ==> s[j - 1].1 <= x.1,
    ensures
        insert_by_size(s, x) == s.insert(j, x),
    decreases s.len(),
{
    if s.len() == 0 || s.last().1 <= x.1 {
        assert(j == s.len());
        assert(s.push(x) =~= s.insert(j, x));
    } else {
        lemma_insert_at(s.drop_last(), x, j);
        assert(s.drop_last().insert(j, x).push(s.last()) =~= s.insert(j, x));
    }
}

/// Sorting by size keeps every element and orders them by size.
pub proof fn law_sort_by_size(s: Seq<(u64, u64)>)
    ensures
        sorted_by_size(sort_by_size(s)),
        sort_by_size(s).to_multiset() == s.to_multiset(),
    decreases s.len(),
{
    if s.len() > 0 {
        law_sort_by_size(s.drop_last());
        lemma_insert_sorted(sort_by_size(s.drop_last()), s.last());
        broadcast use vstd::seq_lib::group_seq_properties;
        assert(s =~= s.drop_last().push(s.last()));
    }
}

proof fn lemma_insert_sorted(s: Seq<(u64, u64)>, x: (u64, u64))
    requires
        sorted_by_size(s),
    ensures
        sorted_by_size(insert_by_size(s, x)),
        insert_by_size(s, x).to_multiset() == s.to_multiset().insert(x),
    decreases s.len(),
{
    broadcast use vstd::seq_lib::group_seq_properties;
    if s.len() == 0 || s.last().1 <= x.1 {
    } else {
        lemma_insert_sorted(s.drop_last(), x);
        let t = insert_by_size(s.drop_last(), x);
        assert(s =~= s.drop_last().push(s.last()));
        assert forall|i: int| 0 <= i < t.len() implies t[i].1 <= s.last().1 by {
            assert(t.to_multiset().count(t[i]) > 0);
            assert(s.drop_last().to_multiset().insert(x).count(t[i]) > 0);
            if t[i] != x {
                assert(s.drop_last().to_multiset().count(t[i]) > 0);
                assert(s.drop_last().contains(t[i]));
                let k = choose|k: int| 0 <= k < s.drop_last().len() && s.drop_last()[k] == t[i];
                assert(s[k] == t[i]);
            }
        }
    }
}

/// The outcome of reading the next chunk from position (`idx`, `off`) of
/// `ranges` when the reader answers as it may: ranges passed to their end
/// are left behind; the next `min(max, rest)` bytes of the range are read;
/// a readable chunk is `r`, with the cursor left at (`idx2`, `off2`) just
/// after it; an unreadable one skips the rest of its range; past the last
/// range `r` is `None`.
pub open spec fn chunk_from<R: Fn(u64, usize) -> Option<Vec<u8>>>(
    read: &R,
    ranges: Seq<(u64, u64)>,
    max: usize,
    idx: int,
    off: u64,
    r: Option<(u64, Seq<u8>)>,
    idx2: int,
    off2: u64,
) -> bool
    decreases ranges.len() - idx,
{
    if idx < 0 || idx >= ranges.len() {
        r is None && idx2 == idx && off2 == off
    } else if off >= ranges[idx].1 {
        chunk_from(read, ranges, max, idx + 1, 0, r, idx2, off2)
    } else {
        let n: int = if max < ranges[idx].1 - off {
            max as int
        } else {
            ranges[idx].1 - off
        };
        let addr = wrap_add(ranges[idx].0, off);
        ||| {
            &&& r matches Some((a, bytes)) && a == addr && reader_answer(
                read,
                addr,
                n as usize,
                Some(bytes),
            )
            &&& idx2 == idx
            &&& off2 == off + n
        }
        ||| {
            &&& reader_answer(read, addr, n as usize, None)
            &&& chunk_from(read, ranges, max, idx + 1, 0, r, idx2, off2)
        }
    }
}

/// `cs` are the chunks that successive reads give, in order, from position
/// (`idx0`, `off0`) of `ranges`, the cursor then standing at (`idx1`,
/// `off1`).
pub open spec fn chunk_walk<R: Fn(u64, usize) -> Option<Vec<u8>>>(
    read: &R,
    ranges: Seq<(u64, u64)>,
    max: usize,
    idx0: int,
    off0: u64,
    cs: Seq<(u64, Seq<u8>)>,
    idx1: int,
    off1: u64,
) -> bool
    decreases cs.len(),
{
    if cs.len() == 0 {
        idx1 == idx0 && off1 == off0
    } else {
        exists|i: int, o: u64|
            chunk_walk(read, ranges, max, idx0, off0, cs.drop_last(), i, o) && #[trigger] chunk_from(
                read,
                ranges,
                max,
                i,
                o,
                Some(cs.last()),
                idx1,
                off1,
            )
    }
}

/// From (`idx`, `off`) the reads give no chunk any more: the pass is over.
pub open spec fn walk_ends<R: Fn(u64, usize) -> Option<Vec<u8>>>(
    read: &R,
    ranges: Seq<(u64, u64)>,
    max: usize,
    idx: int,
    off: u64,
) -> bool {
    exists|i2: int, o2: u64| #[trigger] chunk_from(read, ranges, max, idx, off, None, i2, o2)
}

/// The number of bytes in the chunks `cs`.
pub open spec fn chunk_bytes(cs: Seq<(u64, Seq<u8>)>) -> int
    decreases cs.len(),
{
    if cs.len() == 0 {
        0
    } else {
        chunk_bytes(cs.drop_last()) + cs.last().1.len()
    }
}

/// A tick scans chunks while fewer than `BUDGET_PER_TICK` bytes were
/// scanned before the last one.
pub open spec fn within_budget(cs: Seq<(u64, Seq<u8>)>) -> bool {
    cs.len() > 0 ==> chunk_bytes(cs.drop_last()) < BUDGET_PER_TICK
}

/// The little-endian `u64` at offset `i` of `bytes`.
pub open spec fn word_at(bytes: Seq<u8>, i: int) -> u64 {
    le_value(bytes.subrange(i, i + 8)) as u64
}

/// Whether the level at `v` leads to a live session, when the reader
/// answers as it may: its session pointer is read and the session
/// validated.
pub open spec fn level_leads<R: Fn(u64, usize) -> Option<Vec<u8>>>(
    read: &R,
    base: u64,
    v: u64,
    ok: bool,
) -> bool {
    exists|sb: Option<u64>|
        #[trigger] answers_u64(read, wrap_add(v, EV_LEVEL_SESSION), sb) && match sb {
            None => !ok,
            Some(sb) => exists|r: Option<(i32, i32)>|
                #[trigger] session_outcome(read, base, sb, r) && ok == (r is Some),
        }
}

/// The anchors after scanning `bytes` (read at `addr`) from offset `i`:
/// each aligned word that is one of `levels` gives a slot, kept when the
/// list has room, does not hold it yet, and the level leads to a live
/// session.
pub open spec fn anchors_in_chunk<R: Fn(u64, usize) -> Option<Vec<u8>>>(
    read: &R,
    base: u64,
    levels: Seq<u64>,
    found0: Seq<u64>,
    addr: u64,
    bytes: Seq<u8>,
    i: int,
    found1: Seq<u64>,
) -> bool
    decreases bytes.len() - i,
{
    if i < 0 || i + 8 > bytes.len() {
        found1 == found0
    } else {
        let v = word_at(bytes, i);
        let slot = wrap_add(addr, i as u64);
        if levels.contains(v) && found0.len() < MAX_ANCHORS && !found0.contains(slot) {
            ||| level_leads(read, base, v, true) && anchors_in_chunk(
                read,
                base,
                levels,
                found0.push(slot),
                addr,
                bytes,
                i + 8,
                found1,
            )
            ||| level_leads(read, base, v, false) && anchors_in_chunk(
                read,
                base,
                levels,
                found0,
                addr,
                bytes,
                i + 8,
                found1,
            )
        } else {
            anchors_in_chunk(read, base, levels, found0, addr, bytes, i + 8, found1)
        }
    }
}

/// The anchors after scanning the chunks `cs` in order, starting from
/// `found0`.
pub open spec fn anchors_pass<R: Fn(u64, usize) -> Option<Vec<u8>>>(
    read: &R,
    base: u64,
    levels: Seq<u64>,
    found0: Seq<u64>,
    cs: Seq<(u64, Seq<u8>)>,
    found1: Seq<u64>,
) -> bool
    decreases cs.len(),
{
    if cs.len() == 0 {
        found1 == found0
    } else {
        exists|mid: Seq<u64>|
            anchors_pass(read, base, levels, found0, cs.drop_last(), mid) && #[trigger] anchors_in_chunk(
                read,
                base,
                levels,
                mid,
                cs.last().0,
                cs.last().1,
                0,
                found1,
            )
    }
}

proof fn lemma_walk_push<R: Fn(u64, usize) -> Option<Vec<u8>>>(
    read: &R,
    ranges: Seq<(u64, u64)>,
    max: usize,
    idx0: int,
    off0: u64,
    cs: Seq<(u64, Seq<u8>)>,
    i: int,
    o: u64,
    c: (u64, Seq<u8>),
    i2: int,
    o2: u64,
)
    requires
        chunk_walk(read, ranges, max, idx0, off0, cs, i, o),
        chunk_from(read, ranges, max, i, o, Some(c), i2, o2),
    ensures
        chunk_walk(read, ranges, max, idx0, off0, cs.push(c), i2, o2),
        chunk_bytes(cs.push(c)) == chunk_bytes(cs) + c.1.len(),
{
    assert(cs.push(c).drop_last() =~= cs);
    assert(cs.push(c).last() == c);
}

proof fn lemma_anchors_pass_push<R: Fn(u64, usize) -> Option<Vec<u8>>>(
    read: &R,
    base: u64,
    levels: Seq<u64>,
    found0: Seq<u64>,
    cs: Seq<(u64, Seq<u8>)>,
    mid: Seq<u64>,
    c: (u64, Seq<u8>),
    found1: Seq<u64>,
)
    requires
        anchors_pass(read, base, levels, found0, cs, mid),
        anchors_in_chunk(read, base, levels, mid, c.0, c.1, 0, found1),
    ensures
        anchors_pass(read, base, levels, found0, cs.push(c), found1),
{
    assert(cs.push(c).drop_last() =~= cs);
    assert(cs.push(c).last() == c);
}

/// Whether a candidate at `lvl` is already in `s`.
pub open spec fn has_level_addr(s: Seq<(u64, bool)>, lvl: u64) -> bool {
    exists|k: int| 0 <= k < s.len() && #[trigger] s[k].0 == lvl
}

/// The level candidates after scanning `bytes` (read at `addr`) from offset
/// `i`: each aligned word equal to `sbase` sits at a level's session field;
/// that level is added, with whether its method table is strict, when the
/// list has room, does not hold it yet, and it checks as a plausible level.
pub open spec fn levels_in_chunk<R: Fn(u64, usize) -> Option<Vec<u8>>>(
    read: &R,
    sbase: u64,
    cands0: Seq<(u64, bool)>,
    addr: u64,
    bytes: Seq<u8>,
    i: int,
    cands1: Seq<(u64, bool)>,
) -> bool
    decreases bytes.len() - i,
{
    if i < 0 || i + 8 > bytes.len() {
        cands1 == cands0
    } else {
        let lvl = wrap_sub(wrap_add(addr, i as u64), EV_LEVEL_SESSION);
        if word_at(bytes, i) == sbase && cands0.len() < MAX_LEVELS && !has_level_addr(cands0, lvl) {
            exists|o: Option<bool>|
                #[trigger] level_outcome(read, lvl, o) && match o {
                    Some(st) => levels_in_chunk(
                        read,
                        sbase,
                        cands0.push((lvl, st)),
                        addr,
                        bytes,
                        i + 8,
                        cands1,
                    ),
                    None => levels_in_chunk(read, sbase, cands0, addr, bytes, i + 8, cands1),
                }
        } else {
            levels_in_chunk(read, sbase, cands0, addr, bytes, i + 8, cands1)
        }
    }
}

/// The level candidates after scanning the chunks `cs` in order.
pub open spec fn levels_pass<R: Fn(u64, usize) -> Option<Vec<u8>>>(
    read: &R,
    sbase: u64,
    cands0: Seq<(u64, bool)>,
    cs: Seq<(u64, Seq<u8>)>,
    cands1: Seq<(u64, bool)>,
) -> bool
    decreases cs.len(),
{
    if cs.len() == 0 {
        cands1 == cands0
    } else {
        exists|mid: Seq<(u64, bool)>|
            levels_pass(read, sbase, cands0, cs.drop_last(), mid) && #[trigger] levels_in_chunk(
                read,
                sbase,
                mid,
                cs.last().0,
                cs.last().1,
                0,
                cands1,
            )
    }
}

proof fn lemma_levels_pass_push<R: Fn(u64, usize) -> Option<Vec<u8>>>(
    read: &R,
    sbase: u64,
    cands0: Seq<(u64, bool)>,
    cs: Seq<(u64, Seq<u8>)>,
    mid: Seq<(u64, bool)>,
    c: (u64, Seq<u8>),
    cands1: Seq<(u64, bool)>,
)
    requires
        levels_pass(read, sbase, cands0, cs, mid),
        levels_in_chunk(read, sbase, mid, c.0, c.1, 0, cands1),
    ensures
        levels_pass(read, sbase, cands0, cs.push(c), cands1),
{
    assert(cs.push(c).drop_last() =~= cs);
    assert(cs.push(c).last() == c);
}

/// The session found by scanning `bytes` (read at `addr`) from offset `i`:
/// the first aligned `i64` between `lo` and `hi` whose enclosing object (the
/// value is its session time) validates as a live session.
pub open spec fn session_in_chunk<R: Fn(u64, usize) -> Option<Vec<u8>>>(
    read: &R,
    base: u64,
    lo: int,
    hi: int,
    addr: u64,
    bytes: Seq<u8>,
    i: int,
    found: Option<u64>,
) -> bool
    decreases bytes.len() - i,
{
    if i < 0 || i + 8 > bytes.len() {
        found is None
    } else {
        let v = signed64(le_value(bytes.subrange(i, i + 8)));
        let sbase = wrap_sub(wrap_add(addr, i as u64), S_TIME_FROM_BASE);
        if lo <= v <= hi {
            exists|o: Option<(i32, i32)>|
                #[trigger] session_outcome(read, base, sbase, o) && if o is Some {
                    found == Some(sbase)
                } else {
                    session_in_chunk(read, base, lo, hi, addr, bytes, i + 8, found)
                }
        } else {
            session_in_chunk(read, base, lo, hi, addr, bytes, i + 8, found)
        }
    }
}

/// No chunk of `cs` holds a live session.
pub open spec fn no_session_in<R: Fn(u64, usize) -> Option<Vec<u8>>>(
    read: &R,
    base: u64,
    lo: int,
    hi: int,
    cs: Seq<(u64, Seq<u8>)>,
) -> bool
    decreases cs.len(),
{
    cs.len() == 0 || (no_session_in(read, base, lo, hi, cs.drop_last()) && session_in_chunk(
        read,
        base,
        lo,
        hi,
        cs.last().0,
        cs.last().1,
        0,
        None,
    ))
}

/// One tick of the session scan from position (`idx0`, `off0`) of
/// `ranges`, once the chapter time `ct` is read: the window is 30 ms
/// before to 8 s after it; the scan goes on (`FindSession` at the
/// position reached) once the byte budget is spent, stops with a cool-down
/// at the end of a pass, or moves on to the levels of the first live
/// session found.
pub open spec fn session_scan<R: Fn(u64, usize) -> Option<Vec<u8>>>(
    read: &R,
    base: u64,
    ct: i64,
    ranges: Seq<(u64, u64)>,
    idx0: int,
    off0: u64,
    r: ChainState,
) -> bool {
    let lo = ct - 300_000;
    let hi = ct + 80_000_000;
    exists|cs: Seq<(u64, Seq<u8>)>, i1: int, o1: u64|
        #[trigger] chunk_walk(read, ranges, CHUNK, idx0, off0, cs, i1, o1) && within_budget(cs)
            && match r {
            ChainState::FindSession(c) => {
                &&& chunk_bytes(cs) >= BUDGET_PER_TICK
                &&& no_session_in(read, base, lo, hi, cs)
                &&& c.idx == i1
                &&& c.off == o1
            },
            ChainState::Cooldown(_) => {
                &&& walk_ends(read, ranges, CHUNK, i1, o1)
                &&& chunk_bytes(cs) < BUDGET_PER_TICK
                &&& no_session_in(read, base, lo, hi, cs)
            },
            ChainState::FindLevels { sbase, cursor, levels } => {
                &&& cs.len() > 0
                &&& no_session_in(read, base, lo, hi, cs.drop_last())
                &&& session_in_chunk(read, base, lo, hi, cs.last().0, cs.last().1, 0, Some(sbase))
            },
            _ => false,
        }
}

/// One tick of the level scan from position (`idx0`, `off0`) of `ranges`,
/// the session still validating: the candidates found in the chunks read
/// (`found`, extending `levels`) go on to the next tick once the byte
/// budget is spent; at the end of the pass none gives a cool-down, and
/// otherwise the selected levels start the anchor scan.
pub open spec fn levels_scan<R: Fn(u64, usize) -> Option<Vec<u8>>>(
    read: &R,
    sbase: u64,
    levels: Seq<(u64, bool)>,
    ranges: Seq<(u64, u64)>,
    idx0: int,
    off0: u64,
    r: ChainState,
) -> bool {
    exists|cs: Seq<(u64, Seq<u8>)>, found: Seq<(u64, bool)>, i1: int, o1: u64|
            #![trigger chunk_walk(read, ranges, CHUNK, idx0, off0, cs, i1, o1), levels_pass(read, sbase, levels, cs, found)]
            {
                &&& chunk_walk(read, ranges, CHUNK, idx0, off0, cs, i1, o1)
                &&& levels_pass(read, sbase, levels, cs, found)
                &&& within_budget(cs)
                &&& match r {
                    ChainState::Cooldown(_) => {
                        &&& walk_ends(read, ranges, CHUNK, i1, o1)
                        &&& chunk_bytes(cs) < BUDGET_PER_TICK
                        &&& found.len() == 0
                    },
                    ChainState::FindAnchors { levels: chosen, cursor: c, anchors } => {
                        &&& walk_ends(read, ranges, CHUNK, i1, o1)
                        &&& chunk_bytes(cs) < BUDGET_PER_TICK
                        &&& found.len() > 0
                        &&& chosen@ == select_levels_spec(found)
                    },
                    ChainState::FindLevels { sbase: s2, cursor: c, levels: l2 } => {
                        &&& chunk_bytes(cs) >= BUDGET_PER_TICK
                        &&& l2@ == found
                        &&& c.idx == i1
                        &&& c.off == o1
                    },
                    _ => false,
                }
            }
}

/// One tick of the anchor scan from position (`idx0`, `off0`) of
/// `ranges`: the slots found in the chunks read (`found`, extending
/// `anchors`) go on to the next tick once the byte budget is spent; at the
/// end of the pass none gives a cool-down, and otherwise the anchors
/// selected against the previous discovery's `prev` become the known
/// chain.
pub open spec fn anchors_scan<R: Fn(u64, usize) -> Option<Vec<u8>>>(
    read: &R,
    base: u64,
    levels: Seq<u64>,
    anchors: Seq<u64>,
    prev: Seq<u64>,
    ranges: Seq<(u64, u64)>,
    idx0: int,
    off0: u64,
    r: ChainState,
) -> bool {
    exists|cs: Seq<(u64, Seq<u8>)>, found: Seq<u64>, i1: int, o1: u64|
            #![trigger chunk_walk(read, ranges, CHUNK, idx0, off0, cs, i1, o1), anchors_pass(read, base, levels, anchors, cs, found)]
            {
                &&& chunk_walk(read, ranges, CHUNK, idx0, off0, cs, i1, o1)
                &&& anchors_pass(read, base, levels, anchors, cs, found)
                &&& within_budget(cs)
                &&& match r {
                    ChainState::Cooldown(_) => {
                        &&& walk_ends(read, ranges, CHUNK, i1, o1)
                        &&& chunk_bytes(cs) < BUDGET_PER_TICK
                        &&& found.len() == 0
                    },
                    ChainState::Ready(kept) => {
                        &&& walk_ends(read, ranges, CHUNK, i1, o1)
                        &&& chunk_bytes(cs) < BUDGET_PER_TICK
                        &&& found.len() > 0
                        &&& kept@ == select_anchors_spec(found, prev)
                    },
                    ChainState::FindAnchors { levels: l2, cursor: c, anchors: a2 } => {
                        &&& chunk_bytes(cs) >= BUDGET_PER_TICK
                        &&& a2@ == found
                        &&& c.idx == i1
                        &&& c.off == o1
                    },
                    _ => false,
                }
            }
}

/// One tick of the session scan from position (`idx0`, `off0`) of
/// `ranges`: the chapter time is read first; unreadable, the scan waits
/// where it is.
pub open spec fn session_tick<R: Fn(u64, usize) -> Option<Vec<u8>>>(
    read: &R,
    base: u64,
    ranges: Seq<(u64, u64)>,
    idx0: int,
    off0: u64,
    r: ChainState,
) -> bool {
    exists|ct: Option<i64>|
        #[trigger] answers_i64(read, wrap_add(base, EV_CHAPTER_TIME), ct) && match ct {
            None => r matches ChainState::FindSession(c) && c.idx == idx0 && c.off == off0,
            Some(ct) => session_scan(read, base, ct, ranges, idx0, off0, r),
        }
}

/// A position in a list of ranges: the range being read and the offset
/// within it.
pub struct ScanCursor {
    pub ranges: Vec<(u64, u64)>,
    pub idx: usize,
    pub off: u64,
}

impl ScanCursor {
    pub open spec fn wf(&self) -> bool {
        &&& self.idx <= self.ranges@.len()
        &&& self.idx < self.ranges@.len() ==> self.off <= self.ranges@[self.idx as int].1
    }

    /// The cursor sits at the start of its list.
    pub open spec fn at_start(&self) -> bool {
        self.idx == 0 && self.off == 0
    }

    /// Whether the cursor has passed every range.
    pub open spec fn exhausted(&self) -> bool {
        self.idx == self.ranges@.len()
    }

    /// A cursor at the start of the ranges of `listing` worth scanning.
    pub fn snapshot_from(listing: &Vec<MemRange>, max_range: u64) -> (c: ScanCursor)
        ensures
            c.wf(),
            c.at_start(),
            c.ranges@ == scan_ranges(listing@, max_range),
    {
        let mut ranges: Vec<(u64, u64)> = Vec::new();
        let mut i: usize = 0;
        while i < listing.len()
            invariant
                i <= listing@.len(),
                ranges@ == scan_ranges(listing@.take(i as int), max_range),
            decreases listing@.len() - i,
        {
            let r = listing[i];
            proof {
                assert(listing@.take(i + 1).drop_last() =~= listing@.take(i as int));
            }
            match r.range {
                Some((b, size)) => {
                    let writable = match r.flags {
                        Some(f) => f.write && !f.execute,
                        None => true,
                    };
                    if writable && size <= max_range {
                        ranges.push((b, size));
                    }
                },
                None => {},
            }
            i = i + 1;
        }
        proof {
            assert(listing@.take(listing@.len() as int) =~= listing@);
        }
        ScanCursor { ranges, idx: 0, off: 0 }
    }

    /// Lists the ranges with `list_ranges` and starts at the first one worth
    /// scanning.
    pub fn snapshot<M: Fn() -> Vec<MemRange>>(list_ranges: &M, max_range: u64) -> (c: ScanCursor)
        requires
            list_ranges.requires(()),
        ensures
            c.wf(),
            c.at_start(),
            exists|listing: Vec<MemRange>|
                list_ranges.ensures((), listing) && c.ranges@ == scan_ranges(listing@, max_range),
            forall|i: int| 0 <= i < c.ranges@.len() ==> #[trigger] c.ranges@[i].1 <= max_range,
    {
        let listing = list_ranges();
        let c = ScanCursor::snapshot_from(&listing, max_range);
        proof {
            lemma_scan_ranges_bounded(listing@, max_range);
        }
        c
    }

    /// Orders the ranges by size, smallest first, keeping the listing order
    /// among equal sizes.
    pub fn sort_ranges_by_size(&mut self)
        requires
            old(self).at_start(),
        ensures
            final(self).wf(),
            final(self).at_start(),
            final(self).ranges@ == sort_by_size(old(self).ranges@),
    {
        let mut out: Vec<(u64, u64)> = Vec::new();
        let mut i: usize = 0;
        while i < self.ranges.len()
            invariant
                i <= self.ranges@.len(),
                out@ == sort_by_size(self.ranges@.take(i as int)),
            decreases self.ranges@.len() - i,
        {
            let x = self.ranges[i];
            proof {
                law_sort_by_size(self.ranges@.take(i as int));
                assert(self.ranges@.take(i + 1).drop_last() =~= self.ranges@.take(i as int));
            }
            let mut j: usize = out.len();
            while j > 0 && out[j - 1].1 > x.1
                invariant
                    j <= out@.len(),
                    forall|k: int| j <= k < out@.len() ==> out@[k].1 > x.1,
                decreases j,
            {
                j = j - 1;
            }
            proof {
                lemma_insert_at(out@, x, j as int);
            }
            out.insert(j, x);
            i = i + 1;
        }
        proof {
            assert(self.ranges@.take(self.ranges@.len() as int) =~= self.ranges@);
        }
        self.ranges = out;
    }

    /// Reads the next chunk of at most `max` bytes. An unreadable chunk
    /// skips the rest of its range. `None` once every range is passed.
    pub fn next_chunk<R: Fn(u64, usize) -> Option<Vec<u8>>>(&mut self, read: &R, max: usize) -> (r:
        Option<(u64, Vec<u8>)>)
        requires
            old(self).wf(),
            reader_total(read),
            max > 0,
        ensures
            final(self).wf(),
            final(self).ranges@ == old(self).ranges@,
            old(self).idx < final(self).idx || (old(self).idx == final(self).idx && old(self).off
                <= final(self).off),
            match r {
                Some((addr, bytes)) => {
                    &&& final(self).idx < final(self).ranges@.len()
                    &&& 0 < bytes@.len() <= max
                    &&& bytes@.len() <= final(self).off
                    &&& addr == wrap_add(
                        final(self).ranges@[final(self).idx as int].0,
                        (final(self).off - bytes@.len()) as u64,
                    )
                },
                None => final(self).exhausted(),
            },
            r is Some ==> old(self).idx < final(self).idx || (old(self).idx == final(self).idx
                && old(self).off < final(self).off),
            chunk_from(
                read,
                old(self).ranges@,
                max,
                old(self).idx as int,
                old(self).off,
                match r {
                    Some((a, b)) => Some((a, b@)),
                    None => None,
                },
                final(self).idx as int,
                final(self).off,
            ),
    {
        let ghost ranges = self.ranges@;
        while self.idx < self.ranges.len()
            invariant
                self.wf(),
                self.ranges@ == old(self).ranges@,
                ranges == old(self).ranges@,
                old(self).idx < self.idx || (old(self).idx == self.idx && old(self).off <= self.off),
                reader_total(read),
                max > 0,
                forall|r: Option<(u64, Seq<u8>)>, i2: int, o2: u64|
                    #[trigger] chunk_from(read, ranges, max, self.idx as int, self.off, r, i2, o2)
                        ==> chunk_from(read, ranges, max, old(self).idx as int, old(self).off, r, i2, o2),
            decreases self.ranges@.len() - self.idx,
        {
            let (b, size) = self.ranges[self.idx];
            if self.off >= size {
                let ghost i0 = self.idx as int;
                let ghost o0 = self.off;
                self.idx = self.idx + 1;
                self.off = 0;
                proof {
                    assert forall|r: Option<(u64, Seq<u8>)>, i2: int, o2: u64|
                        #[trigger] chunk_from(read, ranges, max, self.idx as int, self.off, r, i2, o2)
                            implies chunk_from(read, ranges, max, old(self).idx as int, old(self).off, r, i2, o2) by {
                        assert(chunk_from(read, ranges, max, i0, o0, r, i2, o2));
                    }
                }
                continue;
            }
            let rest: u64 = size - self.off;
            let n: usize = if (max as u64) < rest {
                max
            } else {
                rest as usize
            };
            let addr = addr_add(b, self.off);
            let ghost i0 = self.idx as int;
            let ghost o0 = self.off;
            match read_exact(read, addr, n) {
                Some(bytes) => {
                    self.off = self.off + n as u64;
                    proof {
                        assert(chunk_from(read, ranges, max, i0, o0, Some((addr, bytes@)), i0, self.off));
                    }
                    return Some((addr, bytes));
                },
                None => {
                    self.idx = self.idx + 1;
                    self.off = 0;
                    proof {
                        assert forall|r: Option<(u64, Seq<u8>)>, i2: int, o2: u64|
                            #[trigger] chunk_from(read, ranges, max, self.idx as int, self.off, r, i2, o2)
                                implies chunk_from(read, ranges, max, old(self).idx as int, old(self).off, r, i2, o2) by {
                            assert(chunk_from(read, ranges, max, i0, o0, r, i2, o2));
                        }
                    }
                },
            }
        }
        proof {
            assert(chunk_from(read, ranges, max, self.idx as int, self.off, None, self.idx as int, self.off));
        }
        None
    }
}

/// The addresses of the candidates found with a strict method table, in
/// order.
pub open spec fn strict_levels(s: Seq<(u64, bool)>) -> Seq<u64>
    decreases s.len(),
{
    if s.len() == 0 {
        Seq::empty()
    } else if s.last().1 {
        strict_levels(s.drop_last()).push(s.last().0)
    } else {
        strict_levels(s.drop_last())
    }
}

/// The levels kept from the candidates: the strict ones when there are any,
/// else all of them.
pub open spec fn select_levels_spec(s: Seq<(u64, bool)>) -> Seq<u64> {
    if strict_levels(s).len() == 0 {
        s.map_values(|c: (u64, bool)| c.0)
    } else {
        strict_levels(s)
    }
}

/// The anchors also found by the previous discovery, in order.
pub open spec fn golden_anchors(a: Seq<u64>, prev: Seq<u64>) -> Seq<u64>
    decreases a.len(),
{
    if a.len() == 0 {
        Seq::empty()
    } else if prev.contains(a.last()) {
        golden_anchors(a.drop_last(), prev).push(a.last())
    } else {
        golden_anchors(a.drop_last(), prev)
    }
}

/// The anchors kept: those the previous discovery found too when there are
/// any, else all of them.
pub open spec fn select_anchors_spec(a: Seq<u64>, prev: Seq<u64>) -> Seq<u64> {
    if golden_anchors(a, prev).len() == 0 {
        a
    } else {
        golden_anchors(a, prev)
    }
}

/// No element of `a` is one of `b`.
pub open spec fn disjoint(a: Seq<u64>, b: Seq<u64>) -> bool {
    forall|x: u64| #[trigger] a.contains(x) ==> !b.contains(x)
}

/// Every slot of `a` or `b` was one of `a0` or `b0`.
pub open spec fn slots_within(a: Seq<u64>, b: Seq<u64>, a0: Seq<u64>, b0: Seq<u64>) -> bool {
    forall|x: u64| (#[trigger] a.contains(x) || #[trigger] b.contains(x)) ==> (a0.contains(x) || b0.contains(x))
}

/// No two candidates share an address.
pub open spec fn distinct_levels(s: Seq<(u64, bool)>) -> bool {
    forall|i: int, j: int| 0 <= i < j < s.len() ==> s[i].0 != s[j].0
}

proof fn lemma_golden_sub(a: Seq<u64>, prev: Seq<u64>)
    ensures
        forall|i: int| 0 <= i < golden_anchors(a, prev).len() ==> a.contains(
            #[trigger] golden_anchors(a, prev)[i],
        ),
        golden_anchors(a, prev).len() <= a.len(),
        a.no_duplicates() ==> golden_anchors(a, prev).no_duplicates(),
    decreases a.len(),
{
    if a.len() > 0 {
        lemma_golden_sub(a.drop_last(), prev);
        let g = golden_anchors(a.drop_last(), prev);
        assert forall|i: int| 0 <= i < golden_anchors(a, prev).len() implies a.contains(
            #[trigger] golden_anchors(a, prev)[i],
        ) by {
            if i < g.len() {
                assert(golden_anchors(a, prev)[i] == g[i]);
                assert(a.drop_last().contains(g[i]));
                let k = choose|k: int| 0 <= k < a.drop_last().len() && a.drop_last()[k] == g[i];
                assert(a[k] == g[i]);
            } else {
                assert(a[a.len() - 1] == a.last());
            }
        }
        if a.no_duplicates() && prev.contains(a.last()) {
            assert(!g.contains(a.last())) by {
                if g.contains(a.last()) {
                    let k = choose|k: int| 0 <= k < g.len() && g[k] == a.last();
                    assert(a.drop_last().contains(g[k]));
                    let m = choose|m: int| 0 <= m < a.drop_last().len() && a.drop_last()[m] == g[k];
                    assert(a[m] == a[a.len() - 1]);
                }
            }
        }
    }
}

/// The levels kept from the candidates.
fn select_levels(levels: &Vec<(u64, bool)>) -> (r: Vec<u64>)
    ensures
        r@ == select_levels_spec(levels@),
{
    let mut strict: Vec<u64> = Vec::new();
    let mut all: Vec<u64> = Vec::new();
    let mut i: usize = 0;
    while i < levels.len()
        invariant
            i <= levels@.len(),
            strict@ == strict_levels(levels@.take(i as int)),
            all@ == levels@.take(i as int).map_values(|c: (u64, bool)| c.0),
        decreases levels@.len() - i,
    {
        let (l, st) = levels[i];
        proof {
            assert(levels@.take(i + 1).drop_last() =~= levels@.take(i as int));
        }
        if st {
            strict.push(l);
        }
        all.push(l);
        proof {
            assert(all@ =~= levels@.take(i + 1).map_values(|c: (u64, bool)| c.0));
        }
        i = i + 1;
    }
    proof {
        assert(levels@.take(levels@.len() as int) =~= levels@);
    }
    if strict.len() == 0 {
        all
    } else {
        strict
    }
}

fn contains_u64(v: &Vec<u64>, x: u64) -> (r: bool)
    ensures
        r == v@.contains(x),
{
    let mut i: usize = 0;
    while i < v.len()
        invariant
            i <= v@.len(),
            forall|k: int| 0 <= k < i ==> v@[k] != x,
        decreases v@.len() - i,
    {
        if v[i] == x {
            return true;
        }
        i = i + 1;
    }
    false
}

fn has_level(levels: &Vec<(u64, bool)>, lvl: u64) -> (r: bool)
    ensures
        r == exists|k: int| 0 <= k < levels@.len() && #[trigger] levels@[k].0 == lvl,
{
    let mut i: usize = 0;
    while i < levels.len()
        invariant
            i <= levels@.len(),
            forall|k: int| 0 <= k < i ==> levels@[k].0 != lvl,
        decreases levels@.len() - i,
    {
        if levels[i].0 == lvl {
            return true;
        }
        i = i + 1;
    }
    false
}

/// The anchors kept at the end of a discovery.
fn select_anchors(anchors: &Vec<u64>, prev: &Vec<u64>) -> (r: Vec<u64>)
    ensures
        r@ == select_anchors_spec(anchors@, prev@),
{
    let mut golden: Vec<u64> = Vec::new();
    let mut i: usize = 0;
    while i < anchors.len()
        invariant
            i <= anchors@.len(),
            golden@ == golden_anchors(anchors@.take(i as int), prev@),
        decreases anchors@.len() - i,
    {
        let a = anchors[i];
        proof {
            assert(anchors@.take(i + 1).drop_last() =~= anchors@.take(i as int));
        }
        if contains_u64(prev, a) {
            golden.push(a);
        }
        i = i + 1;
    }
    proof {
        assert(anchors@.take(anchors@.len() as int) =~= anchors@);
    }
    if golden.len() == 0 {
        copy_u64s(anchors)
    } else {
        golden
    }
}

fn copy_u64s(v: &Vec<u64>) -> (r: Vec<u64>)
    ensures
        r@ == v@,
{
    let mut out: Vec<u64> = Vec::new();
    let mut i: usize = 0;
    while i < v.len()
        invariant
            i <= v@.len(),
            out@ == v@.take(i as int),
        decreases v@.len() - i,
    {
        out.push(v[i]);
        proof {
            assert(out@ =~= v@.take(i + 1));
        }
        i = i + 1;
    }
    proof {
        assert(v@.take(v@.len() as int) =~= v@);
    }
    out
}

/// Follows `slot -> Level -> Session` and validates the session.
fn chain_read<R: Fn(u64, usize) -> Option<Vec<u8>>>(read: &R, base: u64, slot: u64) -> (r: Option<
    (i32, i32),
>)
    requires
        reader_total(read),
    ensures
        chain_outcome(read, base, slot, r),
        r matches Some((d, da)) ==> session_count_ok(d) && session_count_ok(da),
{
    let lvl = match read_u64(read, slot) {
        Some(v) => v,
        None => return None,
    };
    if !object_address(lvl) {
        return None;
    }
    let sb = match read_u64(read, addr_add(lvl, EV_LEVEL_SESSION)) {
        Some(v) => v,
        None => return None,
    };
    validate_session(read, base, sb)
}

/// Where the discovery of the chain stands.
pub enum ChainState {
    /// Nothing under way: the next tick starts a discovery.
    Idle,
    /// Scanning for a live session by its time.
    FindSession(ScanCursor),
    /// Scanning for `Level` objects that point to the session at `sbase`;
    /// each candidate with whether its method table is strict.
    FindLevels { sbase: u64, cursor: ScanCursor, levels: Vec<(u64, bool)> },
    /// Scanning small regions for slots that hold one of the levels.
    FindAnchors { levels: Vec<u64>, cursor: ScanCursor, anchors: Vec<u64> },
    /// The chain is known: these slots are followed every tick.
    Ready(Vec<u64>),
    /// A full pass found nothing: wait this many ticks.
    Cooldown(u32),
}

impl ChainState {
    pub open spec fn wf(&self) -> bool {
        match self {
            ChainState::Idle => true,
            ChainState::FindSession(c) => c.wf(),
            ChainState::FindLevels { sbase, cursor, levels } => {
                &&& cursor.wf()
                &&& object_address_ok(*sbase)
                &&& levels@.len() <= MAX_LEVELS
                &&& distinct_levels(levels@)
                &&& forall|k: int| 0 <= k < levels@.len() ==> object_address_ok(#[trigger] levels@[k].0)
            },
            ChainState::FindAnchors { levels, cursor, anchors } => {
                &&& cursor.wf()
                &&& levels@.len() > 0
                &&& anchors@.len() <= MAX_ANCHORS
                &&& anchors@.no_duplicates()
            },
            ChainState::Ready(anchors) => anchors@.len() <= MAX_ANCHORS && anchors@.no_duplicates(),
            ChainState::Cooldown(n) => 1 <= *n <= COOLDOWN_TICKS,
        }
    }
}

/// One tick of the session scan: reads the chapter time, then scans chunks
/// for an aligned `i64` between 30 ms before and 8 s after it whose
/// enclosing object validates as a live session.
fn step_session<R: Fn(u64, usize) -> Option<Vec<u8>>, M: Fn() -> Vec<MemRange>>(
    read: &R,
    list_ranges: &M,
    base: u64,
    cursor: ScanCursor,
) -> (r: ChainState)
    requires
        cursor.wf(),
        reader_total(read),
        list_ranges.requires(()),
    ensures
        r.wf(),
        match r {
            ChainState::FindSession(c) => c.ranges@ == cursor.ranges@,
            ChainState::Cooldown(n) => n == COOLDOWN_TICKS,
            ChainState::FindLevels { sbase, cursor: c, levels } => c.at_start() && levels@.len() == 0,
            _ => false,
        },
        session_tick(read, base, cursor.ranges@, cursor.idx as int, cursor.off, r),
{
    let ghost ranges0 = cursor.ranges@;
    let ghost idx0 = cursor.idx as int;
    let ghost off0 = cursor.off;
    let mut cur = cursor;
    let ct_read = read_i64(read, addr_add(base, EV_CHAPTER_TIME));
    let ct = match ct_read {
        Some(v) => v,
        None => return ChainState::FindSession(cur),
    };
    let lo: i128 = ct as i128 - 300_000;
    let hi: i128 = ct as i128 + 80_000_000;
    let ghost lo_i = ct - 300_000;
    let ghost hi_i = ct + 80_000_000;
    let ghost mut cs: Seq<(u64, Seq<u8>)> = Seq::empty();
    let mut spent: usize = 0;
    while spent < BUDGET_PER_TICK
        invariant
            cur.wf(),
            cur.ranges@ == ranges0,
            ranges0 == cursor.ranges@,
            idx0 == cursor.idx as int,
            off0 == cursor.off,
            answers_i64(read, wrap_add(base, EV_CHAPTER_TIME), Some(ct)),
            lo == lo_i,
            hi == hi_i,
            lo_i == ct - 300_000,
            hi_i == ct + 80_000_000,
            spent <= BUDGET_PER_TICK + CHUNK,
            spent == chunk_bytes(cs),
            within_budget(cs),
            chunk_walk(read, ranges0, CHUNK, idx0, off0, cs, cur.idx as int, cur.off),
            no_session_in(read, base, lo_i, hi_i, cs),
            reader_total(read),
            list_ranges.requires(()),
        decreases BUDGET_PER_TICK + CHUNK - spent,
    {
        let ghost at_idx = cur.idx as int;
        let ghost at_off = cur.off;
        let (addr, bytes) = match cur.next_chunk(read, CHUNK) {
            Some(c) => c,
            None => {
                proof {
                    assert(walk_ends(read, ranges0, CHUNK, at_idx, at_off));
                    assert(session_scan(read, base, ct, ranges0, idx0, off0, ChainState::Cooldown(COOLDOWN_TICKS)));
                }
                return ChainState::Cooldown(COOLDOWN_TICKS);
            },
        };
        let n = bytes.len();
        assert(0 < n <= CHUNK);
        let ghost walk_before = cs;
        proof {
            lemma_walk_push(read, ranges0, CHUNK, idx0, off0, cs, at_idx, at_off, (addr, bytes@), cur.idx as int, cur.off);
            cs = cs.push((addr, bytes@));
            assert(cs.drop_last() =~= walk_before);
            assert(cs.last() == (addr, bytes@));
        }
        spent = spent + n;
        let mut i: usize = 0;
        while i + 8 <= n
            invariant
                n == bytes@.len(),
                n <= CHUNK,
                i <= n,
                reader_total(read),
                list_ranges.requires(()),
                lo == lo_i,
                hi == hi_i,
                lo_i == ct - 300_000,
                hi_i == ct + 80_000_000,
                ranges0 == cursor.ranges@,
                idx0 == cursor.idx as int,
                off0 == cursor.off,
                answers_i64(read, wrap_add(base, EV_CHAPTER_TIME), Some(ct)),
                chunk_walk(read, ranges0, CHUNK, idx0, off0, cs, cur.idx as int, cur.off),
                within_budget(cs),
                cs.len() > 0,
                cs.drop_last() == walk_before,
                cs.last() == (addr, bytes@),
                no_session_in(read, base, lo_i, hi_i, walk_before),
                forall|f: Option<u64>|
                    #[trigger] session_in_chunk(read, base, lo_i, hi_i, addr, bytes@, i as int, f)
                        ==> session_in_chunk(read, base, lo_i, hi_i, addr, bytes@, 0, f),
            decreases n - i,
        {
            let v = as_i64(le_unsigned(bytes.as_slice(), i, 8));
            let sbase = addr_sub(addr_add(addr, i as u64), S_TIME_FROM_BASE);
            if lo <= v as i128 && v as i128 <= hi {
                let verdict = validate_session(read, base, sbase);
                if verdict.is_some() {
                    proof {
                        assert(session_in_chunk(read, base, lo_i, hi_i, addr, bytes@, i as int, Some(sbase)));
                    }
                    let r = ChainState::FindLevels {
                        sbase,
                        cursor: ScanCursor::snapshot(list_ranges, SCAN_REGION_MAX),
                        levels: Vec::new(),
                    };
                    proof {
                        assert(session_scan(read, base, ct, ranges0, idx0, off0, r));
                    }
                    return r;
                }
                proof {
                    assert forall|f: Option<u64>|
                        #[trigger] session_in_chunk(read, base, lo_i, hi_i, addr, bytes@, i + 8, f)
                            implies session_in_chunk(read, base, lo_i, hi_i, addr, bytes@, 0, f) by {
                        assert(session_in_chunk(read, base, lo_i, hi_i, addr, bytes@, i as int, f));
                    }
                }
            } else {
                proof {
                    assert forall|f: Option<u64>|
                        #[trigger] session_in_chunk(read, base, lo_i, hi_i, addr, bytes@, i + 8, f)
                            implies session_in_chunk(read, base, lo_i, hi_i, addr, bytes@, 0, f) by {
                        assert(session_in_chunk(read, base, lo_i, hi_i, addr, bytes@, i as int, f));
                    }
                }
            }
            i = i + 8;
        }
        proof {
            assert(session_in_chunk(read, base, lo_i, hi_i, addr, bytes@, i as int, None));
            assert(session_in_chunk(read, base, lo_i, hi_i, addr, bytes@, 0, None));
            assert(no_session_in(read, base, lo_i, hi_i, cs));
        }
    }
    proof {
        assert(session_scan(read, base, ct, ranges0, idx0, off0, ChainState::FindSession(cur)));
    }
    ChainState::FindSession(cur)
}

/// One tick of the level scan: drops back to `Idle` when the session no
/// longer validates, collects `Level` candidates that point to it, and
/// once the pass is over keeps the strict candidates (or all) and starts
/// the anchor scan over regions of at most 4 MiB, smallest first.
fn step_levels<R: Fn(u64, usize) -> Option<Vec<u8>>, M: Fn() -> Vec<MemRange>>(
    read: &R,
    list_ranges: &M,
    base: u64,
    sbase: u64,
    cursor: ScanCursor,
    levels: Vec<(u64, bool)>,
) -> (r: ChainState)
    requires
        (ChainState::FindLevels { sbase, cursor, levels }).wf(),
        reader_total(read),
        list_ranges.requires(()),
    ensures
        r.wf(),
        r is Idle ==> session_outcome(read, base, sbase, None),
        !(r is Idle) ==> exists|counts: (i32, i32)| session_outcome(read, base, sbase, Some(counts)),
        match r {
            ChainState::Idle => true,
            ChainState::Cooldown(n) => n == COOLDOWN_TICKS && levels@.len() == 0,
            ChainState::FindAnchors { levels: chosen, cursor: c, anchors } => {
                &&& anchors@.len() == 0
                &&& c.at_start()
                &&& sorted_by_size(c.ranges@)
                &&& exists|found: Seq<(u64, bool)>|
                    #![trigger select_levels_spec(found)]
                    levels@.is_prefix_of(found) && chosen@ == select_levels_spec(found)
            },
            ChainState::FindLevels { sbase: s2, cursor: c, levels: l2 } => {
                &&& s2 == sbase
                &&& c.ranges@ == cursor.ranges@
                &&& levels@.is_prefix_of(l2@)
            },
            _ => false,
        },
        !(r is Idle) ==> levels_scan(read, sbase, levels@, cursor.ranges@, cursor.idx as int, cursor.off, r),
{
    let ghost levels0 = levels@;
    let ghost ranges0 = cursor.ranges@;
    let counts = match validate_session(read, base, sbase) {
        Some(c) => c,
        None => return ChainState::Idle,
    };
    let ghost idx0 = cursor.idx as int;
    let ghost off0 = cursor.off;
    let mut cur = cursor;
    let mut cands = levels;
    let ghost mut cs: Seq<(u64, Seq<u8>)> = Seq::empty();
    let mut spent: usize = 0;
    while spent < BUDGET_PER_TICK
        invariant
            (ChainState::FindLevels { sbase, cursor: cur, levels: cands }).wf(),
            cur.ranges@ == ranges0,
            ranges0 == cursor.ranges@,
            idx0 == cursor.idx as int,
            off0 == cursor.off,
            levels0.is_prefix_of(cands@),
            levels0 == levels@,
            session_outcome(read, base, sbase, Some(counts)),
            spent <= BUDGET_PER_TICK + CHUNK,
            spent == chunk_bytes(cs),
            within_budget(cs),
            chunk_walk(read, ranges0, CHUNK, idx0, off0, cs, cur.idx as int, cur.off),
            levels_pass(read, sbase, levels0, cs, cands@),
            reader_total(read),
            list_ranges.requires(()),
        decreases BUDGET_PER_TICK + CHUNK - spent,
    {
        let ghost at_idx = cur.idx as int;
        let ghost at_off = cur.off;
        let (addr, bytes) = match cur.next_chunk(read, CHUNK) {
            Some(c) => c,
            None => {
                proof {
                    assert(walk_ends(read, ranges0, CHUNK, at_idx, at_off));
                }
                let chosen = select_levels(&cands);
                if chosen.len() == 0 {
                    proof {
                        if strict_levels(cands@).len() == 0 {
                            assert(cands@.map_values(|c: (u64, bool)| c.0).len() == cands@.len());
                        }
                        assert(cands@.len() == 0);
                    }
                    return ChainState::Cooldown(COOLDOWN_TICKS);
                }
                let mut c = ScanCursor::snapshot(list_ranges, ANCHOR_REGION_MAX);
                let ghost listed = c.ranges@;
                c.sort_ranges_by_size();
                proof {
                    law_sort_by_size(listed);
                    let found = cands@;
                    assert(levels0.is_prefix_of(found));
                }
                let anchors: Vec<u64> = Vec::new();
                assert(anchors@.no_duplicates());
                return ChainState::FindAnchors { levels: chosen, cursor: c, anchors };
            },
        };
        let n = bytes.len();
        assert(0 < n <= CHUNK);
        let ghost cands_start = cands@;
        let ghost walk_before = cs;
        proof {
            lemma_walk_push(read, ranges0, CHUNK, idx0, off0, cs, at_idx, at_off, (addr, bytes@), cur.idx as int, cur.off);
            cs = cs.push((addr, bytes@));
        }
        spent = spent + n;
        let mut i: usize = 0;
        while i + 8 <= n
            invariant
                n == bytes@.len(),
                n <= CHUNK,
                i <= n,
                (ChainState::FindLevels { sbase, cursor: cur, levels: cands }).wf(),
                cur.ranges@ == ranges0,
                levels0.is_prefix_of(cands@),
                reader_total(read),
                forall|f: Seq<(u64, bool)>|
                    #[trigger] levels_in_chunk(read, sbase, cands@, addr, bytes@, i as int, f)
                        ==> levels_in_chunk(read, sbase, cands_start, addr, bytes@, 0, f),
            decreases n - i,
        {
            let ghost cands_here = cands@;
            let w = le_unsigned(bytes.as_slice(), i, 8);
            proof {
                assert(word_at(bytes@, i as int) == w);
            }
            if w == sbase {
                let lvl = addr_sub(addr_add(addr, i as u64), EV_LEVEL_SESSION);
                if cands.len() < MAX_LEVELS && !has_level(&cands, lvl) {
                    let outcome = plausible_level(read, lvl);
                    proof {
                        assert(!has_level_addr(cands_here, lvl));
                        assert(level_outcome(read, lvl, outcome));
                    }
                    match outcome {
                        Some(strict) => {
                            let ghost before = cands@;
                            cands.push((lvl, strict));
                            proof {
                                assert(levels0.is_prefix_of(cands@)) by {
                                    assert forall|k: int| 0 <= k < levels0.len() implies levels0[k]
                                        == cands@[k] by {
                                        assert(before[k] == cands@[k]);
                                    }
                                }
                            }
                        },
                        None => {},
                    }
                } else {
                    proof {
                        if !(cands.len() < MAX_LEVELS) {
                        } else {
                            let k = choose|k: int| 0 <= k < cands_here.len() && cands_here[k].0 == lvl;
                            assert(has_level_addr(cands_here, lvl));
                        }
                    }
                }
            }
            proof {
                assert forall|f: Seq<(u64, bool)>|
                    #[trigger] levels_in_chunk(read, sbase, cands@, addr, bytes@, i + 8, f)
                        implies levels_in_chunk(read, sbase, cands_start, addr, bytes@, 0, f) by {
                    assert(levels_in_chunk(read, sbase, cands_here, addr, bytes@, i as int, f));
                }
            }
            i = i + 8;
        }
        proof {
            assert(levels_in_chunk(read, sbase, cands@, addr, bytes@, i as int, cands@));
            lemma_levels_pass_push(read, sbase, levels0, walk_before, cands_start, (addr, bytes@), cands@);
        }
    }
    ChainState::FindLevels { sbase, cursor: cur, levels: cands }
}

/// One tick of the anchor scan: collects slots that hold one of the levels
/// and lead to a live session. Once the pass is over, keeps the slots the
/// previous discovery found too (or all of them) and remembers them.
fn step_anchors<R: Fn(u64, usize) -> Option<Vec<u8>>>(
    read: &R,
    base: u64,
    levels: Vec<u64>,
    cursor: ScanCursor,
    anchors: Vec<u64>,
    prev: &mut Vec<u64>,
) -> (r: ChainState)
    requires
        (ChainState::FindAnchors { levels, cursor, anchors }).wf(),
        reader_total(read),
    ensures
        r.wf(),
        match r {
            ChainState::Cooldown(n) => n == COOLDOWN_TICKS && final(prev)@ == old(prev)@,
            ChainState::Ready(kept) => {
                &&& kept@.len() > 0
                &&& final(prev)@ == kept@
                &&& exists|found: Seq<u64>|
                    #![trigger select_anchors_spec(found, old(prev)@)]
                    anchors@.is_prefix_of(found) && found.no_duplicates() && kept@
                        == select_anchors_spec(found, old(prev)@)
            },
            ChainState::FindAnchors { levels: l2, cursor: c, anchors: a2 } => {
                &&& l2@ == levels@
                &&& c.ranges@ == cursor.ranges@
                &&& anchors@.is_prefix_of(a2@)
                &&& final(prev)@ == old(prev)@
            },
            _ => false,
        },
        anchors_scan(read, base, levels@, anchors@, old(prev)@, cursor.ranges@, cursor.idx as int, cursor.off, r),
{
    let ghost levels0 = levels@;
    let ghost anchors0 = anchors@;
    let ghost ranges0 = cursor.ranges@;
    let ghost idx0 = cursor.idx as int;
    let ghost off0 = cursor.off;
    let mut cur = cursor;
    let mut found = anchors;
    let mut min_l: u64 = u64::MAX;
    let mut max_l: u64 = 0;
    let mut k: usize = 0;
    while k < levels.len()
        invariant
            k <= levels@.len(),
            forall|j: int| 0 <= j < k ==> min_l <= #[trigger] levels@[j] <= max_l,
        decreases levels@.len() - k,
    {
        if levels[k] < min_l {
            min_l = levels[k];
        }
        if levels[k] > max_l {
            max_l = levels[k];
        }
        k = k + 1;
    }
    let ghost mut cs: Seq<(u64, Seq<u8>)> = Seq::empty();
    let mut spent: usize = 0;
    while spent < BUDGET_PER_TICK
        invariant
            (ChainState::FindAnchors { levels, cursor: cur, anchors: found }).wf(),
            levels0 == levels@,
            anchors0 == anchors@,
            anchors0.is_prefix_of(found@),
            ranges0 == cursor.ranges@,
            idx0 == cursor.idx as int,
            off0 == cursor.off,
            cur.ranges@ == ranges0,
            prev@ == old(prev)@,
            forall|j: int| 0 <= j < levels@.len() ==> min_l <= #[trigger] levels@[j] <= max_l,
            spent <= BUDGET_PER_TICK + CHUNK,
            spent == chunk_bytes(cs),
            within_budget(cs),
            chunk_walk(read, ranges0, CHUNK, idx0, off0, cs, cur.idx as int, cur.off),
            anchors_pass(read, base, levels0, anchors0, cs, found@),
            reader_total(read),
        decreases BUDGET_PER_TICK + CHUNK - spent,
    {
        let ghost at_idx = cur.idx as int;
        let ghost at_off = cur.off;
        let (addr, bytes) = match cur.next_chunk(read, CHUNK) {
            Some(c) => c,
            None => {
                proof {
                    assert(walk_ends(read, ranges0, CHUNK, at_idx, at_off));
                }
                if found.len() == 0 {
                    return ChainState::Cooldown(COOLDOWN_TICKS);
                }
                let kept = select_anchors(&found, prev);
                proof {
                    lemma_golden_sub(found@, prev@);
                    assert(anchors0.is_prefix_of(found@) && found@.no_duplicates() && kept@
                        == select_anchors_spec(found@, prev@));
                }
                *prev = copy_u64s(&kept);
                return ChainState::Ready(kept);
            },
        };
        let n = bytes.len();
        let ghost found_start = found@;
        let ghost walk_before = cs;
        proof {
            lemma_walk_push(read, ranges0, CHUNK, idx0, off0, cs, at_idx, at_off, (addr, bytes@), cur.idx as int, cur.off);
            cs = cs.push((addr, bytes@));
        }
        spent = spent + n;
        let mut i: usize = 0;
        while i + 8 <= n
            invariant
                n == bytes@.len(),
                n <= CHUNK,
                i <= n,
                i % 8 == 0,
                (ChainState::FindAnchors { levels, cursor: cur, anchors: found }).wf(),
                levels0 == levels@,
                anchors0.is_prefix_of(found@),
                forall|j: int| 0 <= j < levels@.len() ==> min_l <= #[trigger] levels@[j] <= max_l,
                reader_total(read),
                forall|f: Seq<u64>|
                    #[trigger] anchors_in_chunk(read, base, levels0, found@, addr, bytes@, i as int, f)
                        ==> anchors_in_chunk(read, base, levels0, found_start, addr, bytes@, 0, f),
            decreases n - i,
        {
            let v = le_unsigned(bytes.as_slice(), i, 8);
            let ghost found_here = found@;
            let ghost slot_g = wrap_add(addr, i as u64);
            proof {
                assert(word_at(bytes@, i as int) == v);
            }
            let is_level = v >= min_l && v <= max_l && contains_u64(&levels, v);
            proof {
                if levels@.contains(v) {
                    let j = choose|j: int| 0 <= j < levels@.len() && levels@[j] == v;
                    assert(min_l <= levels@[j] <= max_l);
                }
            }
            let mut added = false;
            if is_level {
                let slot = addr_add(addr, i as u64);
                if found.len() < MAX_ANCHORS && !contains_u64(&found, slot) {
                    let sb_read = read_u64(read, addr_add(v, EV_LEVEL_SESSION));
                    match sb_read {
                        Some(sb) => {
                            let verdict = validate_session(read, base, sb);
                            proof {
                                assert(level_leads(read, base, v, verdict is Some));
                            }
                            if verdict.is_some() {
                                let ghost before = found@;
                                found.push(slot);
                                added = true;
                                proof {
                                    assert(found@.no_duplicates()) by {
                                        assert forall|p: int, q: int|
                                            0 <= p < found@.len() && 0 <= q < found@.len() && p
                                                != q implies found@[p] != found@[q] by {
                                            if p < before.len() && q < before.len() {
                                                assert(before[p] != before[q]);
                                            } else if p < before.len() {
                                                assert(before.contains(before[p]));
                                            } else {
                                                assert(before.contains(before[q]));
                                            }
                                        }
                                    }
                                    assert(anchors0.is_prefix_of(found@)) by {
                                        assert forall|j: int| 0 <= j < anchors0.len() implies anchors0[j]
                                            == found@[j] by {
                                            assert(before[j] == found@[j]);
                                        }
                                    }
                                }
                            }
                        },
                        None => {
                            proof {
                                assert(level_leads(read, base, v, false));
                            }
                        },
                    }
                }
            }
            proof {
                assert forall|f: Seq<u64>|
                    #[trigger] anchors_in_chunk(read, base, levels0, found@, addr, bytes@, i + 8, f)
                        implies anchors_in_chunk(read, base, levels0, found_start, addr, bytes@, 0, f) by {
                    assert(anchors_in_chunk(read, base, levels0, found_here, addr, bytes@, i as int, f));
                }
            }
            i = i + 8;
        }
        proof {
            assert(anchors_in_chunk(read, base, levels0, found@, addr, bytes@, i as int, found@));
            assert(anchors_in_chunk(read, base, levels0, found_start, addr, bytes@, 0, found@));
            lemma_anchors_pass_push(read, base, levels0, anchors0, walk_before, found_start, (addr, bytes@), found@);
        }
    }
    proof {
        assert(chunk_bytes(cs) >= BUDGET_PER_TICK);
    }
    ChainState::FindAnchors { levels, cursor: cur, anchors: found }
}

proof fn lemma_swap_front(s: Seq<u64>, i: int)
    requires
        0 <= i < s.len(),
        s.no_duplicates(),
    ensures
        s.update(0, s[i]).update(i, s[0]).no_duplicates(),
        s.update(0, s[i]).update(i, s[0]).len() == s.len(),
        s.update(0, s[i]).update(i, s[0])[0] == s[i],
        forall|x: u64| #[trigger] s.update(0, s[i]).update(i, s[0]).contains(x) <==> s.contains(x),
{
    let t = s.update(0, s[i]).update(i, s[0]);
    assert forall|x: u64| #[trigger] t.contains(x) <==> s.contains(x) by {
        if t.contains(x) {
            let k = choose|k: int| 0 <= k < t.len() && t[k] == x;
            if k == i {
                assert(s[0] == x);
            } else if k == 0 {
                assert(s[i] == x);
            } else {
                assert(s[k] == x);
            }
        }
        if s.contains(x) {
            let k = choose|k: int| 0 <= k < s.len() && s[k] == x;
            if k == i {
                assert(t[0] == x);
            } else if k == 0 {
                assert(t[i] == x);
            } else {
                assert(t[k] == x);
            }
        }
    }
}

proof fn lemma_swap_remove(s: Seq<u64>, j: int)
    requires
        0 <= j < s.len(),
        s.no_duplicates(),
    ensures
        s.update(j, s.last()).drop_last().no_duplicates(),
        s.update(j, s.last()).drop_last().len() == s.len() - 1,
        forall|x: u64| #[trigger] s.update(j, s.last()).drop_last().contains(x) <==> (s.contains(x) && x
            != s[j]),
{
    let t = s.update(j, s.last()).drop_last();
    assert forall|x: u64| #[trigger] t.contains(x) <==> (s.contains(x) && x != s[j]) by {
        if t.contains(x) {
            let k = choose|k: int| 0 <= k < t.len() && t[k] == x;
            if k == j {
                assert(s[s.len() - 1] == x);
            } else {
                assert(s[k] == x);
            }
        }
        if s.contains(x) && x != s[j] {
            let k = choose|k: int| 0 <= k < s.len() && s[k] == x;
            if k == s.len() - 1 {
                assert(t[j] == x);
            } else {
                assert(t[k] == x);
            }
        }
    }
    assert forall|p: int, q: int| 0 <= p < t.len() && 0 <= q < t.len() && p != q implies t[p] != t[q] by {
        let sp = if p == j { s.len() - 1 } else { p };
        let sq = if q == j { s.len() - 1 } else { q };
        assert(t[p] == s[sp]);
        assert(t[q] == s[sq]);
    }
}

/// The anchors kept by a prune: those whose re-read (`answers`, one per
/// anchor) gave the live level `lvl`, in order.
pub open spec fn kept_of(anchors: Seq<u64>, answers: Seq<Option<u64>>, lvl: u64) -> Seq<u64>
    decreases anchors.len(),
{
    if anchors.len() == 0 || answers.len() != anchors.len() {
        Seq::empty()
    } else {
        let prev = kept_of(anchors.drop_last(), answers.drop_last(), lvl);
        if answers.last() == Some(lvl) {
            prev.push(anchors.last())
        } else {
            prev
        }
    }
}

/// The bench after a prune: each anchor dropped (its re-read did not give
/// `lvl`) is appended, in order, while the bench has room and does not
/// hold it yet.
pub open spec fn benched_after(
    bench: Seq<u64>,
    anchors: Seq<u64>,
    answers: Seq<Option<u64>>,
    lvl: u64,
) -> Seq<u64>
    decreases anchors.len(),
{
    if anchors.len() == 0 || answers.len() != anchors.len() {
        bench
    } else {
        let b = benched_after(bench, anchors.drop_last(), answers.drop_last(), lvl);
        if answers.last() != Some(lvl) && b.len() < MAX_ANCHORS && !b.contains(anchors.last()) {
            b.push(anchors.last())
        } else {
            b
        }
    }
}

/// Keeps the anchors that still hold `lvl`; the others go to the bench when
/// it has room and does not hold them yet.
fn prune_anchors<R: Fn(u64, usize) -> Option<Vec<u8>>>(
    read: &R,
    anchors: Vec<u64>,
    lvl: u64,
    bench: &mut Vec<u64>,
) -> (kept: Vec<u64>)
    requires
        reader_total(read),
        anchors@.no_duplicates(),
        old(bench)@.no_duplicates(),
        disjoint(anchors@, old(bench)@),
        anchors@.len() + old(bench)@.len() <= MAX_ANCHORS,
    ensures
        kept@.no_duplicates(),
        final(bench)@.no_duplicates(),
        disjoint(kept@, final(bench)@),
        kept@.len() + final(bench)@.len() <= MAX_ANCHORS,
        slots_within(kept@, final(bench)@, anchors@, old(bench)@),
        forall|x: u64| #[trigger] kept@.contains(x) ==> anchors@.contains(x),
        old(bench)@.is_prefix_of(final(bench)@),
        exists|answers: Seq<Option<u64>>|
            {
                &&& answers.len() == anchors@.len()
                &&& forall|i: int|
                    0 <= i < answers.len() ==> #[trigger] answers_u64(read, anchors@[i], answers[i])
                &&& kept@ == kept_of(anchors@, answers, lvl)
                &&& final(bench)@ == benched_after(old(bench)@, anchors@, answers, lvl)
            },
{
    let ghost bench0 = bench@;
    let ghost mut answers: Seq<Option<u64>> = Seq::empty();
    let mut kept: Vec<u64> = Vec::new();
    let mut k: usize = 0;
    while k < anchors.len()
        invariant
            k <= anchors@.len(),
            reader_total(read),
            anchors@.no_duplicates(),
            bench0.no_duplicates(),
            disjoint(anchors@, bench0),
            anchors@.len() + bench0.len() <= MAX_ANCHORS,
            bench0.is_prefix_of(bench@),
            kept@.no_duplicates(),
            bench@.no_duplicates(),
            kept@.len() + bench@.len() <= bench0.len() + k,
            forall|x: u64| #[trigger] kept@.contains(x) ==> anchors@.take(k as int).contains(x),
            forall|x: u64| #[trigger] bench@.contains(x) ==> bench0.contains(x) || anchors@.take(
                k as int,
            ).contains(x),
            disjoint(kept@, bench@),
            answers.len() == k,
            forall|i: int| 0 <= i < k ==> #[trigger] answers_u64(read, anchors@[i], answers[i]),
            kept@ == kept_of(anchors@.take(k as int), answers, lvl),
            bench@ == benched_after(bench0, anchors@.take(k as int), answers, lvl),
        decreases anchors@.len() - k,
    {
        let sl = anchors[k];
        let answer = read_u64(read, sl);
        let keep = match answer {
            Some(v) => v == lvl,
            None => false,
        };
        let ghost answers_before = answers;
        proof {
            answers = answers.push(answer);
            assert(answers.drop_last() =~= answers_before);
            assert(anchors@.take(k + 1).drop_last() =~= anchors@.take(k as int));
            assert(anchors@.take(k + 1).last() == sl);
            assert(answers.last() == answer);
        }
        proof {
            assert(anchors@.take(k + 1) =~= anchors@.take(k as int).push(sl));
            assert(!anchors@.take(k as int).contains(sl)) by {
                if anchors@.take(k as int).contains(sl) {
                    let m = choose|m: int| 0 <= m < k && anchors@.take(k as int)[m] == sl;
                    assert(anchors@[m] == anchors@[k as int]);
                }
            }
            assert(!bench0.contains(sl)) by {
                assert(anchors@.contains(sl));
            }
            assert forall|x: u64| #[trigger] anchors@.take(k as int).contains(x) implies anchors@.take(
                k + 1,
            ).contains(x) by {
                let m = choose|m: int| 0 <= m < k && anchors@.take(k as int)[m] == x;
                assert(anchors@.take(k + 1)[m] == x);
            }
        }
        if keep {
            let ghost before = kept@;
            kept.push(sl);
            proof {
                assert(kept@.no_duplicates()) by {
                    assert forall|p: int, q: int|
                        0 <= p < kept@.len() && 0 <= q < kept@.len() && p != q implies kept@[p]
                            != kept@[q] by {
                        if p < before.len() && q < before.len() {
                            assert(before[p] != before[q]);
                        } else if p < before.len() {
                            assert(before.contains(before[p]));
                        } else {
                            assert(before.contains(before[q]));
                        }
                    }
                }
                assert forall|x: u64| #[trigger] kept@.contains(x) implies anchors@.take(k + 1).contains(
                    x,
                ) by {
                    let m = choose|m: int| 0 <= m < kept@.len() && kept@[m] == x;
                    if m < before.len() {
                        assert(before.contains(x));
                    } else {
                        assert(anchors@.take(k + 1)[k as int] == x);
                    }
                }
                assert forall|x: u64| #[trigger] kept@.contains(x) implies !bench@.contains(x) by {
                    let m = choose|m: int| 0 <= m < kept@.len() && kept@[m] == x;
                    if m < before.len() {
                        assert(before.contains(x));
                    }
                }
            }
        } else if bench.len() < MAX_ANCHORS && !contains_u64(bench, sl) {
            let ghost before = bench@;
            bench.push(sl);
            proof {
                assert(bench@.no_duplicates()) by {
                    assert forall|p: int, q: int|
                        0 <= p < bench@.len() && 0 <= q < bench@.len() && p != q implies bench@[p]
                            != bench@[q] by {
                        if p < before.len() && q < before.len() {
                            assert(before[p] != before[q]);
                        } else if p < before.len() {
                            assert(before.contains(before[p]));
                        } else {
                            assert(before.contains(before[q]));
                        }
                    }
                }
                assert(bench0.is_prefix_of(bench@)) by {
                    assert forall|j: int| 0 <= j < bench0.len() implies bench0[j] == bench@[j] by {
                        assert(before[j] == bench@[j]);
                    }
                }
                assert forall|x: u64| #[trigger] bench@.contains(x) implies bench0.contains(x)
                    || anchors@.take(k + 1).contains(x) by {
                    let m = choose|m: int| 0 <= m < bench@.len() && bench@[m] == x;
                    if m < before.len() {
                        assert(before.contains(x));
                    } else {
                        assert(anchors@.take(k + 1)[k as int] == x);
                    }
                }
                assert forall|x: u64| #[trigger] kept@.contains(x) implies !bench@.contains(x) by {
                    if bench@.contains(x) {
                        let m = choose|m: int| 0 <= m < bench@.len() && bench@[m] == x;
                        if m < before.len() {
                            assert(before.contains(x));
                        }
                    }
                }
            }
        }
        k = k + 1;
    }
    proof {
        assert(anchors@.take(anchors@.len() as int) =~= anchors@);
    }
    kept
}

/// `anchors` with the slot at `i` moved to the front (swapped with the
/// first).
pub open spec fn front_swapped(anchors: Seq<u64>, i: int) -> Seq<u64> {
    anchors.update(0, anchors[i]).update(i, anchors[0])
}

/// Slot `i` of `s` is the first whose chain leads to a live session, with
/// the counts `dd`; the chains of the slots before it led nowhere.
pub open spec fn first_live<R: Fn(u64, usize) -> Option<Vec<u8>>>(
    read: &R,
    base: u64,
    s: Seq<u64>,
    i: int,
    dd: (i32, i32),
) -> bool {
    &&& 0 <= i < s.len()
    &&& chain_outcome(read, base, s[i], Some(dd))
    &&& forall|j: int| 0 <= j < i ==> #[trigger] chain_outcome(read, base, s[j], None)
}

/// The chain of no slot of `s` led to a live session.
pub open spec fn all_dead<R: Fn(u64, usize) -> Option<Vec<u8>>>(
    read: &R,
    base: u64,
    s: Seq<u64>,
) -> bool {
    forall|j: int| 0 <= j < s.len() ==> #[trigger] chain_outcome(read, base, s[j], None)
}

/// A prune of `s` against the level `lv` read at its first slot (0 when
/// unreadable): `answers` are the re-reads of the slots; `a2` keeps those
/// that still hold the level and `bench2` is the bench after the others.
pub open spec fn pruned_by<R: Fn(u64, usize) -> Option<Vec<u8>>>(
    read: &R,
    s: Seq<u64>,
    bench: Seq<u64>,
    lv: Option<u64>,
    answers: Seq<Option<u64>>,
    a2: Seq<u64>,
    bench2: Seq<u64>,
) -> bool {
    let lvl = match lv {
        Some(v) => v,
        None => 0,
    };
    &&& s.len() > 0
    &&& answers_u64(read, s[0], lv)
    &&& answers.len() == s.len()
    &&& forall|k: int| 0 <= k < s.len() ==> #[trigger] answers_u64(read, s[k], answers[k])
    &&& a2 == kept_of(s, answers, lvl)
    &&& bench2 == benched_after(bench, s, answers, lvl)
}

/// After live slot `i` was read: it moves to the front (most recently used
/// first); on the read that ends the prune countdown the anchors are
/// pruned instead, and the countdown starts over.
pub open spec fn live_moves<R: Fn(u64, usize) -> Option<Vec<u8>>>(
    read: &R,
    anchors: Seq<u64>,
    i: int,
    bench: Seq<u64>,
    prune_in: u32,
    a2: Seq<u64>,
    bench2: Seq<u64>,
    prune2: u32,
) -> bool {
    if prune_in >= 2 {
        &&& prune2 == prune_in - 1
        &&& bench2 == bench
        &&& a2 == front_swapped(anchors, i)
    } else {
        &&& prune2 == PRUNE_INTERVAL
        &&& exists|lv: Option<u64>, answers: Seq<Option<u64>>|
            #[trigger] pruned_by(read, front_swapped(anchors, i), bench, lv, answers, a2, bench2)
    }
}

/// One tick of a known chain, when the reader answers as it may: the first
/// live slot that leads to a live session is read (its counts recorded,
/// misses cleared) and moved; failing that, the first benched slot that
/// does is read and promoted to the front; failing that, the tick is a
/// miss, and the miss that reaches `MISS_LIMIT` clears the bench and starts
/// a new discovery.
pub open spec fn ready_step<R: Fn(u64, usize) -> Option<Vec<u8>>>(
    read: &R,
    base: u64,
    anchors: Seq<u64>,
    bench: Seq<u64>,
    prune_in: u32,
    miss: u32,
    r: ChainState,
    bench2: Seq<u64>,
    prune2: u32,
    miss2: u32,
    last2: Option<(i32, i32)>,
) -> bool {
    match last2 {
        Some(dd) => {
            &&& miss2 == 0
            &&& r matches ChainState::Ready(a) && {
                ||| exists|i: int|
                    #[trigger] first_live(read, base, anchors, i, dd) && live_moves(
                        read,
                        anchors,
                        i,
                        bench,
                        prune_in,
                        a@,
                        bench2,
                        prune2,
                    )
                ||| {
                    &&& all_dead(read, base, anchors)
                    &&& prune2 == prune_in
                    &&& exists|j: int|
                        #[trigger] first_live(read, base, bench, j, dd) && a@ == seq![bench[j]]
                            + anchors && bench2 == bench.update(j, bench.last()).drop_last()
                }
            }
        },
        None => {
            &&& all_dead(read, base, anchors)
            &&& all_dead(read, base, bench)
            &&& prune2 == prune_in
            &&& if miss + 1 >= MISS_LIMIT {
                r is Idle && miss2 == 0 && bench2.len() == 0
            } else {
                r matches ChainState::Ready(a) && a@ == anchors && miss2 == miss + 1 && bench2
                    == bench
            }
        },
    }
}

/// Discovers and follows the Everest session chain.
pub struct EvChain {
    state: ChainState,
    miss: u32,
    prev_anchors: Vec<u64>,
    prune_in: u32,
    bench: Vec<u64>,
    last: Option<(i32, i32)>,
}

impl EvChain {
    /// Where the discovery stands.
    pub closed spec fn phase(&self) -> ChainState {
        self.state
    }

    /// Consecutive ticks in which no anchor led to a live session.
    pub closed spec fn misses(&self) -> u32 {
        self.miss
    }

    /// The anchors the last completed discovery kept.
    pub closed spec fn previous_anchors(&self) -> Seq<u64> {
        self.prev_anchors@
    }

    /// Successful reads left before the next prune.
    pub closed spec fn prune_countdown(&self) -> u32 {
        self.prune_in
    }

    /// Anchors that stopped holding the live level, tried when the live
    /// ones all miss.
    pub closed spec fn benched(&self) -> Seq<u64> {
        self.bench@
    }

    /// The (deaths, dashes) read this tick.
    pub closed spec fn last_counts(&self) -> Option<(i32, i32)> {
        self.last
    }

    pub closed spec fn wf(&self) -> bool {
        &&& self.state.wf()
        &&& self.miss < MISS_LIMIT
        &&& 1 <= self.prune_in <= PRUNE_INTERVAL
        &&& self.bench@.no_duplicates()
        &&& match self.state {
            ChainState::Ready(a) => disjoint(a@, self.bench@) && a@.len() + self.bench@.len()
                <= MAX_ANCHORS,
            _ => self.bench@.len() == 0,
        }
        &&& self.last matches Some((d, da)) ==> session_count_ok(d) && session_count_ok(da)
    }

    pub fn new() -> (c: Self)
        ensures
            c.wf(),
            c.phase() is Idle,
            c.misses() == 0,
            c.previous_anchors().len() == 0,
            c.prune_countdown() == PRUNE_INTERVAL,
            c.benched().len() == 0,
            c.last_counts() is None,
    {
        EvChain {
            state: ChainState::Idle,
            miss: 0,
            prev_anchors: Vec::new(),
            prune_in: PRUNE_INTERVAL,
            bench: Vec::new(),
            last: None,
        }
    }

    /// Forgets the misses and the last read; a discovery under way starts
    /// over, a known chain is kept.
    pub fn reset(&mut self)
        requires
            old(self).wf(),
        ensures
            final(self).wf(),
            final(self).misses() == 0,
            final(self).last_counts() is None,
            old(self).phase() is Ready ==> final(self).phase() == old(self).phase(),
            !(old(self).phase() is Ready) ==> final(self).phase() is Idle,
            final(self).previous_anchors() == old(self).previous_anchors(),
            final(self).prune_countdown() == old(self).prune_countdown(),
            final(self).benched() == old(self).benched(),
    {
        self.miss = 0;
        self.last = None;
        let ready = match self.state {
            ChainState::Ready(_) => true,
            _ => false,
        };
        if !ready {
            self.state = ChainState::Idle;
        }
    }

    /// A tick without a process: nothing was read.
    pub fn idle_tick(&mut self)
        requires
            old(self).wf(),
        ensures
            final(self).wf(),
            final(self).last_counts() is None,
            final(self).phase() == old(self).phase(),
            final(self).misses() == old(self).misses(),
            final(self).previous_anchors() == old(self).previous_anchors(),
            final(self).prune_countdown() == old(self).prune_countdown(),
            final(self).benched() == old(self).benched(),
    {
        self.last = None;
    }

    /// The (deaths, dashes) read this tick, if any.
    pub fn last(&self) -> (r: Option<(i32, i32)>)
        requires
            self.wf(),
        ensures
            r == self.last_counts(),
            r matches Some((d, da)) ==> session_count_ok(d) && session_count_ok(da),
    {
        self.last
    }

    /// Follows the known anchors: the first that leads to a live session is
    /// read and moved to the front (every `PRUNE_INTERVAL` such reads, the
    /// anchors that no longer hold its level are benched); failing that, a
    /// benched anchor that leads to one is promoted; failing that, the tick
    /// is a miss, and `MISS_LIMIT` misses in a row start a new discovery.
    fn step_ready<R: Fn(u64, usize) -> Option<Vec<u8>>>(
        &mut self,
        read: &R,
        base: u64,
        anchors: Vec<u64>,
    ) -> (r: ChainState)
        requires
            reader_total(read),
            old(self).miss < MISS_LIMIT,
            1 <= old(self).prune_in <= PRUNE_INTERVAL,
            old(self).last is None,
            anchors@.no_duplicates(),
            old(self).bench@.no_duplicates(),
            disjoint(anchors@, old(self).bench@),
            anchors@.len() + old(self).bench@.len() <= MAX_ANCHORS,
        ensures
            final(self).state == old(self).state,
            final(self).prev_anchors@ == old(self).prev_anchors@,
            final(self).bench@.no_duplicates(),
            final(self).miss < MISS_LIMIT,
            1 <= final(self).prune_in <= PRUNE_INTERVAL,
            final(self).last matches Some((d, da)) ==> session_count_ok(d) && session_count_ok(da),
            match r {
                ChainState::Ready(a) => {
                    &&& a@.no_duplicates()
                    &&& disjoint(a@, final(self).bench@)
                    &&& a@.len() + final(self).bench@.len() <= MAX_ANCHORS
                    &&& slots_within(a@, final(self).bench@, anchors@, old(self).bench@)
                    &&& final(self).last is Some ==> final(self).miss == 0
                    &&& final(self).last is None ==> {
                        &&& final(self).miss == old(self).miss + 1
                        &&& a@ == anchors@
                        &&& final(self).bench@ == old(self).bench@
                        &&& final(self).prune_in == old(self).prune_in
                    }
                },
                ChainState::Idle => {
                    &&& final(self).last is None
                    &&& old(self).miss + 1 == MISS_LIMIT
                    &&& final(self).miss == 0
                    &&& final(self).bench@.len() == 0
                    &&& final(self).prune_in == old(self).prune_in
                },
                _ => false,
            },
            ready_step(
                read,
                base,
                anchors@,
                old(self).bench@,
                old(self).prune_in,
                old(self).miss,
                r,
                final(self).bench@,
                final(self).prune_in,
                final(self).miss,
                final(self).last,
            ),
    {
        let mut live = anchors;
        let mut i: usize = 0;
        while i < live.len()
            invariant
                i <= live@.len(),
                reader_total(read),
                self.miss == old(self).miss,
                self.prune_in == old(self).prune_in,
                self.last is None,
                self.bench@ == old(self).bench@,
                self.state == old(self).state,
                self.prev_anchors@ == old(self).prev_anchors@,
                live@ == anchors@,
                anchors@.no_duplicates(),
                old(self).bench@.no_duplicates(),
                disjoint(anchors@, old(self).bench@),
                anchors@.len() + old(self).bench@.len() <= MAX_ANCHORS,
                1 <= old(self).prune_in <= PRUNE_INTERVAL,
                forall|k: int| 0 <= k < i ==> #[trigger] chain_outcome(read, base, anchors@[k], None),
            decreases live@.len() - i,
        {
            let slot = live[i];
            let outcome = chain_read(read, base, slot);
            match outcome {
                Some(dd) => {
                    proof {
                        assert(first_live(read, base, anchors@, i as int, dd));
                    }
                    self.miss = 0;
                    self.last = Some(dd);
                    let ghost before = live@;
                    let first = live[0];
                    live.set(0, slot);
                    live.set(i, first);
                    proof {
                        lemma_swap_front(before, i as int);
                        assert(live@ == before.update(0, before[i as int]).update(
                            i as int,
                            before[0],
                        ));
                    }
                    self.prune_in = self.prune_in - 1;
                    if self.prune_in == 0 {
                        self.prune_in = PRUNE_INTERVAL;
                        let lv = read_u64(read, live[0]);
                        let lvl = match lv {
                            Some(v) => v,
                            None => 0,
                        };
                        let ghost swapped = live@;
                        let ghost bench_before = self.bench@;
                        live = prune_anchors(read, live, lvl, &mut self.bench);
                        proof {
                            assert(swapped == front_swapped(anchors@, i as int));
                            let answers = choose|answers: Seq<Option<u64>>|
                                {
                                    &&& answers.len() == swapped.len()
                                    &&& forall|k: int|
                                        0 <= k < answers.len() ==> #[trigger] answers_u64(
                                            read,
                                            swapped[k],
                                            answers[k],
                                        )
                                    &&& live@ == kept_of(swapped, answers, lvl)
                                    &&& self.bench@ == benched_after(bench_before, swapped, answers, lvl)
                                };
                            assert(pruned_by(read, swapped, bench_before, lv, answers, live@, self.bench@));
                            assert(live_moves(read, anchors@, i as int, old(self).bench@, old(self).prune_in, live@, self.bench@, self.prune_in));
                            assert(slots_within(live@, self.bench@, before, old(self).bench@)) by {
                                assert forall|x: u64|
                                    (#[trigger] live@.contains(x) || #[trigger] self.bench@.contains(
                                        x,
                                    )) implies (before.contains(x) || old(self).bench@.contains(
                                        x,
                                    )) by {
                                    assert(swapped.contains(x) || bench_before.contains(x));
                                }
                            }
                            assert forall|x: u64| #[trigger] live@.contains(x) implies anchors@.contains(
                                x,
                            ) by {
                                assert(swapped.contains(x));
                            }
                        }
                    } else {
                        proof {
                            assert(disjoint(live@, self.bench@)) by {
                                assert forall|x: u64| #[trigger] live@.contains(x) implies !self.bench@.contains(
                                    x,
                                ) by {
                                    assert(before.contains(x));
                                }
                            }
                            assert(slots_within(live@, self.bench@, before, old(self).bench@)) by {
                                assert forall|x: u64|
                                    (#[trigger] live@.contains(x) || #[trigger] self.bench@.contains(
                                        x,
                                    )) implies (before.contains(x) || old(self).bench@.contains(
                                        x,
                                    )) by {
                                    if live@.contains(x) {
                                        assert(before.contains(x));
                                    }
                                }
                            }
                            assert(live@ == front_swapped(anchors@, i as int));
                            assert(live_moves(read, anchors@, i as int, old(self).bench@, old(self).prune_in, live@, self.bench@, self.prune_in));
                        }
                    }
                    return ChainState::Ready(live);
                },
                None => {},
            }
            i = i + 1;
        }
        proof {
            assert(all_dead(read, base, anchors@));
        }
        let mut j: usize = 0;
        while j < self.bench.len()
            invariant
                j <= self.bench@.len(),
                reader_total(read),
                self.miss == old(self).miss,
                self.prune_in == old(self).prune_in,
                self.last is None,
                self.bench@ == old(self).bench@,
                self.state == old(self).state,
                self.prev_anchors@ == old(self).prev_anchors@,
                live@ == anchors@,
                anchors@.no_duplicates(),
                old(self).bench@.no_duplicates(),
                disjoint(anchors@, old(self).bench@),
                anchors@.len() + old(self).bench@.len() <= MAX_ANCHORS,
                1 <= old(self).prune_in <= PRUNE_INTERVAL,
                all_dead(read, base, anchors@),
                forall|k: int| 0 <= k < j ==> #[trigger] chain_outcome(read, base, old(self).bench@[k], None),
            decreases self.bench@.len() - j,
        {
            let slot = self.bench[j];
            let outcome = chain_read(read, base, slot);
            match outcome {
                Some(dd) => {
                    proof {
                        assert(first_live(read, base, old(self).bench@, j as int, dd));
                    }
                    self.miss = 0;
                    self.last = Some(dd);
                    let ghost bench_before = self.bench@;
                    let ghost anchors_before = live@;
                    self.bench.swap_remove(j);
                    proof {
                        lemma_swap_remove(bench_before, j as int);
                        assert(!anchors_before.contains(slot)) by {
                            assert(bench_before.contains(slot));
                        }
                    }
                    live.insert(0, slot);
                    proof {
                        assert forall|x: u64| #[trigger] live@.contains(x) <==> (
                        anchors_before.contains(x) || x == slot) by {
                            if live@.contains(x) {
                                let k = choose|k: int| 0 <= k < live@.len() && live@[k] == x;
                                if k > 0 {
                                    assert(anchors_before[k - 1] == x);
                                }
                            }
                            if anchors_before.contains(x) {
                                let k = choose|k: int|
                                    0 <= k < anchors_before.len() && anchors_before[k] == x;
                                assert(live@[k + 1] == x);
                            }
                            if x == slot {
                                assert(live@[0] == x);
                            }
                        }
                        assert(live@.no_duplicates()) by {
                            assert forall|p: int, q: int|
                                0 <= p < live@.len() && 0 <= q < live@.len() && p
                                    != q implies live@[p] != live@[q] by {
                                if p > 0 && q > 0 {
                                    assert(anchors_before[p - 1] != anchors_before[q - 1]);
                                } else if p == 0 {
                                    assert(anchors_before.contains(anchors_before[q - 1]));
                                } else {
                                    assert(anchors_before.contains(anchors_before[p - 1]));
                                }
                            }
                        }
                        assert(live@ =~= seq![bench_before[j as int]] + anchors@);
                        assert(self.bench@ == bench_before.update(j as int, bench_before.last()).drop_last());
                    }
                    return ChainState::Ready(live);
                },
                None => {},
            }
            j = j + 1;
        }
        proof {
            assert(all_dead(read, base, old(self).bench@));
        }
        self.miss = self.miss + 1;
        if self.miss >= MISS_LIMIT {
            self.miss = 0;
            self.bench.clear();
            return ChainState::Idle;
        }
        ChainState::Ready(live)
    }
}

/// The fields a tick of the discovery leaves alone.
pub open spec fn same_bookkeeping(o: EvChain, n: EvChain) -> bool {
    &&& n.misses() == o.misses()
    &&& n.previous_anchors() == o.previous_anchors()
    &&& n.prune_countdown() == o.prune_countdown()
    &&& n.benched() == o.benched()
}

/// A tick from `Idle` lists the memory ranges and starts the session scan.
pub open spec fn idle_next(o: EvChain, n: EvChain) -> bool {
    &&& same_bookkeeping(o, n)
    &&& n.last_counts() is None
    &&& n.phase() matches ChainState::FindSession(c) && c.at_start() && forall|i: int|
        0 <= i < c.ranges@.len() ==> #[trigger] c.ranges@[i].1 <= SCAN_REGION_MAX
}

/// A tick of `Cooldown(k)` counts down, to `Idle` after the last one.
pub open spec fn cooldown_next(o: EvChain, k: u32, n: EvChain) -> bool {
    &&& same_bookkeeping(o, n)
    &&& n.last_counts() is None
    &&& if k <= 1 {
        n.phase() is Idle
    } else {
        n.phase() == ChainState::Cooldown((k - 1) as u32)
    }
}

/// A tick of the session scan goes on over the same ranges, cools down
/// after a fruitless pass, or moves on to the level scan.
pub open spec fn session_next(o: EvChain, c: ScanCursor, n: EvChain) -> bool {
    &&& same_bookkeeping(o, n)
    &&& n.last_counts() is None
    &&& match n.phase() {
        ChainState::FindSession(c2) => c2.ranges@ == c.ranges@,
        ChainState::Cooldown(k) => k == COOLDOWN_TICKS,
        ChainState::FindLevels { sbase, cursor, levels } => cursor.at_start() && levels@.len() == 0,
        _ => false,
    }
}

/// A tick of the level scan goes back to `Idle` (the session died), cools
/// down, goes on with more candidates, or starts the anchor scan with the
/// levels selected from the candidates.
pub open spec fn levels_next(
    o: EvChain,
    sbase: u64,
    cursor: ScanCursor,
    levels: Seq<(u64, bool)>,
    n: EvChain,
) -> bool {
    &&& same_bookkeeping(o, n)
    &&& n.last_counts() is None
    &&& match n.phase() {
        ChainState::Idle => true,
        ChainState::Cooldown(k) => k == COOLDOWN_TICKS,
        ChainState::FindAnchors { levels: chosen, cursor: c, anchors } => {
            &&& anchors@.len() == 0
            &&& c.at_start()
            &&& sorted_by_size(c.ranges@)
            &&& exists|found: Seq<(u64, bool)>|
                #![trigger select_levels_spec(found)]
                levels.is_prefix_of(found) && chosen@ == select_levels_spec(found)
        },
        ChainState::FindLevels { sbase: s2, cursor: c, levels: l2 } => {
            &&& s2 == sbase
            &&& c.ranges@ == cursor.ranges@
            &&& levels.is_prefix_of(l2@)
        },
        _ => false,
    }
}

/// A tick of the anchor scan cools down (no anchor found), goes on with
/// more anchors, or makes the selected anchors ready and remembers them.
pub open spec fn anchors_next(
    o: EvChain,
    levels: Seq<u64>,
    cursor: ScanCursor,
    anchors: Seq<u64>,
    n: EvChain,
) -> bool {
    &&& n.misses() == o.misses()
    &&& n.prune_countdown() == o.prune_countdown()
    &&& n.benched() == o.benched()
    &&& n.last_counts() is None
    &&& match n.phase() {
        ChainState::Cooldown(k) => k == COOLDOWN_TICKS && n.previous_anchors()
            == o.previous_anchors(),
        ChainState::Ready(kept) => {
            &&& kept@.len() > 0
            &&& n.previous_anchors() == kept@
            &&& exists|found: Seq<u64>|
                #![trigger select_anchors_spec(found, o.previous_anchors())]
                anchors.is_prefix_of(found) && found.no_duplicates() && kept@
                    == select_anchors_spec(found, o.previous_anchors())
        },
        ChainState::FindAnchors { levels: l2, cursor: c, anchors: a2 } => {
            &&& l2@ == levels
            &&& c.ranges@ == cursor.ranges@
            &&& anchors.is_prefix_of(a2@)
            &&& n.previous_anchors() == o.previous_anchors()
        },
        _ => false,
    }
}

/// A tick of a known chain either reads counts (misses start over), or
/// misses; the miss that reaches `MISS_LIMIT` clears the bench and starts a
/// new discovery. No slot appears that was not live or benched before.
pub open spec fn ready_next(o: EvChain, anchors: Seq<u64>, n: EvChain) -> bool {
    &&& n.previous_anchors() == o.previous_anchors()
    &&& match n.phase() {
        ChainState::Ready(a) => {
            &&& slots_within(a@, n.benched(), anchors, o.benched())
            &&& n.misses() < MISS_LIMIT
            &&& n.last_counts() is Some ==> n.misses() == 0
            &&& n.last_counts() is None ==> {
                &&& n.misses() == o.misses() + 1
                &&& a@ == anchors
                &&& n.benched() == o.benched()
                &&& n.prune_countdown() == o.prune_countdown()
            }
        },
        ChainState::Idle => {
            &&& n.last_counts() is None
            &&& o.misses() + 1 == MISS_LIMIT
            &&& n.misses() == 0
            &&& n.benched().len() == 0
            &&& n.prune_countdown() == o.prune_countdown()
        },
        _ => false,
    }
}

/// What one tick of `EvChain` may do, from `o` to `n`.
pub open spec fn tick_next(o: EvChain, n: EvChain) -> bool {
    match o.phase() {
        ChainState::Idle => idle_next(o, n),
        ChainState::Cooldown(k) => cooldown_next(o, k, n),
        ChainState::FindSession(c) => session_next(o, c, n),
        ChainState::FindLevels { sbase, cursor, levels } => levels_next(o, sbase, cursor, levels@, n),
        ChainState::FindAnchors { levels, cursor, anchors } => anchors_next(
            o,
            levels@,
            cursor,
            anchors@,
            n,
        ),
        ChainState::Ready(anchors) => ready_next(o, anchors@, n),
    }
}

/// What one tick does with what the reader answers and the lister lists,
/// from `o` to `n`: a discovery starts from the ranges listed; each scan
/// step is the one its phase describes over the memory read; a known chain
/// is followed as `ready_step` describes.
pub open spec fn tick_reads<R: Fn(u64, usize) -> Option<Vec<u8>>, M: Fn() -> Vec<MemRange>>(
    read: &R,
    list_ranges: &M,
    base: u64,
    o: EvChain,
    n: EvChain,
) -> bool {
    match o.phase() {
        ChainState::Idle => n.phase() matches ChainState::FindSession(c) && exists|
            listing: Vec<MemRange>,
        |
            #[trigger] list_ranges.ensures((), listing) && c.ranges@ == scan_ranges(
                listing@,
                SCAN_REGION_MAX,
            ),
        ChainState::Cooldown(_) => true,
        ChainState::FindSession(c) => session_tick(
            read,
            base,
            c.ranges@,
            c.idx as int,
            c.off,
            n.phase(),
        ),
        ChainState::FindLevels { sbase, cursor, levels } => {
            &&& n.phase() is Idle ==> session_outcome(read, base, sbase, None)
            &&& !(n.phase() is Idle) ==> exists|counts: (i32, i32)|
                #[trigger] session_outcome(read, base, sbase, Some(counts))
            &&& !(n.phase() is Idle) ==> levels_scan(
                read,
                sbase,
                levels@,
                cursor.ranges@,
                cursor.idx as int,
                cursor.off,
                n.phase(),
            )
        },
        ChainState::FindAnchors { levels, cursor, anchors } => anchors_scan(
            read,
            base,
            levels@,
            anchors@,
            o.previous_anchors(),
            cursor.ranges@,
            cursor.idx as int,
            cursor.off,
            n.phase(),
        ),
        ChainState::Ready(anchors) => ready_step(
            read,
            base,
            anchors@,
            o.benched(),
            o.prune_countdown(),
            o.misses(),
            n.phase(),
            n.benched(),
            n.prune_countdown(),
            n.misses(),
            n.last_counts(),
        ),
    }
}

impl EvChain {
    /// One tick: advances the discovery by a bounded amount of scanning, or
    /// follows the known chain and records the counts it leads to.
    #[verifier::spinoff_prover]
    pub fn tick<R: Fn(u64, usize) -> Option<Vec<u8>>, M: Fn() -> Vec<MemRange>>(
        &mut self,
        read: &R,
        list_ranges: &M,
        base: u64,
    )
        requires
            old(self).wf(),
            reader_total(read),
            list_ranges.requires(()),
        ensures
            final(self).wf(),
            tick_next(*old(self), *final(self)),
            tick_reads(read, list_ranges, base, *old(self), *final(self)),
    {
        self.last = None;
        let mut state = ChainState::Idle;
        core::mem::swap(&mut state, &mut self.state);
        let next = match state {
            ChainState::Idle => ChainState::FindSession(
                ScanCursor::snapshot(list_ranges, SCAN_REGION_MAX),
            ),
            ChainState::Cooldown(n) => {
                if n <= 1 {
                    ChainState::Idle
                } else {
                    ChainState::Cooldown(n - 1)
                }
            },
            ChainState::FindSession(cursor) => step_session(read, list_ranges, base, cursor),
            ChainState::FindLevels { sbase, cursor, levels } => {
                let ghost lv = levels@;
                let r = step_levels(read, list_ranges, base, sbase, cursor, levels);
                proof {
                    if r is FindAnchors {
                        let chosen = r->FindAnchors_levels;
                        let found = choose|found: Seq<(u64, bool)>|
                            #![trigger select_levels_spec(found)]
                            lv.is_prefix_of(found) && chosen@ == select_levels_spec(found);
                        assert(lv.is_prefix_of(found) && chosen@ == select_levels_spec(found));
                    }
                }
                r
            },
            ChainState::FindAnchors { levels, cursor, anchors } => {
                let ghost an = anchors@;
                let ghost prev = self.prev_anchors@;
                let r = step_anchors(read, base, levels, cursor, anchors, &mut self.prev_anchors);
                proof {
                    if r is Ready {
                        let kept = r->Ready_0;
                        let found = choose|found: Seq<u64>|
                            #![trigger select_anchors_spec(found, prev)]
                            an.is_prefix_of(found) && found.no_duplicates() && kept@
                                == select_anchors_spec(found, prev);
                        assert(an.is_prefix_of(found) && found.no_duplicates() && kept@
                            == select_anchors_spec(found, prev));
                        assert(kept@ == select_anchors_spec(found, old(self).previous_anchors()));
                    }
                }
                r
            },
            ChainState::Ready(anchors) => self.step_ready(read, base, anchors),
        };
        self.state = next;
    }
}

/// What every state of the chain keeps (every operation preserves its
/// well-formedness): a known chain holds at most `MAX_ANCHORS` slots, live
/// and benched together, no slot twice and none both live and benched;
/// nothing is benched while the chain is not known; misses stay below
/// `MISS_LIMIT`; and counts read are plausible.
pub proof fn law_chain_bounds(c: EvChain)
    requires
        c.wf(),
    ensures
        c.misses() < MISS_LIMIT,
        1 <= c.prune_countdown() <= PRUNE_INTERVAL,
        c.benched().no_duplicates(),
        match c.phase() {
            ChainState::Ready(a) => {
                &&& a@.no_duplicates()
                &&& disjoint(a@, c.benched())
                &&& a@.len() + c.benched().len() <= MAX_ANCHORS
            },
            _ => c.benched().len() == 0,
        },
        c.last_counts() matches Some((d, da)) ==> session_count_ok(d) && session_count_ok(da),
{
}

/// Ticks of a known chain that read nothing: each one counts a miss, the
/// chain stays known until the `MISS_LIMIT`-th miss in a row, and that one
/// starts a new discovery with an empty bench.
pub proof fn law_misses_rediscover(run: Seq<EvChain>)
    requires
        run.len() >= 1,
        run[0].phase() is Ready,
        run[0].misses() < MISS_LIMIT,
        run[0].misses() + run.len() - 1 <= MISS_LIMIT,
        forall|i: int|
            0 <= i < run.len() - 1 ==> tick_next(run[i], #[trigger] run[i + 1]) && run[i
                + 1].last_counts() is None,
    ensures
        forall|i: int|
            0 <= i < run.len() && run[0].misses() + i < MISS_LIMIT ==> (#[trigger] run[i]).phase() is Ready
                && run[i].misses() == run[0].misses() + i,
        run[0].misses() + run.len() - 1 == MISS_LIMIT ==> run.last().phase() is Idle
            && run.last().benched().len() == 0 && run.last().misses() == 0,
    decreases run.len(),
{
    if run.len() > 1 {
        let init = run.drop_last();
        assert forall|i: int| 0 <= i < init.len() - 1 implies tick_next(init[i], #[trigger] init[i + 1])
            && init[i + 1].last_counts() is None by {
            assert(init[i] == run[i] && init[i + 1] == run[i + 1]);
        }
        law_misses_rediscover(init);
        let k = run.len() - 2;
        assert(init[k] == run[k]);
        assert(tick_next(run[k], run[k + 1]) && run[k + 1].last_counts() is None);
        assert(run[k].phase() is Ready && run[k].misses() == run[0].misses() + k);
        assert(run.last() == run[k + 1]);
        assert forall|i: int|
            0 <= i < run.len() && run[0].misses() + i < MISS_LIMIT implies (#[trigger] run[i]).phase() is Ready
                && run[i].misses() == run[0].misses() + i by {
            if i < init.len() {
                assert(init[i] == run[i]);
            }
        }
    }
}

/// A cool-down of `k` ticks: after `j < k` ticks it is `Cooldown(k - j)`,
/// and the `k`-th tick makes the chain `Idle`.
pub proof fn law_cooldown_ends(run: Seq<EvChain>, k: u32)
    requires
        run.len() >= 1,
        1 <= k,
        run[0].phase() == ChainState::Cooldown(k),
        run.len() - 1 <= k,
        forall|i: int| 0 <= i < run.len() - 1 ==> tick_next(run[i], #[trigger] run[i + 1]),
    ensures
        forall|i: int|
            0 <= i < run.len() && i < k ==> (#[trigger] run[i]).phase() == ChainState::Cooldown(
                (k - i) as u32,
            ),
        run.len() - 1 == k ==> run.last().phase() is Idle,
    decreases run.len(),
{
    if run.len() > 1 {
        let init = run.drop_last();
        assert forall|i: int| 0 <= i < init.len() - 1 implies tick_next(init[i], #[trigger] init[i + 1]) by {
            assert(init[i] == run[i] && init[i + 1] == run[i + 1]);
        }
        law_cooldown_ends(init, k);
        let m = run.len() - 2;
        assert(init[m] == run[m]);
        assert(tick_next(run[m], run[m + 1]));
        assert forall|i: int|
            0 <= i < run.len() && i < k implies (#[trigger] run[i]).phase() == ChainState::Cooldown(
                (k - i) as u32,
            ) by {
            if i < init.len() {
                assert(init[i] == run[i]);
            }
        }
    }
}

} // verus!
