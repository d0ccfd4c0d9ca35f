use celeste_autosplit::everest::{
    level_size, method_table, object_address, session_count, session_size, session_time,
    EvChain, MemRange, ScanCursor,
};
use celeste_autosplit::memory::RangeFlags;

const INFO: u64 = 0x10_0000;
const SESSION: u64 = 0x20_0000;
const LEVEL: u64 = 0x30_0000;
const SLOTS: u64 = 0x40_0000;
const METHOD_TABLE: u64 = 0x7FF0_0000_1000;
const CHAPTER_TIME: i64 = 123_456_789;

struct FakeMemory {
    regions: Vec<(u64, Vec<u8>)>,
}

impl FakeMemory {
    fn put(&mut self, addr: u64, bytes: &[u8]) {
        for (base, data) in self.regions.iter_mut() {
            if addr >= *base && addr + bytes.len() as u64 <= *base + data.len() as u64 {
                let off = (addr - *base) as usize;
                data[off..off + bytes.len()].copy_from_slice(bytes);
                return;
            }
        }
        panic!("address outside the fake memory");
    }

    fn read(&self, addr: u64, n: usize) -> Option<Vec<u8>> {
        for (base, data) in self.regions.iter() {
            if addr >= *base && addr.checked_add(n as u64)? <= *base + data.len() as u64 {
                let off = (addr - *base) as usize;
                return Some(data[off..off + n].to_vec());
            }
        }
        None
    }

    fn ranges(&self) -> Vec<MemRange> {
        self.regions
            .iter()
            .map(|(base, data)| MemRange {
                range: Some((*base, data.len() as u64)),
                flags: Some(RangeFlags { write: true, execute: false }),
            })
            .collect()
    }
}

fn celeste_memory(deaths: i32, dashes: i32) -> FakeMemory {
    let mut m = FakeMemory {
        regions: vec![
            (INFO, vec![0u8; 0x100]),
            (SESSION, vec![0u8; 0x200]),
            (LEVEL, vec![0u8; 0x100]),
            (SLOTS, vec![0u8; 0x40]),
            (METHOD_TABLE, vec![0u8; 0x40]),
        ],
    };
    m.put(INFO + 0x40, &CHAPTER_TIME.to_le_bytes());
    m.put(METHOD_TABLE + 4, &0x100u32.to_le_bytes());
    m.put(SESSION, &METHOD_TABLE.to_le_bytes());
    m.put(SESSION + 0x78, &(CHAPTER_TIME + 1000).to_le_bytes());
    m.put(SESSION + 0x8C, &deaths.to_le_bytes());
    m.put(SESSION + 0x84, &dashes.to_le_bytes());
    m.put(LEVEL, &METHOD_TABLE.to_le_bytes());
    m.put(LEVEL + 0x50, &SESSION.to_le_bytes());
    m.put(SLOTS + 0x10, &LEVEL.to_le_bytes());
    m
}

#[test]
fn chain_checks_on_values() {
    assert!(object_address(0x1_0000));
    assert!(!object_address(0xFFF8));
    assert!(!object_address(0x1_0004));
    assert!(method_table(0x7FF0_0000_1000));
    assert!(!method_table(0x0000_7FFF_FFFF_FFF8 + 8));
    assert!(!method_table(0x1_0001));
    assert!(session_size(0x80));
    assert!(session_size(0x1000));
    assert!(!session_size(0x78));
    assert!(!session_size(0x84));
    assert!(level_size(0x100));
    assert!(!level_size(0x80));
    assert!(session_time(1_000_000, 1_499_999));
    assert!(!session_time(1_000_000, 1_500_000));
    assert!(session_time(1_000_000, 500_001));
    assert!(!session_time(i64::MIN, i64::MAX));
    assert!(session_count(0));
    assert!(session_count(1_000_000));
    assert!(!session_count(-1));
    assert!(!session_count(1_000_001));
}

#[test]
fn snapshot_keeps_writable_data_ranges() {
    let listing = vec![
        MemRange { range: Some((0x1000, 0x100)), flags: Some(RangeFlags { write: true, execute: false }) },
        MemRange { range: Some((0x2000, 0x100)), flags: Some(RangeFlags { write: true, execute: true }) },
        MemRange { range: None, flags: Some(RangeFlags { write: true, execute: false }) },
        MemRange { range: Some((0x3000, 0x100)), flags: None },
        MemRange { range: Some((0x4000, 0x1000)), flags: Some(RangeFlags { write: true, execute: false }) },
        MemRange { range: Some((0x5000, 0x100)), flags: Some(RangeFlags { write: false, execute: false }) },
    ];
    let c = ScanCursor::snapshot_from(&listing, 0x800);
    assert_eq!(c.ranges, vec![(0x1000, 0x100), (0x3000, 0x100)]);
    assert_eq!((c.idx, c.off), (0, 0));
}

#[test]
fn sort_ranges_is_stable_by_size() {
    let mut c = ScanCursor {
        ranges: vec![(1, 30), (2, 10), (3, 30), (4, 20), (5, 10)],
        idx: 0,
        off: 0,
    };
    c.sort_ranges_by_size();
    assert_eq!(c.ranges, vec![(2, 10), (5, 10), (4, 20), (1, 30), (3, 30)]);
}

#[test]
fn next_chunk_walks_and_skips_unreadable_ranges() {
    let m = FakeMemory { regions: vec![(0x1000, vec![7u8; 10]), (0x3000, vec![9u8; 4])] };
    let read = |a: u64, n: usize| m.read(a, n);
    let mut c = ScanCursor {
        ranges: vec![(0x1000, 10), (0x2000, 8), (0x3000, 4)],
        idx: 0,
        off: 0,
    };
    assert_eq!(c.next_chunk(&read, 4), Some((0x1000, vec![7u8; 4])));
    assert_eq!(c.next_chunk(&read, 4), Some((0x1004, vec![7u8; 4])));
    assert_eq!(c.next_chunk(&read, 4), Some((0x1008, vec![7u8; 2])));
    assert_eq!(c.next_chunk(&read, 4), Some((0x3000, vec![9u8; 4])));
    assert_eq!(c.next_chunk(&read, 4), None);
    assert_eq!(c.idx, 3);
}

#[test]
fn chain_is_discovered_then_followed() {
    let m = celeste_memory(7, 42);
    let read = |a: u64, n: usize| m.read(a, n);
    let list = || m.ranges();
    let mut chain = EvChain::new();
    assert_eq!(chain.last(), None);
    // Idle, session scan, level scan, anchor scan: nothing read yet.
    for _ in 0..4 {
        chain.tick(&read, &list, INFO);
        assert_eq!(chain.last(), None);
    }
    chain.tick(&read, &list, INFO);
    assert_eq!(chain.last(), Some((7, 42)));
    chain.idle_tick();
    assert_eq!(chain.last(), None);
    chain.tick(&read, &list, INFO);
    assert_eq!(chain.last(), Some((7, 42)));
}

#[test]
fn known_chain_survives_reset_and_misses_until_the_limit() {
    let m = celeste_memory(3, 5);
    let read = |a: u64, n: usize| m.read(a, n);
    let list = || m.ranges();
    let mut chain = EvChain::new();
    for _ in 0..5 {
        chain.tick(&read, &list, INFO);
    }
    assert_eq!(chain.last(), Some((3, 5)));
    chain.reset();
    assert_eq!(chain.last(), None);
    chain.tick(&read, &list, INFO);
    assert_eq!(chain.last(), Some((3, 5)));

    // The session dies: its time no longer tracks the chapter time.
    let mut dead = celeste_memory(3, 5);
    dead.put(SESSION + 0x78, &(CHAPTER_TIME + 600_000).to_le_bytes());
    let read_dead = |a: u64, n: usize| dead.read(a, n);
    let list_dead = || dead.ranges();
    for _ in 0..179 {
        chain.tick(&read_dead, &list_dead, INFO);
        assert_eq!(chain.last(), None);
    }
    // The 180th miss starts a new discovery; the live memory is found again.
    chain.tick(&read_dead, &list_dead, INFO);
    for _ in 0..4 {
        chain.tick(&read, &list, INFO);
        assert_eq!(chain.last(), None);
    }
    chain.tick(&read, &list, INFO);
    assert_eq!(chain.last(), Some((3, 5)));
}

#[test]
fn fruitless_pass_cools_down() {
    let m = FakeMemory { regions: vec![(INFO, vec![0u8; 0x100])] };
    let read = |a: u64, n: usize| m.read(a, n);
    let list = || m.ranges();
    let mut chain = EvChain::new();
    chain.tick(&read, &list, INFO);
    chain.tick(&read, &list, INFO);
    for _ in 0..600 {
        chain.tick(&read, &list, INFO);
        assert_eq!(chain.last(), None);
    }
}
