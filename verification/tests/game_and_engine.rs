use celeste_autosplit::engine::{TickLoop, TickStep, STALE_TICKS};
use celeste_autosplit::game::{Celeste, CounterName, SessionRead};
use celeste_autosplit::memory::{
    ascii_from_utf16, everest_room_len, everest_state, everest_version_ok, first_title_offset,
    is_celeste_title, is_jit_region, room_length_address, net_string_len, nonzero_address, room_from_bytes, session_count,
    session_strawberries, ticks_to_ms, title_offsets, vanilla_state, EverestRead, RangeFlags,
    VanillaRead,
};
use celeste_autosplit::splits::{parse_config, RunConfig};
use celeste_autosplit::state::GameState;
use celeste_autosplit::tester::{Shared, TesterTimer};

fn state(area: i32, room: &str) -> GameState {
    let mut buf = [0u8; 64];
    buf[..room.len()].copy_from_slice(room.as_bytes());
    GameState {
        area,
        mode: 0,
        started: false,
        complete: false,
        ch_cassette: false,
        ch_heart: false,
        ch_golden: false,
        cassettes: 0,
        hearts: 0,
        strawberries: 0,
        room: buf,
        room_len: room.len(),
        chapter_time_ms: 0,
        file_time_ms: 0,
    }
}

fn no_session() -> SessionRead {
    SessionRead { session: None, deaths: None, dashes: None, strawberries: None }
}

#[test]
fn ticks_round_toward_zero() {
    assert_eq!(ticks_to_ms(0), 0);
    assert_eq!(ticks_to_ms(9_999), 0);
    assert_eq!(ticks_to_ms(10_000), 1);
    assert_eq!(ticks_to_ms(123_456_789), 12_345);
    assert_eq!(ticks_to_ms(-15_000), -1);
    assert_eq!(ticks_to_ms(i64::MIN), i64::MIN / 10_000);
}

#[test]
fn everest_sample_from_reads() {
    let r = EverestRead {
        area: Some(3),
        mode: Some(1),
        flags: Some(1 | 4 | 16),
        cassettes: Some(2),
        hearts: Some(5),
        strawberries: Some(80),
        chapter_time: Some(20_000),
        file_time: None,
        room: b"a-00".to_vec(),
    };
    let s = everest_state(&r).unwrap();
    assert_eq!((s.area, s.mode), (3, 1));
    assert!(s.started && !s.complete && s.ch_cassette && !s.ch_heart && s.ch_golden);
    assert_eq!((s.cassettes, s.hearts, s.strawberries), (2, 5, 80));
    assert_eq!((s.chapter_time_ms, s.file_time_ms), (2, 0));
    assert_eq!(s.room(), b"a-00");
    let broken = EverestRead { flags: None, ..r };
    assert!(everest_state(&broken).is_none());
}

#[test]
fn vanilla_sample_from_reads() {
    let r = VanillaRead {
        area: Some(0),
        mode: Some(0),
        cassettes: Some(0),
        hearts: Some(0),
        strawberries: Some(3),
        started: Some(1),
        complete: Some(0),
        ch_cassette: Some(0),
        ch_heart: Some(2),
        golden: None,
        chapter_time: Some(-20_000),
        file_time: Some(50_000),
        room: b"0".to_vec(),
    };
    let s = vanilla_state(&r).unwrap();
    assert!(s.started && !s.complete && !s.ch_cassette && s.ch_heart && !s.ch_golden);
    assert_eq!((s.chapter_time_ms, s.file_time_ms), (-2, 5));
    assert_eq!(s.room(), b"0");
    let broken = VanillaRead { complete: None, ..r };
    assert!(vanilla_state(&broken).is_none());
}

#[test]
fn room_names_are_capped() {
    let long = vec![b'x'; 70];
    let (buf, len) = room_from_bytes(&long);
    assert_eq!(len, 64);
    assert!(buf.iter().all(|&b| b == b'x'));
    let (buf, len) = room_from_bytes(b"b-02");
    assert_eq!(len, 4);
    assert_eq!(&buf[..4], b"b-02");
    assert!(buf[4..].iter().all(|&b| b == 0));
    assert_eq!(everest_room_len(5), 5);
    assert_eq!(everest_room_len(200), 64);
}

#[test]
fn dotnet_helpers() {
    assert_eq!(nonzero_address(0), None);
    assert_eq!(nonzero_address(0x1234), Some(0x1234));
    assert_eq!(net_string_len(0), None);
    assert_eq!(net_string_len(-3), None);
    assert_eq!(net_string_len(7), Some(7));
    assert_eq!(net_string_len(64), Some(64));
    assert_eq!(net_string_len(65), None);
    let units: Vec<u16> = "Celeste".encode_utf16().collect();
    let bytes = ascii_from_utf16(&units);
    assert_eq!(bytes, b"Celeste".to_vec());
    assert!(is_celeste_title(&bytes));
    assert!(!is_celeste_title(b"Celest"));
    assert_eq!(ascii_from_utf16(&[0x00E9, 0x41]), vec![b'?', b'A']);
}

#[test]
fn title_field_offsets_scan_backwards() {
    assert_eq!(title_offsets(16), Some(vec![12, 8, 4]));
    assert_eq!(title_offsets(8), Some(vec![4]));
    assert_eq!(title_offsets(7), None);
    assert_eq!(title_offsets(0x1001), None);
    assert_eq!(title_offsets(0x1000).map(|v| v.len()), Some(0x3FF));
}

#[test]
fn region_and_version_checks() {
    assert!(is_jit_region(Some(RangeFlags { write: true, execute: true })));
    assert!(!is_jit_region(Some(RangeFlags { write: true, execute: false })));
    assert!(!is_jit_region(Some(RangeFlags { write: false, execute: true })));
    assert!(is_jit_region(None));
    assert!(everest_version_ok(Some(3)));
    assert!(everest_version_ok(Some(0xFF)));
    assert!(!everest_version_ok(Some(2)));
    assert!(!everest_version_ok(None));
}

#[test]
fn session_values_are_bounded() {
    assert_eq!(session_count(Some(0)), Some(0));
    assert_eq!(session_count(Some(1_000_000)), Some(1_000_000));
    assert_eq!(session_count(Some(1_000_001)), None);
    assert_eq!(session_count(Some(-1)), None);
    assert_eq!(session_count(None), None);
    assert_eq!(session_strawberries(Some(1000)), Some(1000));
    assert_eq!(session_strawberries(Some(1001)), None);
}

#[test]
fn in_game_time() {
    let il = parse_config("<Splits></Splits>");
    assert!(il.il_splits);
    let any = RunConfig {
        splits: Vec::new(),
        every_room: true,
        il_splits: false,
        chapter_splits: false,
        file_time_offset: false,
        add_amount: 0,
    };
    let game = Celeste::new();
    let mut s = state(1, "a-00");
    s.chapter_time_ms = 1500;
    s.file_time_ms = 90_000;
    assert_eq!(game.igt(&s, &any), Some(90_000));
    assert_eq!(game.igt(&s, &il), Some(1500));
    s.chapter_time_ms = 0;
    assert_eq!(game.igt(&s, &il), None);
    let menu = state(-1, "");
    assert_eq!(game.igt(&menu, &any), None);
}

#[test]
fn consistency_and_reset() {
    let game = Celeste::new();
    assert!(game.is_consistent(&state(-1, "")));
    assert!(game.is_consistent(&state(2, "s1")));
    assert!(!game.is_consistent(&state(2, "")));
    assert!(game.should_reset(&state(-1, "")));
    assert!(!game.should_reset(&state(0, "1")));
}

#[test]
fn counters_report_changes_only() {
    let mut game = Celeste::new();
    let s = state(1, "a-00");
    let reads = |d: i32| SessionRead {
        session: Some(0x4000),
        deaths: Some(d),
        dashes: Some(10),
        strawberries: Some(0),
    };
    // First update: nothing fed yet, every counter reports its 0 once.
    assert!(game.can_update_counters(false, &reads(4), &s));
    let first = game.update_counters(false, &reads(4), &s);
    assert_eq!(
        first,
        vec![
            (CounterName::Deaths, 0),
            (CounterName::Dashes, 0),
            (CounterName::Strawberries, 0),
            (CounterName::Cassettes, 0),
            (CounterName::Hearts, 0),
            (CounterName::Golden, 0),
        ]
    );
    // Same session: the first values are only a baseline.
    assert_eq!(game.update_counters(false, &reads(4), &s), vec![]);
    // Two deaths later.
    assert_eq!(game.update_counters(false, &reads(6), &s), vec![(CounterName::Deaths, 2)]);
    // A jump beyond the step limit is ignored.
    assert_eq!(game.update_counters(false, &reads(5000), &s), vec![]);
    // A heart is collected.
    let mut heart = s;
    heart.ch_heart = true;
    assert_eq!(
        game.update_counters(false, &reads(5000), &heart),
        vec![(CounterName::Hearts, 1)]
    );
    assert_eq!(CounterName::Hearts.key(), "hearts");
    assert_eq!(CounterName::Golden.key(), "golden");
}

#[test]
fn moved_session_is_not_trusted() {
    let mut game = Celeste::new();
    let s = state(1, "a-00");
    let at = |addr: u64, d: i32| SessionRead {
        session: Some(addr),
        deaths: Some(d),
        dashes: Some(0),
        strawberries: Some(0),
    };
    game.update_counters(false, &at(0x4000, 1), &s);
    game.update_counters(false, &at(0x4000, 1), &s);
    // The session moved: its counts are not fed this tick.
    assert_eq!(game.update_counters(false, &at(0x8000, 3), &s), vec![]);
    assert_eq!(game.update_counters(false, &at(0x8000, 4), &s), vec![(CounterName::Deaths, 3)]);
    // In the menu nothing is fed.
    assert_eq!(game.update_counters(false, &no_session(), &state(-1, "")), vec![]);
}

#[test]
fn everest_strawberries_come_from_the_sample() {
    let mut game = Celeste::new();
    let mut s = state(1, "a-00");
    s.strawberries = 10;
    game.update_counters(true, &no_session(), &s);
    s.strawberries = 12;
    assert_eq!(
        game.update_counters(true, &no_session(), &s),
        vec![(CounterName::Strawberries, 2)]
    );
}

#[test]
fn tick_loop_redetects_after_stale_reads() {
    let mut game = Celeste::new();
    let mut tl = TickLoop::attach(&mut game);
    assert!(!tl.has_previous());
    for _ in 0..STALE_TICKS - 1 {
        assert!(tl.on_read(&game, &None) == TickStep::NextTick);
    }
    assert!(tl.on_read(&game, &None) == TickStep::Redetect);
    assert!(tl.on_read(&game, &Some(state(2, ""))) == TickStep::NextTick);
    assert!(tl.on_read(&game, &Some(state(2, "a-00"))) == TickStep::Process);
    for _ in 0..STALE_TICKS - 1 {
        assert!(tl.on_read(&game, &None) == TickStep::NextTick);
    }
    assert!(tl.on_read(&game, &Some(state(2, "a-00"))) == TickStep::Process);
}

#[test]
fn tick_loop_splits_on_room_change() {
    let cfg = parse_config("<Splits></Splits>");
    let mut game = Celeste::new();
    let mut tl = TickLoop::attach(&mut game);
    let a = state(1, "a-00");
    assert_eq!(tl.finish(&game, &cfg, a), None);
    assert!(tl.has_previous());
    let b = state(1, "a-01");
    assert!(tl.on_running(&mut game, &cfg, 0, &b));
    assert_eq!(tl.finish(&game, &cfg, b), None);
    let b2 = state(1, "a-01");
    assert!(!tl.on_running(&mut game, &cfg, 1, &b2));
}

#[test]
fn tester_timer_times_splits() {
    let ms = 1_000_000u128;
    let mut sh = Shared::new();
    sh.set_segments(vec!["First".to_string(), "Second".to_string()]);
    let mut t = TesterTimer::new();
    assert_eq!(t.split(5 * ms, &mut sh), None);
    t.start(1_000 * ms, &mut sh);
    assert!(sh.run_active);
    assert_eq!(t.split(2_500 * ms + 999_999, &mut sh), Some((0, 1_500, 1_500)));
    assert_eq!(t.split(4_000 * ms, &mut sh), Some((1, 1_499, 3_000)));
    assert_eq!(sh.segments[0].times.map(|x| (x.segment_ms, x.total_ms)), Some((1_500, 1_500)));
    assert_eq!(sh.segments[1].times.map(|x| (x.segment_ms, x.total_ms)), Some((1_499, 3_000)));
    assert!(sh.segment_splitted(1));
    assert!(!sh.segment_splitted(2));
    t.reset(&mut sh);
    assert!(!sh.run_active);
    assert_eq!(sh.current_split_index, 0);
    assert!(sh.segments.iter().all(|s| s.times.is_none()));
    assert_eq!(t.split(9_000 * ms, &mut sh), None);
}

#[test]
fn first_field_holding_the_title() {
    let offsets = title_offsets(20).unwrap();
    assert_eq!(offsets, vec![16, 12, 8, 4]);
    let fields = |o: u64| match o {
        16 => None,
        12 => Some(b"Celestial".to_vec()),
        8 => Some(b"Celeste".to_vec()),
        4 => Some(b"Celeste".to_vec()),
        _ => None,
    };
    assert_eq!(first_title_offset(&offsets, &fields), Some(8));
    let none = |_: u64| Some(b"celeste".to_vec());
    assert_eq!(first_title_offset(&offsets, &none), None);
    assert_eq!(first_title_offset(&Vec::new(), &fields), None);
}

#[test]
fn room_length_sits_before_the_string() {
    assert_eq!(room_length_address(0), None);
    assert_eq!(room_length_address(0x1000), Some(0xFFE));
    assert_eq!(room_length_address(2), Some(0));
    assert_eq!(room_length_address(1), Some(u64::MAX));
}
