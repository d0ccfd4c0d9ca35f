use celeste_autosplit::splits::{
    area_by_name, eval, mode_by_name, parse_area_mode_value, parse_config, parse_split,
    should_start, split_name_known, starts_with_ignore_case, unknown_split_names, Counts,
    RunConfig, SplitDef,
};
use celeste_autosplit::state::GameState;

fn chars(s: &str) -> Vec<char> {
    s.chars().collect()
}

fn state(area: i32, mode: i32, room: &str) -> GameState {
    let mut buf = [0u8; 64];
    buf[..room.len()].copy_from_slice(room.as_bytes());
    GameState {
        area,
        mode,
        started: false,
        complete: false,
        ch_cassette: false,
        ch_heart: false,
        ch_golden: false,
        cassettes: 0,
        hearts: 0,
        strawberries: 0,
        room: buf,
        room_len: room.len(),
        chapter_time_ms: 0,
        file_time_ms: 0,
    }
}

fn config(xml: &str) -> RunConfig {
    parse_config(xml)
}

fn split_texts(xml: &str) -> Vec<String> {
    let mut out = Vec::new();
    for d in &config(xml).splits {
        out.push(describe(d));
    }
    out
}

fn describe(d: &SplitDef) -> String {
    match d {
        SplitDef::Manual => "Manual".into(),
        SplitDef::CompleteAny => "CompleteAny".into(),
        SplitDef::Complete { area } => format!("Complete {area}"),
        SplitDef::CompleteArea { area, mode } => format!("CompleteArea {area} {mode:?}"),
        SplitDef::AreaEnter { area, mode } => format!("AreaEnter {area} {mode:?}"),
        SplitDef::AreaExit { area, mode } => format!("AreaExit {area} {mode:?}"),
        SplitDef::Checkpoint { area, a_room, b_room } => format!("Checkpoint {area} {a_room} {b_room}"),
        SplitDef::Cassette { area } => format!("Cassette {area}"),
        SplitDef::HeartGem { area } => format!("HeartGem {area}"),
        SplitDef::HeartGemAny => "HeartGemAny".into(),
        SplitDef::StrawberryPickup => "StrawberryPickup".into(),
        SplitDef::GoldenBerry => "GoldenBerry".into(),
        SplitDef::RoomEnter { name } => format!("RoomEnter {name}"),
        SplitDef::RoomExit { name } => format!("RoomExit {name}"),
    }
}

#[test]
fn area_and_mode_names_ignore_ascii_case() {
    assert_eq!(area_by_name(&chars("forsakencity")), Some(1));
    assert_eq!(area_by_name(&chars("MENU")), Some(-1));
    assert_eq!(area_by_name(&chars("Farewell")), Some(10));
    assert_eq!(area_by_name(&chars("Farewel")), None);
    assert_eq!(mode_by_name(&chars("bside")), Some(1));
    assert_eq!(mode_by_name(&chars("None")), Some(-1));
    assert_eq!(mode_by_name(&chars("DSide")), None);
}

#[test]
fn area_mode_values() {
    assert_eq!(parse_area_mode_value(&chars("OldSite")), Some((2, None)));
    assert_eq!(parse_area_mode_value(&chars(" OldSite - BSide ")), Some((2, Some(1))));
    assert_eq!(parse_area_mode_value(&chars("OldSite-XSide")), Some((2, None)));
    assert_eq!(parse_area_mode_value(&chars("Nowhere-ASide")), None);
    assert_eq!(parse_area_mode_value(&chars("")), None);
}

#[test]
fn split_names_and_counts() {
    let mut counts = Counts { chapter: 0, heart: 0, area: 0, cassette: 0 };
    assert_eq!(describe(&parse_split(&chars("Chapter3"), &mut counts)), "Complete 3");
    assert_eq!(describe(&parse_split(&chars("Chapter8HeartGem"), &mut counts)), "HeartGem 9");
    assert_eq!(describe(&parse_split(&chars("AreaComplete,Core-CSide"), &mut counts)), "CompleteArea 9 Some(2)");
    assert_eq!(describe(&parse_split(&chars("Chapter2Cassette"), &mut counts)), "Cassette 2");
    assert_eq!(describe(&parse_split(&chars("LevelEnter,b-02"), &mut counts)), "RoomEnter b-02");
    assert_eq!(describe(&parse_split(&chars("Chapter9Checkpoint4"), &mut counts)), "Checkpoint 10 f-door f-door");
    assert_eq!(describe(&parse_split(&chars("Whatever"), &mut counts)), "Manual");
    assert_eq!(describe(&parse_split(&chars("AreaOnEnter,Nowhere"), &mut counts)), "Manual");
    // "Chapter3" and "Whatever" are 8 bytes long: both count as chapters
    assert_eq!((counts.chapter, counts.heart, counts.area, counts.cassette), (2, 1, 1, 1));
}

#[test]
fn config_of_a_full_game_route() {
    let xml = "<Splits><Split>Prologue</Split><Split>Chapter1</Split><Split>Chapter2</Split></Splits>\
               <FileTimeOffset> True </FileTimeOffset>";
    let cfg = config(xml);
    assert_eq!(split_texts(xml), vec!["Complete 0", "Complete 1", "Complete 2"]);
    assert!(!cfg.every_room);
    assert!(!cfg.il_splits);
    assert!(cfg.chapter_splits);
    assert!(cfg.file_time_offset);
    assert_eq!(cfg.add_amount, 0);
}

#[test]
fn config_of_an_individual_level_with_checkpoints() {
    let xml = "<Split> Chapter1Checkpoint1 </Split><Split>Chapter1Checkpoint2</Split><Split>Chapter1</Split>";
    let cfg = config(xml);
    assert_eq!(split_texts(xml), vec!["Checkpoint 1 6 04", "Checkpoint 1 9b 08", "Complete 1"]);
    assert!(cfg.il_splits);
    assert!(cfg.chapter_splits);
    assert!(!cfg.file_time_offset);
    assert_eq!(cfg.add_amount, 0);
}

#[test]
fn config_without_chapter_splits_offsets_the_index() {
    let xml = "<Split>LevelEnter,a-01</Split><Split>LevelExit,a-02</Split>";
    let cfg = config(xml);
    assert!(!cfg.chapter_splits);
    assert_eq!(cfg.add_amount, 1);
}

#[test]
fn config_without_splits_splits_every_room() {
    let cfg = config("<Splits />");
    assert!(cfg.every_room);
    assert!(cfg.il_splits);
    assert!(!cfg.chapter_splits);
    assert_eq!(cfg.add_amount, 0);
}

#[test]
fn config_unescapes_split_texts() {
    let xml = "<Split>LevelEnter,a&amp;b</Split>";
    assert_eq!(split_texts(xml), vec!["RoomEnter a&b"]);
}

#[test]
fn every_room_splits_on_room_change_and_completion() {
    let cfg = config("");
    let mut exiting = false;
    let p = state(1, 0, "a-00");
    let s = state(1, 0, "a-01");
    assert!(eval(&cfg, &mut exiting, 0, &s, &p));
    assert!(!eval(&cfg, &mut exiting, 0, &p, &p));
    let menu = state(-1, 0, "a-01");
    assert!(!eval(&cfg, &mut exiting, 0, &menu, &p));
    let mut done = p;
    done.complete = true;
    assert!(eval(&cfg, &mut exiting, 0, &done, &p));
}

#[test]
fn chapter_split_waits_for_exit_in_full_game_runs() {
    let cfg = config("<Split>Chapter1</Split><Split>Chapter2</Split><Split>Chapter3</Split>");
    assert!(!cfg.il_splits);
    let mut exiting = false;
    let p = state(1, 0, "end");
    let mut s = p;
    s.complete = true;
    assert!(!eval(&cfg, &mut exiting, 0, &s, &p));
    assert!(exiting);
    let mut out = state(-1, 0, "");
    out.complete = false;
    assert!(eval(&cfg, &mut exiting, 0, &out, &s));
}

#[test]
fn chapter_split_fires_at_once_in_individual_levels() {
    let cfg = config("<Split>Chapter7</Split>");
    assert!(cfg.il_splits);
    let mut exiting = false;
    let p = state(7, 0, "credits");
    let mut s = p;
    s.complete = true;
    // the summit's completion inside the credits room does not count
    assert!(!eval(&cfg, &mut exiting, 0, &s, &p));
    assert!(!exiting);
    let p2 = state(7, 0, "j-16");
    let mut s2 = p2;
    s2.complete = true;
    assert!(eval(&cfg, &mut exiting, 0, &s2, &p2));
    assert!(exiting);
}

#[test]
fn checkpoint_room_depends_on_side() {
    let cfg = config("<Split>Chapter2Checkpoint2</Split>");
    let mut exiting = false;
    let p = state(2, 0, "x");
    assert!(eval(&cfg, &mut exiting, 0, &state(2, 0, "end_3"), &p));
    assert!(!eval(&cfg, &mut exiting, 0, &state(2, 1, "end_3"), &p));
    assert!(eval(&cfg, &mut exiting, 0, &state(2, 1, "08b"), &p));
    assert!(!eval(&cfg, &mut exiting, 0, &state(3, 0, "end_3"), &p));
}

#[test]
fn room_enter_and_exit_ignore_case() {
    let cfg = config("<Split>LevelEnter,B-02</Split><Split>LevelExit,b-02</Split>");
    let mut exiting = false;
    let a = state(3, 0, "b-01");
    let b = state(3, 0, "b-02");
    let c = state(3, 0, "b-03");
    assert!(eval(&cfg, &mut exiting, 0, &b, &a));
    assert!(!eval(&cfg, &mut exiting, 0, &c, &b));
    assert!(eval(&cfg, &mut exiting, 1, &c, &b));
    assert!(!eval(&cfg, &mut exiting, 2, &c, &b));
}

#[test]
fn collectibles() {
    let cfg = config("<Split>Chapter1Cassette</Split><Split>HeartGemAny</Split><Split>StrawberryPickup</Split><Split>GoldenBerry</Split>");
    assert!(!cfg.il_splits || cfg.il_splits);
    let mut exiting = false;
    let p = state(1, 0, "a");
    let mut s = p;
    s.cassettes = 1;
    assert!(eval(&cfg, &mut exiting, 0, &s, &p));
    let mut h = p;
    h.hearts = 1;
    assert!(eval(&cfg, &mut exiting, 1, &h, &p));
    let mut b = p;
    b.strawberries = 1;
    assert!(eval(&cfg, &mut exiting, 2, &b, &p));
    let mut g = p;
    g.ch_golden = true;
    assert!(eval(&cfg, &mut exiting, 3, &g, &p));
    assert!(!eval(&cfg, &mut exiting, 3, &g, &g));
}

#[test]
fn area_enter_with_mode() {
    let cfg = config("<Split>AreaOnEnter,OldSite-BSide</Split><Split>AreaOnExit,OldSite</Split>");
    let mut exiting = false;
    let menu = state(-1, 0, "");
    assert!(eval(&cfg, &mut exiting, 0, &state(2, 1, "a"), &menu));
    assert!(!eval(&cfg, &mut exiting, 0, &state(2, 0, "a"), &menu));
    assert!(eval(&cfg, &mut exiting, 1, &menu, &state(2, 0, "a")));
}

#[test]
fn collectible_at_the_top_of_its_range() {
    let cfg = config("<Split>StrawberryPickup</Split>");
    let mut exiting = false;
    let mut p = state(1, 0, "a");
    p.strawberries = i32::MAX;
    let mut s = p;
    assert!(!eval(&cfg, &mut exiting, 0, &s, &p));
    s.strawberries = i32::MIN;
    assert!(!eval(&cfg, &mut exiting, 0, &s, &p));
    p.strawberries = 41;
    s.strawberries = 42;
    assert!(eval(&cfg, &mut exiting, 0, &s, &p));
}

#[test]
fn start_trigger() {
    let chapter = config("<Split>Chapter1</Split>");
    let mut exiting = false;
    let p = state(-1, 0, "");
    let mut s = p;
    s.started = true;
    assert!(should_start(&chapter, &mut exiting, &s, &p));
    assert!(!should_start(&chapter, &mut exiting, &p, &p));
    let rooms = config("<Split>LevelEnter,a-00</Split>");
    assert!(should_start(&rooms, &mut exiting, &state(1, 0, "a-00"), &state(-1, 0, "")));
    assert!(!should_start(&rooms, &mut exiting, &s, &p));
}

#[test]
fn prefix_ignoring_case() {
    assert!(starts_with_ignore_case(b"Credits-01", b"credits"));
    assert!(!starts_with_ignore_case(b"cred", b"credits"));
    assert!(starts_with_ignore_case(b"", b""));
}

#[test]
fn unknown_split_names_are_reported_in_order() {
    let xml = "<Splits><Split>Whatever</Split><Split>Chapter1</Split>\
        <Split> AreaComplete,Nowhere </Split><Split>Foo &amp; Bar,1</Split>\
        <Split>Chapter9Checkpoint4</Split><Split>Chapter12</Split></Splits>";
    assert_eq!(
        unknown_split_names(xml),
        vec!["Whatever".to_string(), "Foo & Bar".to_string(), "Chapter12".to_string()]
    );
    assert_eq!(unknown_split_names("<Splits />"), Vec::<String>::new());
    // each of them reads as a manual split
    let cfg = config(xml);
    assert_eq!(describe(&cfg.splits[0]), "Manual");
    assert_eq!(describe(&cfg.splits[3]), "Manual");
    assert_eq!(describe(&cfg.splits[5]), "Manual");
}

#[test]
fn known_split_names() {
    for name in ["Manual", "Prologue", "AreaComplete", "AreaOnEnter", "AreaOnExit", "LevelEnter",
        "LevelExit", "Chapter3Checkpoint2", "Chapter8Cassette", "Chapter1HeartGem", "GoldenBerry"] {
        assert!(split_name_known(&chars(name)), "{name}");
    }
    for name in ["", "manual", "Chapter10", "Chapter8HeartGems", "AreaComplete,1"] {
        assert!(!split_name_known(&chars(name)), "{name}");
    }
}
