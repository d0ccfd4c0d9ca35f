use celeste_autosplit::format::{fmt_ms, split_label};
use celeste_autosplit::tester::{
    autosplitter_settings, cap_log, classify_splitter_log, parse_split_names, segment_names,
    DebugTimer, LogCat, LogLine, Shared, TesterTimer, XmlNode, MAX_LOG_LINES,
};

#[test]
fn formats_milliseconds() {
    assert_eq!(fmt_ms(0), "0:00.000");
    assert_eq!(fmt_ms(61_234), "1:01.234");
    assert_eq!(fmt_ms(3_599_999), "59:59.999");
    assert_eq!(fmt_ms(7_200_005), "120:00.005");
}

#[test]
fn labels() {
    assert_eq!(split_label(Some("Prologue"), 0), "Prologue (#0)");
    assert_eq!(split_label(None, 12), "#12");
}

#[test]
fn category_labels() {
    let labels: Vec<&str> = LogCat::ALL.iter().map(|c| c.label()).collect();
    assert_eq!(labels, vec!["wasm", "runtime", "var", "timer/split", "trace"]);
}

#[test]
fn splitter_log_categories() {
    assert!(classify_splitter_log("[trace] area=1") == LogCat::Trace);
    assert!(classify_splitter_log("[dbg] x") == LogCat::Trace);
    assert!(classify_splitter_log("Attached to process") == LogCat::Wasm);
    assert!(classify_splitter_log(" [trace]") == LogCat::Wasm);
}

#[test]
fn log_keeps_newest_lines() {
    let mut logs = Vec::new();
    for i in 0..MAX_LOG_LINES + 3 {
        logs.push(LogLine { cat: LogCat::Var, text: format!("{i}") });
    }
    cap_log(&mut logs);
    assert_eq!(logs.len(), MAX_LOG_LINES);
    assert_eq!(logs[0].text, "3");
    let mut few = vec![LogLine { cat: LogCat::Timer, text: "a".into() }];
    cap_log(&mut few);
    assert_eq!(few.len(), 1);
}

#[test]
fn settings_block_of_a_splits_file() {
    let lss = "<Run><AutoSplitterSettings><Splits><Split>Prologue</Split></Splits></AutoSplitterSettings></Run>";
    assert_eq!(
        autosplitter_settings(lss),
        Some("<Splits><Split>Prologue</Split></Splits>".to_string())
    );
    assert_eq!(autosplitter_settings("<Run></Run>"), None);
    assert_eq!(autosplitter_settings("<AutoSplitterSettings>open"), None);
}

#[test]
fn segment_names_of_a_splits_file() {
    let lss = "<Run><Segments>\
        <Segment><Name>Prologue</Name><Icon /></Segment>\
        <Segment><Icon /></Segment>\
        <Segment><Name>Crossing</Name></Segment>\
        </Segments></Run>";
    assert_eq!(parse_split_names(lss), vec!["Prologue".to_string(), "Crossing".to_string()]);
    assert_eq!(parse_split_names(""), Vec::<String>::new());
    assert_eq!(parse_split_names("<Run><Segment>"), Vec::<String>::new());
}

#[test]
fn counters_stay_sorted_and_unique() {
    let mut sh = Shared::new();
    sh.current_split_index = 2;
    assert_eq!(sh.set_counter("strawberries", "1"), 2);
    sh.set_counter("deaths", "4");
    sh.set_counter("golden", "0");
    sh.current_split_index = 3;
    sh.set_counter("deaths", "5");
    let names: Vec<(String, String, usize)> = sh
        .counters()
        .iter()
        .map(|(k, v)| (k.clone(), v.value.clone(), v.split_index))
        .collect();
    assert_eq!(
        names,
        vec![
            ("deaths".to_string(), "5".to_string(), 3),
            ("golden".to_string(), "0".to_string(), 2),
            ("strawberries".to_string(), "1".to_string(), 2),
        ]
    );
}

#[test]
fn timer_events_on_shared_state() {
    let mut sh = Shared::default();
    sh.set_segments(vec!["A".to_string(), "B".to_string()]);
    assert_eq!(sh.record_split(5, 5), None);
    sh.run_active = true;
    assert_eq!(sh.record_split(10, 10), Some(0));
    assert_eq!(sh.segments[0].times.map(|t| (t.segment_ms, t.total_ms)), Some((10, 10)));
    assert_eq!(sh.label(1), "B (#1)");
    assert_eq!(sh.skip_split(), 1);
    assert_eq!(sh.record_split(3, 20), Some(2));
    assert_eq!(sh.current_split_index, 3);
    assert_eq!(sh.label(3), "#3");
    assert_eq!(sh.undo_split(), 2);
    sh.reset_run();
    assert!(!sh.run_active);
    assert_eq!(sh.current_split_index, 0);
    assert!(sh.segments.iter().all(|s| s.times.is_none()));
    assert_eq!(sh.undo_split(), 0);
    sh.set_counter("deaths", "1");
    sh.attached = true;
    sh.igt_ms = 5;
    sh.clear_for_new_splitter();
    assert!(sh.counters().is_empty());
    assert!(!sh.attached);
    assert_eq!(sh.igt_ms, 0);
    assert_eq!(sh.segments.len(), 2);
}

#[test]
fn segment_names_of_an_outline() {
    let node = |tag: &str, children: Vec<(&str, Option<&str>)>| XmlNode {
        tag: tag.to_string(),
        children: children
            .into_iter()
            .map(|(t, x)| (t.to_string(), x.map(|x| x.to_string())))
            .collect(),
    };
    let nodes = vec![
        node("", vec![("Run", None)]),
        node("Segment", vec![("Icon", None), ("Name", Some("Prologue")), ("Name", Some("Other"))]),
        node("Segment", vec![("Name", None)]),
        node("Name", vec![("", Some("Prologue"))]),
        node("Segment", vec![("Name", Some("Summit"))]),
        node("segment", vec![("Name", Some("Lower"))]),
    ];
    assert_eq!(segment_names(&nodes), vec!["Prologue".to_string(), "Summit".to_string()]);
    assert_eq!(segment_names(&Vec::new()), Vec::<String>::new());
}

#[test]
fn tester_segment_never_exceeds_total() {
    let ms = 1_000_000u128;
    let mut sh = Shared::new();
    sh.set_segments(vec!["A".to_string(), "B".to_string(), "C".to_string()]);
    let mut t = TesterTimer::new();
    assert_eq!(t.last_split_at(), None);
    t.start(10 * ms, &mut sh);
    assert_eq!(t.last_split_at(), Some(10 * ms));
    for now in [10 * ms, 10 * ms + 999_999, 4_321 * ms] {
        let (_, seg, total) = t.split(now, &mut sh).unwrap();
        assert!(seg <= total);
        assert_eq!(t.last_split_at(), Some(now));
    }
}

#[test]
fn debug_timer_segment_never_exceeds_total() {
    let ms = 1_000_000u128;
    let mut t = DebugTimer::new(vec!["A".to_string()]);
    assert_eq!(t.split(ms), None);
    t.start(2 * ms);
    assert_eq!(t.last_split_at(), Some(2 * ms));
    assert_eq!(t.split(7 * ms), Some((0, 5, 5)));
    assert_eq!(t.split(9 * ms + 1), Some((1, 2, 7)));
    assert_eq!(t.last_split_at(), Some(9 * ms + 1));
}
