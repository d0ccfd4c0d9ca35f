use celeste_autosplit::memory::{everest_magic, VanillaBuild, VANILLA_BUILDS};
use celeste_autosplit::tester::{
    DebugTimer, LogCat, LogLine, RunnerLoop, RunnerOutcome, SegmentTimes, TRAP_PAUSE_MS,
};
use celeste_autosplit::view::{
    attached_label, cat_rgb, copy_text, igt_label, row_mark, running_label, shown_lines,
    split_index_label, splits_banner, timer_events, times_text, CategoryFilter, RowMark, AMBER,
    GREEN, GREY,
};

fn line(cat: LogCat, text: &str) -> LogLine {
    LogLine { cat, text: text.to_string() }
}

#[test]
fn segment_rows() {
    assert!(row_mark(0, 2, true) == RowMark::Done);
    assert!(row_mark(2, 2, true) == RowMark::Current);
    assert!(row_mark(2, 2, false) == RowMark::Pending);
    assert!(row_mark(3, 2, true) == RowMark::Pending);
    assert_eq!(
        times_text(Some(SegmentTimes { segment_ms: 1_500, total_ms: 61_234 })),
        "1:01.234  (+0:01.500)"
    );
    assert_eq!(times_text(None), "\u{2014}");
}

#[test]
fn status_labels() {
    assert_eq!(igt_label(83_456), "IGT 1:23.456");
    assert_eq!(igt_label(-5), "IGT 0:00.000");
    assert_eq!(split_index_label(7), "split #7");
    assert_eq!(attached_label(true), "\u{25CF} attached");
    assert_eq!(attached_label(false), "\u{25CB} detached");
    assert_eq!(running_label(true), "Running");
    assert_eq!(running_label(false), "NotRunning");
}

#[test]
fn category_colours() {
    assert_eq!(cat_rgb(LogCat::Timer), GREEN);
    assert_eq!(cat_rgb(LogCat::Var), AMBER);
    assert_eq!(cat_rgb(LogCat::Runtime), GREY);
    assert_eq!(cat_rgb(LogCat::Wasm), (150, 190, 240));
    assert_eq!(cat_rgb(LogCat::Trace), (170, 140, 210));
}

#[test]
fn log_filtering_and_copy() {
    let logs = vec![
        line(LogCat::Wasm, "hello"),
        line(LogCat::Timer, "[timer] START"),
        line(LogCat::Var, "[var]   deaths = 1"),
        line(LogCat::Timer, "[timer] RESET"),
    ];
    let mut f = CategoryFilter::all();
    assert_eq!(shown_lines(&logs, &f), vec![0, 1, 2, 3]);
    f.set(LogCat::Timer, false);
    assert!(!f.contains(LogCat::Timer));
    assert_eq!(shown_lines(&logs, &f), vec![0, 2]);
    f.set(LogCat::Timer, true);
    f.set(LogCat::Wasm, false);
    assert_eq!(shown_lines(&logs, &f), vec![1, 2, 3]);
    assert_eq!(timer_events(&logs), vec![1, 3]);
    assert_eq!(
        copy_text(&logs),
        "hello\n[timer] START\n[var]   deaths = 1\n[timer] RESET"
    );
    assert_eq!(copy_text(&Vec::new()), "");
}

#[test]
fn banner_of_split_names() {
    assert_eq!(splits_banner(&Vec::new()), None);
    assert_eq!(
        splits_banner(&vec!["Prologue".to_string(), "Crossing".to_string()]),
        Some("Splits: Prologue \u{2192} Crossing".to_string())
    );
    assert_eq!(splits_banner(&vec!["A".to_string()]), Some("Splits: A".to_string()));
}

#[test]
fn debug_timer_run() {
    let ms = 1_000_000u128;
    let mut t = DebugTimer::new(vec!["Prologue".to_string()]);
    assert!(!t.running());
    assert_eq!(t.split(10 * ms), None);
    t.start(100 * ms);
    assert!(t.running());
    assert_eq!(t.label(0), "Prologue (#0)");
    assert_eq!(t.split(350 * ms), Some((0, 250, 250)));
    assert_eq!(t.label(1), "#1");
    assert_eq!(t.skip_split(), 1);
    assert_eq!(t.current_split_index(), 2);
    assert!(t.segment_splitted(1));
    assert_eq!(t.split(400 * ms), Some((2, 50, 300)));
    assert_eq!(t.undo_split(), 2);
    t.reset();
    assert!(!t.running());
    assert_eq!(t.current_split_index(), 0);
    assert_eq!(t.undo_split(), 0);
}

#[test]
fn runner_loop_decisions() {
    let mut r = RunnerLoop::new(1);
    assert!(!r.settings_to_push(1, true));
    assert!(r.settings_to_push(2, true));
    assert!(!r.settings_to_push(3, false));
    assert!(!r.settings_to_push(3, true));
    let s = r.after_tick(RunnerOutcome::Ran { attached: false });
    assert_eq!((s.set_attached, s.reinstantiate, s.pause_ms), (Some(false), false, None));
    let s = r.after_tick(RunnerOutcome::Ran { attached: false });
    assert_eq!(s.set_attached, None);
    let s = r.after_tick(RunnerOutcome::Ran { attached: true });
    assert_eq!(s.set_attached, Some(true));
    let s = r.after_tick(RunnerOutcome::Busy);
    assert_eq!((s.set_attached, s.reinstantiate, s.pause_ms), (None, false, None));
    let s = r.after_tick(RunnerOutcome::Trapped);
    assert_eq!(
        (s.set_attached, s.reinstantiate, s.pause_ms),
        (Some(false), true, Some(TRAP_PAUSE_MS))
    );
    let s = r.after_tick(RunnerOutcome::Trapped);
    assert_eq!(s.set_attached, None);
    r.instantiated(9);
    assert!(!r.settings_to_push(9, true));
}

#[test]
fn vanilla_builds_in_search_order() {
    let offs: Vec<u64> = VANILLA_BUILDS.iter().map(|b| b.operand_offset()).collect();
    assert_eq!(offs, vec![21, 19, 10, 99]);
    assert!(VanillaBuild::OpenGl14.signature().starts_with("68 38 04"));
    assert_eq!(everest_magic().split(' ').count(), 20);
}
