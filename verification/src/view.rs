//! What the GUI tester shows: the marks of the segment list, the status
//! labels, the colours of the log categories, and which log lines are
//! shown or copied.
use vstd::prelude::*;
use crate::format::{decimal, decimal_chars, fmt_ms, fmt_ms_spec};
use crate::tester::{LogCat, LogLine, SegmentTimes};
use crate::text::{extend_chars, from_chars, to_chars};

verus! {

/// How a row of the segment list is marked.
#[derive(Clone, Copy, PartialEq, Eq, Structural)]
pub enum RowMark {
    /// Already split: a check mark and the times.
    Done,
    /// The split being run: highlighted.
    Current,
    /// Still to come: greyed out.
    Pending,
}

/// The mark of row `i` when the run is at split `cur`.
pub open spec fn row_mark_spec(i: usize, cur: usize, running: bool) -> RowMark {
    if i < cur {
        RowMark::Done
    } else if i == cur && running {
        RowMark::Current
    } else {
        RowMark::Pending
    }
}

/// The rows before the current split are done, the current split's row is
/// highlighted only while the run is running, and no other row is.
pub proof fn law_row_marks(cur: usize, running: bool)
    ensures
        forall|i: usize| (#[trigger] row_mark_spec(i, cur, running) == RowMark::Done) == (i < cur),
        forall|i: usize|
            (#[trigger] row_mark_spec(i, cur, running) == RowMark::Current) == (i == cur && running),
{
}

pub fn row_mark(i: usize, cur: usize, running: bool) -> (r: RowMark)
    ensures
        r == row_mark_spec(i, cur, running),
{
    if i < cur {
        RowMark::Done
    } else if i == cur && running {
        RowMark::Current
    } else {
        RowMark::Pending
    }
}

/// The times shown on a done row: `total  (+segment)`, or a dash when the
/// split was skipped.
pub open spec fn times_text_spec(times: Option<SegmentTimes>) -> Seq<char> {
    match times {
        Some(t) => fmt_ms_spec(t.total_ms as nat) + "  (+"@ + fmt_ms_spec(t.segment_ms as nat) + ")"@,
        None => "\u{2014}"@,
    }
}

pub fn times_text(times: Option<SegmentTimes>) -> (r: String)
    ensures
        r@ == times_text_spec(times),
{
    match times {
        Some(t) => {
            let mut out = to_chars(fmt_ms(t.total_ms).as_str());
            let open = to_chars("  (+");
            extend_chars(&mut out, open.as_slice());
            let seg = to_chars(fmt_ms(t.segment_ms).as_str());
            extend_chars(&mut out, seg.as_slice());
            out.push(')');
            proof {
                reveal_strlit("  (+");
                reveal_strlit(")");
            }
            assert(out@ =~= times_text_spec(times));
            from_chars(out.as_slice())
        },
        None => String::from_str("\u{2014}"),
    }
}

/// The in-game time label: `IGT m:ss.mmm`, a negative time shown as 0.
pub open spec fn igt_label_spec(igt_ms: i64) -> Seq<char> {
    "IGT "@ + fmt_ms_spec(
        if igt_ms > 0 {
            igt_ms as nat
        } else {
            0
        },
    )
}

pub fn igt_label(igt_ms: i64) -> (r: String)
    ensures
        r@ == igt_label_spec(igt_ms),
{
    let ms: u128 = if igt_ms > 0 {
        igt_ms as u128
    } else {
        0
    };
    let mut out = to_chars("IGT ");
    let t = to_chars(fmt_ms(ms).as_str());
    extend_chars(&mut out, t.as_slice());
    assert(out@ =~= igt_label_spec(igt_ms));
    from_chars(out.as_slice())
}

/// The split index label: `split #idx`.
pub open spec fn split_index_label_spec(idx: usize) -> Seq<char> {
    "split #"@ + decimal(idx as nat)
}

pub fn split_index_label(idx: usize) -> (r: String)
    ensures
        r@ == split_index_label_spec(idx),
{
    let mut out = to_chars("split #");
    let d = decimal_chars(idx as u128);
    extend_chars(&mut out, d.as_slice());
    assert(out@ =~= split_index_label_spec(idx));
    from_chars(out.as_slice())
}

/// The attachment label.
pub fn attached_label(attached: bool) -> (r: &'static str)
    ensures
        r@ == (if attached {
            "\u{25CF} attached"@
        } else {
            "\u{25CB} detached"@
        }),
{
    if attached {
        "\u{25CF} attached"
    } else {
        "\u{25CB} detached"
    }
}

/// The timer state label.
pub fn running_label(running: bool) -> (r: &'static str)
    ensures
        r@ == (if running {
            "Running"@
        } else {
            "NotRunning"@
        }),
{
    if running {
        "Running"
    } else {
        "NotRunning"
    }
}

/// A colour as red, green and blue.
pub type Rgb = (u8, u8, u8);

/// Green: attached, running, done rows, timer lines.
pub const GREEN: Rgb = (64, 200, 96);
/// Grey: detached, not running, pending rows, runtime lines.
pub const GREY: Rgb = (120, 120, 120);
/// Amber: the current row, counter lines.
pub const AMBER: Rgb = (230, 180, 60);
/// Light blue: the splitter's messages.
pub const LIGHT_BLUE: Rgb = (150, 190, 240);
/// Lavender: trace lines.
pub const LAVENDER: Rgb = (170, 140, 210);

/// The colour of a log category.
pub open spec fn cat_rgb_spec(cat: LogCat) -> Rgb {
    match cat {
        LogCat::Timer => GREEN,
        LogCat::Var => AMBER,
        LogCat::Wasm => LIGHT_BLUE,
        LogCat::Runtime => GREY,
        LogCat::Trace => LAVENDER,
    }
}

pub fn cat_rgb(cat: LogCat) -> (r: Rgb)
    ensures
        r == cat_rgb_spec(cat),
{
    match cat {
        LogCat::Timer => GREEN,
        LogCat::Var => AMBER,
        LogCat::Wasm => LIGHT_BLUE,
        LogCat::Runtime => GREY,
        LogCat::Trace => LAVENDER,
    }
}

/// The log categories shown, one switch per category.
pub struct CategoryFilter {
    wasm: bool,
    runtime: bool,
    var: bool,
    timer: bool,
    trace: bool,
}

impl View for CategoryFilter {
    type V = Set<LogCat>;

    closed spec fn view(&self) -> Set<LogCat> {
        Set::new(
            |c: LogCat|
                match c {
                    LogCat::Wasm => self.wasm,
                    LogCat::Runtime => self.runtime,
                    LogCat::Var => self.var,
                    LogCat::Timer => self.timer,
                    LogCat::Trace => self.trace,
                },
        )
    }
}

/// Every category.
pub open spec fn all_cats() -> Set<LogCat> {
    Set::new(|c: LogCat| true)
}

impl CategoryFilter {
    /// Every category shown.
    pub fn all() -> (f: Self)
        ensures
            f@ == all_cats(),
    {
        let f = CategoryFilter { wasm: true, runtime: true, var: true, timer: true, trace: true };
        assert(f@ =~= all_cats());
        f
    }

    pub fn contains(&self, cat: LogCat) -> (r: bool)
        ensures
            r == self@.contains(cat),
    {
        match cat {
            LogCat::Wasm => self.wasm,
            LogCat::Runtime => self.runtime,
            LogCat::Var => self.var,
            LogCat::Timer => self.timer,
            LogCat::Trace => self.trace,
        }
    }

    /// Shows or hides one category.
    pub fn set(&mut self, cat: LogCat, on: bool)
        ensures
            final(self)@ == (if on {
                old(self)@.insert(cat)
            } else {
                old(self)@.remove(cat)
            }),
    {
        match cat {
            LogCat::Wasm => self.wasm = on,
            LogCat::Runtime => self.runtime = on,
            LogCat::Var => self.var = on,
            LogCat::Timer => self.timer = on,
            LogCat::Trace => self.trace = on,
        }
        assert(self@ =~= (if on {
            old(self)@.insert(cat)
        } else {
            old(self)@.remove(cat)
        }));
    }
}

/// The positions of the lines of `cats`, in order.
pub open spec fn lines_of(cats: Seq<LogCat>, shown: Set<LogCat>) -> Seq<usize>
    decreases cats.len(),
{
    if cats.len() == 0 {
        Seq::empty()
    } else if shown.contains(cats.last()) {
        lines_of(cats.drop_last(), shown).push((cats.len() - 1) as usize)
    } else {
        lines_of(cats.drop_last(), shown)
    }
}

/// The lines picked from a log: in increasing order, each a line of the log
/// whose category is shown, and every such line picked.
pub proof fn law_lines_of(cats: Seq<LogCat>, shown: Set<LogCat>)
    requires
        cats.len() <= usize::MAX,
    ensures
        ({
            let r = lines_of(cats, shown);
            &&& forall|k: int| 0 <= k < r.len() ==> #[trigger] r[k] < cats.len() && shown.contains(
                cats[r[k] as int],
            )
            &&& forall|k1: int, k2: int| 0 <= k1 < k2 < r.len() ==> #[trigger] r[k1] < #[trigger] r[k2]
            &&& forall|i: int|
                0 <= i < cats.len() && shown.contains(#[trigger] cats[i]) ==> exists|k: int|
                    0 <= k < r.len() && #[trigger] r[k] == i
        }),
    decreases cats.len(),
{
    if cats.len() > 0 {
        let init = cats.drop_last();
        law_lines_of(init, shown);
        let r0 = lines_of(init, shown);
        let r = lines_of(cats, shown);
        assert forall|k: int| 0 <= k < r0.len() implies #[trigger] r0[k] < init.len() && cats[r0[k] as int]
            == init[r0[k] as int] by {}
        assert forall|i: int| 0 <= i < cats.len() && shown.contains(#[trigger] cats[i]) implies exists|k: int|
            0 <= k < r.len() && #[trigger] r[k] == i by {
            if i < init.len() {
                assert(init[i] == cats[i]);
                let k = choose|k: int| 0 <= k < r0.len() && #[trigger] r0[k] == i;
                assert(r[k] == r0[k]);
            } else {
                assert(cats.last() == cats[i]);
                assert(r == r0.push((cats.len() - 1) as usize));
                assert(r[r.len() - 1] == i);
            }
        }
    }
}

/// The categories of a log.
pub open spec fn log_cats(logs: Seq<LogLine>) -> Seq<LogCat> {
    logs.map_values(|l: LogLine| l.cat)
}

/// The positions of the lines whose category is in `shown`.
pub fn shown_lines(logs: &Vec<LogLine>, shown: &CategoryFilter) -> (r: Vec<usize>)
    ensures
        r@ == lines_of(log_cats(logs@), shown@),
{
    let mut out: Vec<usize> = Vec::new();
    let mut i: usize = 0;
    while i < logs.len()
        invariant
            i <= logs@.len(),
            out@ == lines_of(log_cats(logs@).take(i as int), shown@),
        decreases logs@.len() - i,
    {
        proof {
            assert(log_cats(logs@).take(i + 1).drop_last() =~= log_cats(logs@).take(i as int));
        }
        if shown.contains(logs[i].cat) {
            out.push(i);
        }
        i = i + 1;
    }
    proof {
        assert(log_cats(logs@).take(logs@.len() as int) =~= log_cats(logs@));
    }
    out
}

/// The positions of the timer event lines.
pub fn timer_events(logs: &Vec<LogLine>) -> (r: Vec<usize>)
    ensures
        r@ == lines_of(log_cats(logs@), set![LogCat::Timer]),
{
    let mut only = CategoryFilter {
        wasm: false,
        runtime: false,
        var: false,
        timer: true,
        trace: false,
    };
    assert(only@ =~= set![LogCat::Timer]);
    shown_lines(logs, &only)
}

/// The lines joined with newlines.
pub open spec fn joined(texts: Seq<Seq<char>>) -> Seq<char>
    decreases texts.len(),
{
    if texts.len() == 0 {
        Seq::empty()
    } else if texts.len() == 1 {
        texts[0]
    } else {
        joined(texts.drop_last()) + seq!['\n'] + texts.last()
    }
}

/// The texts of a log.
pub open spec fn log_texts(logs: Seq<LogLine>) -> Seq<Seq<char>> {
    logs.map_values(|l: LogLine| l.text@)
}

/// The whole log as one text, a line per entry (what "Copy log" copies).
pub fn copy_text(logs: &Vec<LogLine>) -> (r: String)
    ensures
        r@ == joined(log_texts(logs@)),
{
    let mut out: Vec<char> = Vec::new();
    let mut i: usize = 0;
    while i < logs.len()
        invariant
            i <= logs@.len(),
            out@ == joined(log_texts(logs@).take(i as int)),
        decreases logs@.len() - i,
    {
        proof {
            assert(log_texts(logs@).take(i + 1).drop_last() =~= log_texts(logs@).take(i as int));
        }
        if i > 0 {
            out.push('\n');
        }
        let t = to_chars(logs[i].text.as_str());
        extend_chars(&mut out, t.as_slice());
        proof {
            if i == 0 {
                assert(out@ =~= joined(log_texts(logs@).take(1)));
            } else {
                assert(out@ =~= joined(log_texts(logs@).take(i + 1)));
            }
        }
        i = i + 1;
    }
    proof {
        assert(log_texts(logs@).take(logs@.len() as int) =~= log_texts(logs@));
    }
    from_chars(out.as_slice())
}

/// The names joined with ` → `, after `Splits: `; none without names.
pub open spec fn splits_banner_spec(names: Seq<Seq<char>>) -> Option<Seq<char>> {
    if names.len() == 0 {
        None
    } else {
        Some("Splits: "@ + joined_arrow(names))
    }
}

/// The names joined with ` → `.
pub open spec fn joined_arrow(names: Seq<Seq<char>>) -> Seq<char>
    decreases names.len(),
{
    if names.len() == 0 {
        Seq::empty()
    } else if names.len() == 1 {
        names[0]
    } else {
        joined_arrow(names.drop_last()) + " \u{2192} "@ + names.last()
    }
}

/// The line the command-line tester prints for the split names.
pub fn splits_banner(names: &Vec<String>) -> (r: Option<String>)
    ensures
        r matches Some(s) ==> splits_banner_spec(names@.map_values(|n: String| n@)) == Some(s@),
        r is None <==> splits_banner_spec(names@.map_values(|n: String| n@)) is None,
{
    let ghost ns = names@.map_values(|n: String| n@);
    if names.len() == 0 {
        return None;
    }
    let mut out: Vec<char> = Vec::new();
    let arrow = to_chars(" \u{2192} ");
    let mut i: usize = 0;
    while i < names.len()
        invariant
            i <= names@.len(),
            ns == names@.map_values(|n: String| n@),
            arrow@ == " \u{2192} "@,
            out@ == joined_arrow(ns.take(i as int)),
        decreases names@.len() - i,
    {
        proof {
            assert(ns.take(i + 1).drop_last() =~= ns.take(i as int));
        }
        if i > 0 {
            extend_chars(&mut out, arrow.as_slice());
        }
        let t = to_chars(names[i].as_str());
        extend_chars(&mut out, t.as_slice());
        proof {
            if i == 0 {
                assert(out@ =~= joined_arrow(ns.take(1)));
            } else {
                assert(out@ =~= joined_arrow(ns.take(i + 1)));
            }
        }
        i = i + 1;
    }
    let mut line = to_chars("Splits: ");
    extend_chars(&mut line, out.as_slice());
    proof {
        assert(ns.take(ns.len() as int) =~= ns);
        assert(line@ =~= "Splits: "@ + joined_arrow(ns));
    }
    Some(from_chars(line.as_slice()))
}

} // verus!
