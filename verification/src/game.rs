//! `Celeste`: the game's split decisions, in-game time and run counters.
use vstd::prelude::*;
use crate::counter::{emit_result, Counter, CounterModel, EdgeCounter, EdgeModel};
use crate::memory::{session_count, session_count_spec, session_strawberries, session_strawberries_spec};
use crate::splits::{
    eval, eval_spec, should_start, should_start_spec, RunConfig, AREA_MENU,
};
use crate::engine::Game;
use crate::state::GameState;

verus! {

/// The run counters reported to the timer as variables.
#[derive(Clone, Copy, Debug, PartialEq, Eq, Structural)]
pub enum CounterName {
    Deaths,
    Dashes,
    Strawberries,
    Cassettes,
    Hearts,
    Golden,
}

impl CounterName {
    /// The timer variable the counter is reported as.
    pub fn key(&self) -> (r: &'static str)
        ensures
            r@ == counter_key(*self),
    {
        match self {
            CounterName::Deaths => "deaths",
            CounterName::Dashes => "dashes",
            CounterName::Strawberries => "strawberries",
            CounterName::Cassettes => "cassettes",
            CounterName::Hearts => "hearts",
            CounterName::Golden => "golden",
        }
    }
}

/// The timer variable a counter is reported as.
pub open spec fn counter_key(n: CounterName) -> Seq<char> {
    match n {
        CounterName::Deaths => "deaths"@,
        CounterName::Dashes => "dashes"@,
        CounterName::Strawberries => "strawberries"@,
        CounterName::Cassettes => "cassettes"@,
        CounterName::Hearts => "hearts"@,
        CounterName::Golden => "golden"@,
    }
}

/// The state of all run counters.
pub struct CountersModel {
    pub deaths: CounterModel,
    pub dashes: CounterModel,
    pub straws: CounterModel,
    pub cassettes: EdgeModel,
    pub hearts: EdgeModel,
    pub goldens: EdgeModel,
}

/// What was read from the vanilla session this tick.
pub struct SessionRead {
    /// Address of the session object, if it could be followed.
    pub session: Option<u64>,
    /// Raw death count read from the session.
    pub deaths: Option<i32>,
    /// Raw dash count read from the session.
    pub dashes: Option<i32>,
    /// Raw size of the session's strawberry set.
    pub strawberries: Option<i32>,
}

/// The fresh state of a counter.
pub open spec fn fresh_counter() -> CounterModel {
    CounterModel { total: 0, last: None, emitted: -1 }
}

/// The fresh state of an edge counter.
pub open spec fn fresh_edges() -> EdgeModel {
    EdgeModel { total: 0, prev: false, emitted: -1 }
}

/// Celeste's per-run state: the chapter being exited (for chapter splits),
/// the run counters and the last session address seen.
pub struct Celeste {
    exiting_chapter: bool,
    deaths: Counter,
    dashes: Counter,
    straws: Counter,
    cassettes: EdgeCounter,
    hearts: EdgeCounter,
    goldens: EdgeCounter,
    last_session: Option<u64>,
}

/// One reported counter value, if the counter has something new to report.
pub open spec fn emission(n: CounterName, v: Option<int>) -> Seq<(CounterName, i64)> {
    match v {
        Some(x) => seq![(n, x as i64)],
        None => seq![],
    }
}

impl Celeste {
    /// A chapter-complete split is waiting for the chapter to be exited.
    pub closed spec fn exiting(&self) -> bool {
        self.exiting_chapter
    }

    /// The session address seen on the previous counter update.
    pub closed spec fn last_session(&self) -> Option<u64> {
        self.last_session
    }

    /// The run counters.
    pub closed spec fn counters(&self) -> CountersModel {
        CountersModel {
            deaths: self.deaths@,
            dashes: self.dashes@,
            straws: self.straws@,
            cassettes: self.cassettes@,
            hearts: self.hearts@,
            goldens: self.goldens@,
        }
    }

    /// All counters fresh.
    pub open spec fn counters_fresh(c: CountersModel) -> bool {
        &&& c.deaths == fresh_counter()
        &&& c.dashes == fresh_counter()
        &&& c.straws == fresh_counter()
        &&& c.cassettes == fresh_edges()
        &&& c.hearts == fresh_edges()
        &&& c.goldens == fresh_edges()
    }

    pub fn new() -> (c: Self)
        ensures
            !c.exiting(),
            c.last_session() is None,
            Self::counters_fresh(c.counters()),
    {
        Celeste {
            exiting_chapter: false,
            deaths: Counter::new(),
            dashes: Counter::new(),
            straws: Counter::new(),
            cassettes: EdgeCounter::new(),
            hearts: EdgeCounter::new(),
            goldens: EdgeCounter::new(),
            last_session: None,
        }
    }

    /// In a chapter the room name is never empty: a sample that says
    /// otherwise is torn and skipped.
    pub fn is_consistent(&self, s: &GameState) -> (r: bool)
        ensures
            r == !(s.area != AREA_MENU && s.room_len == 0),
    {
        !(s.area != AREA_MENU && s.room_len == 0)
    }

    /// Start trigger used by the testers.
    pub fn should_start(&mut self, cfg: &RunConfig, s: &GameState, p: &GameState) -> (r: bool)
        requires
            s.wf(),
            p.wf(),
        ensures
            (r, final(self).exiting()) == should_start_spec(*cfg, old(self).exiting(), *s, *p),
            final(self).counters() == old(self).counters(),
            final(self).last_session() == old(self).last_session(),
    {
        should_start(cfg, &mut self.exiting_chapter, s, p)
    }

    /// The player returned to the main menu: the run is reset.
    pub fn should_reset(&self, s: &GameState) -> (r: bool)
        ensures
            r == (s.area == AREA_MENU),
    {
        s.area == AREA_MENU
    }

    /// Whether the host's split `idx` fires; the configuration's offset is
    /// added to the index first.
    pub fn eval(&mut self, cfg: &RunConfig, idx: usize, s: &GameState, p: &GameState) -> (r: bool)
        requires
            s.wf(),
            p.wf(),
            idx + cfg.add_amount <= usize::MAX,
        ensures
            (r, final(self).exiting()) == eval_spec(
                *cfg,
                old(self).exiting(),
                idx + cfg.add_amount,
                *s,
                *p,
            ),
            final(self).counters() == old(self).counters(),
            final(self).last_session() == old(self).last_session(),
    {
        eval(cfg, &mut self.exiting_chapter, idx + cfg.add_amount, s, p)
    }

    /// In-game time in milliseconds: chapter time in individual-level runs,
    /// file time otherwise; none in the menu or while it is not positive.
    pub fn igt(&self, s: &GameState, cfg: &RunConfig) -> (r: Option<i64>)
        ensures
            r == igt_spec(*s, cfg.il_splits),
    {
        if s.area == AREA_MENU {
            return None;
        }
        let elapsed_ms = if cfg.il_splits {
            s.chapter_time_ms
        } else {
            s.file_time_ms
        };
        if elapsed_ms > 0 {
            Some(elapsed_ms)
        } else {
            None
        }
    }

    /// Whether `update_counters` may be called with these reads.
    pub fn can_update_counters(&self, everest: bool, reads: &SessionRead, s: &GameState) -> (r:
        bool)
        ensures
            r == update_fits(self.counters(), self.last_session(), everest, *reads, *s),
    {
        if s.area == AREA_MENU {
            return true;
        }
        let stable = reads.session.is_some() && reads.session == self.last_session;
        let d = session_count(reads.deaths);
        let da = session_count(reads.dashes);
        let st = session_strawberries(reads.strawberries);
        if stable {
            if !self.deaths.can_feed(d) || !self.dashes.can_feed(da) || !self.straws.can_feed(st) {
                return false;
            }
        }
        if everest {
            let mut after = self.straws;
            if stable {
                after.feed(st);
            }
            if !after.can_feed(Some(s.strawberries)) {
                return false;
            }
        }
        self.cassettes.can_feed() && self.hearts.can_feed() && self.goldens.can_feed()
    }

    fn feed_session(&mut self, reads: &SessionRead)
        requires
            session_stable(old(self).last_session(), reads.session) ==> {
                &&& old(self).counters().deaths.feed_ok(session_count_spec(reads.deaths))
                &&& old(self).counters().dashes.feed_ok(session_count_spec(reads.dashes))
                &&& old(self).counters().straws.feed_ok(
                    session_strawberries_spec(reads.strawberries),
                )
            },
        ensures
            final(self).counters() == feed_session_spec(
                old(self).counters(),
                old(self).last_session(),
                *reads,
            ),
            final(self).last_session() == reads.session,
            final(self).exiting() == old(self).exiting(),
    {
        let session = reads.session;
        if session.is_some() && session == self.last_session {
            self.deaths.feed(session_count(reads.deaths));
            self.dashes.feed(session_count(reads.dashes));
            self.straws.feed(session_strawberries(reads.strawberries));
        }
        self.last_session = session;
    }

    fn feed_sample(&mut self, everest: bool, s: &GameState)
        requires
            everest ==> old(self).counters().straws.feed_ok(Some(s.strawberries)),
            old(self).counters().cassettes.total < i64::MAX,
            old(self).counters().hearts.total < i64::MAX,
            old(self).counters().goldens.total < i64::MAX,
        ensures
            final(self).counters() == feed_sample_spec(old(self).counters(), everest, *s),
            final(self).last_session() == old(self).last_session(),
            final(self).exiting() == old(self).exiting(),
    {
        if everest {
            self.straws.feed(Some(s.strawberries));
        }
        self.cassettes.feed(s.ch_cassette);
        self.hearts.feed(s.ch_heart);
        self.goldens.feed(s.ch_golden);
    }

    fn emit_session(&mut self, out: &mut Vec<(CounterName, i64)>)
        ensures
            final(self).counters() == emit_session_spec(old(self).counters()).0,
            final(out)@ == old(out)@ + emit_session_spec(old(self).counters()).1,
            final(self).last_session() == old(self).last_session(),
            final(self).exiting() == old(self).exiting(),
    {
        let d = self.deaths.take_emit();
        push_emission(out, CounterName::Deaths, d);
        let da = self.dashes.take_emit();
        push_emission(out, CounterName::Dashes, da);
    }

    fn emit_sample(&mut self, out: &mut Vec<(CounterName, i64)>)
        ensures
            final(self).counters() == emit_sample_spec(old(self).counters()).0,
            final(out)@ == old(out)@ + emit_sample_spec(old(self).counters()).1,
            final(self).last_session() == old(self).last_session(),
            final(self).exiting() == old(self).exiting(),
    {
        let st = self.straws.take_emit();
        push_emission(out, CounterName::Strawberries, st);
        let c = self.cassettes.take_emit();
        push_emission(out, CounterName::Cassettes, c);
        let h = self.hearts.take_emit();
        push_emission(out, CounterName::Hearts, h);
        let g = self.goldens.take_emit();
        push_emission(out, CounterName::Golden, g);
        proof {
            let c0 = old(self).counters();
            assert(final(out)@ =~= old(out)@ + (emission(CounterName::Strawberries, c0.straws.emit().0)
                + emission(CounterName::Cassettes, c0.cassettes.emit().0) + emission(
                CounterName::Hearts,
                c0.hearts.emit().0,
            ) + emission(CounterName::Golden, c0.goldens.emit().0)));
        }
    }

    /// Updates the run counters for one tick and returns the counter values
    /// to report, in reporting order.  Session counters are fed only when
    /// the session object sits at the same address as on the previous
    /// update (a moved object may be garbage); collectibles come from the
    /// sample itself.  Nothing is fed in the menu.
    pub fn update_counters(&mut self, everest: bool, reads: &SessionRead, s: &GameState) -> (r: Vec<
        (CounterName, i64),
    >)
        requires
            update_fits(old(self).counters(), old(self).last_session(), everest, *reads, *s),
        ensures
            final(self).counters() == update_spec(
                old(self).counters(),
                old(self).last_session(),
                everest,
                *reads,
                *s,
            ).0,
            r@ == update_spec(old(self).counters(), old(self).last_session(), everest, *reads, *s).1,
            final(self).last_session() == (if s.area != AREA_MENU {
                reads.session
            } else {
                old(self).last_session()
            }),
            final(self).exiting() == old(self).exiting(),
    {
        let mut out: Vec<(CounterName, i64)> = Vec::new();
        let in_level = s.area != AREA_MENU;
        if in_level {
            self.feed_session(reads);
        }
        self.emit_session(&mut out);
        if in_level {
            self.feed_sample(everest, s);
        }
        self.emit_sample(&mut out);
        out
    }

    pub fn reset_counters(&mut self)
        ensures
            Self::counters_fresh(final(self).counters()),
            final(self).exiting() == old(self).exiting(),
            final(self).last_session() == old(self).last_session(),
    {
        self.deaths.reset();
        self.dashes.reset();
        self.straws.reset();
        self.cassettes.reset();
        self.hearts.reset();
        self.goldens.reset();
    }

    pub fn reset_session(&mut self)
        ensures
            final(self).last_session() is None,
            final(self).exiting() == old(self).exiting(),
            final(self).counters() == old(self).counters(),
    {
        self.last_session = None;
    }

    pub fn reset_split_state(&mut self)
        ensures
            !final(self).exiting(),
            final(self).last_session() == old(self).last_session(),
            final(self).counters() == old(self).counters(),
    {
        self.exiting_chapter = false;
    }
}

impl Game for Celeste {
    type State = GameState;
    type Config = RunConfig;

    open spec fn sample_ok(s: GameState) -> bool {
        s.wf()
    }

    open spec fn consistent(&self, s: GameState) -> bool {
        !(s.area != AREA_MENU && s.room_len == 0)
    }

    open spec fn resets_on(&self, s: GameState) -> bool {
        s.area == AREA_MENU
    }

    open spec fn start_step(
        o: Celeste,
        cfg: RunConfig,
        s: GameState,
        p: GameState,
        r: bool,
        n: Celeste,
    ) -> bool {
        &&& (r, n.exiting()) == should_start_spec(cfg, o.exiting(), s, p)
        &&& n.counters() == o.counters()
        &&& n.last_session() == o.last_session()
    }

    open spec fn eval_ok(cfg: RunConfig, idx: usize) -> bool {
        idx + cfg.add_amount <= usize::MAX
    }

    open spec fn eval_step(
        o: Celeste,
        cfg: RunConfig,
        idx: usize,
        s: GameState,
        p: GameState,
        r: bool,
        n: Celeste,
    ) -> bool {
        &&& (r, n.exiting()) == eval_spec(cfg, o.exiting(), idx + cfg.add_amount, s, p)
        &&& n.counters() == o.counters()
        &&& n.last_session() == o.last_session()
    }

    open spec fn igt_of(&self, s: GameState, cfg: RunConfig) -> Option<i64> {
        igt_spec(s, cfg.il_splits)
    }

    open spec fn counters_dropped(o: Celeste, n: Celeste) -> bool {
        &&& Celeste::counters_fresh(n.counters())
        &&& n.exiting() == o.exiting()
        &&& n.last_session() == o.last_session()
    }

    open spec fn session_dropped(o: Celeste, n: Celeste) -> bool {
        &&& n.last_session() is None
        &&& n.exiting() == o.exiting()
        &&& n.counters() == o.counters()
    }

    open spec fn split_state_dropped(o: Celeste, n: Celeste) -> bool {
        &&& !n.exiting()
        &&& n.last_session() == o.last_session()
        &&& n.counters() == o.counters()
    }

    fn is_consistent(&self, s: &GameState) -> (r: bool) {
        Celeste::is_consistent(self, s)
    }

    fn should_reset(&self, s: &GameState) -> (r: bool) {
        Celeste::should_reset(self, s)
    }

    fn should_start(&mut self, cfg: &RunConfig, s: &GameState, p: &GameState) -> (r: bool) {
        Celeste::should_start(self, cfg, s, p)
    }

    fn eval(&mut self, cfg: &RunConfig, idx: usize, s: &GameState, p: &GameState) -> (r: bool) {
        Celeste::eval(self, cfg, idx, s, p)
    }

    fn igt(&self, s: &GameState, cfg: &RunConfig) -> (r: Option<i64>) {
        Celeste::igt(self, s, cfg)
    }

    fn reset_counters(&mut self) {
        Celeste::reset_counters(self)
    }

    fn reset_session(&mut self) {
        Celeste::reset_session(self)
    }

    fn reset_split_state(&mut self) {
        Celeste::reset_split_state(self)
    }
}

/// In-game time of a sample, in milliseconds.
pub open spec fn igt_spec(s: GameState, il_splits: bool) -> Option<i64> {
    if s.area == AREA_MENU {
        None
    } else {
        let elapsed = if il_splits {
            s.chapter_time_ms
        } else {
            s.file_time_ms
        };
        if elapsed > 0 {
            Some(elapsed)
        } else {
            None
        }
    }
}

/// The run total of counter `n`.
pub open spec fn total_of(c: CountersModel, n: CounterName) -> int {
    match n {
        CounterName::Deaths => c.deaths.total,
        CounterName::Dashes => c.dashes.total,
        CounterName::Strawberries => c.straws.total,
        CounterName::Cassettes => c.cassettes.total,
        CounterName::Hearts => c.hearts.total,
        CounterName::Golden => c.goldens.total,
    }
}

/// The last total reported for counter `n`.
pub open spec fn reported_of(c: CountersModel, n: CounterName) -> int {
    match n {
        CounterName::Deaths => c.deaths.emitted,
        CounterName::Dashes => c.dashes.emitted,
        CounterName::Strawberries => c.straws.emitted,
        CounterName::Cassettes => c.cassettes.emitted,
        CounterName::Hearts => c.hearts.emitted,
        CounterName::Golden => c.goldens.emitted,
    }
}

/// Every value in `out` is the new total (in `c2`) of the counter it names,
/// and that total differs from the last one reported (in `c`).
pub open spec fn reports_new_totals(out: Seq<(CounterName, i64)>, c2: CountersModel, c: CountersModel) -> bool {
    forall|k: int|
        0 <= k < out.len() ==> out[k].1 == total_of(c2, out[k].0) && total_of(c2, #[trigger] out[k].0)
            != reported_of(c, out[k].0)
}

proof fn lemma_emission_reports(n: CounterName, total: int, emitted: int, c2: CountersModel, c: CountersModel)
    requires
        0 <= total <= i64::MAX,
        total_of(c2, n) == total,
        reported_of(c, n) == emitted,
    ensures
        reports_new_totals(emission(n, emit_result(total, emitted)), c2, c),
{
}

proof fn lemma_reports_concat(
    a: Seq<(CounterName, i64)>,
    b: Seq<(CounterName, i64)>,
    c2: CountersModel,
    c: CountersModel,
)
    requires
        reports_new_totals(a, c2, c),
        reports_new_totals(b, c2, c),
    ensures
        reports_new_totals(a + b, c2, c),
{
    assert forall|k: int| 0 <= k < (a + b).len() implies (a + b)[k].1 == total_of(c2, (a + b)[k].0)
        && total_of(c2, #[trigger] (a + b)[k].0) != reported_of(c, (a + b)[k].0) by {
        if k < a.len() {
            assert((a + b)[k] == a[k]);
        } else {
            assert((a + b)[k] == b[k - a.len()]);
        }
    }
}

/// One tick of the counters: in the menu nothing counts; deaths and dashes
/// count only while the session stays where it was; the cassette, heart
/// and golden counters go up by one exactly on the rising edge of the
/// sample's flag in a level.  Every value reported is the counter's new
/// total, reported because it differs from the last report, and afterwards
/// every counter is reported up to date.
#[verifier::rlimit(40)]
pub proof fn law_counter_tick(
    c: CountersModel,
    last_session: Option<u64>,
    everest: bool,
    reads: SessionRead,
    s: GameState,
)
    requires
        update_fits(c, last_session, everest, reads, s),
        forall|n: CounterName| 0 <= #[trigger] total_of(c, n) <= i64::MAX,
    ensures
        ({
            let (c2, out) = update_spec(c, last_session, everest, reads, s);
            let in_level = s.area != -1;
            &&& !in_level ==> forall|n: CounterName| #[trigger] total_of(c2, n) == total_of(c, n)
            &&& !(reads.session is Some && reads.session == last_session) ==> c2.deaths.total
                == c.deaths.total && c2.dashes.total == c.dashes.total
            &&& c2.cassettes.total == c.cassettes.total + (if in_level && s.ch_cassette
                && !c.cassettes.prev {
                1int
            } else {
                0int
            })
            &&& c2.hearts.total == c.hearts.total + (if in_level && s.ch_heart && !c.hearts.prev {
                1int
            } else {
                0int
            })
            &&& c2.goldens.total == c.goldens.total + (if in_level && s.ch_golden
                && !c.goldens.prev {
                1int
            } else {
                0int
            })
            &&& forall|n: CounterName| #[trigger] reported_of(c2, n) == total_of(c2, n)
            &&& reports_new_totals(out, c2, c)
        }),
{
    let (c2, out) = update_spec(c, last_session, everest, reads, s);
    assert(0 <= total_of(c, CounterName::Deaths) <= i64::MAX);
    assert(0 <= total_of(c, CounterName::Dashes) <= i64::MAX);
    assert(0 <= total_of(c, CounterName::Strawberries) <= i64::MAX);
    assert(0 <= total_of(c, CounterName::Cassettes) <= i64::MAX);
    assert(0 <= total_of(c, CounterName::Hearts) <= i64::MAX);
    assert(0 <= total_of(c, CounterName::Golden) <= i64::MAX);
    let in_level = s.area != AREA_MENU;
    let c1 = if in_level {
        feed_session_spec(c, last_session, reads)
    } else {
        c
    };
    let (ca, e1) = emit_session_spec(c1);
    let c3 = if in_level {
        feed_sample_spec(ca, everest, s)
    } else {
        ca
    };
    let (c4, e2) = emit_sample_spec(c3);
    assert(c2 == c4 && out == e1 + e2);
    assert(c1.deaths.emitted == c.deaths.emitted && c1.dashes.emitted == c.dashes.emitted);
    assert(c3.straws.emitted == c.straws.emitted && c3.cassettes.emitted == c.cassettes.emitted
        && c3.hearts.emitted == c.hearts.emitted && c3.goldens.emitted == c.goldens.emitted);
    lemma_emission_reports(CounterName::Deaths, c1.deaths.total, c.deaths.emitted, c2, c);
    lemma_emission_reports(CounterName::Dashes, c1.dashes.total, c.dashes.emitted, c2, c);
    lemma_reports_concat(
        emission(CounterName::Deaths, c1.deaths.emit().0),
        emission(CounterName::Dashes, c1.dashes.emit().0),
        c2,
        c,
    );
    lemma_emission_reports(CounterName::Strawberries, c3.straws.total, c.straws.emitted, c2, c);
    lemma_emission_reports(CounterName::Cassettes, c3.cassettes.total, c.cassettes.emitted, c2, c);
    lemma_emission_reports(CounterName::Hearts, c3.hearts.total, c.hearts.emitted, c2, c);
    lemma_emission_reports(CounterName::Golden, c3.goldens.total, c.goldens.emitted, c2, c);
    let s1 = emission(CounterName::Strawberries, c3.straws.emit().0);
    let s2 = emission(CounterName::Cassettes, c3.cassettes.emit().0);
    let s3 = emission(CounterName::Hearts, c3.hearts.emit().0);
    let s4 = emission(CounterName::Golden, c3.goldens.emit().0);
    lemma_reports_concat(s1, s2, c2, c);
    lemma_reports_concat(s1 + s2, s3, c2, c);
    lemma_reports_concat(s1 + s2 + s3, s4, c2, c);
    lemma_reports_concat(e1, e2, c2, c);
    assert forall|n: CounterName| #[trigger] reported_of(c2, n) == total_of(c2, n) by {
        match n {
            CounterName::Deaths => {},
            CounterName::Dashes => {},
            CounterName::Strawberries => {},
            CounterName::Cassettes => {},
            CounterName::Hearts => {},
            CounterName::Golden => {},
        }
    }
    if s.area == -1 {
        assert forall|n: CounterName| #[trigger] total_of(c2, n) == total_of(c, n) by {
            match n {
                CounterName::Deaths => {},
                CounterName::Dashes => {},
                CounterName::Strawberries => {},
                CounterName::Cassettes => {},
                CounterName::Hearts => {},
                CounterName::Golden => {},
            }
        }
    }
}

/// The in-game time: never in the menu, always positive, and taken from
/// the chapter timer in an individual-level run and from the file timer
/// otherwise; a timer at zero or below shows nothing.
pub proof fn law_igt(s: GameState, il_splits: bool)
    ensures
        s.area == -1 ==> igt_spec(s, il_splits) is None,
        igt_spec(s, il_splits) matches Some(t) ==> t > 0,
        s.area != -1 && il_splits ==> igt_spec(s, il_splits) == (if s.chapter_time_ms > 0 {
            Some(s.chapter_time_ms)
        } else {
            None
        }),
        s.area != -1 && !il_splits ==> igt_spec(s, il_splits) == (if s.file_time_ms > 0 {
            Some(s.file_time_ms)
        } else {
            None
        }),
{
}

/// The session counters are fed: the session is at the address seen on the
/// previous update.
pub open spec fn session_stable(last_session: Option<u64>, session: Option<u64>) -> bool {
    session is Some && session == last_session
}

/// The strawberry counter after the session sample (if fed).
pub open spec fn straws_after_session(
    c: CountersModel,
    last_session: Option<u64>,
    reads: SessionRead,
) -> CounterModel {
    if session_stable(last_session, reads.session) {
        c.straws.feed(session_strawberries_spec(reads.strawberries))
    } else {
        c.straws
    }
}

/// The counter updates of one tick stay within the machine integers.
pub open spec fn update_fits(
    c: CountersModel,
    last_session: Option<u64>,
    everest: bool,
    reads: SessionRead,
    s: GameState,
) -> bool {
    s.area != AREA_MENU ==> {
        &&& session_stable(last_session, reads.session) ==> {
            &&& c.deaths.feed_ok(session_count_spec(reads.deaths))
            &&& c.dashes.feed_ok(session_count_spec(reads.dashes))
            &&& c.straws.feed_ok(session_strawberries_spec(reads.strawberries))
        }
        &&& everest ==> straws_after_session(c, last_session, reads).feed_ok(Some(s.strawberries))
        &&& c.cassettes.total < i64::MAX
        &&& c.hearts.total < i64::MAX
        &&& c.goldens.total < i64::MAX
    }
}

/// The counters after the session samples of one tick.
pub open spec fn feed_session_spec(c: CountersModel, last_session: Option<u64>, reads: SessionRead) -> CountersModel {
    if session_stable(last_session, reads.session) {
        CountersModel {
            deaths: c.deaths.feed(session_count_spec(reads.deaths)),
            dashes: c.dashes.feed(session_count_spec(reads.dashes)),
            straws: c.straws.feed(session_strawberries_spec(reads.strawberries)),
            ..c
        }
    } else {
        c
    }
}

/// The counters after the sample's collectibles are fed.
pub open spec fn feed_sample_spec(c: CountersModel, everest: bool, s: GameState) -> CountersModel {
    CountersModel {
        straws: if everest {
            c.straws.feed(Some(s.strawberries))
        } else {
            c.straws
        },
        cassettes: c.cassettes.feed(s.ch_cassette),
        hearts: c.hearts.feed(s.ch_heart),
        goldens: c.goldens.feed(s.ch_golden),
        ..c
    }
}

/// Deaths and dashes are reported.
pub open spec fn emit_session_spec(c: CountersModel) -> (CountersModel, Seq<(CounterName, i64)>) {
    (
        CountersModel { deaths: c.deaths.emit().1, dashes: c.dashes.emit().1, ..c },
        emission(CounterName::Deaths, c.deaths.emit().0) + emission(
            CounterName::Dashes,
            c.dashes.emit().0,
        ),
    )
}

/// Strawberries, cassettes, hearts and goldens are reported.
pub open spec fn emit_sample_spec(c: CountersModel) -> (CountersModel, Seq<(CounterName, i64)>) {
    (
        CountersModel {
            straws: c.straws.emit().1,
            cassettes: c.cassettes.emit().1,
            hearts: c.hearts.emit().1,
            goldens: c.goldens.emit().1,
            ..c
        },
        emission(CounterName::Strawberries, c.straws.emit().0) + emission(
            CounterName::Cassettes,
            c.cassettes.emit().0,
        ) + emission(CounterName::Hearts, c.hearts.emit().0) + emission(
            CounterName::Golden,
            c.goldens.emit().0,
        ),
    )
}

/// The counters after one tick, and the values reported, in order: in a
/// level the session samples are fed, deaths and dashes are reported, the
/// sample's collectibles are fed, and the rest is reported.
pub open spec fn update_spec(
    c: CountersModel,
    last_session: Option<u64>,
    everest: bool,
    reads: SessionRead,
    s: GameState,
) -> (CountersModel, Seq<(CounterName, i64)>) {
    let in_level = s.area != AREA_MENU;
    let c1 = if in_level {
        feed_session_spec(c, last_session, reads)
    } else {
        c
    };
    let (c2, e1) = emit_session_spec(c1);
    let c3 = if in_level {
        feed_sample_spec(c2, everest, s)
    } else {
        c2
    };
    let (c4, e2) = emit_sample_spec(c3);
    (c4, e1 + e2)
}

fn push_emission(out: &mut Vec<(CounterName, i64)>, n: CounterName, v: Option<i64>)
    ensures
        final(out)@ == old(out)@ + emission(
            n,
            match v {
                Some(x) => Some(x as int),
                None => None,
            },
        ),
{
    if let Some(x) = v {
        out.push((n, x));
        assert(final(out)@ =~= old(out)@ + seq![(n, x)]);
    } else {
        assert(old(out)@ + Seq::<(CounterName, i64)>::empty() =~= old(out)@);
    }
}

} // verus!
