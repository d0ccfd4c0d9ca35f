//! The decisions of the splitter's tick loop.
//!
//! Once the game's memory backend is found, each tick reads a sample and
//! then, depending on the host timer, starts the run, resets it, splits,
//! updates the counters and reports the in-game time.  The reads and the
//! timer calls happen outside this library; `Game` is what the loop asks
//! of a game, and `TickLoop` holds the loop's state and decides, one event
//! at a time, what happens next.
use vstd::prelude::*;

verus! {

/// About five seconds of failed reads: the memory backend is looked for
/// again.
pub const STALE_TICKS: u32 = 600;

/// Ticks waited between two failed backend searches (about one second).
pub const DETECT_RETRY_TICKS: u32 = 120;

/// A game the tick loop can drive: which samples it believes, when a run
/// starts or resets, when a split fires, what in-game time it shows, and
/// the state it drops between runs.  Each hook is described by a spec
/// function of the game, so the loop's contracts hold for every game.
pub trait Game: Sized {
    /// One tick's sample of the game.
    type State: Copy;
    /// The run configuration.
    type Config;

    /// A sample the hooks may be given.
    spec fn sample_ok(s: Self::State) -> bool;

    /// The sample is believed (not torn).
    spec fn consistent(&self, s: Self::State) -> bool;

    /// The run should be reset on this sample.
    spec fn resets_on(&self, s: Self::State) -> bool;

    /// The start trigger on sample `s` after `p` answers `r` and leaves the
    /// game `n`.
    spec fn start_step(
        o: Self,
        cfg: Self::Config,
        s: Self::State,
        p: Self::State,
        r: bool,
        n: Self,
    ) -> bool;

    /// Split `idx` may be evaluated under `cfg`.
    spec fn eval_ok(cfg: Self::Config, idx: usize) -> bool;

    /// Evaluating split `idx` on sample `s` after `p` answers `r` and leaves
    /// the game `n`.
    spec fn eval_step(
        o: Self,
        cfg: Self::Config,
        idx: usize,
        s: Self::State,
        p: Self::State,
        r: bool,
        n: Self,
    ) -> bool;

    /// The in-game time shown for sample `s`, in milliseconds.
    spec fn igt_of(&self, s: Self::State, cfg: Self::Config) -> Option<i64>;

    /// `n` is `o` with its run counters cleared.
    spec fn counters_dropped(o: Self, n: Self) -> bool;

    /// `n` is `o` with its remembered session dropped.
    spec fn session_dropped(o: Self, n: Self) -> bool;

    /// `n` is `o` with the state of the split being evaluated dropped.
    spec fn split_state_dropped(o: Self, n: Self) -> bool;

    fn is_consistent(&self, s: &Self::State) -> (r: bool)
        ensures
            r == self.consistent(*s),
    ;

    fn should_reset(&self, s: &Self::State) -> (r: bool)
        ensures
            r == self.resets_on(*s),
    ;

    fn should_start(&mut self, cfg: &Self::Config, s: &Self::State, p: &Self::State) -> (r: bool)
        requires
            Self::sample_ok(*s),
            Self::sample_ok(*p),
        ensures
            Self::start_step(*old(self), *cfg, *s, *p, r, *final(self)),
    ;

    fn eval(&mut self, cfg: &Self::Config, idx: usize, s: &Self::State, p: &Self::State) -> (r:
        bool)
        requires
            Self::sample_ok(*s),
            Self::sample_ok(*p),
            Self::eval_ok(*cfg, idx),
        ensures
            Self::eval_step(*old(self), *cfg, idx, *s, *p, r, *final(self)),
    ;

    fn igt(&self, s: &Self::State, cfg: &Self::Config) -> (r: Option<i64>)
        ensures
            r == self.igt_of(*s, *cfg),
    ;

    fn reset_counters(&mut self)
        ensures
            Self::counters_dropped(*old(self), *final(self)),
    ;

    fn reset_session(&mut self)
        ensures
            Self::session_dropped(*old(self), *final(self)),
    ;

    fn reset_split_state(&mut self)
        ensures
            Self::split_state_dropped(*old(self), *final(self)),
    ;
}

/// What to do with a tick's read.
#[derive(PartialEq, Eq, Structural)]
pub enum TickStep {
    /// Too many reads failed in a row: look for the backend again.
    Redetect,
    /// Nothing more this tick: wait for the next one.
    NextTick,
    /// The sample is usable: go on with the timer.
    Process,
}

/// The tick loop's state for one attachment to the game.
pub struct TickLoop<G: Game> {
    last: Option<G::State>,
    last_idx: Option<usize>,
    stale: u32,
}

/// How the stale counter moves on a read: a failed read adds one, a
/// successful one clears it.
pub open spec fn next_stale(stale: u32, read_ok: bool) -> int {
    if read_ok {
        0
    } else {
        stale + 1
    }
}

/// The step taken on a read, given the stale count before it.
pub open spec fn read_step(stale: u32, read_ok: bool, consistent: bool) -> TickStep {
    if !read_ok {
        if stale + 1 >= STALE_TICKS {
            TickStep::Redetect
        } else {
            TickStep::NextTick
        }
    } else if consistent {
        TickStep::Process
    } else {
        TickStep::NextTick
    }
}

/// A read handled by the loop: `o` before, `n` after, `r` the step taken,
/// `consistent` whether the game believes the sample read.
pub open spec fn on_read_next<G: Game>(
    o: TickLoop<G>,
    read: Option<G::State>,
    consistent: bool,
    r: TickStep,
    n: TickLoop<G>,
) -> bool {
    &&& r == read_step(o.stale(), read is Some, consistent)
    &&& r != TickStep::Redetect ==> n.stale() == next_stale(o.stale(), read is Some)
    &&& r == TickStep::Redetect ==> n.stale() == 0
    &&& n.last() == o.last()
    &&& n.last_idx() == o.last_idx()
}

impl<G: Game> TickLoop<G> {
    /// The previous sample that was processed.
    pub closed spec fn last(&self) -> Option<G::State> {
        self.last
    }

    /// The host split index seen on the previous running tick.
    pub closed spec fn last_idx(&self) -> Option<usize> {
        self.last_idx
    }

    /// Failed reads in a row.
    pub closed spec fn stale(&self) -> u32 {
        self.stale
    }

    /// The loop state is usable: a kept sample is one the game's hooks
    /// take.
    pub open spec fn wf(&self) -> bool {
        &&& self.stale() < STALE_TICKS
        &&& self.last() matches Some(p) ==> G::sample_ok(p)
    }

    /// A backend was found: the counters and session are cleared and the
    /// loop starts over.
    pub fn attach(game: &mut G) -> (t: TickLoop<G>)
        ensures
            t.last() is None,
            t.last_idx() is None,
            t.stale() == 0,
            t.wf(),
            exists|g: G|
                #![trigger G::counters_dropped(*old(game), g)]
                G::counters_dropped(*old(game), g) && G::session_dropped(g, *final(game)),
    {
        let ghost g0 = *game;
        game.reset_counters();
        let ghost g1 = *game;
        game.reset_session();
        assert(G::counters_dropped(g0, g1) && G::session_dropped(g1, *game));
        TickLoop { last: None, last_idx: None, stale: 0 }
    }

    /// Takes the result of this tick's read.
    pub fn on_read(&mut self, game: &G, read: &Option<G::State>) -> (r: TickStep)
        requires
            old(self).wf(),
        ensures
            on_read_next(
                *old(self),
                *read,
                match *read {
                    Some(s) => game.consistent(s),
                    None => true,
                },
                r,
                *final(self),
            ),
            final(self).wf(),
    {
        match read {
            None => {
                if self.stale + 1 >= STALE_TICKS {
                    self.stale = 0;
                    TickStep::Redetect
                } else {
                    self.stale = self.stale + 1;
                    TickStep::NextTick
                }
            },
            Some(s) => {
                self.stale = 0;
                if game.is_consistent(s) {
                    TickStep::Process
                } else {
                    TickStep::NextTick
                }
            },
        }
    }

    /// Whether a previous sample exists to compare with.
    pub fn has_previous(&self) -> (r: bool)
        ensures
            r == (self.last() is Some),
    {
        self.last.is_some()
    }

    /// The timer is not running: counters and split state are cleared, and
    /// the start trigger is checked against the previous sample.
    pub fn on_not_running(&mut self, game: &mut G, cfg: &G::Config, s: &G::State) -> (r: bool)
        requires
            old(self).wf(),
            old(self).last() is Some,
            G::sample_ok(*s),
        ensures
            exists|g1: G, g2: G|
                #![trigger G::counters_dropped(*old(game), g1), G::split_state_dropped(g1, g2)]
                {
                    &&& G::counters_dropped(*old(game), g1)
                    &&& G::split_state_dropped(g1, g2)
                    &&& G::start_step(g2, *cfg, *s, old(self).last().unwrap(), r, *final(game))
                },
            *final(self) == *old(self),
    {
        let prev = match &self.last {
            Some(p) => *p,
            None => return false,
        };
        let ghost g0 = *game;
        game.reset_counters();
        let ghost g1 = *game;
        game.reset_split_state();
        let ghost g2 = *game;
        let r = game.should_start(cfg, s, &prev);
        assert(G::counters_dropped(g0, g1) && G::split_state_dropped(g1, g2));
        r
    }

    /// The timer is running at host split `idx`: a changed index (skip or
    /// undo) drops the split state, then the split is evaluated; a split
    /// that fires drops the split state again.
    pub fn on_running(&mut self, game: &mut G, cfg: &G::Config, idx: usize, s: &G::State) -> (r:
        bool)
        requires
            old(self).wf(),
            old(self).last() is Some,
            G::sample_ok(*s),
            G::eval_ok(*cfg, idx),
        ensures
            exists|g1: G, g2: G|
                #![trigger G::eval_step(g1, *cfg, idx, *s, old(self).last().unwrap(), r, g2)]
                {
                    &&& if old(self).last_idx() != Some(idx) {
                        G::split_state_dropped(*old(game), g1)
                    } else {
                        g1 == *old(game)
                    }
                    &&& G::eval_step(g1, *cfg, idx, *s, old(self).last().unwrap(), r, g2)
                    &&& if r {
                        G::split_state_dropped(g2, *final(game))
                    } else {
                        *final(game) == g2
                    }
                },
            final(self).last_idx() == Some(idx),
            final(self).last() == old(self).last(),
            final(self).stale() == old(self).stale(),
    {
        let prev = match &self.last {
            Some(p) => *p,
            None => return false,
        };
        let ghost g0 = *game;
        if self.last_idx != Some(idx) {
            game.reset_split_state();
            self.last_idx = Some(idx);
        }
        let ghost g1 = *game;
        let fired = game.eval(cfg, idx, s, &prev);
        let ghost g2 = *game;
        if fired {
            game.reset_split_state();
        }
        assert(G::eval_step(g1, *cfg, idx, *s, prev, fired, g2));
        fired
    }

    /// End of a processed tick: the in-game time to report, and the sample
    /// becomes the previous one.
    pub fn finish(&mut self, game: &G, cfg: &G::Config, s: G::State) -> (r: Option<i64>)
        requires
            old(self).wf(),
            G::sample_ok(s),
        ensures
            r == game.igt_of(s, *cfg),
            final(self).last() == Some(s),
            final(self).last_idx() == old(self).last_idx(),
            final(self).stale() == old(self).stale(),
            final(self).wf(),
    {
        let igt = game.igt(&s, cfg);
        self.last = Some(s);
        igt
    }
}

/// A run of failed reads triggers a new backend search on exactly the
/// `STALE_TICKS`-th one, counted from the last successful read, and not
/// before.
pub proof fn law_stale_redetect(stale: u32, k: nat)
    requires
        stale < STALE_TICKS,
        stale + k < STALE_TICKS,
    ensures
        k + 1 < STALE_TICKS - stale ==> read_step((stale + k) as u32, false, true)
            == TickStep::NextTick,
        k + 1 == STALE_TICKS - stale ==> read_step((stale + k) as u32, false, true)
            == TickStep::Redetect,
{
}

/// Reads that fail one after another from a loop with `stale` failed reads
/// behind it: each one counts, the loop goes on (`NextTick`) until the
/// `STALE_TICKS`-th failed read in a row, and that one asks for a new
/// backend search and clears the count.
pub proof fn law_failed_reads_redetect<G: Game>(run: Seq<TickLoop<G>>, steps: Seq<TickStep>)
    requires
        run.len() == steps.len() + 1,
        run[0].wf(),
        run[0].stale() + steps.len() <= STALE_TICKS,
        forall|i: int|
            0 <= i < steps.len() ==> on_read_next(run[i], None, true, #[trigger] steps[i], run[i + 1]),
    ensures
        forall|i: int|
            0 <= i < steps.len() ==> (#[trigger] run[i]).stale() == run[0].stale() + i,
        forall|i: int|
            0 <= i < steps.len() ==> (#[trigger] steps[i] == TickStep::Redetect) == (run[0].stale()
                + i + 1 == STALE_TICKS),
        forall|i: int|
            0 <= i < steps.len() ==> (#[trigger] steps[i] == TickStep::Redetect || steps[i]
                == TickStep::NextTick),
        run[0].stale() + steps.len() == STALE_TICKS ==> run.last().stale() == 0,
    decreases steps.len(),
{
    if steps.len() > 0 {
        let k = steps.len() - 1;
        let r2 = run.drop_last();
        let s2 = steps.drop_last();
        assert forall|i: int| 0 <= i < s2.len() implies on_read_next(
            r2[i],
            None,
            true,
            #[trigger] s2[i],
            r2[i + 1],
        ) by {
            assert(r2[i] == run[i] && r2[i + 1] == run[i + 1] && s2[i] == steps[i]);
        }
        assert(r2[0] == run[0]);
        law_failed_reads_redetect(r2, s2);
        assert(r2[k] == run[k]);
        assert(on_read_next(run[k], None, true, steps[k], run[k + 1]));
        assert(run[k].stale() == run[0].stale() + k) by {
            if k > 0 {
                assert(r2[k - 1] == run[k - 1] && s2[k - 1] == steps[k - 1]);
                assert(on_read_next(run[k - 1], None, true, steps[k - 1], run[k]));
            }
        }
        assert forall|i: int| 0 <= i < steps.len() implies (#[trigger] run[i]).stale() == run[0].stale()
            + i by {
            if i < k {
                assert(r2[i] == run[i]);
            }
        }
        assert forall|i: int| 0 <= i < steps.len() implies (#[trigger] steps[i]
            == TickStep::Redetect) == (run[0].stale() + i + 1 == STALE_TICKS) by {
            if i < k {
                assert(s2[i] == steps[i]);
            }
        }
        assert forall|i: int| 0 <= i < steps.len() implies (#[trigger] steps[i] == TickStep::Redetect
            || steps[i] == TickStep::NextTick) by {
            if i < k {
                assert(s2[i] == steps[i]);
            }
        }
    }
}

/// A successful read is never a reason to search again, and it clears the
/// count of failed reads.
pub proof fn law_read_ok_clears(stale: u32, consistent: bool)
    ensures
        read_step(stale, true, consistent) != TickStep::Redetect,
        next_stale(stale, true) == 0,
{
}

} // verus!
