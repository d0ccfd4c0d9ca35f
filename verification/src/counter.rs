//! Per-run counters fed once per tick from game memory.
//!
//! `Counter` accumulates the positive jumps of a sampled value (deaths,
//! dashes, strawberries); `EdgeCounter` counts rising edges of a flag
//! (cassette, heart, golden).  Both remember the last value they reported so
//! that the host is only told about changes.
use vstd::prelude::*;

verus! {

/// A single tick adds at most this much to a `Counter`; larger jumps are
/// treated as a bogus read.
pub const MAX_COUNTER_STEP: i32 = 1000;

/// What one sample adds to a counter whose last sample was `last`.
pub open spec fn accepted_step(last: Option<i32>, v: Option<i32>) -> int {
    match (last, v) {
        (Some(prev), Some(cur)) => {
            let step = cur - prev;
            if 0 < step && step <= MAX_COUNTER_STEP {
                step
            } else {
                0
            }
        },
        _ => 0,
    }
}

/// The sum of the accepted steps of a whole sequence of samples, starting
/// from a counter whose last sample was `last`.
pub open spec fn accepted_total(last: Option<i32>, samples: Seq<Option<i32>>) -> int
    decreases samples.len(),
{
    if samples.len() == 0 {
        0
    } else {
        let v = samples[0];
        let next_last = match v {
            Some(x) => Some(x),
            None => last,
        };
        accepted_step(last, v) + accepted_total(next_last, samples.drop_first())
    }
}

/// Number of rising edges of `flags`, where the flag before the first one
/// was `prev`.
pub open spec fn rising_edges(prev: bool, flags: Seq<bool>) -> int
    decreases flags.len(),
{
    if flags.len() == 0 {
        0
    } else {
        (if flags[0] && !prev {
            1int
        } else {
            0int
        }) + rising_edges(flags[0], flags.drop_first())
    }
}

/// What `take_emit` reports for a counter with this total and last report.
pub open spec fn emit_result(total: int, emitted: int) -> Option<int> {
    if total != emitted {
        Some(total)
    } else {
        None
    }
}

/// The state of a `Counter`: the run total, the last sample, the last
/// reported total.
pub struct CounterModel {
    pub total: int,
    pub last: Option<i32>,
    pub emitted: int,
}

impl CounterModel {
    /// The state after one sample.
    pub open spec fn feed(self, v: Option<i32>) -> CounterModel {
        CounterModel {
            total: self.total + accepted_step(self.last, v),
            last: match v {
                Some(x) => Some(x),
                None => self.last,
            },
            emitted: self.emitted,
        }
    }

    /// What `take_emit` reports, and the state after it.
    pub open spec fn emit(self) -> (Option<int>, CounterModel) {
        (emit_result(self.total, self.emitted), CounterModel { emitted: self.total, ..self })
    }

    /// Feeding `v` stays within the machine integers.
    pub open spec fn feed_ok(self, v: Option<i32>) -> bool {
        &&& match (self.last, v) {
            (Some(prev), Some(cur)) => i32::MIN <= cur - prev <= i32::MAX,
            _ => true,
        }
        &&& self.total + accepted_step(self.last, v) <= i64::MAX
    }
}

/// The state of an `EdgeCounter`: the number of rising edges, the last
/// flag, the last reported total.
pub struct EdgeModel {
    pub total: int,
    pub prev: bool,
    pub emitted: int,
}

impl EdgeModel {
    /// The state after one sample of the flag.
    pub open spec fn feed(self, flag: bool) -> EdgeModel {
        EdgeModel {
            total: self.total + if flag && !self.prev {
                1int
            } else {
                0int
            },
            prev: flag,
            emitted: self.emitted,
        }
    }

    /// What `take_emit` reports, and the state after it.
    pub open spec fn emit(self) -> (Option<int>, EdgeModel) {
        (emit_result(self.total, self.emitted), EdgeModel { emitted: self.total, ..self })
    }
}

/// Accumulates the positive steps of a sampled value.
#[derive(Clone, Copy)]
pub struct Counter {
    run: i64,
    last: Option<i32>,
    emitted: i64,
}

impl View for Counter {
    type V = CounterModel;

    closed spec fn view(&self) -> CounterModel {
        CounterModel { total: self.run as int, last: self.last, emitted: self.emitted as int }
    }
}

impl Counter {
    pub fn new() -> (c: Self)
        ensures
            c@ == (CounterModel { total: 0, last: None, emitted: -1 }),
    {
        Counter { run: 0, last: None, emitted: -1 }
    }

    pub fn reset(&mut self)
        ensures
            final(self)@ == (CounterModel { total: 0, last: None, emitted: -1 }),
    {
        *self = Counter::new();
    }

    /// Whether `feed(v)` may be called on this counter.
    pub fn can_feed(&self, v: Option<i32>) -> (r: bool)
        ensures
            r == self@.feed_ok(v),
    {
        if let Some(prev) = self.last {
            if let Some(cur) = v {
                let step: i64 = cur as i64 - prev as i64;
                if step < i32::MIN as i64 || step > i32::MAX as i64 {
                    false
                } else if 0 < step && step <= MAX_COUNTER_STEP as i64 {
                    self.run <= i64::MAX - step
                } else {
                    true
                }
            } else {
                true
            }
        } else {
            true
        }
    }

    /// Takes one sample: a positive step of at most `MAX_COUNTER_STEP` since
    /// the previous sample is added to the total; a missing sample changes
    /// nothing.
    pub fn feed(&mut self, v: Option<i32>)
        requires
            old(self)@.feed_ok(v),
        ensures
            final(self)@ == old(self)@.feed(v),
    {
        if let Some(v) = v {
            if let Some(prev) = self.last {
                let step = v - prev;
                if step > 0 && step <= MAX_COUNTER_STEP {
                    self.run = self.run + step as i64;
                }
            }
            self.last = Some(v);
        }
    }

    /// Reports the total when it differs from the last report.
    pub fn take_emit(&mut self) -> (r: Option<i64>)
        ensures
            r == (match old(self)@.emit().0 {
                Some(t) => Some(t as i64),
                None => None,
            }),
            final(self)@ == old(self)@.emit().1,
    {
        if self.run != self.emitted {
            self.emitted = self.run;
            Some(self.run)
        } else {
            None
        }
    }
}

impl Default for Counter {
    fn default() -> (c: Self)
        ensures
            c@ == (CounterModel { total: 0, last: None, emitted: -1 }),
    {
        Counter::new()
    }
}

/// Counts the rising edges of a flag.
#[derive(Clone, Copy)]
pub struct EdgeCounter {
    run: i64,
    prev: bool,
    emitted: i64,
}

impl View for EdgeCounter {
    type V = EdgeModel;

    closed spec fn view(&self) -> EdgeModel {
        EdgeModel { total: self.run as int, prev: self.prev, emitted: self.emitted as int }
    }
}

impl EdgeCounter {
    pub fn new() -> (c: Self)
        ensures
            c@ == (EdgeModel { total: 0, prev: false, emitted: -1 }),
    {
        EdgeCounter { run: 0, prev: false, emitted: -1 }
    }

    pub fn reset(&mut self)
        ensures
            final(self)@ == (EdgeModel { total: 0, prev: false, emitted: -1 }),
    {
        *self = EdgeCounter::new();
    }

    /// Whether `feed` may be called: one more edge still fits the total.
    pub fn can_feed(&self) -> (r: bool)
        ensures
            r == (self@.total < i64::MAX),
    {
        self.run < i64::MAX
    }

    /// Takes one sample of the flag; a false-to-true change adds one.
    pub fn feed(&mut self, flag: bool)
        requires
            old(self)@.total < i64::MAX,
        ensures
            final(self)@ == old(self)@.feed(flag),
    {
        if flag && !self.prev {
            self.run = self.run + 1;
        }
        self.prev = flag;
    }

    /// Reports the total when it differs from the last report.
    pub fn take_emit(&mut self) -> (r: Option<i64>)
        ensures
            r == (match old(self)@.emit().0 {
                Some(t) => Some(t as i64),
                None => None,
            }),
            final(self)@ == old(self)@.emit().1,
    {
        if self.run != self.emitted {
            self.emitted = self.run;
            Some(self.run)
        } else {
            None
        }
    }
}

impl Default for EdgeCounter {
    fn default() -> (c: Self)
        ensures
            c@ == (EdgeModel { total: 0, prev: false, emitted: -1 }),
    {
        EdgeCounter::new()
    }
}

/// A report is never repeated: right after `take_emit`, a second call
/// reports nothing; the first reports the total exactly when it changed
/// since the last report.
pub proof fn law_counter_emit_once(c: CounterModel)
    ensures
        c.emit().1.emit().0 is None,
        c.emit().0 == (if c.total != c.emitted {
            Some(c.total)
        } else {
            None
        }),
        c.emit().1.total == c.total && c.emit().1.last == c.last,
{
}

/// The same for edge counters.
pub proof fn law_edges_emit_once(e: EdgeModel)
    ensures
        e.emit().1.emit().0 is None,
        e.emit().0 == (if e.total != e.emitted {
            Some(e.total)
        } else {
            None
        }),
        e.emit().1.total == e.total && e.emit().1.prev == e.prev,
{
}

impl CounterModel {
    /// The state after feeding `samples` in order.
    pub open spec fn feed_all(self, samples: Seq<Option<i32>>) -> CounterModel
        decreases samples.len(),
    {
        if samples.len() == 0 {
            self
        } else {
            self.feed(samples[0]).feed_all(samples.drop_first())
        }
    }
}

impl EdgeModel {
    /// The state after feeding `flags` in order.
    pub open spec fn feed_all(self, flags: Seq<bool>) -> EdgeModel
        decreases flags.len(),
    {
        if flags.len() == 0 {
            self
        } else {
            self.feed(flags[0]).feed_all(flags.drop_first())
        }
    }
}

/// Feeding a sequence of samples adds exactly the sum of its accepted steps
/// (each positive step of at most `MAX_COUNTER_STEP`), so the total never
/// goes down and grows by at most `MAX_COUNTER_STEP` per sample; the
/// reported total is left alone.
pub proof fn law_counter_total(c: CounterModel, samples: Seq<Option<i32>>)
    ensures
        c.feed_all(samples).total == c.total + accepted_total(c.last, samples),
        c.total <= c.feed_all(samples).total <= c.total + MAX_COUNTER_STEP * samples.len(),
        c.feed_all(samples).emitted == c.emitted,
    decreases samples.len(),
{
    if samples.len() > 0 {
        law_counter_total(c.feed(samples[0]), samples.drop_first());
    }
}

/// Feeding samples one at a time is feeding them all: one more sample adds
/// the step accepted against the last remembered sample.
pub proof fn law_counter_feed_extends(c: CounterModel, samples: Seq<Option<i32>>, v: Option<i32>)
    ensures
        c.feed_all(samples.push(v)) == c.feed_all(samples).feed(v),
    decreases samples.len(),
{
    if samples.len() > 0 {
        assert(samples.push(v)[0] == samples[0]);
        assert(samples.push(v).drop_first() =~= samples.drop_first().push(v));
        law_counter_feed_extends(c.feed(samples[0]), samples.drop_first(), v);
    } else {
        let one = samples.push(v);
        assert(one[0] == v);
        assert(one.drop_first() =~= Seq::<Option<i32>>::empty());
        assert(c.feed(v).feed_all(one.drop_first()) == c.feed(v));
    }
}

/// An edge counter counts exactly the rising edges of the flags it was fed,
/// starting from the last flag it saw; never more edges than samples.
pub proof fn law_edges_total(e: EdgeModel, flags: Seq<bool>)
    ensures
        e.feed_all(flags).total == e.total + rising_edges(e.prev, flags),
        e.total <= e.feed_all(flags).total <= e.total + flags.len(),
        e.feed_all(flags).emitted == e.emitted,
    decreases flags.len(),
{
    if flags.len() > 0 {
        law_edges_total(e.feed(flags[0]), flags.drop_first());
    }
}

/// Feeding flags one at a time is feeding them all.
pub proof fn law_edges_feed_extends(e: EdgeModel, flags: Seq<bool>, flag: bool)
    ensures
        e.feed_all(flags.push(flag)) == e.feed_all(flags).feed(flag),
    decreases flags.len(),
{
    if flags.len() > 0 {
        assert(flags.push(flag)[0] == flags[0]);
        assert(flags.push(flag).drop_first() =~= flags.drop_first().push(flag));
        law_edges_feed_extends(e.feed(flags[0]), flags.drop_first(), flag);
    } else {
        let one = flags.push(flag);
        assert(one[0] == flag);
        assert(one.drop_first() =~= Seq::<bool>::empty());
        assert(e.feed(flag).feed_all(one.drop_first()) == e.feed(flag));
    }
}

} // verus!
