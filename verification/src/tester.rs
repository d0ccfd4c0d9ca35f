//! Bookkeeping of the splitter testers: the log categories, the segment
//! list loaded from a `.lss` file, the timer state shown to the user and
//! the counters the splitter reported.
use vstd::prelude::*;
use crate::format::{decimal, fmt_ms, split_label};
use crate::settings_xml::{xml_texts, xml_texts_spec};
use crate::text::{chars_eq_str, from_chars, to_chars};

verus! {

broadcast use vstd::utf8::char_u32_cast;

/// Log lines kept by the GUI tester.
pub const MAX_LOG_LINES: usize = 5000;

/// Where a log line comes from.
#[derive(Clone, Copy, PartialEq, Eq, Hash, Structural)]
pub enum LogCat {
    /// The splitter's own messages.
    Wasm,
    /// Runtime diagnostics and tester notices.
    Runtime,
    /// Counter values reported by the splitter.
    Var,
    /// Timer events: start, split, reset, skip, undo.
    Timer,
    /// The splitter's trace and debug lines.
    Trace,
}

/// The label shown for a category.
pub open spec fn log_cat_label(c: LogCat) -> Seq<char> {
    match c {
        LogCat::Wasm => "wasm"@,
        LogCat::Runtime => "runtime"@,
        LogCat::Var => "var"@,
        LogCat::Timer => "timer/split"@,
        LogCat::Trace => "trace"@,
    }
}

impl LogCat {
    /// All categories, in display order.
    pub const ALL: [LogCat; 5] = [
        LogCat::Wasm,
        LogCat::Runtime,
        LogCat::Var,
        LogCat::Timer,
        LogCat::Trace,
    ];

    pub fn label(self) -> (r: &'static str)
        ensures
            r@ == log_cat_label(self),
    {
        match self {
            LogCat::Wasm => "wasm",
            LogCat::Runtime => "runtime",
            LogCat::Var => "var",
            LogCat::Timer => "timer/split",
            LogCat::Trace => "trace",
        }
    }
}

/// One log line.
pub struct LogLine {
    pub cat: LogCat,
    pub text: String,
}

/// The latest value a counter was reported with, and the split it was
/// reported during.
#[derive(Clone)]
pub struct CounterView {
    pub value: String,
    pub split_index: usize,
}

/// One row of the loaded segment list.
#[derive(Clone)]
pub struct Segment {
    pub name: String,
    /// Filled once the splitter fires this split.
    pub times: Option<SegmentTimes>,
}

#[derive(Clone, Copy)]
pub struct SegmentTimes {
    pub segment_ms: u128,
    pub total_ms: u128,
}

// ---------------------------------------------------------------------------
// Counters, kept sorted by name
// ---------------------------------------------------------------------------

/// `a` sorts before `b`: char codes compared left to right, a proper prefix
/// first.
pub open spec fn key_lt(a: Seq<char>, b: Seq<char>) -> bool
    decreases a.len(),
{
    if a.len() == 0 {
        b.len() > 0
    } else if b.len() == 0 {
        false
    } else if (a[0] as u32) < (b[0] as u32) {
        true
    } else if a[0] == b[0] {
        key_lt(a.drop_first(), b.drop_first())
    } else {
        false
    }
}

/// A counter entry: name, value, split index.
pub type EntryModel = (Seq<char>, Seq<char>, usize);

pub open spec fn entry_model(e: (String, CounterView)) -> EntryModel {
    (e.0@, e.1.value@, e.1.split_index)
}

/// The names strictly increase.
pub open spec fn sorted_entries(es: Seq<EntryModel>) -> bool {
    forall|i: int, j: int| 0 <= i < j < es.len() ==> key_lt(#[trigger] es[i].0, #[trigger] es[j].0)
}

/// `es` with entry `e` set: replacing the entry of the same name, or
/// inserted before the first larger name.
pub open spec fn upsert(es: Seq<EntryModel>, e: EntryModel) -> Seq<EntryModel>
    decreases es.len(),
{
    if es.len() == 0 {
        seq![e]
    } else if key_lt(es[0].0, e.0) {
        seq![es[0]] + upsert(es.drop_first(), e)
    } else if es[0].0 == e.0 {
        seq![e] + es.drop_first()
    } else {
        seq![e] + es
    }
}

/// Distinct chars have distinct codes.
pub proof fn lemma_char_code_injective(a: char, b: char)
    ensures
        (a as u32) == (b as u32) ==> a == b,
{
    vstd::utf8::char_u32_cast(a, a as u32);
    vstd::utf8::char_u32_cast(b, b as u32);
}

pub proof fn lemma_key_lt_irreflexive(a: Seq<char>)
    ensures
        !key_lt(a, a),
    decreases a.len(),
{
    if a.len() > 0 {
        lemma_key_lt_irreflexive(a.drop_first());
    }
}

pub proof fn lemma_key_lt_trichotomy(a: Seq<char>, b: Seq<char>)
    ensures
        key_lt(a, b) || a == b || key_lt(b, a),
        !(key_lt(a, b) && key_lt(b, a)),
    decreases a.len(),
{
    if a.len() > 0 && b.len() > 0 {
        lemma_key_lt_trichotomy(a.drop_first(), b.drop_first());
        if a[0] == b[0] && a.drop_first() == b.drop_first() {
            assert(a =~= seq![a[0]] + a.drop_first());
            assert(b =~= seq![b[0]] + b.drop_first());
        }
        if a[0] != b[0] {
            lemma_char_code_injective(a[0], b[0]);
        }
    } else if a.len() == 0 && b.len() == 0 {
        assert(a =~= b);
    }
}

pub proof fn lemma_key_lt_transitive(a: Seq<char>, b: Seq<char>, c: Seq<char>)
    requires
        key_lt(a, b),
        key_lt(b, c),
    ensures
        key_lt(a, c),
    decreases a.len(),
{
    if a.len() > 0 && b.len() > 0 && c.len() > 0 {
        if a[0] == b[0] && b[0] == c[0] {
            lemma_key_lt_transitive(a.drop_first(), b.drop_first(), c.drop_first());
        }
    }
}

/// Setting an entry keeps the names sorted; afterwards the entry is there,
/// every other name keeps its entry, and nothing else was added.
pub proof fn law_upsert(es: Seq<EntryModel>, e: EntryModel)
    requires
        sorted_entries(es),
    ensures
        sorted_entries(upsert(es, e)),
        upsert(es, e).contains(e),
        forall|x: EntryModel| #[trigger] es.contains(x) && x.0 != e.0 ==> upsert(es, e).contains(x),
        forall|x: EntryModel| #[trigger] upsert(es, e).contains(x) ==> x == e || (es.contains(x)
            && x.0 != e.0),
        forall|i: int| 0 <= i < upsert(es, e).len() ==> (#[trigger] upsert(es, e)[i].0 == e.0
            ==> upsert(es, e)[i] == e),
    decreases es.len(),
{
    let u = upsert(es, e);
    if es.len() == 0 {
        assert(u[0] == e);
    } else {
        let rest = es.drop_first();
        assert forall|i: int, j: int| 0 <= i < j < rest.len() implies key_lt(
            #[trigger] rest[i].0,
            #[trigger] rest[j].0,
        ) by {
            assert(rest[i] == es[i + 1] && rest[j] == es[j + 1]);
        }
        assert forall|j: int| 0 < j < es.len() implies key_lt(es[0].0, #[trigger] es[j].0) by {
            assert(key_lt(es[0].0, es[j].0));
        }
        if key_lt(es[0].0, e.0) {
            law_upsert(rest, e);
            let t = upsert(rest, e);
            assert(u =~= seq![es[0]] + t);
            assert forall|j: int| 0 <= j < t.len() implies key_lt(es[0].0, #[trigger] t[j].0) by {
                let x = t[j];
                assert(t.contains(x));
                if x != e {
                    assert(rest.contains(x));
                    let k = choose|k: int| 0 <= k < rest.len() && rest[k] == x;
                    assert(es[k + 1] == x);
                }
            }
            assert forall|i: int, j: int| 0 <= i < j < u.len() implies key_lt(
                #[trigger] u[i].0,
                #[trigger] u[j].0,
            ) by {
                if i == 0 {
                    assert(u[j] == t[j - 1]);
                } else {
                    assert(u[i] == t[i - 1] && u[j] == t[j - 1]);
                }
            }
            assert(u[0] == es[0]);
            assert forall|x: EntryModel| es.contains(x) && x.0 != e.0 implies u.contains(x) by {
                let k = choose|k: int| 0 <= k < es.len() && es[k] == x;
                if k == 0 {
                    assert(u[0] == x);
                } else {
                    assert(rest[k - 1] == x);
                    assert(rest.contains(x));
                    assert(t.contains(x));
                    let m = choose|m: int| 0 <= m < t.len() && t[m] == x;
                    assert(u[m + 1] == x);
                }
            }
            assert forall|x: EntryModel| u.contains(x) implies x == e || (es.contains(x) && x.0
                != e.0) by {
                let k = choose|k: int| 0 <= k < u.len() && u[k] == x;
                if k == 0 {
                    assert(es[0] == x);
                    assert(x.0 != e.0) by {
                        lemma_key_lt_irreflexive(e.0);
                    }
                } else {
                    assert(t[k - 1] == x);
                    assert(t.contains(x));
                    if x != e {
                        let m = choose|m: int| 0 <= m < rest.len() && rest[m] == x;
                        assert(es[m + 1] == x);
                    }
                }
            }
            assert(t.contains(e));
            let m = choose|m: int| 0 <= m < t.len() && t[m] == e;
            assert(u[m + 1] == e);
            assert forall|i: int| 0 <= i < u.len() implies (#[trigger] u[i].0 == e.0 ==> u[i]
                == e) by {
                if i == 0 {
                    lemma_key_lt_irreflexive(e.0);
                } else {
                    assert(u[i] == t[i - 1]);
                }
            }
        } else if es[0].0 == e.0 {
            assert(u =~= seq![e] + rest);
            assert forall|i: int, j: int| 0 <= i < j < u.len() implies key_lt(
                #[trigger] u[i].0,
                #[trigger] u[j].0,
            ) by {
                if i == 0 {
                    assert(u[j] == es[j]);
                } else {
                    assert(u[i] == es[i] && u[j] == es[j]);
                }
            }
            assert(u[0] == e);
            assert forall|x: EntryModel| es.contains(x) && x.0 != e.0 implies u.contains(x) by {
                let k = choose|k: int| 0 <= k < es.len() && es[k] == x;
                assert(k != 0);
                assert(u[k] == x);
            }
            assert forall|x: EntryModel| u.contains(x) implies x == e || (es.contains(x) && x.0
                != e.0) by {
                let k = choose|k: int| 0 <= k < u.len() && u[k] == x;
                if k > 0 {
                    assert(es[k] == x);
                    assert(key_lt(es[0].0, es[k].0));
                    lemma_key_lt_irreflexive(e.0);
                }
            }
            assert forall|i: int| 0 <= i < u.len() implies (#[trigger] u[i].0 == e.0 ==> u[i]
                == e) by {
                if i > 0 {
                    assert(u[i] == es[i]);
                    assert(key_lt(es[0].0, es[i].0));
                    lemma_key_lt_irreflexive(e.0);
                }
            }
        } else {
            lemma_key_lt_trichotomy(es[0].0, e.0);
            assert(key_lt(e.0, es[0].0));
            assert(u =~= seq![e] + es);
            assert forall|i: int, j: int| 0 <= i < j < u.len() implies key_lt(
                #[trigger] u[i].0,
                #[trigger] u[j].0,
            ) by {
                if i == 0 {
                    assert(u[j] == es[j - 1]);
                    if j > 1 {
                        lemma_key_lt_transitive(e.0, es[0].0, es[j - 1].0);
                    }
                } else {
                    assert(u[i] == es[i - 1] && u[j] == es[j - 1]);
                }
            }
            assert(u[0] == e);
            assert forall|x: EntryModel| es.contains(x) && x.0 != e.0 implies u.contains(x) by {
                let k = choose|k: int| 0 <= k < es.len() && es[k] == x;
                assert(u[k + 1] == x);
            }
            assert forall|x: EntryModel| u.contains(x) implies x == e || (es.contains(x) && x.0
                != e.0) by {
                let k = choose|k: int| 0 <= k < u.len() && u[k] == x;
                if k > 0 {
                    assert(es[k - 1] == x);
                    if k > 1 {
                        lemma_key_lt_transitive(e.0, es[0].0, es[k - 1].0);
                    }
                    lemma_key_lt_irreflexive(e.0);
                }
            }
            assert forall|i: int| 0 <= i < u.len() implies (#[trigger] u[i].0 == e.0 ==> u[i]
                == e) by {
                if i > 0 {
                    assert(u[i] == es[i - 1]);
                    if i > 1 {
                        lemma_key_lt_transitive(e.0, es[0].0, es[i - 1].0);
                    }
                    lemma_key_lt_irreflexive(e.0);
                }
            }
        }
    }
}

/// How two names compare.
pub enum KeyOrder {
    Less,
    Equal,
    Greater,
}

fn compare_keys(a: &[char], b: &[char]) -> (r: KeyOrder)
    ensures
        r is Less <==> key_lt(a@, b@),
        r is Equal <==> a@ == b@,
        r is Greater <==> key_lt(b@, a@),
{
    proof {
        lemma_key_lt_trichotomy(a@, b@);
        lemma_key_lt_irreflexive(a@);
    }
    let mut i: usize = 0;
    assert(a@.skip(0) =~= a@ && b@.skip(0) =~= b@);
    while i < a.len() && i < b.len()
        invariant
            i <= a@.len(),
            i <= b@.len(),
            a@.take(i as int) == b@.take(i as int),
            key_lt(a@, b@) == key_lt(a@.skip(i as int), b@.skip(i as int)),
            key_lt(b@, a@) == key_lt(b@.skip(i as int), a@.skip(i as int)),
        decreases a@.len() - i,
    {
        let ca = a[i];
        let cb = b[i];
        proof {
            assert(a@.skip(i as int)[0] == ca && b@.skip(i as int)[0] == cb);
        }
        if (ca as u32) < (cb as u32) {
            proof {
                assert(a@ != b@ ==> true);
                if a@ == b@ {
                    assert(a@[i as int] == b@[i as int]);
                }
            }
            return KeyOrder::Less;
        }
        if (cb as u32) < (ca as u32) {
            proof {
                if a@ == b@ {
                    assert(a@[i as int] == b@[i as int]);
                }
            }
            return KeyOrder::Greater;
        }
        proof {
            lemma_char_code_injective(ca, cb);
        }
        assert(ca == cb);
        proof {
            assert(a@.skip(i as int).drop_first() =~= a@.skip(i + 1));
            assert(b@.skip(i as int).drop_first() =~= b@.skip(i + 1));
            assert(a@.take(i + 1) =~= a@.take(i as int).push(ca));
            assert(b@.take(i + 1) =~= b@.take(i as int).push(cb));
        }
        i = i + 1;
    }
    if a.len() == b.len() {
        assert(a@ =~= a@.take(i as int));
        assert(b@ =~= b@.take(i as int));
        KeyOrder::Equal
    } else if a.len() < b.len() {
        assert(a@.skip(i as int).len() == 0);
        proof {
            if a@ == b@ {
                assert(false);
            }
        }
        KeyOrder::Less
    } else {
        assert(b@.skip(i as int).len() == 0);
        proof {
            if a@ == b@ {
                assert(false);
            }
        }
        KeyOrder::Greater
    }
}

// ---------------------------------------------------------------------------
// Shared state
// ---------------------------------------------------------------------------

/// The tester's state shared between the splitter runner and the display.
pub struct Shared {
    pub run_active: bool,
    pub current_split_index: usize,
    pub attached: bool,
    pub igt_ms: i64,
    /// Reported counters, sorted by name (see `wf`).
    pub counters: Vec<(String, CounterView)>,
    pub segments: Vec<Segment>,
}

impl Shared {
    /// The reported counters, sorted by name.
    pub open spec fn counter_models(&self) -> Seq<EntryModel> {
        self.counters@.map_values(|e: (String, CounterView)| entry_model(e))
    }

    /// The counters are sorted by name, each name once.
    pub open spec fn wf(&self) -> bool {
        sorted_entries(self.counter_models())
    }

    /// The segment names, in order.
    pub open spec fn segment_names(&self) -> Seq<Seq<char>> {
        self.segments@.map_values(|s: Segment| s.name@)
    }

    /// Whether the counters are sorted by name, each name once.
    pub fn is_wf(&self) -> (r: bool)
        ensures
            r == self.wf(),
    {
        let ghost es = self.counter_models();
        let n = self.counters.len();
        if n == 0 {
            return true;
        }
        let mut i: usize = 1;
        while i < n
            invariant
                1 <= i <= n,
                n == self.counters@.len(),
                es == self.counter_models(),
                sorted_entries(es.take(i as int)),
            decreases n - i,
        {
            let a = to_chars(self.counters[i - 1].0.as_str());
            let b = to_chars(self.counters[i].0.as_str());
            proof {
                assert(es[i - 1] == entry_model(self.counters@[i - 1]));
                assert(es[i as int] == entry_model(self.counters@[i as int]));
            }
            match compare_keys(a.as_slice(), b.as_slice()) {
                KeyOrder::Less => {},
                _ => {
                    proof {
                        assert(!key_lt(es[i - 1].0, es[i as int].0));
                    }
                    return false;
                },
            }
            proof {
                let t = es.take(i + 1);
                assert forall|p: int, q: int| 0 <= p < q < t.len() implies key_lt(
                    #[trigger] t[p].0,
                    #[trigger] t[q].0,
                ) by {
                    if q < i {
                        assert(es.take(i as int)[p] == t[p] && es.take(i as int)[q] == t[q]);
                    } else if p == i - 1 {
                    } else {
                        assert(es.take(i as int)[p] == t[p]);
                        assert(es.take(i as int)[i - 1] == es[i - 1]);
                        lemma_key_lt_transitive(t[p].0, es[i - 1].0, t[q].0);
                    }
                }
            }
            i = i + 1;
        }
        proof {
            assert(es.take(n as int) =~= es);
        }
        true
    }

    /// The reported counters, sorted by name.
    pub fn counters(&self) -> (r: &Vec<(String, CounterView)>)
        ensures
            r@.map_values(|e: (String, CounterView)| entry_model(e)) == self.counter_models(),
    {
        &self.counters
    }

    /// Records a counter value reported by the splitter during the current
    /// split, and returns that split's index.
    pub fn set_counter(&mut self, key: &str, value: &str) -> (r: usize)
        requires
            old(self).wf(),
        ensures
            r == old(self).current_split_index,
            final(self).counter_models() == upsert(
                old(self).counter_models(),
                (key@, value@, old(self).current_split_index),
            ),
            final(self).wf(),
            final(self).run_active == old(self).run_active,
            final(self).current_split_index == old(self).current_split_index,
            final(self).attached == old(self).attached,
            final(self).igt_ms == old(self).igt_ms,
            final(self).segments@ == old(self).segments@,
    {
        let idx = self.current_split_index;
        let kc = to_chars(key);
        let ghost e: EntryModel = (key@, value@, idx);
        let ghost es = self.counter_models();
        let mut i: usize = 0;
        let n = self.counters.len();
        proof {
            law_upsert(es, e);
            assert(es.skip(0) =~= es);
            assert(es.take(0) + upsert(es.skip(0), e) =~= upsert(es, e));
        }
        while i < n
            invariant
                *self == *old(self),
                idx == old(self).current_split_index,
                sorted_entries(upsert(es, e)),
                n == self.counters@.len(),
                es == self.counters@.map_values(|e: (String, CounterView)| entry_model(e)),
                es.len() == n,
                i <= n,
                kc@ == key@,
                e == (key@, value@, idx),
                upsert(es, e) == es.take(i as int) + upsert(es.skip(i as int), e),
            decreases n - i,
        {
            let name = to_chars(self.counters[i].0.as_str());
            proof {
                assert(es[i as int] == entry_model(self.counters@[i as int]));
                assert(es.skip(i as int)[0] == es[i as int]);
            }
            match compare_keys(name.as_slice(), kc.as_slice()) {
                KeyOrder::Less => {
                    proof {
                        assert(es.skip(i as int).drop_first() =~= es.skip(i + 1));
                        assert(es.take(i + 1) =~= es.take(i as int).push(es[i as int]));
                        assert(es.take(i as int) + upsert(es.skip(i as int), e) =~= es.take(i + 1)
                            + upsert(es.skip(i + 1), e));
                    }
                    i = i + 1;
                },
                KeyOrder::Equal => {
                    let old_entry = self.counters.remove(i);
                    self.counters.insert(
                        i,
                        (
                            old_entry.0,
                            CounterView { value: String::from_str(value), split_index: idx },
                        ),
                    );
                    proof {
                        assert(es.skip(i as int).drop_first() =~= es.skip(i + 1));
                        assert(self.counter_models() =~= es.take(i as int) + (seq![e] + es.skip(
                            i + 1,
                        )));
                    }
                    return idx;
                },
                KeyOrder::Greater => {
                    self.counters.insert(
                        i,
                        (String::from_str(key), CounterView { value: String::from_str(value), split_index: idx }),
                    );
                    proof {
                        assert(self.counter_models() =~= es.take(i as int) + (seq![e] + es.skip(
                            i as int,
                        )));
                    }
                    return idx;
                },
            }
        }
        self.counters.push(
            (String::from_str(key), CounterView { value: String::from_str(value), split_index: idx }),
        );
        proof {
            assert(es.skip(n as int) =~= Seq::<EntryModel>::empty());
            assert(es.take(n as int) =~= es);
            assert(self.counter_models() =~= es + seq![e]);
        }
        idx
    }
}


/// Every segment with its times cleared.
pub open spec fn cleared(segs: Seq<Segment>) -> Seq<Segment> {
    segs.map_values(|s: Segment| Segment { name: s.name, times: None })
}

fn clear_times(segs: &mut Vec<Segment>)
    ensures
        final(segs)@ == cleared(old(segs)@),
{
    let n = segs.len();
    let mut i: usize = 0;
    while i < n
        invariant
            n == segs@.len(),
            n == old(segs)@.len(),
            i <= n,
            forall|j: int| 0 <= j < i ==> segs@[j] == (Segment { name: old(segs)@[j].name, times: None }),
            forall|j: int| i <= j < n ==> segs@[j] == old(segs)@[j],
        decreases n - i,
    {
        let mut seg = segs.remove(i);
        seg.times = None;
        segs.insert(i, seg);
        i = i + 1;
    }
    assert(segs@ =~= cleared(old(segs)@));
}

impl Shared {
    /// The other fields are unchanged.
    pub open spec fn same_counters_and_segments(&self, other: &Shared) -> bool {
        &&& self.counters@ == other.counters@
        &&& self.segments@ == other.segments@
    }

    pub fn new() -> (r: Self)
        ensures
            !r.run_active,
            r.current_split_index == 0,
            !r.attached,
            r.igt_ms == 0,
            r.counters@.len() == 0,
            r.segments@.len() == 0,
            r.wf(),
    {
        Shared {
            run_active: false,
            current_split_index: 0,
            attached: false,
            igt_ms: 0,
            counters: Vec::new(),
            segments: Vec::new(),
        }
    }

    /// The label of split `idx`: the segment's name when there is one.
    pub fn label(&self, idx: usize) -> (r: String)
        ensures
            r@ == crate::format::split_label_spec(
                if idx < self.segments@.len() {
                    Some(self.segments@[idx as int].name@)
                } else {
                    None
                },
                idx as nat,
            ),
    {
        if idx < self.segments.len() {
            split_label(Some(self.segments[idx].name.as_str()), idx)
        } else {
            split_label(None, idx)
        }
    }

    /// A split arrives from the splitter: ignored unless the run is active;
    /// otherwise the current segment (if listed) gets its times and the
    /// run moves to the next split.  Returns the index of the split taken.
    pub fn record_split(&mut self, segment_ms: u128, total_ms: u128) -> (r: Option<usize>)
        requires
            old(self).run_active ==> old(self).current_split_index < usize::MAX,
        ensures
            !old(self).run_active ==> r is None && *final(self) == *old(self),
            old(self).run_active ==> {
                &&& r == Some(old(self).current_split_index)
                &&& final(self).current_split_index == old(self).current_split_index + 1
                &&& final(self).segments@ == (if old(self).current_split_index
                    < old(self).segments@.len() {
                    old(self).segments@.update(
                        old(self).current_split_index as int,
                        Segment {
                            name: old(self).segments@[old(self).current_split_index as int].name,
                            times: Some(SegmentTimes { segment_ms, total_ms }),
                        },
                    )
                } else {
                    old(self).segments@
                })
                &&& final(self).run_active
                &&& final(self).counters@ == old(self).counters@
                &&& final(self).attached == old(self).attached
                &&& final(self).igt_ms == old(self).igt_ms
            },
    {
        if !self.run_active {
            return None;
        }
        let idx = self.current_split_index;
        if idx < self.segments.len() {
            let mut seg = self.segments.remove(idx);
            seg.times = Some(SegmentTimes { segment_ms, total_ms });
            self.segments.insert(idx, seg);
            assert(self.segments@ =~= old(self).segments@.update(
                idx as int,
                Segment {
                    name: old(self).segments@[idx as int].name,
                    times: Some(SegmentTimes { segment_ms, total_ms }),
                },
            ));
        }
        self.current_split_index = idx + 1;
        Some(idx)
    }

    /// The user skipped a split: the run moves to the next one.  Returns
    /// the index skipped.
    pub fn skip_split(&mut self) -> (r: usize)
        requires
            old(self).current_split_index < usize::MAX,
        ensures
            r == old(self).current_split_index,
            final(self).current_split_index == old(self).current_split_index + 1,
            final(self).run_active == old(self).run_active,
            final(self).same_counters_and_segments(old(self)),
    {
        let idx = self.current_split_index;
        self.current_split_index = idx + 1;
        idx
    }

    /// The user undid a split: the run moves back one split (not below the
    /// first).  Returns the new index.
    pub fn undo_split(&mut self) -> (r: usize)
        ensures
            r == final(self).current_split_index,
            final(self).current_split_index == undo_index(old(self).current_split_index),
            final(self).run_active == old(self).run_active,
            final(self).same_counters_and_segments(old(self)),
    {
        if self.current_split_index > 0 {
            self.current_split_index = self.current_split_index - 1;
        }
        self.current_split_index
    }

    /// The run is reset: not running, back to the first split, no segment
    /// times.
    pub fn reset_run(&mut self)
        ensures
            !final(self).run_active,
            final(self).current_split_index == 0,
            final(self).segments@ == cleared(old(self).segments@),
            final(self).counters@ == old(self).counters@,
            final(self).attached == old(self).attached,
            final(self).igt_ms == old(self).igt_ms,
    {
        self.run_active = false;
        self.current_split_index = 0;
        clear_times(&mut self.segments);
    }

    /// A new splitter is loaded: the run, the attachment, the in-game time,
    /// the counters and the segment times are all cleared.
    pub fn clear_for_new_splitter(&mut self)
        ensures
            !final(self).run_active,
            final(self).current_split_index == 0,
            !final(self).attached,
            final(self).igt_ms == 0,
            final(self).counters@.len() == 0,
            final(self).segments@ == cleared(old(self).segments@),
            final(self).wf(),
    {
        self.run_active = false;
        self.current_split_index = 0;
        self.attached = false;
        self.igt_ms = 0;
        self.counters.clear();
        clear_times(&mut self.segments);
        assert(self.counter_models() =~= Seq::<EntryModel>::empty());
    }

    /// A splits file is loaded: one segment per name, no times, back to the
    /// first split.
    pub fn set_segments(&mut self, names: Vec<String>)
        ensures
            final(self).segment_names() == names@.map_values(|n: String| n@),
            forall|i: int| 0 <= i < final(self).segments@.len() ==> (
            #[trigger] final(self).segments@[i]).times is None,
            final(self).current_split_index == 0,
            final(self).run_active == old(self).run_active,
            final(self).counters@ == old(self).counters@,
            final(self).attached == old(self).attached,
            final(self).igt_ms == old(self).igt_ms,
    {
        let mut segs: Vec<Segment> = Vec::new();
        let mut i: usize = 0;
        while i < names.len()
            invariant
                i <= names@.len(),
                segs@.map_values(|s: Segment| s.name@) == names@.take(i as int).map_values(
                    |n: String| n@,
                ),
                forall|k: int| 0 <= k < segs@.len() ==> (#[trigger] segs@[k]).times is None,
            decreases names@.len() - i,
        {
            let ghost before = segs@;
            let name = String::from_str(names[i].as_str());
            segs.push(Segment { name, times: None });
            proof {
                assert(names@.take(i + 1) =~= names@.take(i as int).push(names@[i as int]));
                assert(segs@.map_values(|s: Segment| s.name@) =~= before.map_values(
                    |s: Segment| s.name@,
                ).push(names@[i as int]@));
            }
            i = i + 1;
        }
        assert(names@.take(names@.len() as int) =~= names@);
        self.segments = segs;
        self.current_split_index = 0;
    }
}

impl Default for Shared {
    fn default() -> (r: Self)
        ensures
            !r.run_active,
            r.current_split_index == 0,
            !r.attached,
            r.igt_ms == 0,
            r.counters@.len() == 0,
            r.segments@.len() == 0,
            r.wf(),
    {
        Shared::new()
    }
}

/// The split index after an undo: one back, never below the first.
pub open spec fn undo_index(i: usize) -> usize {
    if i > 0 {
        (i - 1) as usize
    } else {
        0
    }
}

/// An undo takes back a split or a skip: from the index a split or a skip
/// moved to, an undo comes back to where it was.
pub proof fn law_undo_takes_back_split(i: usize)
    requires
        i < usize::MAX,
    ensures
        undo_index((i + 1) as usize) == i,
{
}

impl Shared {
    /// Whether split `idx` has been passed in the current run.
    pub fn segment_splitted(&self, idx: usize) -> (r: bool)
        ensures
            r == (self.current_split_index > idx),
    {
        self.current_split_index > idx
    }
}

// ---------------------------------------------------------------------------
// Timer
// ---------------------------------------------------------------------------

/// Nanoseconds per millisecond.
pub const NANOS_PER_MS: u128 = 1_000_000;

/// Whole milliseconds from instant `since` to instant `now` (nanoseconds of
/// a monotonic clock); 0 without a `since`, and an elapsed time never goes
/// below 0.
pub open spec fn elapsed_ms(since: Option<u128>, now: u128) -> u128 {
    match since {
        Some(t) => if now >= t {
            ((now - t) / (NANOS_PER_MS as int)) as u128
        } else {
            0
        },
        None => 0,
    }
}

fn elapsed(since: Option<u128>, now: u128) -> (r: u128)
    ensures
        r == elapsed_ms(since, now),
{
    match since {
        Some(t) => if now >= t {
            (now - t) / NANOS_PER_MS
        } else {
            0
        },
        None => 0,
    }
}

/// The instants of a run's start and of its last split; a run that has
/// started has had its start or a split, none of them before the start.
struct Stamps {
    started: Option<u128>,
    last: Option<u128>,
}

impl Stamps {
    #[verifier::type_invariant]
    spec fn ordered(self) -> bool {
        match self.started {
            Some(s) => match self.last {
                Some(l) => s <= l,
                None => false,
            },
            None => true,
        }
    }

    fn none() -> (r: Self)
        ensures
            r.started is None,
            r.last is None,
    {
        Stamps { started: None, last: None }
    }

    fn at(now: u128) -> (r: Self)
        ensures
            r.started == Some(now),
            r.last == Some(now),
    {
        Stamps { started: Some(now), last: Some(now) }
    }

    /// A split at `now`: the segment and total times in milliseconds, and
    /// the stamps with `now` as the last split.
    fn split_at(&self, now: u128) -> (r: (u128, u128, Stamps))
        requires
            self.last matches Some(t) ==> t <= now,
        ensures
            r.0 == elapsed_ms(self.last, now),
            r.1 == elapsed_ms(self.started, now),
            r.2.started == self.started,
            r.2.last == Some(now),
            self.started is Some ==> r.0 <= r.1,
    {
        proof {
            use_type_invariant(self);
        }
        let segment = elapsed(self.last, now);
        let total = elapsed(self.started, now);
        proof {
            if let Some(s) = self.started {
                let l = self.last->0;
                vstd::arithmetic::div_mod::lemma_div_is_ordered(
                    (now - l) as int,
                    (now - s) as int,
                    NANOS_PER_MS as int,
                );
            }
        }
        (segment, total, Stamps { started: self.started, last: Some(now) })
    }
}

/// The tester's timer: when the run started and when the last split came,
/// as instants in nanoseconds of a monotonic clock that the caller reads.
pub struct TesterTimer {
    stamps: Stamps,
}

impl TesterTimer {
    /// The instant the run started.
    pub closed spec fn started(&self) -> Option<u128> {
        self.stamps.started
    }

    /// The instant of the last split (or of the start).
    pub closed spec fn last_split(&self) -> Option<u128> {
        self.stamps.last
    }

    pub fn new() -> (t: Self)
        ensures
            t.started() is None,
            t.last_split() is None,
    {
        TesterTimer { stamps: Stamps::none() }
    }

    /// The instant of the last split (or of the start), if any.
    pub fn last_split_at(&self) -> (r: Option<u128>)
        ensures
            r == self.last_split(),
    {
        self.stamps.last
    }

    /// The run starts at instant `now`.
    pub fn start(&mut self, now: u128, shared: &mut Shared)
        ensures
            final(self).started() == Some(now),
            final(self).last_split() == Some(now),
            final(shared).run_active,
            final(shared).current_split_index == old(shared).current_split_index,
            final(shared).attached == old(shared).attached,
            final(shared).igt_ms == old(shared).igt_ms,
            final(shared).same_counters_and_segments(old(shared)),
    {
        self.stamps = Stamps::at(now);
        shared.run_active = true;
    }

    /// A split at instant `now`: ignored (`None`) unless the run is active;
    /// otherwise the current segment gets the time since the last split and
    /// since the start, the run moves to the next split, and the split
    /// index and both times are returned.
    pub fn split(&mut self, now: u128, shared: &mut Shared) -> (r: Option<(usize, u128, u128)>)
        requires
            old(shared).run_active ==> old(shared).current_split_index < usize::MAX,
            old(shared).run_active ==> (old(self).last_split() matches Some(t) ==> t <= now),
        ensures
            !old(shared).run_active ==> r is None && *final(self) == *old(self) && *final(shared)
                == *old(shared),
            old(shared).run_active ==> {
                let seg = elapsed_ms(old(self).last_split(), now);
                let total = elapsed_ms(old(self).started(), now);
                let idx = old(shared).current_split_index;
                &&& r == Some((idx, seg, total))
                &&& old(self).started() is Some ==> seg <= total
                &&& final(self).last_split() == Some(now)
                &&& final(self).started() == old(self).started()
                &&& final(shared).current_split_index == idx + 1
                &&& final(shared).segments@ == (if idx < old(shared).segments@.len() {
                    old(shared).segments@.update(
                        idx as int,
                        Segment {
                            name: old(shared).segments@[idx as int].name,
                            times: Some(SegmentTimes { segment_ms: seg, total_ms: total }),
                        },
                    )
                } else {
                    old(shared).segments@
                })
                &&& final(shared).run_active
                &&& final(shared).counters@ == old(shared).counters@
                &&& final(shared).attached == old(shared).attached
                &&& final(shared).igt_ms == old(shared).igt_ms
            },
    {
        if !shared.run_active {
            return None;
        }
        let (segment, total, stamps) = self.stamps.split_at(now);
        self.stamps = stamps;
        match shared.record_split(segment, total) {
            Some(idx) => Some((idx, segment, total)),
            None => None,
        }
    }

    /// The run is reset: no start, no last split, and the shared run state
    /// cleared.
    pub fn reset(&mut self, shared: &mut Shared)
        ensures
            final(self).started() is None,
            final(self).last_split() is None,
            !final(shared).run_active,
            final(shared).current_split_index == 0,
            final(shared).segments@ == cleared(old(shared).segments@),
            final(shared).counters@ == old(shared).counters@,
            final(shared).attached == old(shared).attached,
            final(shared).igt_ms == old(shared).igt_ms,
    {
        self.stamps = Stamps::none();
        shared.reset_run();
    }
}

/// The command-line tester's timer: whether the run is running, the split
/// index, the split names from the `.lss` file, and the instants (in
/// nanoseconds of a monotonic clock the caller reads) of the start and of
/// the last split.
pub struct DebugTimer {
    running: bool,
    splits: usize,
    names: Vec<String>,
    stamps: Stamps,
}

impl DebugTimer {
    pub closed spec fn is_running(&self) -> bool {
        self.running
    }

    pub closed spec fn split_index(&self) -> usize {
        self.splits
    }

    pub closed spec fn names(&self) -> Seq<Seq<char>> {
        self.names@.map_values(|n: String| n@)
    }

    pub closed spec fn started(&self) -> Option<u128> {
        self.stamps.started
    }

    pub closed spec fn last_split(&self) -> Option<u128> {
        self.stamps.last
    }

    /// The instant of the last split (or of the start), if any.
    pub fn last_split_at(&self) -> (r: Option<u128>)
        ensures
            r == self.last_split(),
    {
        self.stamps.last
    }

    /// A timer that is not running, at the first split.
    pub fn new(names: Vec<String>) -> (t: Self)
        ensures
            !t.is_running(),
            t.split_index() == 0,
            t.names() == names@.map_values(|n: String| n@),
            t.started() is None,
            t.last_split() is None,
    {
        DebugTimer { running: false, splits: 0, names, stamps: Stamps::none() }
    }

    pub fn running(&self) -> (r: bool)
        ensures
            r == self.is_running(),
    {
        self.running
    }

    pub fn current_split_index(&self) -> (r: usize)
        ensures
            r == self.split_index(),
    {
        self.splits
    }

    /// Whether split `idx` has been passed.
    pub fn segment_splitted(&self, idx: usize) -> (r: bool)
        ensures
            r == (self.split_index() > idx),
    {
        self.splits > idx
    }

    /// The label of split `idx`: its name when the file lists one.
    pub fn label(&self, idx: usize) -> (r: String)
        ensures
            r@ == crate::format::split_label_spec(
                if idx < self.names().len() {
                    Some(self.names()[idx as int])
                } else {
                    None
                },
                idx as nat,
            ),
    {
        if idx < self.names.len() {
            split_label(Some(self.names[idx].as_str()), idx)
        } else {
            split_label(None, idx)
        }
    }

    /// The run starts at instant `now`.
    pub fn start(&mut self, now: u128)
        ensures
            final(self).is_running(),
            final(self).started() == Some(now),
            final(self).last_split() == Some(now),
            final(self).split_index() == old(self).split_index(),
            final(self).names() == old(self).names(),
    {
        self.running = true;
        self.stamps = Stamps::at(now);
    }

    /// A split at instant `now`: ignored (`None`) unless running; otherwise
    /// returns the split index with the milliseconds since the last split
    /// and since the start, and moves to the next split.
    pub fn split(&mut self, now: u128) -> (r: Option<(usize, u128, u128)>)
        requires
            old(self).is_running() ==> old(self).split_index() < usize::MAX,
            old(self).is_running() ==> (old(self).last_split() matches Some(t) ==> t <= now),
        ensures
            !old(self).is_running() ==> r is None && *final(self) == *old(self),
            old(self).is_running() ==> {
                &&& r == Some(
                    (
                        old(self).split_index(),
                        elapsed_ms(old(self).last_split(), now),
                        elapsed_ms(old(self).started(), now),
                    ),
                )
                &&& old(self).started() is Some ==> elapsed_ms(old(self).last_split(), now)
                    <= elapsed_ms(old(self).started(), now)
                &&& final(self).split_index() == old(self).split_index() + 1
                &&& final(self).last_split() == Some(now)
                &&& final(self).started() == old(self).started()
                &&& final(self).is_running()
                &&& final(self).names() == old(self).names()
            },
    {
        if !self.running {
            return None;
        }
        let (segment, total, stamps) = self.stamps.split_at(now);
        self.stamps = stamps;
        let idx = self.splits;
        self.splits = idx + 1;
        Some((idx, segment, total))
    }

    /// The user skipped a split; returns the index skipped.
    pub fn skip_split(&mut self) -> (r: usize)
        requires
            old(self).split_index() < usize::MAX,
        ensures
            r == old(self).split_index(),
            final(self).split_index() == old(self).split_index() + 1,
            final(self).is_running() == old(self).is_running(),
            final(self).started() == old(self).started(),
            final(self).last_split() == old(self).last_split(),
            final(self).names() == old(self).names(),
    {
        let idx = self.splits;
        self.splits = idx + 1;
        idx
    }

    /// The user undid a split (not below the first); returns the new index.
    pub fn undo_split(&mut self) -> (r: usize)
        ensures
            r == final(self).split_index(),
            final(self).split_index() == undo_index(old(self).split_index()),
            final(self).is_running() == old(self).is_running(),
            final(self).started() == old(self).started(),
            final(self).last_split() == old(self).last_split(),
            final(self).names() == old(self).names(),
    {
        if self.splits > 0 {
            self.splits = self.splits - 1;
        }
        self.splits
    }

    /// The run is reset: not running, first split, no instants.
    pub fn reset(&mut self)
        ensures
            !final(self).is_running(),
            final(self).split_index() == 0,
            final(self).started() is None,
            final(self).last_split() is None,
            final(self).names() == old(self).names(),
    {
        self.running = false;
        self.splits = 0;
        self.stamps = Stamps::none();
    }
}

// ---------------------------------------------------------------------------
// The GUI tester's runner loop
// ---------------------------------------------------------------------------

/// How one update of the splitter went.
#[derive(Clone, Copy)]
pub enum RunnerOutcome {
    /// It ran; whether it is attached to a process.
    Ran { attached: bool },
    /// It trapped: it must be instantiated again.
    Trapped,
    /// It was busy elsewhere.
    Busy,
}

/// What the runner does after an update.
#[derive(Clone, Copy)]
pub struct RunnerStep {
    /// The attachment to show, when it changed.
    pub set_attached: Option<bool>,
    /// Instantiate the splitter again.
    pub reinstantiate: bool,
    /// How long to pause, in milliseconds; `None` for the splitter's tick
    /// rate.
    pub pause_ms: Option<u64>,
}

/// Pause after a trap, in milliseconds.
pub const TRAP_PAUSE_MS: u64 = 1000;

/// The runner loop's memory: the settings version the splitter has, and
/// the attachment last shown.
pub struct RunnerLoop {
    applied_version: u64,
    last_attached: Option<bool>,
}

/// The step after an update, and the attachment shown after it.
pub open spec fn runner_step_spec(last: Option<bool>, outcome: RunnerOutcome) -> (RunnerStep, Option<bool>) {
    match outcome {
        RunnerOutcome::Ran { attached } => (
            RunnerStep {
                set_attached: if last != Some(attached) {
                    Some(attached)
                } else {
                    None
                },
                reinstantiate: false,
                pause_ms: None,
            },
            Some(attached),
        ),
        RunnerOutcome::Trapped => (
            RunnerStep {
                set_attached: if last != Some(false) {
                    Some(false)
                } else {
                    None
                },
                reinstantiate: true,
                pause_ms: Some(TRAP_PAUSE_MS),
            },
            Some(false),
        ),
        RunnerOutcome::Busy => (
            RunnerStep { set_attached: None, reinstantiate: false, pause_ms: None },
            last,
        ),
    }
}

impl RunnerLoop {
    pub closed spec fn applied(&self) -> u64 {
        self.applied_version
    }

    pub closed spec fn shown_attached(&self) -> Option<bool> {
        self.last_attached
    }

    /// The splitter was instantiated with settings version `version`.
    pub fn new(version: u64) -> (r: Self)
        ensures
            r.applied() == version,
            r.shown_attached() is None,
    {
        RunnerLoop { applied_version: version, last_attached: None }
    }

    /// The splitter was instantiated again with settings version `version`.
    pub fn instantiated(&mut self, version: u64)
        ensures
            final(self).applied() == version,
            final(self).shown_attached() == old(self).shown_attached(),
    {
        self.applied_version = version;
    }

    /// The settings are at `version`: whether they must be pushed to the
    /// splitter (a new version with settings to push); the version counts
    /// as applied either way.
    pub fn settings_to_push(&mut self, version: u64, has_settings: bool) -> (r: bool)
        ensures
            r == (version != old(self).applied() && has_settings),
            final(self).applied() == version,
            final(self).shown_attached() == old(self).shown_attached(),
    {
        let push = version != self.applied_version && has_settings;
        self.applied_version = version;
        push
    }

    /// What to do after an update.
    pub fn after_tick(&mut self, outcome: RunnerOutcome) -> (r: RunnerStep)
        ensures
            (r, final(self).shown_attached()) == runner_step_spec(old(self).shown_attached(), outcome),
            final(self).applied() == old(self).applied(),
    {
        match outcome {
            RunnerOutcome::Ran { attached } => {
                let changed = match self.last_attached {
                    Some(a) => a != attached,
                    None => true,
                };
                self.last_attached = Some(attached);
                RunnerStep {
                    set_attached: if changed {
                        Some(attached)
                    } else {
                        None
                    },
                    reinstantiate: false,
                    pause_ms: None,
                }
            },
            RunnerOutcome::Trapped => {
                let changed = match self.last_attached {
                    Some(a) => a,
                    None => true,
                };
                self.last_attached = Some(false);
                RunnerStep {
                    set_attached: if changed {
                        Some(false)
                    } else {
                        None
                    },
                    reinstantiate: true,
                    pause_ms: Some(TRAP_PAUSE_MS),
                }
            },
            RunnerOutcome::Busy => RunnerStep { set_attached: None, reinstantiate: false, pause_ms: None },
        }
    }
}

// ---------------------------------------------------------------------------
// Log lines
// ---------------------------------------------------------------------------

/// `s` starts with `p`.
pub open spec fn has_prefix(s: Seq<char>, p: Seq<char>) -> bool {
    p.len() <= s.len() && s.take(p.len() as int) == p
}

fn starts_with_str(s: &[char], p: &str) -> (r: bool)
    ensures
        r == has_prefix(s@, p@),
{
    let pc = to_chars(p);
    if pc.len() > s.len() {
        return false;
    }
    let head = crate::text::slice_chars(s, 0, pc.len());
    crate::text::chars_eq(head.as_slice(), pc.as_slice())
}

/// The splitter's `[trace]` and `[dbg]` lines are trace output; the rest
/// are its messages.
pub open spec fn splitter_log_cat(text: Seq<char>) -> LogCat {
    if has_prefix(text, "[trace]"@) || has_prefix(text, "[dbg]"@) {
        LogCat::Trace
    } else {
        LogCat::Wasm
    }
}

/// The category of a message printed by the splitter.
pub fn classify_splitter_log(text: &str) -> (r: LogCat)
    ensures
        r == splitter_log_cat(text@),
{
    let t = to_chars(text);
    if starts_with_str(t.as_slice(), "[trace]") || starts_with_str(t.as_slice(), "[dbg]") {
        LogCat::Trace
    } else {
        LogCat::Wasm
    }
}

/// Only the newest `MAX_LOG_LINES` lines are kept.
pub fn cap_log(logs: &mut Vec<LogLine>)
    ensures
        final(logs)@ == (if old(logs)@.len() > MAX_LOG_LINES {
            old(logs)@.skip(old(logs)@.len() - MAX_LOG_LINES)
        } else {
            old(logs)@
        }),
{
    if logs.len() > MAX_LOG_LINES {
        let drop = logs.len() - MAX_LOG_LINES;
        let tail = logs.split_off(drop);
        *logs = tail;
    }
}

// ---------------------------------------------------------------------------
// Splits files
// ---------------------------------------------------------------------------

/// The inner XML of the first `<AutoSplitterSettings>` element, as the host
/// hands it to the splitter.
pub open spec fn autosplitter_settings_spec(content: Seq<char>) -> Option<Seq<char>> {
    let ts = xml_texts_spec(content, "AutoSplitterSettings"@);
    if ts.len() > 0 {
        Some(ts[0])
    } else {
        None
    }
}

pub fn autosplitter_settings(content: &str) -> (r: Option<String>)
    ensures
        match (r, autosplitter_settings_spec(content@)) {
            (Some(s), Some(t)) => s@ == t,
            (None, None) => true,
            _ => false,
        },
{
    let mut ts = xml_texts(content, "AutoSplitterSettings");
    proof {
        assert(ts@.len() == xml_texts_spec(content@, "AutoSplitterSettings"@).len());
    }
    if ts.len() == 0 {
        None
    } else {
        proof {
            assert(ts@.map_values(|t: String| t@)[0] == ts@[0]@);
        }
        Some(ts.swap_remove(0))
    }
}

/// One node of a parsed XML document: its tag name (empty for nodes that
/// are not elements) and, for each child, the child's tag name and text.
pub struct XmlNode {
    pub tag: String,
    pub children: Vec<(String, Option<String>)>,
}

/// A parsed node as char sequences.
pub type XmlNodeModel = (Seq<char>, Seq<(Seq<char>, Option<Seq<char>>)>);

pub open spec fn child_model(c: (String, Option<String>)) -> (Seq<char>, Option<Seq<char>>) {
    (
        c.0@,
        match c.1 {
            Some(t) => Some(t@),
            None => None,
        },
    )
}

pub open spec fn node_model(n: XmlNode) -> XmlNodeModel {
    (n.tag@, n.children@.map_values(|c: (String, Option<String>)| child_model(c)))
}

/// What `roxmltree` makes of a document: every node (the document root
/// first, then in document order) with its tag name and its children's tag
/// names and texts; `None` when the text is not well-formed XML.
pub uninterp spec fn xml_outline(content: Seq<char>) -> Option<Seq<XmlNodeModel>>;

/// `roxmltree::Document::parse` followed by a walk of `descendants()`: for
/// each node, `tag_name().name()` and, for each of `children()`, its
/// `tag_name().name()` and `text()`.  The contract only names the result;
/// what the parser accepts and how it builds the tree is its own.
#[verifier::external_body]
fn parse_outline(content: &str) -> (r: Option<Vec<XmlNode>>)
    ensures
        match r {
            Some(v) => xml_outline(content@) == Some(v@.map_values(|n: XmlNode| node_model(n))),
            None => xml_outline(content@) is None,
        },
{
    let doc = roxmltree::Document::parse(content).ok()?;
    let mut out = Vec::new();
    for n in doc.descendants() {
        let mut children = Vec::new();
        for c in n.children() {
            children.push((c.tag_name().name().to_string(), c.text().map(String::from)));
        }
        out.push(XmlNode { tag: n.tag_name().name().to_string(), children });
    }
    Some(out)
}

/// The text of the first child named `name`: `None` when there is no such
/// child, `Some(None)` when it has no text.
pub open spec fn first_child_text(
    children: Seq<(Seq<char>, Option<Seq<char>>)>,
    name: Seq<char>,
) -> Option<Option<Seq<char>>>
    decreases children.len(),
{
    if children.len() == 0 {
        None
    } else if children[0].0 == name {
        Some(children[0].1)
    } else {
        first_child_text(children.drop_first(), name)
    }
}

/// The names of the `<Segment>` elements among `nodes`: the text of each
/// one's first `<Name>` child, skipping segments without one.
pub open spec fn segment_names_of(nodes: Seq<XmlNodeModel>) -> Seq<Seq<char>>
    decreases nodes.len(),
{
    if nodes.len() == 0 {
        seq![]
    } else {
        let rest = segment_names_of(nodes.drop_last());
        let n = nodes.last();
        if n.0 == "Segment"@ {
            match first_child_text(n.1, "Name"@) {
                Some(Some(t)) => rest.push(t),
                _ => rest,
            }
        } else {
            rest
        }
    }
}

/// The segment names of a splits file; none for an empty or malformed one.
pub open spec fn split_names_spec(content: Seq<char>) -> Seq<Seq<char>> {
    if content.len() == 0 {
        seq![]
    } else {
        match xml_outline(content) {
            Some(nodes) => segment_names_of(nodes),
            None => seq![],
        }
    }
}

fn name_child_text(children: &Vec<(String, Option<String>)>) -> (r: Option<String>)
    ensures
        match first_child_text(
            children@.map_values(|c: (String, Option<String>)| child_model(c)),
            "Name"@,
        ) {
            Some(Some(t)) => r matches Some(s) && s@ == t,
            _ => r is None,
        },
{
    let ghost cs = children@.map_values(|c: (String, Option<String>)| child_model(c));
    let mut i: usize = 0;
    assert(cs.skip(0) =~= cs);
    while i < children.len()
        invariant
            cs == children@.map_values(|c: (String, Option<String>)| child_model(c)),
            i <= children@.len(),
            first_child_text(cs, "Name"@) == first_child_text(cs.skip(i as int), "Name"@),
        decreases children@.len() - i,
    {
        let tag = to_chars(children[i].0.as_str());
        proof {
            assert(cs.skip(i as int)[0] == child_model(children@[i as int]));
        }
        if chars_eq_str(tag.as_slice(), "Name") {
            return match &children[i].1 {
                Some(t) => Some(String::from_str(t.as_str())),
                None => None,
            };
        }
        proof {
            assert(cs.skip(i as int).drop_first() =~= cs.skip(i + 1));
        }
        i = i + 1;
    }
    None
}

/// The names of the `<Segment>` nodes among `nodes`, in order: the text of
/// each one's first `<Name>` child, skipping segments without one.
pub fn segment_names(nodes: &Vec<XmlNode>) -> (r: Vec<String>)
    ensures
        r@.map_values(|s: String| s@) == segment_names_of(
            nodes@.map_values(|n: XmlNode| node_model(n)),
        ),
{
    let ghost ns = nodes@.map_values(|n: XmlNode| node_model(n));
    let mut out: Vec<String> = Vec::new();
    let mut i: usize = 0;
    while i < nodes.len()
        invariant
            ns == nodes@.map_values(|n: XmlNode| node_model(n)),
            i <= nodes@.len(),
            out@.map_values(|s: String| s@) == segment_names_of(ns.take(i as int)),
        decreases nodes@.len() - i,
    {
        let tag = to_chars(nodes[i].tag.as_str());
        let ghost before = out@;
        proof {
            assert(ns.take(i + 1).drop_last() =~= ns.take(i as int));
            assert(ns.take(i + 1).last() == node_model(nodes@[i as int]));
        }
        if chars_eq_str(tag.as_slice(), "Segment") {
            if let Some(t) = name_child_text(&nodes[i].children) {
                out.push(t);
                assert(out@.map_values(|s: String| s@) =~= before.map_values(|s: String| s@).push(
                    t@,
                ));
            }
        }
        i = i + 1;
    }
    assert(ns.take(nodes@.len() as int) =~= ns);
    out
}

/// The segment names listed in a `.lss` splits file, in order; none when
/// the file is empty or not well-formed XML.
pub fn parse_split_names(content: &str) -> (r: Vec<String>)
    ensures
        r@.map_values(|s: String| s@) == split_names_spec(content@),
{
    let cc = to_chars(content);
    if cc.len() == 0 {
        return Vec::new();
    }
    match parse_outline(content) {
        Some(nodes) => segment_names(&nodes),
        None => Vec::new(),
    }
}

} // verus!
