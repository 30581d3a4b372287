//! Pacing of operations that share one named resource: a budget of permits
//! released once per interval. The clock and the waiting are the caller's;
//! this module decides which request proceeds.
use vstd::prelude::*;
use crate::text::same_text;

verus! {

/// What happens to a limiter.
#[derive(Clone, Copy, Debug, PartialEq, Eq)]
pub enum ThrottleEvent {
    /// A caller asks for a permit.
    Tick,
    /// One interval has elapsed: the budget is released again.
    Elapsed,
}

/// The permit state of one resource.
#[derive(Clone, Copy, Debug)]
pub struct Throttle {
    permits: u64,
    available: u64,
    interval_ms: u64,
}

/// The permits still available after `events`, from `avail` with budget `b`.
pub open spec fn available_after(b: nat, avail: nat, events: Seq<ThrottleEvent>) -> nat
    decreases events.len(),
{
    if events.len() == 0 {
        avail
    } else {
        let a = available_after(b, avail, events.drop_last());
        match events.last() {
            ThrottleEvent::Elapsed => b,
            ThrottleEvent::Tick => if a > 0 { (a - 1) as nat } else { 0 },
        }
    }
}

/// How many ticks among `events` were granted a permit.
pub open spec fn granted(b: nat, avail: nat, events: Seq<ThrottleEvent>) -> nat
    decreases events.len(),
{
    if events.len() == 0 {
        0
    } else {
        let before = granted(b, avail, events.drop_last());
        match events.last() {
            ThrottleEvent::Elapsed => before,
            ThrottleEvent::Tick => if available_after(b, avail, events.drop_last()) > 0 {
                before + 1
            } else {
                before
            },
        }
    }
}

/// How many intervals elapse among `events`.
pub open spec fn intervals(events: Seq<ThrottleEvent>) -> nat
    decreases events.len(),
{
    if events.len() == 0 {
        0
    } else {
        intervals(events.drop_last()) + if events.last() == ThrottleEvent::Elapsed { 1nat } else { 0 }
    }
}

proof fn lemma_granted_bound(b: nat, avail: nat, events: Seq<ThrottleEvent>)
    requires
        avail <= b,
    ensures
        granted(b, avail, events) + available_after(b, avail, events) <= avail + b * intervals(events),
        available_after(b, avail, events) <= b,
    decreases events.len(),
{
    if events.len() > 0 {
        let rest = events.drop_last();
        lemma_granted_bound(b, avail, rest);
        if events.last() == ThrottleEvent::Elapsed {
            assert(b * intervals(events) == b * intervals(rest) + b) by (nonlinear_arith)
                requires intervals(events) == intervals(rest) + 1;
        }
    }
}

/// Budget law: a limiter with `b` permits per interval, starting full, grants at
/// most `b` ticks before the first interval elapses and `b` more per interval;
/// so `c` granted ticks take at least `ceil(c / b) - 1` elapsed intervals.
/// `Throttle::run` returns exactly `granted` for the events it is given.
pub proof fn lemma_throttle_budget(b: nat, events: Seq<ThrottleEvent>)
    requires
        b > 0,
    ensures
        granted(b, b, events) <= b * (intervals(events) + 1),
        (granted(b, b, events) + b - 1) / (b as int) <= intervals(events) + 1,
{
    lemma_granted_bound(b, b, events);
    let c = granted(b, b, events);
    let k = intervals(events);
    assert(b + b * k == b * (k + 1)) by (nonlinear_arith);
    assert((c + b - 1) / (b as int) <= k + 1) by (nonlinear_arith)
        requires c <= b * (k + 1), b > 0;
}

impl Throttle {
    pub closed spec fn budget(&self) -> nat {
        self.permits as nat
    }

    pub closed spec fn left(&self) -> nat {
        self.available as nat
    }

    pub closed spec fn period_ms(&self) -> nat {
        self.interval_ms as nat
    }

    pub open spec fn wf(&self) -> bool {
        self.budget() > 0 && self.left() <= self.budget()
    }

    /// A full limiter with `permits` permits per interval of `interval_ms` milliseconds.
    pub fn new(permits: u64, interval_ms: u64) -> (r: Throttle)
        requires
            permits > 0,
        ensures
            r.wf(),
            r.budget() == permits,
            r.left() == permits,
            r.period_ms() == interval_ms,
            r == Throttle::new_spec(permits, interval_ms),
    {
        Throttle { permits, available: permits, interval_ms }
    }

    pub fn permits(&self) -> (r: u64)
        ensures
            r == self.budget(),
    {
        self.permits
    }

    pub fn interval_ms(&self) -> (r: u64)
        ensures
            r == self.period_ms(),
    {
        self.interval_ms
    }

    /// Applies one event. For a tick, returns whether the caller may proceed
    /// now; a refused caller waits for the next interval and ticks again.
    pub fn step(&mut self, event: ThrottleEvent) -> (r: bool)
        requires
            old(self).wf(),
        ensures
            final(self).wf(),
            final(self).budget() == old(self).budget(),
            final(self).period_ms() == old(self).period_ms(),
            final(self).left() == available_after(old(self).budget(), old(self).left(), seq![event]),
            r == (event == ThrottleEvent::Tick && old(self).left() > 0),
    {
        assert(seq![event].drop_last() =~= Seq::<ThrottleEvent>::empty());
        assert(seq![event].last() == event);
        assert(available_after(self.budget(), self.left(), Seq::empty()) == self.left());
        match event {
            ThrottleEvent::Elapsed => {
                self.available = self.permits;
                false
            },
            ThrottleEvent::Tick => {
                if self.available > 0 {
                    self.available = self.available - 1;
                    true
                } else {
                    false
                }
            },
        }
    }
}

proof fn lemma_granted_le_len(b: nat, avail: nat, events: Seq<ThrottleEvent>)
    ensures
        granted(b, avail, events) <= events.len(),
    decreases events.len(),
{
    if events.len() > 0 {
        lemma_granted_le_len(b, avail, events.drop_last());
    }
}

impl Throttle {
    /// Applies `events` in order and returns how many ticks were granted.
    pub fn run(&mut self, events: &Vec<ThrottleEvent>) -> (r: u64)
        requires
            old(self).wf(),
        ensures
            final(self).wf(),
            final(self).budget() == old(self).budget(),
            final(self).period_ms() == old(self).period_ms(),
            final(self).left() == available_after(old(self).budget(), old(self).left(), events@),
            r == granted(old(self).budget(), old(self).left(), events@),
    {
        let ghost b = self.budget();
        let ghost a0 = self.left();
        let mut count: u64 = 0;
        let mut i: usize = 0;
        assert(events@.subrange(0, 0) =~= Seq::<ThrottleEvent>::empty());
        while i < events.len()
            invariant
                i <= events@.len(),
                self.wf(),
                self.budget() == b,
                self.period_ms() == old(self).period_ms(),
                a0 == old(self).left(),
                b == old(self).budget(),
                self.left() == available_after(b, a0, events@.subrange(0, i as int)),
                count == granted(b, a0, events@.subrange(0, i as int)),
                count <= i,
            decreases events@.len() - i,
        {
            let ghost pre = events@.subrange(0, i as int);
            let ghost next = events@.subrange(0, i + 1);
            assert(next.drop_last() =~= pre);
            assert(next.last() == events@[i as int]);
            proof { lemma_granted_le_len(b, a0, pre); }
            let e = events[i];
            assert(seq![e].drop_last() =~= Seq::<ThrottleEvent>::empty());
            assert(seq![e].last() == e);
            assert(available_after(b, self.left(), Seq::empty()) == self.left());
            let ok = self.step(e);
            if ok {
                count = count + 1;
            }
            i = i + 1;
        }
        assert(events@.subrange(0, events@.len() as int) =~= events@);
        count
    }
}

/// The process-wide limiters, one per resource name, each fixed at first use.
pub struct ThrottleRegistry {
    names: Vec<String>,
    gates: Vec<Throttle>,
}

impl ThrottleRegistry {
    pub closed spec fn names(&self) -> Seq<Seq<char>> {
        self.names@.map_values(|n: String| n@)
    }

    pub closed spec fn gates(&self) -> Seq<Throttle> {
        self.gates@
    }

    pub open spec fn wf(&self) -> bool {
        &&& self.names().len() == self.gates().len()
        &&& forall|i: int, j: int|
            0 <= i < j < self.names().len() ==> self.names()[i] != self.names()[j]
        &&& forall|i: int| 0 <= i < self.gates().len() ==> (#[trigger] self.gates()[i]).wf()
    }

    pub fn new() -> (r: ThrottleRegistry)
        ensures
            r.wf(),
            r.names().len() == 0,
    {
        let r = ThrottleRegistry { names: Vec::new(), gates: Vec::new() };
        assert(r.names() =~= Seq::<Seq<char>>::empty());
        r
    }

    /// The index of the limiter named `name`. The first request for a name
    /// creates its limiter with `permits` and `interval_ms`; later requests get
    /// the same limiter, whatever budget they ask for.
    pub fn gate(&mut self, name: &str, permits: u64, interval_ms: u64) -> (r: usize)
        requires
            old(self).wf(),
            permits > 0,
        ensures
            final(self).wf(),
            r < final(self).gates().len(),
            final(self).names()[r as int] == name@,
            old(self).names().contains(name@) ==> {
                &&& final(self).names() == old(self).names()
                &&& final(self).gates() == old(self).gates()
            },
            !old(self).names().contains(name@) ==> {
                &&& final(self).names() == old(self).names().push(name@)
                &&& final(self).gates() == old(self).gates().push(Throttle::new_spec(permits, interval_ms))
            },
    {
        let n = self.names.len();
        let mut i: usize = 0;
        while i < n
            invariant
                i <= n,
                n == self.names@.len(),
                self.wf(),
                *self == *old(self),
                forall|j: int| 0 <= j < i ==> self.names()[j] != name@,
            decreases n - i,
        {
            if same_text(self.names[i].as_str(), name) {
                assert(self.names()[i as int] == name@);
                assert(old(self).names().contains(name@));
                return i;
            }
            i = i + 1;
        }
        assert(!old(self).names().contains(name@));
        let g = Throttle::new(permits, interval_ms);
        self.names.push(String::from_str(name));
        self.gates.push(g);
        assert(self.names() =~= old(self).names().push(name@));
        n
    }

    /// Applies `event` to the limiter at `index`.
    pub fn step(&mut self, index: usize, event: ThrottleEvent) -> (r: bool)
        requires
            old(self).wf(),
            index < old(self).gates().len(),
        ensures
            final(self).wf(),
            final(self).names() == old(self).names(),
            final(self).gates().len() == old(self).gates().len(),
            forall|j: int| 0 <= j < old(self).gates().len() && j != index
                ==> final(self).gates()[j] == old(self).gates()[j],
            final(self).gates()[index as int].budget() == old(self).gates()[index as int].budget(),
            final(self).gates()[index as int].left() == available_after(
                old(self).gates()[index as int].budget(),
                old(self).gates()[index as int].left(),
                seq![event],
            ),
            r == (event == ThrottleEvent::Tick && old(self).gates()[index as int].left() > 0),
    {
        let mut g = self.gates[index];
        let r = g.step(event);
        self.gates.set(index, g);
        r
    }
}

impl Throttle {
    pub closed spec fn new_spec(permits: u64, interval_ms: u64) -> Throttle {
        Throttle { permits, available: permits, interval_ms }
    }
}

} // verus!
