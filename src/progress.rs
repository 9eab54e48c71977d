//! The pipeline engine's bookkeeping: how many worker lanes a run gets, the
//! per-stage FIFO queues of recipes, and the state of every recipe as it
//! moves through the stages. The threads, terminal bars and stage work live
//! with the caller, which asks the `Scheduler` what to do next and reports
//! each outcome back.
use vstd::prelude::*;

use crossbeam::queue::SegQueue;

use crate::config::Config;
use crate::package::BuildFile;
use crate::text::{copy_str, decimal, push_decimal, push_str};
use crate::util::cpu_count;

verus! {

/// `crossbeam::queue::SegQueue`, crossbeam's unbounded FIFO queue, held
/// opaquely; `queue_items` names what it holds.
#[verifier::external_type_specification]
#[verifier::external_body]
#[verifier::reject_recursive_types(T)]
pub struct ExSegQueue<T>(SegQueue<T>);

/// The items waiting in a queue, oldest first.
pub uninterp spec fn queue_items(q: SegQueue<usize>) -> Seq<usize>;

/// Relies on `SegQueue::new`: a queue with nothing in it.
#[verifier::external_body]
fn queue_new() -> (r: SegQueue<usize>)
    ensures
        queue_items(r) == Seq::<usize>::empty(),
{
    SegQueue::new()
}

/// Relies on `SegQueue::push_mut`: the value joins at the tail.
#[verifier::external_body]
fn queue_push(q: &mut SegQueue<usize>, value: usize)
    ensures
        queue_items(*final(q)) == queue_items(*old(q)).push(value),
{
    q.push_mut(value)
}

/// Relies on `SegQueue::pop_mut`: the head leaves the queue, or nothing
/// when it is empty.
#[verifier::external_body]
fn queue_pop(q: &mut SegQueue<usize>) -> (r: Option<usize>)
    ensures
        queue_items(*old(q)).len() == 0 ==> r is None && queue_items(*final(q)) == queue_items(
            *old(q),
        ),
        queue_items(*old(q)).len() > 0 ==> r == Some(queue_items(*old(q))[0]) && queue_items(
            *final(q),
        ) == queue_items(*old(q)).drop_first(),
{
    q.pop_mut()
}

pub open spec fn min(a: int, b: int) -> int {
    if a <= b { a } else { b }
}

/// How many terminal lines a run uses: one per recipe plus the totals line,
/// at most one per processor, at most one more than each configured
/// parallelism cap, and never fewer than two. One line is the totals bar;
/// each other line is a worker lane.
pub open spec fn line_count(
    pkgs: int,
    cpus: int,
    parallel_download: Option<u32>,
    parallel_build: Option<u32>,
) -> int {
    let a = min(pkgs + 1, cpus);
    let b = match parallel_download {
        Some(d) => min(a, d + 1),
        None => a,
    };
    let c = match parallel_build {
        Some(d) => min(b, d + 1),
        None => b,
    };
    if c < 2 { 2 } else { c }
}

/// The shape of a run: how many terminal lines it has and how many stages.
#[derive(Debug)]
pub struct Progress {
    pub bar_count: usize,
    pub stages: usize,
}

impl Progress {
    /// The shape of a run over `pkgs` on this machine, with no stages yet.
    pub fn new(config: &Config, pkgs: &[BuildFile]) -> (r: Progress)
        ensures
            exists|cpus: int|
                cpus >= 1 && r.bar_count == line_count(
                    pkgs@.len() as int,
                    cpus,
                    config.parallel_download,
                    config.parallel_build,
                ),
            r.stages == 0,
    {
        let cpus = cpu_count();
        Progress::with_cpus(config, pkgs.len(), cpus)
    }

    /// The shape of a run over `pkgs` recipes with `cpus` processors.
    pub fn with_cpus(config: &Config, pkgs: usize, cpus: usize) -> (r: Progress)
        ensures
            r.bar_count == line_count(
                pkgs as int,
                cpus as int,
                config.parallel_download,
                config.parallel_build,
            ),
            r.stages == 0,
    {
        let mut n: u64 = if (pkgs as u64) < (cpus as u64) {
            pkgs as u64 + 1
        } else {
            cpus as u64
        };
        if let Some(d) = config.parallel_download {
            if (d as u64) + 1 < n {
                n = d as u64 + 1;
            }
        }
        if let Some(b) = config.parallel_build {
            if (b as u64) + 1 < n {
                n = b as u64 + 1;
            }
        }
        if n < 2 {
            n = 2;
        }
        Progress { bar_count: n as usize, stages: 0 }
    }

    /// Adds one stage after the current ones.
    pub fn add_step(&mut self)
        requires
            old(self).stages < usize::MAX,
        ensures
            final(self).stages == old(self).stages + 1,
            final(self).bar_count == old(self).bar_count,
    {
        self.stages = self.stages + 1;
    }
}

/// Where a recipe stands: waiting in a stage's queue, being worked on at a
/// stage, through every stage, or failed at a stage.
#[derive(Clone, Copy, PartialEq, Eq, Structural, Debug)]
pub enum ItemState {
    Waiting(usize),
    Running(usize),
    Done,
    Failed(usize),
}

/// One step in the history of a run: a recipe (first field) started,
/// cleared, or failed a stage (second field).
pub enum Event {
    Start(usize, usize),
    Success(usize, usize),
    Failure(usize, usize),
}

/// What a worker at a stage does next.
#[derive(Clone, Copy, PartialEq, Eq, Structural, Debug)]
pub enum Poll {
    /// Work on this recipe at the worker's stage.
    Run(usize),
    /// Nothing to take now, but earlier stages may still feed this one.
    Wait,
    /// This stage is drained for good: move to the next one.
    Advance,
    /// Stop working: past the last stage, or halted by a failure.
    Stop,
}

pub open spec fn is_waiting(st: ItemState) -> bool {
    st is Waiting
}

pub open spec fn is_running(st: ItemState) -> bool {
    st is Running
}

pub open spec fn is_done(st: ItemState) -> bool {
    st is Done
}

pub open spec fn is_failed(st: ItemState) -> bool {
    st is Failed
}

/// How many states in `s` satisfy `p`.
pub open spec fn count(s: Seq<ItemState>, p: spec_fn(ItemState) -> bool) -> nat
    decreases s.len(),
{
    if s.len() == 0 {
        0
    } else {
        count(s.drop_last(), p) + if p(s.last()) {
            1nat
        } else {
            0nat
        }
    }
}

proof fn lemma_count_update(s: Seq<ItemState>, i: int, x: ItemState, p: spec_fn(ItemState) -> bool)
    requires
        0 <= i < s.len(),
    ensures
        count(s.update(i, x), p) + (if p(s[i]) {
            1nat
        } else {
            0nat
        }) == count(s, p) + (if p(x) {
            1nat
        } else {
            0nat
        }),
    decreases s.len(),
{
    if i == s.len() - 1 {
        assert(s.update(i, x).drop_last() =~= s.drop_last());
    } else {
        lemma_count_update(s.drop_last(), i, x, p);
        assert(s.update(i, x).drop_last() =~= s.drop_last().update(i, x));
    }
}

proof fn lemma_count_bound(s: Seq<ItemState>, p: spec_fn(ItemState) -> bool)
    ensures
        count(s, p) <= s.len(),
    decreases s.len(),
{
    if s.len() > 0 {
        lemma_count_bound(s.drop_last(), p);
    }
}

proof fn lemma_count_none(s: Seq<ItemState>, p: spec_fn(ItemState) -> bool)
    requires
        forall|i: int| 0 <= i < s.len() ==> !p(#[trigger] s[i]),
    ensures
        count(s, p) == 0,
    decreases s.len(),
{
    if s.len() > 0 {
        lemma_count_none(s.drop_last(), p);
    }
}

proof fn lemma_count_partition(s: Seq<ItemState>)
    ensures
        count(s, |st: ItemState| is_waiting(st)) + count(s, |st: ItemState| is_running(st)) + count(
            s,
            |st: ItemState| is_done(st),
        ) + count(s, |st: ItemState| is_failed(st)) == s.len(),
    decreases s.len(),
{
    if s.len() > 0 {
        lemma_count_partition(s.drop_last());
    }
}

/// Some event before position `before` of `t` is `e`.
pub open spec fn happened(t: Seq<Event>, e: Event, before: int) -> bool {
    exists|q: int| 0 <= q < before && t[q] == e
}

proof fn lemma_happened_push(t: Seq<Event>, x: Event, e: Event, before: int)
    requires
        before <= t.len(),
    ensures
        happened(t.push(x), e, before) == happened(t, e, before),
{
    if happened(t, e, before) {
        let q = choose|q: int| 0 <= q < before && t[q] == e;
        assert(t.push(x)[q] == e);
    }
    if happened(t.push(x), e, before) {
        let q = choose|q: int| 0 <= q < before && t.push(x)[q] == e;
        assert(t[q] == e);
    }
}

/// The event at `p` has what must precede it: a stage starts only after the
/// recipe cleared the stage before, and a stage ends only after it started.
pub open spec fn event_ok(t: Seq<Event>, p: int) -> bool {
    match t[p] {
        Event::Start(i, k) => k > 0 ==> happened(t, Event::Success(i, (k - 1) as usize), p),
        Event::Success(i, k) => happened(t, Event::Start(i, k), p),
        Event::Failure(i, k) => happened(t, Event::Start(i, k), p),
    }
}

/// The history `t` accounts for recipe `i` being in state `st`.
pub open spec fn state_ok(t: Seq<Event>, i: usize, st: ItemState) -> bool {
    match st {
        ItemState::Waiting(k) => k > 0 ==> happened(t, Event::Success(i, (k - 1) as usize), t.len() as int),
        ItemState::Running(k) => happened(t, Event::Start(i, k), t.len() as int) && (k > 0
            ==> happened(t, Event::Success(i, (k - 1) as usize), t.len() as int)),
        _ => true,
    }
}

/// Some recipe failed some stage in `t`.
pub open spec fn failed_in(t: Seq<Event>) -> bool {
    exists|p: int| 0 <= p < t.len() && #[trigger] t[p] is Failure
}

/// No stage starts in `t` after a failure.
pub open spec fn no_start_after_failure(t: Seq<Event>) -> bool {
    forall|p: int, q: int| 0 <= p < q < t.len() && #[trigger] t[p] is Failure ==> !(#[trigger] t[q] is Start)
}

proof fn lemma_history_push(t: Seq<Event>, x: Event)
    ensures
        !(x is Failure) ==> (failed_in(t.push(x)) == failed_in(t)),
        x is Failure ==> failed_in(t.push(x)),
        no_start_after_failure(t) && (failed_in(t) ==> !(x is Start)) ==> no_start_after_failure(t.push(x)),
{
    let u = t.push(x);
    if failed_in(t) {
        let p = choose|p: int| 0 <= p < t.len() && #[trigger] t[p] is Failure;
        assert(u[p] is Failure);
    }
    if !(x is Failure) && failed_in(u) {
        let p = choose|p: int| 0 <= p < u.len() && #[trigger] u[p] is Failure;
        assert(t[p] is Failure);
    }
    if x is Failure {
        assert(u[t.len() as int] is Failure);
    }
    if no_start_after_failure(t) && (failed_in(t) ==> !(x is Start)) {
        assert forall|p: int, q: int| 0 <= p < q < u.len() && #[trigger] u[p] is Failure implies !(#[trigger] u[q] is Start) by {
            assert(u[p] == t[p]);
            if q < t.len() {
                assert(u[q] == t[q]);
            } else {
                assert(t[p] is Failure);
            }
        }
    }
}

/// A recipe in state `st` has gone past the start of stage `k`.
pub open spec fn past(st: ItemState, k: usize) -> bool {
    match st {
        ItemState::Waiting(j) => j > k,
        ItemState::Running(j) => j >= k,
        ItemState::Failed(j) => j >= k,
        ItemState::Done => true,
    }
}

/// Every start in `t` is of a recipe that has since gone past it.
pub open spec fn starts_accounted(t: Seq<Event>, states: Seq<ItemState>) -> bool {
    forall|p: int|
        0 <= p < t.len() ==> match #[trigger] t[p] {
            Event::Start(i, k) => i < states.len() && past(states[i as int], k),
            _ => true,
        }
}

/// No start appears twice in `t`.
pub open spec fn starts_unique(t: Seq<Event>) -> bool {
    forall|p: int, q: int| 0 <= p < q < t.len() && #[trigger] t[p] is Start ==> #[trigger] t[q] != t[p]
}

/// The stages' queues and the state of every recipe of a batch.
pub struct Scheduler {
    queues: Vec<SegQueue<usize>>,
    states: Vec<ItemState>,
    succeeded: usize,
    failed: usize,
    fail_fast: bool,
    halted: bool,
    trace: Ghost<Seq<Event>>,
}

impl Scheduler {
    pub closed spec fn stage_count(&self) -> nat {
        self.queues@.len()
    }

    pub closed spec fn item_count(&self) -> nat {
        self.states@.len()
    }

    /// The recipes waiting at stage `k`, oldest first.
    pub closed spec fn queue(&self, k: int) -> Seq<usize> {
        queue_items(self.queues@[k])
    }

    pub closed spec fn item(&self, i: int) -> ItemState {
        self.states@[i]
    }

    pub closed spec fn states(&self) -> Seq<ItemState> {
        self.states@
    }

    pub closed spec fn done_count(&self) -> nat {
        self.succeeded as nat
    }

    pub closed spec fn failed_count(&self) -> nat {
        self.failed as nat
    }

    pub closed spec fn is_halted(&self) -> bool {
        self.halted
    }

    pub closed spec fn stops_on_failure(&self) -> bool {
        self.fail_fast
    }

    /// Every start, success and failure so far, in order.
    pub closed spec fn history(&self) -> Seq<Event> {
        self.trace@
    }

    /// The scheduler's invariant.
    pub closed spec fn wf(&self) -> bool {
        &&& self.queues@.len() >= 1
        &&& forall|k: int, j: int|
            0 <= k < self.queues@.len() && 0 <= j < queue_items(self.queues@[k]).len() ==> {
                let i = #[trigger] queue_items(self.queues@[k])[j];
                &&& i < self.states@.len()
                &&& self.states@[i as int] == ItemState::Waiting(k as usize)
            }
        &&& forall|k: int, j1: int, j2: int|
            0 <= k < self.queues@.len() && 0 <= j1 < j2 < queue_items(self.queues@[k]).len()
                ==> #[trigger] queue_items(self.queues@[k])[j1] != #[trigger] queue_items(
                self.queues@[k],
            )[j2]
        &&& forall|i: int|
            0 <= i < self.states@.len() ==> match #[trigger] self.states@[i] {
                ItemState::Waiting(k) => k < self.queues@.len() && queue_items(
                    self.queues@[k as int],
                ).contains(i as usize),
                ItemState::Running(k) => k < self.queues@.len(),
                ItemState::Failed(k) => k < self.queues@.len(),
                ItemState::Done => true,
            }
        &&& forall|i: int|
            0 <= i < self.states@.len() ==> state_ok(self.trace@, i as usize, #[trigger] self.states@[i])
        &&& forall|p: int| 0 <= p < self.trace@.len() ==> #[trigger] event_ok(self.trace@, p)
        &&& self.succeeded == count(self.states@, |st: ItemState| is_done(st))
        &&& self.failed == count(self.states@, |st: ItemState| is_failed(st))
        &&& self.halted ==> self.fail_fast
        &&& self.fail_fast && failed_in(self.trace@) ==> self.halted
        &&& self.fail_fast ==> no_start_after_failure(self.trace@)
        &&& starts_accounted(self.trace@, self.states@)
        &&& starts_unique(self.trace@)
    }
}

impl Scheduler {
    /// A batch of `batch` recipes, numbered from zero, all waiting in input
    /// order at the first of `stages` stages.
    pub fn new(batch: usize, stages: usize, fail_fast: bool) -> (r: Scheduler)
        requires
            stages >= 1,
        ensures
            r.wf(),
            r.stage_count() == stages,
            r.item_count() == batch,
            r.queue(0) == Seq::new(batch as nat, |j: int| j as usize),
            forall|k: int| 1 <= k < stages ==> r.queue(k).len() == 0,
            forall|i: int| 0 <= i < batch ==> r.item(i) == ItemState::Waiting(0),
            r.done_count() == 0 && r.failed_count() == 0,
            !r.is_halted(),
            r.stops_on_failure() == fail_fast,
            r.history().len() == 0,
    {
        let mut first = queue_new();
        let mut states: Vec<ItemState> = Vec::new();
        let mut i: usize = 0;
        while i < batch
            invariant
                i <= batch,
                queue_items(first) == Seq::new(i as nat, |j: int| j as usize),
                states@ == Seq::new(i as nat, |j: int| ItemState::Waiting(0)),
            decreases batch - i,
        {
            queue_push(&mut first, i);
            states.push(ItemState::Waiting(0));
            i = i + 1;
            assert(queue_items(first) =~= Seq::new(i as nat, |j: int| j as usize));
            assert(states@ =~= Seq::new(i as nat, |j: int| ItemState::Waiting(0)));
        }
        let mut queues: Vec<SegQueue<usize>> = Vec::new();
        queues.push(first);
        let mut k: usize = 1;
        while k < stages
            invariant
                1 <= k <= stages,
                queues@.len() == k,
                queue_items(queues@[0]) == Seq::new(batch as nat, |j: int| j as usize),
                forall|m: int| 1 <= m < k ==> queue_items(#[trigger] queues@[m]).len() == 0,
            decreases stages - k,
        {
            queues.push(queue_new());
            k = k + 1;
        }
        proof {
            lemma_count_none(states@, |st: ItemState| is_done(st));
            lemma_count_none(states@, |st: ItemState| is_failed(st));
            assert forall|i: int| 0 <= i < states@.len() implies match #[trigger] states@[i] {
                ItemState::Waiting(k) => k < queues@.len() && queue_items(
                    queues@[k as int],
                ).contains(i as usize),
                ItemState::Running(k) => k < queues@.len(),
                ItemState::Failed(k) => k < queues@.len(),
                ItemState::Done => true,
            } by {
                assert(queue_items(queues@[0])[i] == i as usize);
            }
        }
        Scheduler {
            queues,
            states,
            succeeded: 0,
            failed: 0,
            fail_fast,
            halted: false,
            trace: Ghost(Seq::empty()),
        }
    }

    pub fn stages(&self) -> (r: usize)
        ensures
            r == self.stage_count(),
    {
        self.queues.len()
    }

    pub fn batch(&self) -> (r: usize)
        ensures
            r == self.item_count(),
    {
        self.states.len()
    }

    /// Recipes that cleared the last stage.
    pub fn succeeded(&self) -> (r: usize)
        ensures
            r == self.done_count(),
    {
        self.succeeded
    }

    /// Recipes that failed at some stage.
    pub fn failed(&self) -> (r: usize)
        ensures
            r == self.failed_count(),
    {
        self.failed
    }

    /// Whether a failure stopped the run.
    pub fn halted(&self) -> (r: bool)
        ensures
            r == self.is_halted(),
    {
        self.halted
    }

    /// The state of recipe `i`.
    pub fn state(&self, i: usize) -> (r: ItemState)
        requires
            i < self.item_count(),
        ensures
            r == self.item(i as int),
    {
        self.states[i]
    }
}

proof fn lemma_happened_grow(t: Seq<Event>, x: Event, e: Event)
    requires
        happened(t, e, t.len() as int),
    ensures
        happened(t.push(x), e, t.len() + 1 as int),
{
    let q = choose|q: int| 0 <= q < t.len() && t[q] == e;
    assert(t.push(x)[q] == e);
}

proof fn lemma_state_ok_push(t: Seq<Event>, x: Event, i: usize, st: ItemState)
    requires
        state_ok(t, i, st),
    ensures
        state_ok(t.push(x), i, st),
{
    match st {
        ItemState::Waiting(k) => {
            if k > 0 {
                lemma_happened_grow(t, x, Event::Success(i, (k - 1) as usize));
            }
        },
        ItemState::Running(k) => {
            lemma_happened_grow(t, x, Event::Start(i, k));
            if k > 0 {
                lemma_happened_grow(t, x, Event::Success(i, (k - 1) as usize));
            }
        },
        _ => {},
    }
}

proof fn lemma_trace_push(t: Seq<Event>, x: Event)
    requires
        forall|p: int| 0 <= p < t.len() ==> #[trigger] event_ok(t, p),
        event_ok(t.push(x), t.len() as int),
    ensures
        forall|p: int| 0 <= p < t.len() + 1 ==> #[trigger] event_ok(t.push(x), p),
{
    assert forall|p: int| 0 <= p < t.len() + 1 implies #[trigger] event_ok(t.push(x), p) by {
        if p < t.len() {
            assert(event_ok(t, p));
            assert(t.push(x)[p] == t[p]);
            match t[p] {
                Event::Start(i, k) => {
                    lemma_happened_push(t, x, Event::Success(i, (k - 1) as usize), p);
                },
                Event::Success(i, k) => {
                    lemma_happened_push(t, x, Event::Start(i, k), p);
                },
                Event::Failure(i, k) => {
                    lemma_happened_push(t, x, Event::Start(i, k), p);
                },
            }
        }
    }
}

/// A recipe at or before an earlier stage than `k`, not yet through it.
pub open spec fn before_stage(st: ItemState, k: usize) -> bool {
    match st {
        ItemState::Waiting(j) => j < k,
        ItemState::Running(j) => j < k,
        _ => false,
    }
}

/// No recipe is waiting or running at a stage before `stage`.
pub open spec fn idle_before(states: Seq<ItemState>, stage: usize) -> bool {
    forall|i: int| 0 <= i < states.len() ==> !before_stage(#[trigger] states[i], stage)
}

/// `a` and `b` have the same stages, and the same queues but for stage `k`.
pub open spec fn queues_same_except(a: &Scheduler, b: &Scheduler, k: int) -> bool {
    &&& a.stage_count() == b.stage_count()
    &&& forall|m: int| 0 <= m < a.stage_count() && m != k ==> #[trigger] a.queue(m) == b.queue(m)
}

/// `a` and `b` are in the same state.
pub open spec fn unchanged(a: &Scheduler, b: &Scheduler) -> bool {
    &&& queues_same_except(a, b, -1)
    &&& a.states() == b.states()
    &&& a.item_count() == b.item_count()
    &&& a.done_count() == b.done_count()
    &&& a.failed_count() == b.failed_count()
    &&& a.is_halted() == b.is_halted()
    &&& a.stops_on_failure() == b.stops_on_failure()
    &&& a.history() == b.history()
}

impl Scheduler {
    fn upstream_idle(&self, stage: usize) -> (r: bool)
        ensures
            r == idle_before(self.states(), stage),
    {
        let mut i: usize = 0;
        while i < self.states.len()
            invariant
                i <= self.states@.len(),
                forall|j: int| 0 <= j < i ==> !before_stage(#[trigger] self.states@[j], stage),
            decreases self.states@.len() - i,
        {
            let busy = match self.states[i] {
                ItemState::Waiting(j) => j < stage,
                ItemState::Running(j) => j < stage,
                _ => false,
            };
            if busy {
                assert(before_stage(self.states@[i as int], stage));
                return false;
            }
            i = i + 1;
        }
        true
    }

    /// What a worker at `stage` does next. It takes the oldest recipe
    /// waiting at its stage; with none waiting, it may move on only once no
    /// recipe is waiting or running at an earlier stage, since those could
    /// still reach this one. Once halted, or past the last stage, it stops.
    pub fn next(&mut self, stage: usize) -> (r: Poll)
        requires
            old(self).wf(),
        ensures
            final(self).wf(),
            old(self).is_halted() || stage >= old(self).stage_count() ==> r == Poll::Stop,
            r == Poll::Stop ==> old(self).is_halted() || stage >= old(self).stage_count(),
            r is Run ==> {
                let i = r->Run_0;
                &&& old(self).queue(stage as int).len() > 0
                &&& i == old(self).queue(stage as int)[0]
                &&& old(self).item(i as int) == ItemState::Waiting(stage)
                &&& final(self).queue(stage as int) == old(self).queue(stage as int).drop_first()
                &&& queues_same_except(final(self), old(self), stage as int)
                &&& final(self).states() == old(self).states().update(
                    i as int,
                    ItemState::Running(stage),
                )
                &&& final(self).history() == old(self).history().push(Event::Start(i, stage))
                &&& final(self).item_count() == old(self).item_count()
                &&& final(self).done_count() == old(self).done_count()
                &&& final(self).failed_count() == old(self).failed_count()
                &&& final(self).is_halted() == old(self).is_halted()
                &&& final(self).stops_on_failure() == old(self).stops_on_failure()
            },
            !(r is Run) ==> unchanged(final(self), old(self)),
            !old(self).is_halted() && stage < old(self).stage_count() && old(self).queue(
                stage as int,
            ).len() > 0 ==> r is Run,
            r == Poll::Advance <==> !old(self).is_halted() && stage < old(self).stage_count()
                && old(self).queue(stage as int).len() == 0 && idle_before(old(self).states(), stage),
    {
        if self.halted || stage >= self.queues.len() {
            return Poll::Stop;
        }
        let ghost q0 = queue_items(self.queues@[stage as int]);
        let ghost old_self = *self;
        let popped = queue_pop(&mut self.queues[stage]);
        match popped {
            Some(i) => {
                proof {
                    assert(q0.len() > 0);
                    assert(q0 == old(self).queue(stage as int));
                    assert(q0[0] == i);
                    assert(i < self.states@.len());
                    assert(self.states@[i as int] == ItemState::Waiting(stage));
                }
                let ghost t = self.trace@;
                let ghost st0 = self.states@;
                let n = self.states.len();
                assert(n == st0.len());
                self.states.set(i, ItemState::Running(stage));
                self.trace = Ghost(self.trace@.push(Event::Start(i, stage)));
                proof {
                    let q1 = queue_items(self.queues@[stage as int]);
                    assert(q1 == q0.drop_first());
                    lemma_count_update(st0, i as int, ItemState::Running(stage), |st: ItemState| is_done(st));
                    lemma_count_update(st0, i as int, ItemState::Running(stage), |st: ItemState| is_failed(st));
                    assert(state_ok(t, i, ItemState::Waiting(stage)));
                    if stage > 0 {
                        lemma_happened_push(t, Event::Start(i, stage), Event::Success(i, (stage - 1) as usize), t.len() as int);
                        lemma_happened_grow(t, Event::Start(i, stage), Event::Success(i, (stage - 1) as usize));
                    }
                    assert(self.trace@[t.len() as int] == Event::Start(i, stage));
                    assert(event_ok(self.trace@, t.len() as int));
                    lemma_trace_push(t, Event::Start(i, stage));
                    lemma_history_push(t, Event::Start(i, stage));
                    assert(happened(self.trace@, Event::Start(i, stage), self.trace@.len() as int));
                    let tn = self.trace@;
                    let sn = self.states@;
                    assert forall|p: int| 0 <= p < tn.len() implies match #[trigger] tn[p] {
                        Event::Start(e, k) => e < sn.len() && past(sn[e as int], k),
                        _ => true,
                    } by {
                        if p < t.len() {
                            assert(tn[p] == t[p]);
                            match t[p] {
                                Event::Start(e, k) => {
                                    assert(past(st0[e as int], k));
                                },
                                _ => {},
                            }
                        }
                    }
                    assert forall|p: int, q: int| 0 <= p < q < tn.len() && #[trigger] tn[p] is Start implies #[trigger] tn[q] != tn[p] by {
                        assert(tn[p] == t[p]);
                        if q < t.len() {
                            assert(tn[q] == t[q]);
                        } else {
                            match t[p] {
                                Event::Start(e, k) => {
                                    assert(past(st0[e as int], k));
                                },
                                _ => {},
                            }
                        }
                    }
                    assert forall|k: int, j: int|
                        0 <= k < self.queues@.len() && 0 <= j < queue_items(self.queues@[k]).len() implies {
                            let e = #[trigger] queue_items(self.queues@[k])[j];
                            &&& e < self.states@.len()
                            &&& self.states@[e as int] == ItemState::Waiting(k as usize)
                        } by {
                        if k == stage {
                            assert(queue_items(self.queues@[k])[j] == q0[j + 1]);
                            assert(q0[0] != q0[j + 1]);
                        } else {
                            assert(queue_items(self.queues@[k]) == queue_items(old_self.queues@[k]));
                            let e = queue_items(old_self.queues@[k])[j];
                            assert(st0[e as int] == ItemState::Waiting(k as usize));
                        }
                    }
                    assert forall|k: int, j1: int, j2: int|
                        0 <= k < self.queues@.len() && 0 <= j1 < j2 < queue_items(self.queues@[k]).len()
                        implies #[trigger] queue_items(self.queues@[k])[j1] != #[trigger] queue_items(self.queues@[k])[j2] by {
                        if k == stage {
                            assert(q0[j1 + 1] != q0[j2 + 1]);
                        } else {
                            assert(queue_items(self.queues@[k]) == queue_items(old_self.queues@[k]));
                        }
                    }
                    assert forall|e: int| 0 <= e < self.states@.len() implies match #[trigger] self.states@[e] {
                        ItemState::Waiting(k) => k < self.queues@.len() && queue_items(
                            self.queues@[k as int],
                        ).contains(e as usize),
                        ItemState::Running(k) => k < self.queues@.len(),
                        ItemState::Failed(k) => k < self.queues@.len(),
                        ItemState::Done => true,
                    } by {
                        if e != i as int {
                            assert(self.states@[e] == st0[e]);
                            if let ItemState::Waiting(k) = st0[e] {
                                if k == stage {
                                    assert(old_self.states@[e] == st0[e]);
                                    assert(queue_items(old_self.queues@[stage as int]) == q0);
                                    assert(q0.contains(e as usize));
                                    let j = choose|j: int| 0 <= j < q0.len() && q0[j] == e as usize;
                                    assert(q0[0] == i);
                                    assert(j != 0);
                                    assert(queue_items(self.queues@[k as int])[j - 1] == e as usize);
                                } else {
                                    assert(queue_items(self.queues@[k as int]) == queue_items(old_self.queues@[k as int]));
                                }
                            }
                        }
                    }
                    assert forall|e: int| 0 <= e < self.states@.len() implies state_ok(
                        self.trace@, e as usize, #[trigger] self.states@[e]) by {
                        if e != i as int {
                            assert(state_ok(t, e as usize, st0[e]));
                            lemma_state_ok_push(t, Event::Start(i, stage), e as usize, st0[e]);
                        }
                    }
                    assert(old(self).queue(stage as int).len() > 0);
                }
                Poll::Run(i)
            },
            None => {
                assert(self.states@ == old(self).states@);
                assert(q0.len() == 0);
                if self.upstream_idle(stage) {
                    Poll::Advance
                } else {
                    Poll::Wait
                }
            },
        }
    }
}

impl Scheduler {
    /// Records the outcome of recipe `item` at `stage`. Only a recipe
    /// running at that stage is accepted; anything else changes nothing and
    /// returns `false`. On success the recipe waits at the next stage, or is
    /// done after the last one; on failure it leaves the pipeline, and a run
    /// that stops on failure is halted.
    pub fn finish(&mut self, stage: usize, item: usize, ok: bool) -> (r: bool)
        requires
            old(self).wf(),
        ensures
            final(self).wf(),
            r == (item < old(self).item_count() && stage < old(self).stage_count() && old(
                self,
            ).item(item as int) == ItemState::Running(stage)),
            !r ==> unchanged(final(self), old(self)),
            r ==> final(self).item_count() == old(self).item_count(),
            r ==> final(self).stops_on_failure() == old(self).stops_on_failure(),
            r && ok && stage + 1 < old(self).stage_count() ==> {
                &&& final(self).states() == old(self).states().update(
                    item as int,
                    ItemState::Waiting((stage + 1) as usize),
                )
                &&& final(self).queue(stage + 1) == old(self).queue(stage + 1).push(item)
                &&& queues_same_except(final(self), old(self), stage + 1)
                &&& final(self).done_count() == old(self).done_count()
                &&& final(self).failed_count() == old(self).failed_count()
                &&& final(self).is_halted() == old(self).is_halted()
                &&& final(self).history() == old(self).history().push(Event::Success(item, stage))
            },
            r && ok && stage + 1 == old(self).stage_count() ==> {
                &&& final(self).states() == old(self).states().update(item as int, ItemState::Done)
                &&& queues_same_except(final(self), old(self), -1)
                &&& final(self).done_count() == old(self).done_count() + 1
                &&& final(self).failed_count() == old(self).failed_count()
                &&& final(self).is_halted() == old(self).is_halted()
                &&& final(self).history() == old(self).history().push(Event::Success(item, stage))
            },
            r && !ok ==> {
                &&& final(self).states() == old(self).states().update(
                    item as int,
                    ItemState::Failed(stage),
                )
                &&& queues_same_except(final(self), old(self), -1)
                &&& final(self).done_count() == old(self).done_count()
                &&& final(self).failed_count() == old(self).failed_count() + 1
                &&& final(self).is_halted() == (old(self).is_halted() || old(
                    self,
                ).stops_on_failure())
                &&& final(self).history() == old(self).history().push(Event::Failure(item, stage))
            },
    {
        if item >= self.states.len() || stage >= self.queues.len() {
            return false;
        }
        if !(self.states[item] == ItemState::Running(stage)) {
            return false;
        }
        let ghost t = self.trace@;
        let ghost st0 = self.states@;
        let ghost old_self = *self;
        let n = self.states.len();
        assert(n == st0.len());
        let next_state = if ok {
            if stage + 1 < self.queues.len() {
                ItemState::Waiting(stage + 1)
            } else {
                ItemState::Done
            }
        } else {
            ItemState::Failed(stage)
        };
        let ev = if ok {
            Ghost(Event::Success(item, stage))
        } else {
            Ghost(Event::Failure(item, stage))
        };
        proof {
            lemma_count_update(st0, item as int, next_state, |st: ItemState| is_done(st));
            lemma_count_update(st0, item as int, next_state, |st: ItemState| is_failed(st));
            lemma_count_bound(st0.update(item as int, next_state), |st: ItemState| is_done(st));
            lemma_count_bound(st0.update(item as int, next_state), |st: ItemState| is_failed(st));
        }
        self.states.set(item, next_state);
        self.trace = Ghost(self.trace@.push(ev@));
        if ok {
            if stage + 1 < self.queues.len() {
                queue_push(&mut self.queues[stage + 1], item);
            } else {
                self.succeeded = self.succeeded + 1;
            }
        } else {
            self.failed = self.failed + 1;
            if self.fail_fast {
                self.halted = true;
            }
        }
        proof {
            assert(state_ok(t, item, ItemState::Running(stage)));
            let tn = self.trace@;
            assert(tn[t.len() as int] == ev@);
            lemma_happened_push(t, ev@, Event::Start(item, stage), t.len() as int);
            assert(event_ok(tn, t.len() as int));
            lemma_trace_push(t, ev@);
            lemma_history_push(t, ev@);
            assert forall|p: int| 0 <= p < tn.len() implies match #[trigger] tn[p] {
                Event::Start(e, k) => e < self.states@.len() && past(self.states@[e as int], k),
                _ => true,
            } by {
                if p < t.len() {
                    assert(tn[p] == t[p]);
                    match t[p] {
                        Event::Start(e, k) => {
                            assert(past(st0[e as int], k));
                        },
                        _ => {},
                    }
                }
            }
            assert forall|p: int, q: int| 0 <= p < q < tn.len() && #[trigger] tn[p] is Start implies #[trigger] tn[q] != tn[p] by {
                assert(tn[p] == t[p]);
                if q < t.len() {
                    assert(tn[q] == t[q]);
                }
            }
            if ok && stage + 1 < self.queues@.len() {
                assert(happened(tn, Event::Success(item, stage), tn.len() as int));
            }
            let nq = (stage + 1) as int;
            assert forall|k: int, j: int|
                0 <= k < self.queues@.len() && 0 <= j < queue_items(self.queues@[k]).len() implies {
                    let e = #[trigger] queue_items(self.queues@[k])[j];
                    &&& e < self.states@.len()
                    &&& self.states@[e as int] == ItemState::Waiting(k as usize)
                } by {
                let oq = queue_items(old_self.queues@[k]);
                if ok && k == nq && j == oq.len() {
                } else {
                    assert(queue_items(self.queues@[k])[j] == oq[j]);
                    assert(st0[oq[j] as int] == ItemState::Waiting(k as usize));
                }
            }
            assert forall|k: int, j1: int, j2: int|
                0 <= k < self.queues@.len() && 0 <= j1 < j2 < queue_items(self.queues@[k]).len()
                implies #[trigger] queue_items(self.queues@[k])[j1] != #[trigger] queue_items(self.queues@[k])[j2] by {
                let oq = queue_items(old_self.queues@[k]);
                if ok && k == nq && j2 == oq.len() {
                    assert(st0[oq[j1] as int] == ItemState::Waiting(k as usize));
                } else {
                    assert(queue_items(self.queues@[k])[j1] == oq[j1]);
                    assert(queue_items(self.queues@[k])[j2] == oq[j2]);
                }
            }
            assert forall|e: int| 0 <= e < self.states@.len() implies match #[trigger] self.states@[e] {
                ItemState::Waiting(k) => k < self.queues@.len() && queue_items(
                    self.queues@[k as int],
                ).contains(e as usize),
                ItemState::Running(k) => k < self.queues@.len(),
                ItemState::Failed(k) => k < self.queues@.len(),
                ItemState::Done => true,
            } by {
                if e == item as int {
                    if ok && stage + 1 < self.queues@.len() {
                        let q = queue_items(self.queues@[nq]);
                        assert(q[q.len() - 1] == item);
                    }
                } else {
                    assert(self.states@[e] == st0[e]);
                    if let ItemState::Waiting(k) = st0[e] {
                        let oq = queue_items(old_self.queues@[k as int]);
                        assert(oq.contains(e as usize));
                        let j = choose|j: int| 0 <= j < oq.len() && oq[j] == e as usize;
                        assert(queue_items(self.queues@[k as int])[j] == e as usize);
                    }
                }
            }
            assert forall|e: int| 0 <= e < self.states@.len() implies state_ok(
                self.trace@, e as usize, #[trigger] self.states@[e]) by {
                if e != item as int {
                    assert(state_ok(t, e as usize, st0[e]));
                    lemma_state_ok_push(t, ev@, e as usize, st0[e]);
                }
            }
        }
        true
    }
}

/// Stages run in order for each recipe: whenever a recipe starts a stage
/// after the first, it had earlier started the stage before and then
/// cleared it. No stage starts for a recipe that did not clear the previous
/// one.
pub proof fn lemma_stages_in_order(s: &Scheduler, p: int, i: usize, k: usize)
    requires
        s.wf(),
        0 <= p < s.history().len(),
        s.history()[p] == Event::Start(i, k),
        k > 0,
    ensures
        exists|q1: int, q2: int|
            0 <= q1 < q2 < p && s.history()[q1] == Event::Start(i, (k - 1) as usize)
                && s.history()[q2] == Event::Success(i, (k - 1) as usize),
{
    let t = s.history();
    assert(event_ok(t, p));
    let q2 = choose|q: int| 0 <= q < p && t[q] == Event::Success(i, (k - 1) as usize);
    assert(event_ok(t, q2));
    let q1 = choose|q: int| 0 <= q < q2 && t[q] == Event::Start(i, (k - 1) as usize);
    assert(0 <= q1 < q2 < p && t[q1] == Event::Start(i, (k - 1) as usize) && t[q2]
        == Event::Success(i, (k - 1) as usize));
}

/// A run that stops on failure starts nothing after a failure: every
/// stage start in its history comes before any failure.
pub proof fn lemma_fail_fast_stops(s: &Scheduler, p: int, q: int)
    requires
        s.wf(),
        s.stops_on_failure(),
        0 <= p < q < s.history().len(),
        s.history()[p] is Failure,
    ensures
        !(s.history()[q] is Start),
{
}

/// Nothing is run twice: no recipe starts the same stage twice in a run.
/// With `lemma_stages_in_order`, the recipes that start a stage after the
/// first are among those that cleared the stage before, each once.
pub proof fn lemma_stage_starts_once(s: &Scheduler, p: int, q: int)
    requires
        s.wf(),
        0 <= p < q < s.history().len(),
        s.history()[p] is Start,
    ensures
        s.history()[q] != s.history()[p],
{
}

/// Recipes waiting in some stage's queue.
pub open spec fn waiting_count(s: &Scheduler) -> nat {
    count(s.states(), |st: ItemState| is_waiting(st))
}

/// Recipes being worked on at some stage.
pub open spec fn running_count(s: &Scheduler) -> nat {
    count(s.states(), |st: ItemState| is_running(st))
}

/// Every recipe of the batch is in exactly one place: waiting in a queue,
/// running, through the last stage, or failed.
pub proof fn lemma_conservation(s: &Scheduler)
    requires
        s.wf(),
    ensures
        waiting_count(s) + running_count(s) + s.done_count() + s.failed_count() == s.item_count(),
{
    lemma_count_partition(s.states());
}

/// Once every queue is empty and no recipe is running, the recipes through
/// the last stage and the failed ones together make up the whole batch.
pub proof fn lemma_final_totals(s: &Scheduler)
    requires
        s.wf(),
        forall|k: int| 0 <= k < s.stage_count() ==> #[trigger] s.queue(k).len() == 0,
        forall|i: int| 0 <= i < s.item_count() ==> !(#[trigger] s.item(i) is Running),
    ensures
        s.done_count() + s.failed_count() == s.item_count(),
{
    lemma_count_partition(s.states());
    assert forall|i: int| 0 <= i < s.states().len() implies !is_waiting(#[trigger] s.states()[i]) by {
        assert(s.item(i) == s.states()[i]);
        if let ItemState::Waiting(k) = s.states()[i] {
            assert(s.queue(k as int).len() == 0);
        }
    }
    assert forall|i: int| 0 <= i < s.states().len() implies !is_running(#[trigger] s.states()[i]) by {
        assert(s.item(i) == s.states()[i]);
    }
    lemma_count_none(s.states(), |st: ItemState| is_waiting(st));
    lemma_count_none(s.states(), |st: ItemState| is_running(st));
}


/// Why a run could not proceed.
#[derive(Debug)]
pub enum ProgressError {
    Multibar(String),
    CreateDir(String, String),
}
impl ProgressError {
    /// The explanation shown to the user.
    pub open spec fn text(&self) -> Seq<char> {
        match self {
            ProgressError::Multibar(a) => "failed to clear progress bars: "@ + a@,
            ProgressError::CreateDir(a, b) => "could not create directory '"@ + a@ + "': "@ + b@,
        }
    }

    /// The explanation shown to the user, as `text` states.
    pub fn message(&self) -> (r: String)
        ensures
            r@ == self.text(),
    {
        let mut s = String::new();
        match self {
            ProgressError::Multibar(a) => {
                push_str(&mut s, "failed to clear progress bars: ");
                push_str(&mut s, a.as_str());
                assert(s@ =~= self.text());
            },
            ProgressError::CreateDir(a, b) => {
                push_str(&mut s, "could not create directory '");
                push_str(&mut s, a.as_str());
                push_str(&mut s, "': ");
                push_str(&mut s, b.as_str());
                assert(s@ =~= self.text());
            },
        }
        s
    }
}


/// The errors of a run, each already written out with its recipe context.
#[derive(Debug)]
pub struct AggregateError {
    pub errs: Vec<String>,
}

/// Each error on its own line, after a tab.
pub open spec fn error_lines(errs: Seq<String>) -> Seq<char>
    decreases errs.len(),
{
    if errs.len() == 0 {
        Seq::empty()
    } else {
        error_lines(errs.drop_last()) + "\t"@ + errs.last()@ + "\n"@
    }
}

impl AggregateError {
    /// The report: a line with the number of errors, then each error.
    pub open spec fn text(&self) -> Seq<char> {
        "found the following "@ + decimal(self.errs@.len()) + " error(s) while working on packages\n"@
            + error_lines(self.errs@)
    }

    /// The report, as `text` states.
    pub fn message(&self) -> (r: String)
        ensures
            r@ == self.text(),
    {
        let mut s = copy_str("found the following ");
        push_decimal(&mut s, self.errs.len() as u64);
        push_str(&mut s, " error(s) while working on packages\n");
        let ghost head = s@;
        let mut i: usize = 0;
        while i < self.errs.len()
            invariant
                i <= self.errs@.len(),
                s@ == head + error_lines(self.errs@.take(i as int)),
            decreases self.errs@.len() - i,
        {
            push_str(&mut s, "\t");
            push_str(&mut s, self.errs[i].as_str());
            push_str(&mut s, "\n");
            i = i + 1;
            assert(self.errs@.take(i as int).drop_last() =~= self.errs@.take(i - 1));
            assert(s@ =~= head + error_lines(self.errs@.take(i as int)));
        }
        assert(self.errs@.take(i as int) =~= self.errs@);
        s
    }
}

} // verus!
