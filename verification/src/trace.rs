//! What holds along every run of a program: the runtime changes only by the
//! steps below, one per call that the running code makes, and the laws here
//! speak of every sequence of such steps.

use vstd::prelude::*;
use crate::context::ThreadContext;
use crate::model::{lemma_picks_next_ready, RuntimeView};
use crate::slot::State;
use crate::stack::{frame_fits, initial_rsp, lemma_prepared_layout, word_at, FRAME_BYTES};

verus! {

/// One call of the running code into the runtime.
pub enum Event {
    /// The running code yields.
    Yield,
    /// The entry of the running thread returns.
    Return,
    /// The running code spawns a thread.
    Spawn { entry: u64, trampoline: u64, cleanup: u64 },
    /// The running code computes, which leaves the live registers as given.
    Compute { registers: ThreadContext },
    /// The running code publishes the runtime.
    Init,
}

impl RuntimeView {
    /// The slot that a spawn claims, where one is `Available`.
    pub open spec fn first_available(self) -> int {
        choose|i: int| self.claims(i)
    }

    /// The runtime after one event.
    pub open spec fn step(self, event: Event) -> RuntimeView {
        match event {
            Event::Yield => self.yielded(),
            Event::Return => self.returned(),
            Event::Spawn { entry, trampoline, cleanup } => if self.has_available() {
                self.spawned(self.first_available(), entry, trampoline, cleanup)
            } else {
                self
            },
            Event::Compute { registers } => self.computed(registers),
            Event::Init => self.published(),
        }
    }

    /// The runtime after a sequence of events, the first of them first.
    pub open spec fn after(self, events: Seq<Event>) -> RuntimeView
        decreases events.len(),
    {
        if events.len() == 0 {
            self
        } else {
            self.after(events.drop_last()).step(events.last())
        }
    }
}

/// A spawn claims at most one slot, and claims one exactly where some slot is
/// `Available`: then it is `first_available`.
pub proof fn lemma_claims_first_available(m: RuntimeView)
    ensures
        m.has_available() <==> exists|i: int| m.claims(i),
        m.has_available() ==> m.claims(m.first_available()),
        forall|i: int, j: int| m.claims(i) && m.claims(j) ==> i == j,
{
    if m.has_available() {
        let a = choose|i: int|
            0 <= i < m.slots.len() && (#[trigger] m.slots[i]).state == State::Available;
        lemma_first_available_upto(m, a);
    }
    if exists|i: int| m.claims(i) {
        let i = choose|i: int| m.claims(i);
        assert(m.slots[i].state == State::Available);
    }
    assert forall|i: int, j: int| m.claims(i) && m.claims(j) implies i == j by {
        if i < j {
            assert(m.slots[i].state != State::Available);
        } else if j < i {
            assert(m.slots[j].state != State::Available);
        }
    }
}

/// Where slot `a` is `Available`, a spawn claims a slot at or before `a`.
proof fn lemma_first_available_upto(m: RuntimeView, a: int)
    requires
        0 <= a < m.slots.len(),
        m.slots[a].state == State::Available,
    ensures
        exists|i: int| m.claims(i),
    decreases a,
{
    if m.claims(a) {
    } else {
        let j = choose|j: int| 0 <= j < a && (#[trigger] m.slots[j]).state == State::Available;
        lemma_first_available_upto(m, j);
    }
}

/// A switch to a slot that a yield picks keeps the invariant and leaves the
/// slot it enters `Running`.
pub proof fn lemma_switch_keeps_invariant(m: RuntimeView, p: int)
    requires
        m.wf(),
        m.picks(p),
    ensures
        m.switched_to(p).wf(),
        m.switched_to(p).running(),
        m.switched_to(p).current == p,
        p != m.current,
{
    let after = m.switched_to(p);
    assert forall|i: int| 0 <= i < after.slots.len() implies (#[trigger] after.slots[i]).id == i
        && frame_fits(after.slots[i].base, after.slots[i].stack.len()) by {
        assert(m.slots[i].id == i);
        assert(frame_fits(m.slots[i].base, m.slots[i].stack.len()));
    }
    assert forall|i: int|
        0 <= i < after.slots.len() && (#[trigger] after.slots[i]).state
            == State::Running implies i == p by {
        if i != p && i != m.current {
            assert(m.slots[i].state == State::Running);
        }
    }
}

/// Every event keeps the invariant and leaves the current slot `Running`.
pub proof fn lemma_step_keeps_invariant(m: RuntimeView, event: Event)
    requires
        m.wf(),
        m.running(),
    ensures
        m.step(event).wf(),
        m.step(event).running(),
        m.step(event).slots.len() == m.slots.len(),
{
    lemma_picks_next_ready(m);
    match event {
        Event::Yield => {
            if m.has_ready() {
                lemma_switch_keeps_invariant(m, m.next_ready());
            }
        },
        Event::Return => {
            if m.current != 0 {
                lemma_retired(m);
                let r = m.retired();
                lemma_picks_next_ready(r);
                lemma_switch_keeps_invariant(r, r.next_ready());
            }
        },
        Event::Spawn { entry, trampoline, cleanup } => {
            if m.has_available() {
                lemma_claims_first_available(m);
                lemma_spawn_keeps_invariant(m, m.first_available(), entry, trampoline, cleanup);
            }
        },
        Event::Compute { registers } => {},
        Event::Init => {},
    }
}

/// In the middle of a completion the invariant holds, no slot is `Running`,
/// and the main flow is `Ready`, so that the yield to come will switch.
pub proof fn lemma_retired(m: RuntimeView)
    requires
        m.wf(),
        m.current != 0,
    ensures
        m.retired().wf(),
        m.retired().has_ready(),
        m.retired().slots[0].state == State::Ready,
        forall|i: int|
            0 <= i < m.slots.len() ==> (#[trigger] m.retired().slots[i]).state != State::Running,
{
    let r = m.retired();
    assert(m.slots[0].state != State::Running);
    assert(r.slots[0].state == State::Ready);
    assert forall|i: int| 0 <= i < r.slots.len() implies (#[trigger] r.slots[i]).id == i
        && frame_fits(r.slots[i].base, r.slots[i].stack.len()) && r.slots[i].state
        != State::Running by {
        assert(m.slots[i].id == i);
        assert(frame_fits(m.slots[i].base, m.slots[i].stack.len()));
    }
}

/// A spawn keeps the invariant, leaves the current slot `Running`, and
/// leaves the slot it claims ready to enter `entry`: its saved stack pointer
/// is aligned and lies within its stack, and the words at and above it are
/// `entry`, `trampoline` and `cleanup`.
pub proof fn lemma_spawn_keeps_invariant(
    m: RuntimeView,
    i: int,
    entry: u64,
    trampoline: u64,
    cleanup: u64,
)
    requires
        m.wf(),
        m.running(),
        m.claims(i),
    ensures
        m.spawned(i, entry, trampoline, cleanup).wf(),
        m.spawned(i, entry, trampoline, cleanup).running(),
        i != m.current,
        i != 0,
        ({
            let slot = m.spawned(i, entry, trampoline, cleanup).slots[i];
            let rsp = slot.ctx.rsp;
            &&& slot.state == State::Ready
            &&& rsp == initial_rsp(m.slots[i].base, m.slots[i].stack.len())
            &&& rsp % 16 == 0
            &&& slot.base <= rsp
            &&& rsp + FRAME_BYTES <= slot.base + slot.stack.len()
            &&& word_at(slot.stack, rsp - slot.base) == entry
            &&& word_at(slot.stack, rsp - slot.base + 8) == trampoline
            &&& word_at(slot.stack, rsp - slot.base + 16) == cleanup
        }),
{
    let after = m.spawned(i, entry, trampoline, cleanup);
    assert(frame_fits(m.slots[i].base, m.slots[i].stack.len()));
    lemma_prepared_layout(m.slots[i].stack, m.slots[i].base, entry, trampoline, cleanup);
    assert forall|k: int| 0 <= k < after.slots.len() implies (#[trigger] after.slots[k]).id == k
        && frame_fits(after.slots[k].base, after.slots[k].stack.len()) by {
        assert(m.slots[k].id == k);
        assert(frame_fits(m.slots[k].base, m.slots[k].stack.len()));
    }
    assert forall|k: int|
        0 <= k < after.slots.len() && (#[trigger] after.slots[k]).state
            == State::Running implies k == after.current by {
        if k != i {
            assert(m.slots[k].state == State::Running);
        }
    }
}

/// The pool is exhausted, so that a spawn fails, exactly where every slot but
/// that of the main flow holds a thread that is `Ready` or `Running`.
pub proof fn lemma_exhausted_when_all_taken(m: RuntimeView)
    requires
        m.wf(),
    ensures
        !m.has_available() <==> forall|i: int|
            1 <= i < m.slots.len() ==> (#[trigger] m.slots[i]).state == State::Ready
                || m.slots[i].state == State::Running,
{
    if m.has_available() {
        let a = choose|i: int|
            0 <= i < m.slots.len() && (#[trigger] m.slots[i]).state == State::Available;
        assert(a != 0);
    }
}

/// Along every run, whatever the running code calls and in whatever order,
/// the invariant holds after each call, and exactly one slot is `Running`:
/// the current one.
pub proof fn lemma_one_runner_on_every_trace(m: RuntimeView, events: Seq<Event>)
    requires
        m.wf(),
        m.running(),
    ensures
        m.after(events).wf(),
        m.after(events).running(),
        m.after(events).slots.len() == m.slots.len(),
        forall|i: int|
            0 <= i < m.slots.len() ==> ((#[trigger] m.after(events).slots[i]).state
                == State::Running <==> i == m.after(events).current),
    decreases events.len(),
{
    if events.len() > 0 {
        lemma_one_runner_on_every_trace(m, events.drop_last());
        lemma_step_keeps_invariant(m.after(events.drop_last()), events.last());
    }
}

/// A completion leaves the slot of the thread `Available` and hands the
/// processor to another slot. Its stack and every other stack stay as they
/// were.
pub proof fn lemma_completion_frees_slot(m: RuntimeView)
    requires
        m.wf(),
        m.running(),
        m.current != 0,
    ensures
        m.returned().slots[m.current].state == State::Available,
        m.returned().current != m.current,
        m.returned().running(),
        forall|i: int|
            0 <= i < m.slots.len() ==> (#[trigger] m.returned().slots[i]).stack == m.slots[i].stack,
{
    lemma_retired(m);
    let r = m.retired();
    lemma_picks_next_ready(r);
    lemma_switch_keeps_invariant(r, r.next_ready());
}

/// An `Available` slot rests through any event but a spawn that claims it:
/// it is not scheduled, and its state, stack and context stay as they are.
pub proof fn lemma_available_rests_step(m: RuntimeView, event: Event, k: int)
    requires
        m.wf(),
        m.running(),
        0 <= k < m.slots.len(),
        m.slots[k].state == State::Available,
        !(event is Spawn && m.claims(k)),
    ensures
        m.step(event).slots[k] == m.slots[k],
        m.step(event).current != k,
{
    lemma_picks_next_ready(m);
    lemma_step_keeps_invariant(m, event);
    match event {
        Event::Return => {
            if m.current != 0 {
                lemma_retired(m);
                lemma_picks_next_ready(m.retired());
            }
        },
        Event::Spawn { entry, trampoline, cleanup } => {
            lemma_claims_first_available(m);
        },
        _ => {},
    }
}

/// Once a thread has completed, its slot is never scheduled again until a
/// spawn claims it: along every run in which no spawn claims slot `k`, the
/// slot stays `Available` and never becomes current.
pub proof fn lemma_completed_slot_rests(m: RuntimeView, events: Seq<Event>, k: int)
    requires
        m.wf(),
        m.running(),
        0 <= k < m.slots.len(),
        m.slots[k].state == State::Available,
        forall|t: int|
            0 <= t < events.len() ==> !(events[t] is Spawn && #[trigger] m.after(
                events.take(t),
            ).claims(k)),
    ensures
        m.after(events).slots[k] == m.slots[k],
        m.after(events).current != k,
    decreases events.len(),
{
    if events.len() > 0 {
        let before = events.drop_last();
        assert forall|t: int| 0 <= t < before.len() implies !(before[t] is Spawn && #[trigger] m.after(
            before.take(t),
        ).claims(k)) by {
            assert(before.take(t) =~= events.take(t));
            assert(!(events[t] is Spawn && m.after(events.take(t)).claims(k)));
        }
        lemma_completed_slot_rests(m, before, k);
        lemma_one_runner_on_every_trace(m, before);
        assert(events.take(events.len() - 1) =~= before);
        assert(!(events[events.len() - 1] is Spawn && m.after(events.take(events.len() - 1)).claims(
            k,
        )));
        lemma_available_rests_step(m.after(before), events.last(), k);
    } else {
        assert(m.slots[m.current].state == State::Running);
    }
}

/// A suspended slot rests through any event: as long as it is not
/// scheduled, its state, stack and saved registers stay as they are; and
/// the event that schedules it loads the live registers from its saved ones
/// and leaves its stack as it is.
pub proof fn lemma_suspended_rests_step(m: RuntimeView, event: Event, k: int)
    requires
        m.wf(),
        m.running(),
        0 <= k < m.slots.len(),
        m.slots[k].state == State::Ready,
    ensures
        m.step(event).current != k ==> m.step(event).slots[k] == m.slots[k],
        m.step(event).current == k ==> {
            &&& m.step(event).cpu == m.slots[k].ctx
            &&& m.step(event).slots[k].stack == m.slots[k].stack
            &&& m.step(event).slots[k].state == State::Running
        },
{
    lemma_picks_next_ready(m);
    lemma_step_keeps_invariant(m, event);
    match event {
        Event::Return => {
            if m.current != 0 {
                lemma_retired(m);
                lemma_picks_next_ready(m.retired());
            }
        },
        Event::Spawn { entry, trampoline, cleanup } => {
            lemma_claims_first_available(m);
        },
        _ => {},
    }
}

/// As long as a suspended slot is not scheduled, whatever the other slots
/// do, its state, stack and saved registers stay as they are.
pub proof fn lemma_suspended_rests(m: RuntimeView, events: Seq<Event>, k: int)
    requires
        m.wf(),
        m.running(),
        0 <= k < m.slots.len(),
        m.slots[k].state == State::Ready,
        forall|t: int| 0 <= t <= events.len() ==> (#[trigger] m.after(events.take(t))).current != k,
    ensures
        m.after(events).slots[k] == m.slots[k],
    decreases events.len(),
{
    if events.len() > 0 {
        let before = events.drop_last();
        assert forall|t: int| 0 <= t <= before.len() implies (#[trigger] m.after(
            before.take(t),
        )).current != k by {
            assert(before.take(t) =~= events.take(t));
        }
        lemma_suspended_rests(m, before, k);
        lemma_one_runner_on_every_trace(m, before);
        assert(events.take(events.len() as int) =~= events);
        lemma_suspended_rests_step(m.after(before), events.last(), k);
    }
}

/// What a slot holds when it yields, it holds when it runs again: the live
/// registers and the stack of a slot are, at the moment it is next
/// scheduled, what they were at the moment it yielded, however many events
/// of other slots lie in between.
pub proof fn lemma_suspension_round_trip(m: RuntimeView, events: Seq<Event>)
    requires
        m.wf(),
        m.running(),
        m.has_ready(),
        forall|t: int|
            0 <= t < events.len() ==> (#[trigger] m.yielded().after(events.take(t))).current
                != m.current,
        m.yielded().after(events).current == m.current,
    ensures
        m.yielded().after(events).cpu == m.cpu,
        m.yielded().after(events).slots[m.current].stack == m.slots[m.current].stack,
        m.yielded().after(events).running(),
{
    let k = m.current;
    let s = m.yielded();
    lemma_picks_next_ready(m);
    lemma_switch_keeps_invariant(m, m.next_ready());
    assert(s.slots[k].ctx == m.cpu);
    assert(s.slots[k].state == State::Ready);
    if events.len() == 0 {
        assert(s.after(events) == s);
    } else {
        let before = events.drop_last();
        assert forall|t: int| 0 <= t <= before.len() implies (#[trigger] s.after(
            before.take(t),
        )).current != k by {
            assert(before.take(t) =~= events.take(t));
        }
        lemma_suspended_rests(s, before, k);
        lemma_one_runner_on_every_trace(s, before);
        lemma_suspended_rests_step(s.after(before), events.last(), k);
    }
}

/// A spawned thread starts at its entry: at the moment its slot is first
/// scheduled, however many events of other slots lie between the spawn and
/// that moment, the live stack pointer is the aligned one that the spawn
/// set, and the words at and above it on the stack of the slot are `entry`,
/// `trampoline` and `cleanup`.
pub proof fn lemma_first_resume_enters_entry(
    m: RuntimeView,
    entry: u64,
    trampoline: u64,
    cleanup: u64,
    events: Seq<Event>,
)
    requires
        m.wf(),
        m.running(),
        m.has_available(),
        forall|t: int|
            0 <= t < events.len() ==> (#[trigger] m.step(
                Event::Spawn { entry, trampoline, cleanup },
            ).after(events.take(t))).current != m.first_available(),
        m.step(Event::Spawn { entry, trampoline, cleanup }).after(events).current
            == m.first_available(),
    ensures
        ({
            let end = m.step(Event::Spawn { entry, trampoline, cleanup }).after(events);
            let slot = end.slots[m.first_available()];
            let rsp = end.cpu.rsp;
            &&& slot.state == State::Running
            &&& rsp % 16 == 0
            &&& slot.base <= rsp
            &&& rsp + FRAME_BYTES <= slot.base + slot.stack.len()
            &&& word_at(slot.stack, rsp - slot.base) == entry
            &&& word_at(slot.stack, rsp - slot.base + 8) == trampoline
            &&& word_at(slot.stack, rsp - slot.base + 16) == cleanup
        }),
{
    let k = m.first_available();
    let s = m.step(Event::Spawn { entry, trampoline, cleanup });
    lemma_claims_first_available(m);
    lemma_spawn_keeps_invariant(m, k, entry, trampoline, cleanup);
    if events.len() == 0 {
        assert(s.after(events) == s);
    } else {
        let before = events.drop_last();
        assert forall|t: int| 0 <= t <= before.len() implies (#[trigger] s.after(
            before.take(t),
        )).current != k by {
            assert(before.take(t) =~= events.take(t));
        }
        lemma_suspended_rests(s, before, k);
        lemma_one_runner_on_every_trace(s, before);
        lemma_suspended_rests_step(s.after(before), events.last(), k);
    }
}

} // verus!
