//! The end of a run: a program whose threads each yield a bounded number of
//! times and then return comes to a point where the main flow finds no slot
//! `Ready`, and at that point every slot but its own is `Available`.
//!
//! The main flow drives the run by yielding until a yield switches to no
//! one. A thread is described by the number of yields it still makes before
//! its entry returns. `Runtime::run` carries such a run out; `run_to_end`
//! says where it ends.

use vstd::prelude::*;
use crate::model::{lemma_picks_next_ready, RuntimeView};
use crate::runtime::Runtime;
use crate::slot::State;
use crate::trace::{lemma_completion_frees_slot, lemma_retired, lemma_switch_keeps_invariant};

verus! {

impl RuntimeView {
    /// What the thread in slot `i` still has to do, counted in calls into the
    /// runtime: the yields it still makes and its return. Nothing for a slot
    /// that is `Available`.
    pub open spec fn work_of(self, remaining: Seq<nat>, i: int) -> nat {
        if self.slots[i].state != State::Available {
            remaining[i] + 1
        } else {
            0
        }
    }

    /// The work of the threads in the slots from 1 up to, not including, `i`.
    pub open spec fn work_before(self, remaining: Seq<nat>, i: int) -> nat
        decreases i,
    {
        if i <= 1 {
            0
        } else {
            self.work_before(remaining, i - 1) + self.work_of(remaining, i - 1)
        }
    }

    /// The work of all threads; the main flow, slot 0, is none of them.
    pub open spec fn work(self, remaining: Seq<nat>) -> nat {
        self.work_before(remaining, self.slots.len() as int)
    }

    /// A bound on the number of calls into the runtime that are still to
    /// come before the run ends.
    pub open spec fn calls_left(self, remaining: Seq<nat>) -> nat {
        2 * self.work(remaining) + if self.current == 0 {
            1nat
        } else {
            0nat
        }
    }
}

/// The runtime at the end of the run that starts at `m`, where the thread in
/// slot `i` yields `remaining[i]` more times and then returns, and the main
/// flow yields until no slot is `Ready`.
pub open spec fn run_to_end(m: RuntimeView, remaining: Seq<nat>) -> RuntimeView
    decreases m.calls_left(remaining),
    when m.wf() && m.running() && remaining.len() == m.slots.len()
    via run_to_end_decreases
{
    if m.current == 0 {
        if m.has_ready() {
            run_to_end(m.yielded(), remaining)
        } else {
            m
        }
    } else if remaining[m.current] > 0 {
        run_to_end(m.yielded(), remaining.update(m.current, (remaining[m.current] - 1) as nat))
    } else {
        run_to_end(m.returned(), remaining)
    }
}

/// Every call into the runtime leaves fewer calls to come, so that the run
/// is well defined.
#[via_fn]
proof fn run_to_end_decreases(m: RuntimeView, remaining: Seq<nat>) {
    if m.current == 0 {
        if m.has_ready() {
            lemma_main_yield_keeps_work(m, remaining);
        }
    } else if remaining[m.current] > 0 {
        lemma_thread_yield_does_work(m, remaining);
    } else {
        lemma_thread_return_does_work(m, remaining);
    }
}

/// Two runtimes whose slots from 1 up to `i` have the same work, but for
/// slot `c`, differ in their work by what slot `c` differs.
proof fn lemma_work_differs_at(
    m: RuntimeView,
    remaining: Seq<nat>,
    y: RuntimeView,
    left: Seq<nat>,
    c: int,
    i: int,
)
    requires
        forall|q: int| 1 <= q < i && q != c ==> m.work_of(remaining, q) == y.work_of(left, q),
    ensures
        1 <= c < i ==> m.work_before(remaining, i) - m.work_of(remaining, c) == y.work_before(
            left,
            i,
        ) - y.work_of(left, c),
        !(1 <= c < i) ==> m.work_before(remaining, i) == y.work_before(left, i),
    decreases i,
{
    if i > 1 {
        lemma_work_differs_at(m, remaining, y, left, c, i - 1);
    }
}

/// A yield of the main flow that switches leaves the work of the threads as
/// it is and hands the processor to one of them.
proof fn lemma_main_yield_keeps_work(m: RuntimeView, remaining: Seq<nat>)
    requires
        m.wf(),
        m.running(),
        remaining.len() == m.slots.len(),
        m.current == 0,
        m.has_ready(),
    ensures
        m.yielded().wf(),
        m.yielded().running(),
        m.yielded().current != 0,
        m.yielded().slots.len() == m.slots.len(),
        m.yielded().work(remaining) == m.work(remaining),
        m.yielded().calls_left(remaining) < m.calls_left(remaining),
{
    lemma_picks_next_ready(m);
    lemma_switch_keeps_invariant(m, m.next_ready());
    lemma_work_differs_at(m, remaining, m.yielded(), remaining, 0, m.slots.len() as int);
}

/// A yield of a thread uses up one of its yields. It always switches, since
/// the main flow is `Ready`.
proof fn lemma_thread_yield_does_work(m: RuntimeView, remaining: Seq<nat>)
    requires
        m.wf(),
        m.running(),
        remaining.len() == m.slots.len(),
        m.current != 0,
        remaining[m.current] > 0,
    ensures
        m.yielded().wf(),
        m.yielded().running(),
        m.yielded().slots.len() == m.slots.len(),
        m.yielded().work(remaining.update(m.current, (remaining[m.current] - 1) as nat)) + 1
            == m.work(remaining),
        m.yielded().calls_left(remaining.update(m.current, (remaining[m.current] - 1) as nat))
            < m.calls_left(remaining),
{
    let left = remaining.update(m.current, (remaining[m.current] - 1) as nat);
    assert(m.slots[0].state == State::Ready);
    lemma_picks_next_ready(m);
    lemma_switch_keeps_invariant(m, m.next_ready());
    lemma_work_differs_at(m, remaining, m.yielded(), left, m.current, m.slots.len() as int);
}

/// The return of a thread that has no yield left ends its work.
proof fn lemma_thread_return_does_work(m: RuntimeView, remaining: Seq<nat>)
    requires
        m.wf(),
        m.running(),
        remaining.len() == m.slots.len(),
        m.current != 0,
        remaining[m.current] == 0,
    ensures
        m.returned().wf(),
        m.returned().running(),
        m.returned().slots.len() == m.slots.len(),
        m.returned().work(remaining) + 1 == m.work(remaining),
        m.returned().calls_left(remaining) < m.calls_left(remaining),
{
    lemma_retired(m);
    let r = m.retired();
    lemma_picks_next_ready(r);
    lemma_switch_keeps_invariant(r, r.next_ready());
    lemma_completion_frees_slot(m);
    lemma_work_differs_at(m, remaining, m.returned(), remaining, m.current, m.slots.len() as int);
}

/// A run ends, and ends with every thread completed: where each thread
/// yields a bounded number of times and then returns, the main flow comes to
/// a yield that finds no slot `Ready`; the main flow is then the running
/// slot and every other slot is `Available`.
pub proof fn lemma_run_ends(m: RuntimeView, remaining: Seq<nat>)
    requires
        m.wf(),
        m.running(),
        remaining.len() == m.slots.len(),
    ensures
        run_to_end(m, remaining).wf(),
        run_to_end(m, remaining).current == 0,
        run_to_end(m, remaining).running(),
        !run_to_end(m, remaining).has_ready(),
        run_to_end(m, remaining).slots.len() == m.slots.len(),
        forall|i: int|
            1 <= i < m.slots.len() ==> (#[trigger] run_to_end(m, remaining).slots[i]).state
                == State::Available,
    decreases m.calls_left(remaining),
{
    if m.current == 0 {
        if m.has_ready() {
            lemma_main_yield_keeps_work(m, remaining);
            lemma_run_ends(m.yielded(), remaining);
        } else {
            assert forall|i: int| 1 <= i < m.slots.len() implies (#[trigger] m.slots[i]).state
                == State::Available by {
                assert(m.slots[i].state != State::Ready);
                assert(m.slots[i].state != State::Running);
            }
        }
    } else if remaining[m.current] > 0 {
        let left = remaining.update(m.current, (remaining[m.current] - 1) as nat);
        lemma_thread_yield_does_work(m, remaining);
        lemma_run_ends(m.yielded(), left);
    } else {
        lemma_thread_return_does_work(m, remaining);
        lemma_run_ends(m.returned(), remaining);
    }
}

/// The yields that the threads of `slots` slots still make: those that
/// `remaining` gives, and none for a slot that it does not reach.
pub open spec fn yields_left(remaining: Seq<u64>, slots: nat) -> Seq<nat> {
    Seq::new(
        slots,
        |i: int|
            if i < remaining.len() {
                remaining[i] as nat
            } else {
                0nat
            },
    )
}

impl Runtime {
    /// Runs a program to its end, with its threads given by what they do:
    /// whenever the thread of slot `i` has the processor it yields, until it
    /// has yielded `remaining[i]` times in all, and then returns; a thread
    /// that `remaining` does not reach returns at once. The main flow,
    /// whenever it has the processor, yields, until a yield finds no slot
    /// `Ready`.
    ///
    /// At the end the main flow is the running slot and every other slot is
    /// `Available`.
    pub fn run(&mut self, remaining: Vec<u64>)
        requires
            old(self).wf(),
            old(self)@.running(),
        ensures
            final(self)@ == run_to_end(
                old(self)@,
                yields_left(remaining@, old(self)@.slots.len()),
            ),
            final(self).wf(),
            final(self)@.running(),
            final(self)@.current == 0,
            !final(self)@.has_ready(),
            final(self)@.slots.len() == old(self)@.slots.len(),
            forall|i: int|
                1 <= i < final(self)@.slots.len() ==> (#[trigger] final(self)@.slots[i]).state
                    == State::Available,
    {
        let ghost slots = self@.slots.len();
        let ghost start = yields_left(remaining@, slots);
        proof {
            lemma_run_ends(self@, start);
        }
        let mut remaining = remaining;
        loop
            invariant_except_break
                self.wf(),
                self@.running(),
                self@.slots.len() == slots,
                run_to_end(self@, yields_left(remaining@, slots)) == run_to_end(old(self)@, start),
            ensures
                self@ == run_to_end(old(self)@, start),
            decreases self@.calls_left(yields_left(remaining@, slots)),
        {
            let ghost m = self@;
            let ghost left = yields_left(remaining@, slots);
            let current = self.current();
            if current == 0 {
                proof {
                    if m.has_ready() {
                        lemma_main_yield_keeps_work(m, left);
                    }
                }
                if !self.t_yeild() {
                    break;
                }
            } else if current < remaining.len() && remaining[current] > 0 {
                proof {
                    lemma_thread_yield_does_work(m, left);
                }
                remaining[current] = remaining[current] - 1;
                self.t_yeild();
                assert(yields_left(remaining@, slots) =~= left.update(
                    m.current,
                    (left[m.current] - 1) as nat,
                ));
            } else {
                proof {
                    lemma_thread_return_does_work(m, left);
                }
                self.t_return();
            }
        }
    }
}

/// The main flow leaves its loop only when every thread has completed: a
/// yield of the main flow finds no slot `Ready` if and only if every other
/// slot is `Available`.
pub proof fn lemma_run_returns_when_all_completed(m: RuntimeView)
    requires
        m.wf(),
        m.running(),
        m.current == 0,
    ensures
        !m.has_ready() <==> forall|i: int|
            1 <= i < m.slots.len() ==> (#[trigger] m.slots[i]).state == State::Available,
{
    if !m.has_ready() {
        assert forall|i: int| 1 <= i < m.slots.len() implies (#[trigger] m.slots[i]).state
            == State::Available by {
            assert(m.slots[i].state != State::Ready);
            assert(m.slots[i].state != State::Running);
        }
    }
    if forall|i: int| 1 <= i < m.slots.len() ==> (#[trigger] m.slots[i]).state == State::Available {
        if m.has_ready() {
            let r = choose|i: int|
                0 <= i < m.slots.len() && (#[trigger] m.slots[i]).state == State::Ready;
            assert(r != 0);
        }
    }
}

} // verus!
