//! The runtime as a mathematical value, and the scheduling rules stated on
//! that value: which slot a yield picks, what a switch changes, what a
//! completion and a spawn change.

use vstd::prelude::*;
use crate::context::ThreadContext;
use crate::slot::{SlotView, State};
use crate::stack::{bootstrapped, frame_fits, initial_rsp};

verus! {

/// A runtime as a mathematical value.
pub struct RuntimeView {
    /// The index of the slot that executes.
    pub current: int,
    /// The slots in pool order; slot 0 is the main flow of the program.
    pub slots: Seq<SlotView>,
    /// The live registers of the processor.
    pub cpu: ThreadContext,
    /// Whether the runtime has been published to the code of its threads.
    pub initialized: bool,
}

/// Whether `q` lies strictly between `from` and `to` on the way upward from
/// `from` that wraps past the highest index back to the lowest.
pub open spec fn between(from: int, q: int, to: int) -> bool {
    if from < to {
        from < q < to
    } else {
        q > from || q < to
    }
}

impl RuntimeView {
    /// The invariant of a runtime.
    ///
    /// At most one slot is `Running`, and only the current slot can be. The
    /// current slot is `Running`, or `Available` for the moment between its
    /// completion and the yield that follows. Slot 0 is never `Available`.
    /// Every slot is named by its position and has a stack that lies within
    /// the address space with room for a frame.
    pub open spec fn wf(self) -> bool {
        &&& 0 <= self.current < self.slots.len()
        &&& self.slots[self.current].state != State::Ready
        &&& self.slots[0].state != State::Available
        &&& forall|i: int|
            0 <= i < self.slots.len() && (#[trigger] self.slots[i]).state == State::Running ==> i
                == self.current
        &&& forall|i: int| 0 <= i < self.slots.len() ==> (#[trigger] self.slots[i]).id == i
        &&& forall|i: int|
            0 <= i < self.slots.len() ==> frame_fits(
                (#[trigger] self.slots[i]).base,
                self.slots[i].stack.len(),
            )
    }

    /// Whether the current slot executes, as it does whenever the program,
    /// not the runtime, has control.
    pub open spec fn running(self) -> bool {
        self.slots[self.current].state == State::Running
    }

    /// Whether some slot waits for its turn.
    pub open spec fn has_ready(self) -> bool {
        exists|i: int| 0 <= i < self.slots.len() && (#[trigger] self.slots[i]).state == State::Ready
    }

    /// Whether a yield picks slot `p`: it is the first `Ready` slot on the way
    /// upward from the current slot, wrapping past the highest index.
    pub open spec fn picks(self, p: int) -> bool {
        &&& 0 <= p < self.slots.len()
        &&& self.slots[p].state == State::Ready
        &&& forall|q: int|
            0 <= q < self.slots.len() && between(self.current, q, p) ==> (#[trigger] self.slots[q]).state
                != State::Ready
    }

    /// The slot that a yield picks, where one is `Ready`.
    pub open spec fn next_ready(self) -> int {
        choose|p: int| self.picks(p)
    }

    /// The runtime after a switch from the current slot to slot `p`.
    ///
    /// The slot that leaves becomes `Ready`, unless it is `Available`, which
    /// it stays; the live registers are saved into its context. Slot `p`
    /// becomes `Running` and current, and the live registers are loaded from
    /// its context. No stack changes.
    pub open spec fn switched_to(self, p: int) -> RuntimeView {
        let leaving = SlotView {
            state: if self.slots[self.current].state == State::Available {
                State::Available
            } else {
                State::Ready
            },
            ctx: self.cpu,
            ..self.slots[self.current]
        };
        let left = self.slots.update(self.current, leaving);
        let entering = SlotView { state: State::Running, ..left[p] };
        RuntimeView {
            current: p,
            slots: left.update(p, entering),
            cpu: self.slots[p].ctx,
            initialized: self.initialized,
        }
    }

    /// The runtime after a yield: switched to the slot that the yield picks,
    /// or unchanged where no slot is `Ready`.
    pub open spec fn yielded(self) -> RuntimeView {
        if self.has_ready() {
            self.switched_to(self.next_ready())
        } else {
            self
        }
    }

    /// The runtime with its current slot marked `Available`.
    pub open spec fn retired(self) -> RuntimeView {
        RuntimeView {
            slots: self.slots.update(
                self.current,
                SlotView { state: State::Available, ..self.slots[self.current] },
            ),
            ..self
        }
    }

    /// The runtime after the current slot has completed: the slot is
    /// `Available` and the runtime has yielded. The main flow, slot 0, does
    /// not complete.
    pub open spec fn returned(self) -> RuntimeView {
        if self.current == 0 {
            self
        } else {
            self.retired().yielded()
        }
    }

    /// Whether some slot is free.
    pub open spec fn has_available(self) -> bool {
        exists|i: int|
            0 <= i < self.slots.len() && (#[trigger] self.slots[i]).state == State::Available
    }

    /// Whether a spawn claims slot `i`: it is the first `Available` slot in
    /// pool order.
    pub open spec fn claims(self, i: int) -> bool {
        &&& 0 <= i < self.slots.len()
        &&& self.slots[i].state == State::Available
        &&& forall|j: int| 0 <= j < i ==> (#[trigger] self.slots[j]).state != State::Available
    }

    /// The runtime after a spawn into slot `i`: the stack of the slot is
    /// prepared, its saved stack pointer is the lowest address of the frame,
    /// and the slot is `Ready`. Nothing else changes.
    pub open spec fn spawned(self, i: int, entry: u64, trampoline: u64, cleanup: u64) -> RuntimeView {
        let slot = self.slots[i];
        let claimed = SlotView {
            state: State::Ready,
            ctx: ThreadContext { rsp: initial_rsp(slot.base, slot.stack.len()) as u64, ..slot.ctx },
            stack: bootstrapped(slot.stack, slot.base, entry, trampoline, cleanup),
            ..slot
        };
        RuntimeView { slots: self.slots.update(i, claimed), ..self }
    }

    /// The runtime after it has been published.
    pub open spec fn published(self) -> RuntimeView {
        RuntimeView { initialized: true, ..self }
    }

    /// The runtime after the running code has set the live registers.
    pub open spec fn computed(self, registers: ThreadContext) -> RuntimeView {
        RuntimeView { cpu: registers, ..self }
    }
}

/// A yield picks at most one slot.
pub proof fn lemma_picks_unique(m: RuntimeView, p: int, q: int)
    requires
        m.picks(p),
        m.picks(q),
    ensures
        p == q,
{
    if p != q {
        if between(m.current, q, p) {
            assert(m.slots[q].state != State::Ready);
        } else {
            assert(between(m.current, p, q));
            assert(m.slots[p].state != State::Ready);
        }
    }
}

/// A yield picks a slot exactly where some slot is `Ready`, and then the
/// slot it picks is `next_ready`.
pub proof fn lemma_picks_next_ready(m: RuntimeView)
    requires
        0 <= m.current < m.slots.len(),
    ensures
        m.has_ready() <==> exists|p: int| m.picks(p),
        m.has_ready() ==> m.picks(m.next_ready()),
{
    if m.has_ready() {
        let r = choose|i: int| 0 <= i < m.slots.len() && (#[trigger] m.slots[i]).state == State::Ready;
        lemma_first_ready_toward(m, r);
    }
    if exists|p: int| m.picks(p) {
        let p = choose|p: int| m.picks(p);
        assert(m.slots[p].state == State::Ready);
    }
}

/// The number of steps upward from `from` to `to`, wrapping past the highest
/// of `n` indices; a full turn where the two are equal.
spec fn steps(from: int, to: int, n: int) -> int {
    if from < to {
        to - from
    } else {
        to - from + n
    }
}

/// Where slot `r` is `Ready`, a yield picks a slot at or before `r`.
proof fn lemma_first_ready_toward(m: RuntimeView, r: int)
    requires
        0 <= m.current < m.slots.len(),
        0 <= r < m.slots.len(),
        m.slots[r].state == State::Ready,
    ensures
        exists|p: int| m.picks(p),
    decreases steps(m.current, r, m.slots.len() as int),
{
    if m.picks(r) {
    } else {
        let q = choose|q: int|
            0 <= q < m.slots.len() && between(m.current, q, r) && (#[trigger] m.slots[q]).state
                == State::Ready;
        lemma_first_ready_toward(m, q);
    }
}

} // verus!
