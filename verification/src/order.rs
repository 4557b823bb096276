//! The order in which yields hand the processor around: round robin among
//! the live slots, by ascending index, wrapping past the highest.
//!
//! A slot is live where it is not `Available`. The turn of a slot is its
//! place among the live slots, counted from 0 in pool order.

use vstd::prelude::*;
use vstd::arithmetic::div_mod::{lemma_add_mod_noop_right, lemma_mod_self_0, lemma_small_mod};
use crate::model::{between, lemma_picks_next_ready, RuntimeView};
use crate::slot::State;
use crate::trace::lemma_switch_keeps_invariant;

verus! {

impl RuntimeView {
    /// Whether slot `i` is live.
    pub open spec fn live(self, i: int) -> bool {
        self.slots[i].state != State::Available
    }

    /// The number of live slots below index `i`.
    pub open spec fn live_before(self, i: int) -> nat
        decreases i,
    {
        if i <= 0 {
            0
        } else {
            self.live_before(i - 1) + if self.live(i - 1) {
                1nat
            } else {
                0nat
            }
        }
    }

    /// The number of live slots.
    pub open spec fn live_count(self) -> nat {
        self.live_before(self.slots.len() as int)
    }

    /// The turn of the current slot.
    pub open spec fn turn(self) -> nat {
        self.live_before(self.current)
    }

    /// The runtime after `k` yields in a row.
    pub open spec fn yields(self, k: nat) -> RuntimeView
        decreases k,
    {
        if k == 0 {
            self
        } else {
            self.yields((k - 1) as nat).yielded()
        }
    }
}

/// With no live slot from `a` up to `b`, as many live slots lie below `b` as
/// below `a`; in any case, no fewer.
proof fn lemma_live_before_range(m: RuntimeView, a: int, b: int)
    requires
        0 <= a <= b,
    ensures
        m.live_before(a) <= m.live_before(b),
        m.live_before(b) <= m.live_before(a) + (b - a),
        (forall|q: int| a <= q < b ==> !m.live(q)) ==> m.live_before(b) == m.live_before(a),
    decreases b - a,
{
    if a < b {
        lemma_live_before_range(m, a, b - 1);
    }
}

/// Two runtimes with the same live slots count the same.
proof fn lemma_live_before_same(m: RuntimeView, y: RuntimeView, i: int)
    requires
        forall|q: int| 0 <= q < i ==> m.live(q) == y.live(q),
    ensures
        m.live_before(i) == y.live_before(i),
    decreases i,
{
    if i > 0 {
        lemma_live_before_same(m, y, i - 1);
    }
}

/// Two live slots with the same turn are one slot.
pub proof fn lemma_turn_names_slot(m: RuntimeView, i: int, j: int)
    requires
        0 <= i < m.slots.len(),
        0 <= j < m.slots.len(),
        m.live(i),
        m.live(j),
        m.live_before(i) == m.live_before(j),
    ensures
        i == j,
{
    if i < j {
        lemma_live_before_range(m, i + 1, j);
    } else if j < i {
        lemma_live_before_range(m, j + 1, i);
    }
}

/// A yield moves the turn on by one: the live slots stay the same, and the
/// slot that runs after the yield is the next live slot in pool order, or
/// the first one where the slot that yielded was the last.
pub proof fn lemma_yield_advances_turn(m: RuntimeView)
    requires
        m.wf(),
        m.running(),
    ensures
        m.yielded().wf(),
        m.yielded().running(),
        m.yielded().slots.len() == m.slots.len(),
        forall|i: int| 0 <= i < m.slots.len() ==> m.yielded().live(i) == m.live(i),
        m.yielded().live_count() == m.live_count(),
        m.live_count() > 0,
        m.turn() < m.live_count(),
        m.yielded().turn() == (m.turn() + 1) % m.live_count(),
{
    let n = m.slots.len() as int;
    let c = m.current;
    let y = m.yielded();
    lemma_picks_next_ready(m);
    lemma_live_before_range(m, 0, c);
    lemma_live_before_range(m, c + 1, n);
    assert(m.live(c));
    assert(m.live_before(c + 1) == m.live_before(c) + 1);
    if m.has_ready() {
        let p = m.next_ready();
        lemma_switch_keeps_invariant(m, p);
        assert forall|q: int| 0 <= q < n implies y.live(q) == m.live(q) by {
            assert(m.slots[0].state != State::Available);
        }
        lemma_live_before_same(m, y, n);
        lemma_live_before_same(m, y, p);
        assert forall|q: int| 0 <= q < n && between(c, q, p) implies !m.live(q) by {
            assert(m.slots[q].state != State::Ready);
            assert(m.slots[q].state != State::Running);
        }
        assert(m.live(p));
        lemma_live_before_range(m, p + 1, n);
        assert(m.live_before(p + 1) == m.live_before(p) + 1);
        if c < p {
            lemma_live_before_range(m, c + 1, p);
            lemma_small_mod(m.turn() + 1, m.live_count());
        } else {
            lemma_live_before_range(m, 0, p);
            lemma_live_before_range(m, c + 1, n);
            lemma_mod_self_0(m.live_count() as int);
        }
    } else {
        assert forall|q: int| 0 <= q < n && q != c implies !m.live(q) by {
            assert(m.slots[q].state != State::Ready);
            assert(m.slots[q].state != State::Running);
        }
        lemma_live_before_range(m, 0, c);
        lemma_live_before_range(m, c + 1, n);
        lemma_mod_self_0(1);
    }
}

/// Round robin: while the program only yields, the live slots stay the same
/// and take turns in ascending order of their index, wrapping past the
/// highest back to the lowest. After `k` yields the turn has moved on by `k`,
/// counted around the live slots.
pub proof fn lemma_round_robin(m: RuntimeView, k: nat)
    requires
        m.wf(),
        m.running(),
    ensures
        m.yields(k).wf(),
        m.yields(k).running(),
        m.yields(k).slots.len() == m.slots.len(),
        forall|i: int| 0 <= i < m.slots.len() ==> m.yields(k).live(i) == m.live(i),
        m.yields(k).live_count() == m.live_count(),
        m.live_count() > 0,
        m.yields(k).turn() == (m.turn() + k) % m.live_count(),
    decreases k,
{
    lemma_yield_advances_turn(m);
    if k == 0 {
        lemma_small_mod(m.turn(), m.live_count());
    } else {
        let before = m.yields((k - 1) as nat);
        lemma_round_robin(m, (k - 1) as nat);
        lemma_yield_advances_turn(before);
        lemma_add_mod_noop_right(1, m.turn() + k - 1, m.live_count() as int);
    }
}

/// After as many yields as there are live slots, every live slot has had
/// the processor and the slot that yielded first runs again.
pub proof fn lemma_full_round(m: RuntimeView)
    requires
        m.wf(),
        m.running(),
    ensures
        m.yields(m.live_count()).current == m.current,
{
    let k = m.live_count();
    let y = m.yields(k);
    lemma_round_robin(m, k);
    lemma_yield_advances_turn(m);
    lemma_small_mod(m.turn(), k);
    vstd::arithmetic::div_mod::lemma_mod_add_multiples_vanish(m.turn() as int, k as int);
    assert(y.turn() == m.turn());
    lemma_live_before_same(m, y, y.current);
    assert(y.live(y.current));
    lemma_turn_names_slot(m, m.current, y.current);
}

} // verus!
