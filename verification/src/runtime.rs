//! The scheduler: a fixed pool of slots, round-robin selection among the
//! `Ready` ones, and the operations that a program and its threads call.

use vstd::prelude::*;
use crate::context::{switch, ThreadContext};
use crate::model::{between, lemma_picks_next_ready, lemma_picks_unique, RuntimeView};
use crate::slot::{GreenThread, State, SSIZE};
use crate::stack::{frame_fits, frame_top, prepare_stack};

verus! {

/// The number of threads that can be live at once, besides the main flow.
pub const MAX_NUM_THREADS: usize = 4;

/// Why an operation of the runtime did not take place.
#[derive(Clone, Copy, Debug, PartialEq, Eq, Structural)]
pub enum RuntimeError {
    /// A spawn found no `Available` slot.
    CapacityExhausted,
    /// A thread called into a runtime that was never published.
    NotInitialized,
}

/// The pool and the index of the slot that executes.
pub struct Runtime {
    current: usize,
    threads: Vec<GreenThread>,
    cpu: ThreadContext,
    initialized: bool,
}

impl View for Runtime {
    type V = RuntimeView;

    closed spec fn view(&self) -> RuntimeView {
        RuntimeView {
            current: self.current as int,
            slots: Seq::new(self.threads@.len(), |i: int| self.threads@[i]@),
            cpu: self.cpu,
            initialized: self.initialized,
        }
    }
}

impl RuntimeView {
    /// A runtime as it is made: slot 0, the main flow, executes; every other
    /// slot is free; no slot has run; nothing is published.
    pub open spec fn fresh(self) -> bool {
        &&& self.current == 0
        &&& self.slots.len() == MAX_NUM_THREADS + 1
        &&& self.cpu == ThreadContext::zeroed()
        &&& !self.initialized
        &&& forall|i: int|
            0 <= i < self.slots.len() ==> {
                let slot = #[trigger] self.slots[i];
                &&& slot.id == i
                &&& slot.state == if i == 0 {
                    State::Running
                } else {
                    State::Available
                }
                &&& slot.ctx == ThreadContext::zeroed()
                &&& slot.stack == Seq::new(SSIZE as nat, |j: int| 0u8)
                &&& slot.base + SSIZE <= u64::MAX
            }
    }
}

impl Runtime {
    /// The invariant of the runtime, which every operation keeps.
    pub open spec fn wf(&self) -> bool {
        self@.wf()
    }

    /// A runtime with all its slots and their stacks allocated.
    pub fn new() -> (runtime: Runtime)
        ensures
            runtime.wf(),
            runtime@.fresh(),
    {
        let mut threads: Vec<GreenThread> = Vec::new();
        threads.push(GreenThread::new(0, State::Running));
        let mut i: usize = 0;
        while i < MAX_NUM_THREADS
            invariant
                i <= MAX_NUM_THREADS,
                threads@.len() == i + 1,
                forall|k: int|
                    0 <= k < threads@.len() ==> {
                        let slot = (#[trigger] threads@[k])@;
                        &&& slot.id == k
                        &&& slot.state == if k == 0 {
                            State::Running
                        } else {
                            State::Available
                        }
                        &&& slot.ctx == ThreadContext::zeroed()
                        &&& slot.stack == Seq::new(SSIZE as nat, |j: int| 0u8)
                        &&& slot.base + SSIZE <= u64::MAX
                    },
            decreases MAX_NUM_THREADS - i,
        {
            i += 1;
            threads.push(GreenThread::new(i as u64, State::Available));
        }
        let runtime = Runtime {
            current: 0,
            threads,
            cpu: ThreadContext::default(),
            initialized: false,
        };
        proof {
            assert forall|k: int| 0 <= k < runtime@.slots.len() implies frame_fits(
                (#[trigger] runtime@.slots[k]).base,
                runtime@.slots[k].stack.len(),
            ) by {
                assert(runtime.threads@[k]@.stack.len() == SSIZE);
            }
        }
        runtime
    }

    /// Publishes the runtime to the code of its threads. Publishing again
    /// changes nothing.
    pub fn init(&mut self)
        ensures
            final(self)@ == old(self)@.published(),
    {
        if !self.initialized {
            self.initialized = true;
        }
    }

    /// Hands the processor to the next `Ready` slot, if there is one.
    ///
    /// The slots are searched upward from the one after the current slot,
    /// wrapping past the last, and the first `Ready` one is taken. The
    /// current slot becomes `Ready`, or stays `Available` where it has just
    /// completed; the slot taken becomes `Running` and current; the live
    /// registers are saved into the context of the first and loaded from the
    /// context of the second. The result says whether a switch took place:
    /// with no `Ready` slot nothing changes.
    pub fn t_yeild(&mut self) -> (switched: bool)
        requires
            old(self).wf(),
        ensures
            final(self).wf(),
            final(self)@.running(),
            switched == old(self)@.has_ready(),
            final(self)@ == old(self)@.yielded(),
    {
        let n = self.threads.len();
        proof {
            lemma_next_index(self.current as int, n as int);
        }
        let mut pos = (self.current + 1) % n;
        loop
            invariant_except_break
                forall|q: int|
                    0 <= q < n && between(self.current as int, q, pos as int)
                        ==> (#[trigger] self@.slots[q]).state != State::Ready,
            invariant
                self.wf(),
                *self == *old(self),
                n == self.threads@.len(),
                pos < n,
            ensures
                self@.picks(pos as int),
            decreases
                if pos <= self.current {
                    self.current - pos
                } else {
                    self.current + n - pos
                },
        {
            match self.threads[pos].state {
                State::Ready => {
                    break;
                },
                _ => {
                    if pos == self.current {
                        proof {
                            assert forall|q: int| 0 <= q < n implies (#[trigger] self@.slots[q]).state
                                != State::Ready by {
                                if q != pos {
                                    assert(between(self.current as int, q, pos as int));
                                }
                            }
                        }
                        return false;
                    }
                    proof {
                        lemma_next_index(pos as int, n as int);
                    }
                    pos = (pos + 1) % n;
                },
            }
        }
        proof {
            lemma_picks_next_ready(self@);
            lemma_picks_unique(self@, pos as int, self@.next_ready());
        }
        let cur = self.current;
        match self.threads[cur].state {
            State::Available => {},
            _ => {
                self.threads[cur].state = State::Ready;
            },
        }
        self.threads[pos].state = State::Running;
        self.current = pos;
        let target = self.threads[pos].ctx;
        switch(&mut self.threads[cur].ctx, &target, &mut self.cpu);
        proof {
            assert(self@.slots =~= old(self)@.switched_to(pos as int).slots);
        }
        true
    }

    /// Ends the thread of the current slot: the slot becomes `Available` and
    /// the processor is handed on as by a yield. The main flow, slot 0, does
    /// not end: for it nothing changes.
    pub fn t_return(&mut self)
        requires
            old(self).wf(),
        ensures
            final(self).wf(),
            final(self)@.running(),
            final(self)@ == old(self)@.returned(),
    {
        if self.current != 0 {
            let cur = self.current;
            self.threads[cur].state = State::Available;
            proof {
                assert(self@.slots =~= old(self)@.retired().slots);
            }
            self.t_yeild();
        }
    }

    /// Starts a thread in the first `Available` slot, in pool order.
    ///
    /// The stack of the slot is prepared for `entry`, `trampoline` and
    /// `cleanup`, its saved stack pointer is set to the lowest address of the
    /// frame, and the slot becomes `Ready`; it does not run yet. The result
    /// is the index of the slot. With no `Available` slot the pool is
    /// exhausted and nothing changes.
    pub fn spawn(&mut self, entry: u64, trampoline: u64, cleanup: u64) -> (claimed: Result<
        usize,
        RuntimeError,
    >)
        requires
            old(self).wf(),
            old(self)@.running(),
        ensures
            final(self).wf(),
            final(self)@.running(),
            claimed is Ok <==> old(self)@.has_available(),
            match claimed {
                Ok(i) => old(self)@.claims(i as int) && final(self)@ == old(self)@.spawned(
                    i as int,
                    entry,
                    trampoline,
                    cleanup,
                ),
                Err(e) => e == RuntimeError::CapacityExhausted && final(self)@ == old(self)@,
            },
    {
        let n = self.threads.len();
        let mut i: usize = 0;
        while i < n
            invariant
                forall|j: int| 0 <= j < i ==> (#[trigger] self@.slots[j]).state != State::Available,
                *self == *old(self),
                n == self.threads@.len(),
                i <= n,
            ensures
                i < n ==> self@.slots[i as int].state == State::Available,
            decreases n - i,
        {
            match self.threads[i].state {
                State::Available => {
                    break;
                },
                _ => {},
            }
            i += 1;
        }
        if i == n {
            return Err(RuntimeError::CapacityExhausted);
        }
        let base = self.threads[i].base;
        let rsp = prepare_stack(&mut self.threads[i].stack, base, entry, trampoline, cleanup);
        self.threads[i].ctx.rsp = rsp.unwrap();
        self.threads[i].state = State::Ready;
        proof {
            assert(self@.slots =~= old(self)@.spawned(i as int, entry, trampoline, cleanup).slots);
        }
        Ok(i)
    }

    /// Whether the runtime is as every operation leaves it: the invariant
    /// holds and the current slot is `Running`.
    pub fn is_sound(&self) -> (sound: bool)
        ensures
            sound == (self.wf() && self@.running()),
    {
        let n = self.threads.len();
        if self.current >= n {
            return false;
        }
        match self.threads[self.current].state {
            State::Running => {},
            _ => {
                return false;
            },
        }
        match self.threads[0].state {
            State::Available => {
                return false;
            },
            _ => {},
        }
        let mut i: usize = 0;
        while i < n
            invariant
                n == self.threads@.len(),
                i <= n,
                forall|k: int|
                    0 <= k < i ==> {
                        let slot = #[trigger] self@.slots[k];
                        &&& slot.state == State::Running ==> k == self.current
                        &&& slot.id == k
                        &&& frame_fits(slot.base, slot.stack.len())
                    },
            decreases n - i,
        {
            let slot = &self.threads[i];
            let runs = match slot.state {
                State::Running => true,
                _ => false,
            };
            let fits = frame_top(slot.base, slot.stack.len()).is_some();
            if (runs && i != self.current) || slot.id != i as u64 || !fits {
                proof {
                    let view = self@.slots[i as int];
                    assert(!(view.state == State::Running ==> i == self.current) || view.id != i
                        || !frame_fits(view.base, view.stack.len()));
                }
                return false;
            }
            i += 1;
        }
        true
    }

    /// The index of the slot that executes.
    pub fn current(&self) -> (current: usize)
        ensures
            current == self@.current,
    {
        self.current
    }

    /// The slots of the pool, in pool order.
    pub fn threads(&self) -> (threads: &Vec<GreenThread>)
        ensures
            threads@.len() == self@.slots.len(),
            forall|i: int| 0 <= i < threads@.len() ==> (#[trigger] threads@[i])@ == self@.slots[i],
    {
        &self.threads
    }

    /// The live registers of the processor.
    pub fn cpu(&self) -> (registers: ThreadContext)
        ensures
            registers == self@.cpu,
    {
        self.cpu
    }

    /// Sets the live registers of the processor, as the running code does
    /// while it computes.
    pub fn set_cpu(&mut self, registers: ThreadContext)
        ensures
            final(self)@ == old(self)@.computed(registers),
    {
        self.cpu = registers;
    }

    /// Whether the runtime has been published.
    pub fn is_initialized(&self) -> (initialized: bool)
        ensures
            initialized == self@.initialized,
    {
        self.initialized
    }
}

/// What the code of a thread calls to give up the processor: a yield of the
/// runtime, which must have been published.
pub fn yeild_thread(runtime: &mut Runtime) -> (outcome: Result<bool, RuntimeError>)
    requires
        old(runtime).wf(),
    ensures
        final(runtime).wf(),
        outcome is Ok <==> old(runtime)@.initialized,
        match outcome {
            Ok(switched) => {
                &&& switched == old(runtime)@.has_ready()
                &&& final(runtime)@ == old(runtime)@.yielded()
                &&& final(runtime)@.running()
            },
            Err(e) => e == RuntimeError::NotInitialized && final(runtime)@ == old(runtime)@,
        },
{
    if !runtime.initialized {
        return Err(RuntimeError::NotInitialized);
    }
    Ok(runtime.t_yeild())
}

/// Where a thread ends up when its entry returns: the completion of the
/// current slot in the runtime, which must have been published.
pub fn guard(runtime: &mut Runtime) -> (outcome: Result<(), RuntimeError>)
    requires
        old(runtime).wf(),
    ensures
        final(runtime).wf(),
        outcome is Ok <==> old(runtime)@.initialized,
        match outcome {
            Ok(_) => final(runtime)@ == old(runtime)@.returned() && final(runtime)@.running(),
            Err(e) => e == RuntimeError::NotInitialized && final(runtime)@ == old(runtime)@,
        },
{
    if !runtime.initialized {
        return Err(RuntimeError::NotInitialized);
    }
    runtime.t_return();
    Ok(())
}

/// The index after `i` among `n`, wrapping past the last: what `(i + 1) % n`
/// computes.
proof fn lemma_next_index(i: int, n: int)
    requires
        0 <= i < n,
    ensures
        (i + 1) % n == if i + 1 == n {
            0
        } else {
            i + 1
        },
{
    if i + 1 == n {
        vstd::arithmetic::div_mod::lemma_mod_self_0(n);
    } else {
        vstd::arithmetic::div_mod::lemma_small_mod((i + 1) as nat, n as nat);
    }
}

} // verus!
