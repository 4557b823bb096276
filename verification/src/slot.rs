//! One execution slot of the pool: a green thread's identity, scheduling
//! state, private stack and saved register context.

use vstd::prelude::*;
use crate::context::ThreadContext;

verus! {

/// The size in bytes of the stack of every slot.
pub const SSIZE: usize = 0x20_0000;

/// Scheduling state of a slot.
#[derive(Clone, Copy, Debug, PartialEq, Eq, Structural)]
pub enum State {
    /// Free: a spawn may claim the slot.
    Available,
    /// Has work and waits for its turn.
    Ready,
    /// Executes now.
    Running,
}

/// A slot as a mathematical value.
pub struct SlotView {
    /// The position of the slot in its pool.
    pub id: nat,
    pub state: State,
    /// The registers to resume the slot with: those saved when it was last
    /// suspended, or those that a spawn has set. All zero in a slot that has
    /// never been used.
    pub ctx: ThreadContext,
    /// The bytes of the stack, lowest address first.
    pub stack: Seq<u8>,
    /// The address of the first byte of the stack.
    pub base: u64,
}

/// One green thread of the pool.
///
/// The stack is allocated once, when the slot is made, and keeps its size and
/// its place in memory for as long as the slot lives.
pub struct GreenThread {
    pub(crate) id: u64,
    pub(crate) stack: Vec<u8>,
    pub(crate) base: u64,
    pub(crate) state: State,
    pub(crate) ctx: ThreadContext,
}

/// The address of the first byte of `buffer`, by `Vec::as_ptr`.
///
/// Nothing is claimed of the address itself, which the allocator chooses.
/// What is claimed is that the buffer lies within the address space: its
/// address plus its length does not exceed the largest address. The
/// documentation of `std::ptr` says so of every allocation, and for a vector
/// that has not allocated the address is a small one and the length is 0.
#[verifier::external_body]
fn buffer_address(buffer: &Vec<u8>) -> (address: u64)
    ensures
        address + buffer@.len() <= u64::MAX,
{
    buffer.as_ptr() as u64
}

impl View for GreenThread {
    type V = SlotView;

    open(crate) spec fn view(&self) -> SlotView {
        SlotView {
            id: self.id as nat,
            state: self.state,
            ctx: self.ctx,
            stack: self.stack@,
            base: self.base,
        }
    }
}

impl GreenThread {
    /// A slot that has never run: a zeroed stack of `SSIZE` bytes and a
    /// zeroed register context.
    pub(crate) fn new(id: u64, state: State) -> (slot: GreenThread)
        ensures
            slot@.id == id,
            slot@.state == state,
            slot@.ctx == ThreadContext::zeroed(),
            slot@.stack == Seq::new(SSIZE as nat, |i: int| 0u8),
            slot@.base + SSIZE <= u64::MAX,
    {
        let stack = vec![0u8; SSIZE];
        let base = buffer_address(&stack);
        assert(stack@ =~= Seq::new(SSIZE as nat, |i: int| 0u8));
        GreenThread { id, stack, base, state, ctx: ThreadContext::default() }
    }

    /// The position of the slot in its pool.
    pub fn id(&self) -> (id: u64)
        ensures
            id == self@.id,
    {
        self.id
    }

    /// The scheduling state of the slot.
    pub fn state(&self) -> (state: State)
        ensures
            state == self@.state,
    {
        self.state
    }

    /// The saved register context of the slot.
    pub fn ctx(&self) -> (ctx: ThreadContext)
        ensures
            ctx == self@.ctx,
    {
        self.ctx
    }

    /// The bytes of the stack of the slot.
    pub fn stack(&self) -> (stack: &Vec<u8>)
        ensures
            stack@ == self@.stack,
    {
        &self.stack
    }

    /// The address of the first byte of the stack of the slot.
    pub fn stack_base(&self) -> (base: u64)
        ensures
            base == self@.base,
    {
        self.base
    }
}

} // verus!
