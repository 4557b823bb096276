//! The register context: the part of the processor state that has to survive
//! a suspension, and the transfer of that state between two contexts.

use vstd::prelude::*;

verus! {

/// The stack pointer and the callee-saved general-purpose registers of a
/// 64-bit x86 processor, in the order in which a context switch stores them.
///
/// A value is either the state of a suspended execution or, for a slot that
/// has never run, all zero.
#[derive(Clone, Copy, Debug, PartialEq, Eq, Structural)]
pub struct ThreadContext {
    pub rsp: u64,
    pub r15: u64,
    pub r14: u64,
    pub r13: u64,
    pub r12: u64,
    pub rbx: u64,
    pub rbp: u64,
}

impl ThreadContext {
    /// The context of a slot that has never run.
    pub open spec fn zeroed() -> ThreadContext {
        ThreadContext { rsp: 0, r15: 0, r14: 0, r13: 0, r12: 0, rbx: 0, rbp: 0 }
    }
}

impl Default for ThreadContext {
    fn default() -> (ctx: ThreadContext)
        ensures
            ctx == ThreadContext::zeroed(),
    {
        ThreadContext { rsp: 0, r15: 0, r14: 0, r13: 0, r12: 0, rbx: 0, rbp: 0 }
    }
}

/// Transfers the processor from one execution to another: the live registers
/// are stored into `saved`, then loaded from `target`.
///
/// `live` stands for the register file of the processor. Every register of
/// the context takes part, and nothing else is touched.
pub fn switch(saved: &mut ThreadContext, target: &ThreadContext, live: &mut ThreadContext)
    ensures
        *final(saved) == *old(live),
        *final(live) == *target,
{
    saved.rsp = live.rsp;
    saved.r15 = live.r15;
    saved.r14 = live.r14;
    saved.r13 = live.r13;
    saved.r12 = live.r12;
    saved.rbx = live.rbx;
    saved.rbp = live.rbp;
    live.rsp = target.rsp;
    live.r15 = target.r15;
    live.r14 = target.r14;
    live.r13 = target.r13;
    live.r12 = target.r12;
    live.rbx = target.rbx;
    live.rbp = target.rbp;
}

} // verus!
