//! The stack of a slot as bytes, and the preparation of a fresh stack.
//!
//! A stack is a byte buffer together with the address of its first byte. It
//! grows downward from its top. Words are 64 bits wide and are laid out
//! with the least significant byte at the lowest address.
//!
//! A prepared stack holds three code addresses just below its aligned top.
//! From the lowest address upward: the entry, where the first resumption
//! lands; the trampoline, which the entry returns to; the cleanup routine,
//! which the trampoline returns to.

use vstd::prelude::*;
use vstd::bytes::{
    lemma_auto_spec_u64_to_from_le_bytes,
    spec_u64_from_le_bytes,
    spec_u64_to_le_bytes,
    u64_from_le_bytes,
    u64_to_le_bytes,
};
use vstd::slice::slice_subrange;

verus! {

/// The alignment, in bytes, that a saved stack pointer keeps.
pub const STACK_ALIGNMENT: u64 = 16;

/// The bytes between a fresh stack pointer and the aligned top of its stack.
pub const FRAME_BYTES: u64 = 32;

/// The width of a word in bytes.
pub const WORD_BYTES: usize = 8;

/// `mem` with the word `value` stored at offset `at`.
pub open spec fn with_word(mem: Seq<u8>, at: int, value: u64) -> Seq<u8> {
    Seq::new(
        mem.len(),
        |i: int|
            if at <= i < at + 8 {
                spec_u64_to_le_bytes(value)[i - at]
            } else {
                mem[i]
            },
    )
}

/// The word stored in `mem` at offset `at`.
pub open spec fn word_at(mem: Seq<u8>, at: int) -> u64 {
    spec_u64_from_le_bytes(mem.subrange(at, at + 8))
}

/// The highest address at or below the end of the stack that is a multiple
/// of the stack alignment.
pub open spec fn aligned_top(base: u64, len: nat) -> int {
    (base + len) / 16 * 16
}

/// Whether a stack of `len` bytes at address `base` lies within the address
/// space and has room for the frame below its aligned top.
pub open spec fn frame_fits(base: u64, len: nat) -> bool {
    &&& base + len <= u64::MAX
    &&& base + FRAME_BYTES <= aligned_top(base, len)
}

/// The stack pointer of a freshly prepared stack: the lowest address of the
/// frame.
pub open spec fn initial_rsp(base: u64, len: nat) -> int {
    aligned_top(base, len) - FRAME_BYTES
}

/// The bytes of a stack after its preparation.
pub open spec fn bootstrapped(
    mem: Seq<u8>,
    base: u64,
    entry: u64,
    trampoline: u64,
    cleanup: u64,
) -> Seq<u8> {
    let at = initial_rsp(base, mem.len()) - base;
    with_word(with_word(with_word(mem, at, entry), at + 8, trampoline), at + 16, cleanup)
}

/// Reading a word back from where it was written gives the word, and every
/// byte outside the word is as before.
pub proof fn lemma_word_round_trip(mem: Seq<u8>, at: int, value: u64)
    requires
        0 <= at,
        at + 8 <= mem.len(),
    ensures
        with_word(mem, at, value).len() == mem.len(),
        word_at(with_word(mem, at, value), at) == value,
        forall|i: int|
            0 <= i < mem.len() && !(at <= i < at + 8) ==> with_word(mem, at, value)[i] == mem[i],
{
    lemma_auto_spec_u64_to_from_le_bytes();
    assert(with_word(mem, at, value).subrange(at, at + 8) =~= spec_u64_to_le_bytes(value));
}

/// A word written elsewhere leaves the word at `at` as it was.
pub proof fn lemma_word_untouched(mem: Seq<u8>, at: int, other: int, value: u64)
    requires
        0 <= at,
        at + 8 <= mem.len(),
        0 <= other,
        other + 8 <= mem.len(),
        other + 8 <= at || at + 8 <= other,
    ensures
        word_at(with_word(mem, other, value), at) == word_at(mem, at),
{
    assert(with_word(mem, other, value).subrange(at, at + 8) =~= mem.subrange(at, at + 8));
}

/// Stores `value` at offset `at` of the stack.
fn write_word(stack: &mut Vec<u8>, at: usize, value: u64)
    requires
        at + 8 <= old(stack)@.len(),
    ensures
        final(stack)@ == with_word(old(stack)@, at as int, value),
{
    let bytes = u64_to_le_bytes(value);
    let len = stack.len();
    let mut i: usize = 0;
    while i < WORD_BYTES
        invariant
            i <= 8,
            at + 8 <= stack@.len(),
            stack@.len() == len,
            stack@.len() == old(stack)@.len(),
            bytes@ == spec_u64_to_le_bytes(value),
            bytes@.len() == 8,
            forall|j: int|
                0 <= j < stack@.len() ==> stack@[j] == if at <= j < at + i {
                    bytes@[j - at]
                } else {
                    old(stack)@[j]
                },
        decreases 8 - i,
    {
        stack[at + i] = bytes[i];
        i += 1;
    }
    assert(stack@ =~= with_word(old(stack)@, at as int, value));
}

/// Reads the word at offset `at` of the stack, if the stack holds a whole
/// word there.
pub fn read_word(stack: &Vec<u8>, at: usize) -> (value: Option<u64>)
    ensures
        value is Some <==> at + 8 <= stack@.len(),
        value is Some ==> value->0 == word_at(stack@, at as int),
{
    let len = stack.len();
    if len < WORD_BYTES || at > len - WORD_BYTES {
        return None;
    }
    let word = slice_subrange(stack.as_slice(), at, at + WORD_BYTES);
    Some(u64_from_le_bytes(word))
}

/// The aligned top of a stack of `len` bytes at address `base`, where the
/// stack has room for the frame below it.
pub fn frame_top(base: u64, len: usize) -> (top: Option<u64>)
    ensures
        top is Some <==> frame_fits(base, len as nat),
        top is Some ==> top->0 == aligned_top(base, len as nat),
{
    let end = match base.checked_add(len as u64) {
        Some(end) => end,
        None => {
            return None;
        },
    };
    let top = end & !15u64;
    assert(top == end / 16 * 16 && top <= end) by (bit_vector)
        requires
            top == end & !15u64,
    ;
    if top < base || top - base < FRAME_BYTES {
        return None;
    }
    Some(top)
}

/// Lays out a fresh stack so that its first resumption enters `entry`, a
/// return from `entry` enters `trampoline`, and a return from there enters
/// `cleanup`.
///
/// `base` is the address of the first byte of `stack`. The result is the
/// stack pointer to resume with: the lowest address written, a multiple of
/// the stack alignment. Where the stack has no room for the frame, nothing is
/// written and there is no result.
pub fn prepare_stack(
    stack: &mut Vec<u8>,
    base: u64,
    entry: u64,
    trampoline: u64,
    cleanup: u64,
) -> (rsp: Option<u64>)
    ensures
        rsp is Some <==> frame_fits(base, old(stack)@.len()),
        rsp is Some ==> rsp->0 == initial_rsp(base, old(stack)@.len()),
        rsp is Some ==> final(stack)@ == bootstrapped(old(stack)@, base, entry, trampoline, cleanup),
        rsp is None ==> final(stack)@ == old(stack)@,
{
    let top = match frame_top(base, stack.len()) {
        Some(top) => top,
        None => {
            return None;
        },
    };
    let rsp = top - FRAME_BYTES;
    let at = (rsp - base) as usize;
    write_word(stack, at, entry);
    write_word(stack, at + 8, trampoline);
    write_word(stack, at + 16, cleanup);
    Some(rsp)
}

/// What a prepared stack looks like: the stack pointer is aligned and lies
/// within the stack with the whole frame above it; the three words at and
/// above it are the entry, the trampoline and the cleanup routine, in this
/// order; and no byte outside these three words has changed.
pub proof fn lemma_prepared_layout(
    mem: Seq<u8>,
    base: u64,
    entry: u64,
    trampoline: u64,
    cleanup: u64,
)
    requires
        frame_fits(base, mem.len()),
    ensures
        ({
            let rsp = initial_rsp(base, mem.len());
            let after = bootstrapped(mem, base, entry, trampoline, cleanup);
            &&& rsp % 16 == 0
            &&& base <= rsp
            &&& rsp + FRAME_BYTES <= base + mem.len()
            &&& base + mem.len() - rsp < FRAME_BYTES + STACK_ALIGNMENT
            &&& after.len() == mem.len()
            &&& word_at(after, rsp - base) == entry
            &&& word_at(after, rsp - base + 8) == trampoline
            &&& word_at(after, rsp - base + 16) == cleanup
            &&& forall|i: int|
                0 <= i < mem.len() && !(rsp - base <= i < rsp - base + 24) ==> after[i] == mem[i]
        }),
{
    let at = initial_rsp(base, mem.len()) - base;
    let first = with_word(mem, at, entry);
    let second = with_word(first, at + 8, trampoline);
    let third = with_word(second, at + 16, cleanup);
    lemma_word_round_trip(mem, at, entry);
    lemma_word_round_trip(first, at + 8, trampoline);
    lemma_word_round_trip(second, at + 16, cleanup);
    lemma_word_untouched(first, at, at + 8, trampoline);
    lemma_word_untouched(second, at, at + 16, cleanup);
    lemma_word_untouched(second, at + 8, at + 16, cleanup);
}

} // verus!
