use vstd::prelude::*;

verus! {

/// Where the non-secure application starts: its initial stack pointer and
/// its entry address, read from the first two words of its vector table.
#[derive(Debug, Clone, Copy, PartialEq, Eq, Structural)]
pub struct HandoffTarget {
    pub stack_pointer: u32,
    pub entry: u32,
}

/// Builds the handoff target from the first two words of the application's
/// vector table. The low bit of the reset vector is the security-state tag;
/// it is cleared, since control moves into non-secure code rather than
/// calling through a secure gateway.
pub fn handoff_target(initial_stack_pointer: u32, reset_vector: u32) -> (r: HandoffTarget)
    ensures
        r.stack_pointer == initial_stack_pointer,
        r.entry == reset_vector - reset_vector % 2,
{
    let entry = reset_vector & !1u32;
    assert(reset_vector & !1u32 == reset_vector - reset_vector % 2) by (bit_vector);
    HandoffTarget { stack_pointer: initial_stack_pointer, entry }
}

} // verus!
