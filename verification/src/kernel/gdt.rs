//! Segment selectors.
//!
//! Layout of the descriptor table (index to selector):
//!   0x08 kernel code | 0x10 kernel data | 0x18 user data | 0x20 user code | TSS

use vstd::prelude::*;

verus! {

/// Privilege level that a selector asks for.
#[derive(Clone, Copy, PartialEq, Eq, Debug, Structural)]
pub enum Ring {
    Ring0,
    Ring3,
}

/// The selector of the descriptor `index` with the privilege level `ring`.
pub open spec fn selector_value(index: u16, ring: Ring) -> int {
    index * 8 + match ring {
        Ring::Ring0 => 0int,
        Ring::Ring3 => 3,
    }
}

/// `SegmentSelector::new` of the crate `x86_64`: the index of the descriptor
/// stands above the three lowest bits, the privilege level in the lowest two,
/// and the table bit between them is clear.
#[verifier::external_body]
fn selector(index: u16, ring: Ring) -> (r: u16)
    requires
        index < 0x2000,
    ensures
        r == selector_value(index, ring),
{
    let rpl = match ring {
        Ring::Ring0 => x86_64::PrivilegeLevel::Ring0,
        Ring::Ring3 => x86_64::PrivilegeLevel::Ring3,
    };
    x86_64::structures::gdt::SegmentSelector::new(index, rpl).0
}

/// Selector of the kernel code segment.
pub fn kernel_code() -> (r: u16)
    ensures
        r == 0x08,
{
    selector(1, Ring::Ring0)
}

/// Selector of the kernel data segment.
pub fn kernel_data() -> (r: u16)
    ensures
        r == 0x10,
{
    selector(2, Ring::Ring0)
}

/// Selector of the user data segment.
pub fn user_data() -> (r: u16)
    ensures
        r == 0x1B,
{
    selector(3, Ring::Ring3)
}

/// Selector of the user code segment.
pub fn user_code() -> (r: u16)
    ensures
        r == 0x23,
{
    selector(4, Ring::Ring3)
}

/// Selector of the task state segment.
pub fn task_state() -> (r: u16)
    ensures
        r == 0x28,
{
    selector(5, Ring::Ring0)
}

} // verus!
