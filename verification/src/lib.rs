use vstd::prelude::*;

pub mod mm;
pub mod thread;
pub mod interrupts;
pub mod keyb;
pub mod gdt;

verus! {

} // verus!
