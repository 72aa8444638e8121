//! A verified CHIP-8 virtual machine core: instruction codec, memory,
//! monochrome display, and the fetch-decode-execute machine.

pub mod instr;
pub mod memory;
pub mod display;
pub mod chip;

use vstd::prelude::*;

verus! {

/// Number of general-purpose registers (V0..VF).
pub const V_SIZE: usize = 0x10;

/// Call-stack capacity, in return addresses.
pub const STACK_SIZE: usize = 0x10;

/// Number of keys on the hexadecimal keypad.
pub const KEYS_SIZE: usize = 0x10;

} // verus!


