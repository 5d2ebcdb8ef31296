//! A small 8-bit virtual machine core: a fetch-decode-execute interpreter
//! over a 4096-byte memory image, sixteen 8-bit registers, a 16-entry call
//! stack, two countdown timers, a 64x32 monochrome display and a 16-key
//! keypad. The instruction semantics are stated as a specification-level
//! transition function and every opcode handler is proved against it.

use vstd::prelude::*;

pub mod cpu;
pub mod display;
pub mod font;
pub mod isa;
pub mod keypad;
pub mod laws;

verus! {

/// Builds a vector of `n` copies of `val`.
pub(crate) fn filled_vec<T: Copy>(val: T, n: usize) -> (v: Vec<T>)
    ensures
        v@.len() == n,
        forall|i: int| 0 <= i < n ==> v@[i] == val,
{
    let mut v: Vec<T> = Vec::new();
    let mut j: usize = 0;
    while j < n
        invariant
            j <= n,
            v@.len() == j,
            forall|i: int| 0 <= i < j ==> v@[i] == val,
        decreases n - j,
    {
        v.push(val);
        j = j + 1;
    }
    v
}

} // verus!
