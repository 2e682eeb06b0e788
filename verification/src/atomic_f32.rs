use std::sync::atomic::AtomicU32;
use std::sync::atomic::Ordering;
use vstd::prelude::*;

verus! {

/// A 32-bit float shared between threads, held as its IEEE-754 bit pattern in an
/// atomic word. Loads and stores are relaxed: a parameter written by one thread is
/// read by another at some later point, with no ordering against other memory.
pub struct AtomicF32(AtomicU32);

impl AtomicF32 {
    /// A cell holding the float whose bit pattern is `bits`.
    pub fn new_bits(bits: u32) -> Self {
        AtomicF32(AtomicU32::new(bits))
    }

    /// The bit pattern of the float last stored. Another thread may store at any
    /// time, so nothing is promised about the value.
    pub fn load_bits(&self) -> u32 {
        self.0.load(Ordering::Relaxed)
    }

    /// Stores the float whose bit pattern is `bits`.
    pub fn store_bits(&self, bits: u32) {
        self.0.store(bits, Ordering::Relaxed)
    }
}

} // verus!
