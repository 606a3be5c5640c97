//! The flat address space: 65536 sixteen-bit words, word-addressed.
//!
//! Two addresses are reserved for memory-mapped device registers:
//! - `KBSR` (device status): reading always yields `DEVICE_READY`, the
//!   "input ready" bit pattern;
//! - `KBDR` (device data): reading yields one externally captured
//!   character. That read suspends on external input, so it is not
//!   performed here: the execution engine intercepts the address before
//!   calling [`Memory::read`] and takes the character from its injected
//!   input source instead (see `cpu`).
//!
//! Writes are plain passthrough at every address, the reserved ones
//! included: a store to a device register lands in the backing word, as
//! documented for this design.

use vstd::prelude::*;

verus! {

/// Address of the memory-mapped device status register.
pub const KBSR: u16 = 0xfe00;

/// Address of the memory-mapped device data register.
pub const KBDR: u16 = 0xfe02;

/// The value every read of the status register yields: the top bit set,
/// meaning the input device is always ready.
pub const DEVICE_READY: u16 = 0x8000;

/// Number of words in the address space.
pub const MEM_WORDS: usize = 0x10000;

/// What a read at `addr` yields from backing store `mem`, device status
/// interception included. The device data address is not covered here:
/// reading it consumes external input and is modelled by `cpu::read_at`.
pub open spec fn spec_read(mem: Seq<u16>, addr: u16) -> u16 {
    if addr == KBSR {
        DEVICE_READY
    } else {
        mem[addr as int]
    }
}

/// A flat 65536-word store. Its view is the sequence of backing words;
/// the device status interception lives in [`Memory::read`], not in the
/// view.
pub struct Memory {
    data: Vec<u16>,
}

impl View for Memory {
    type V = Seq<u16>;

    closed spec fn view(&self) -> Seq<u16> {
        self.data@
    }
}

impl Memory {
    /// The backing store always spans the full address space.
    pub open spec fn wf(&self) -> bool {
        self@.len() == MEM_WORDS
    }

    /// A fresh address space, all words zero.
    pub fn new() -> (r: Memory)
        ensures
            r.wf(),
            r@ == Seq::<u16>::new(MEM_WORDS as nat, |i: int| 0u16),
    {
        let mut data: Vec<u16> = Vec::new();
        while data.len() < MEM_WORDS
            invariant
                data@.len() <= MEM_WORDS,
                forall|i: int| 0 <= i < data@.len() ==> data@[i] == 0u16,
            decreases MEM_WORDS - data@.len(),
        {
            data.push(0u16);
        }
        proof {
            assert(data@ =~= Seq::<u16>::new(MEM_WORDS as nat, |i: int| 0u16));
        }
        Memory { data }
    }

    /// Read one word. The device status address always yields
    /// `DEVICE_READY`; every other address yields the stored word. The
    /// engine never calls this with the device data address: that read
    /// consumes external input and is intercepted in `cpu`.
    pub fn read(&self, addr: u16) -> (r: u16)
        requires
            self.wf(),
        ensures
            r == spec_read(self@, addr),
    {
        if addr == KBSR {
            return DEVICE_READY;
        }
        self.data[addr as usize]
    }

    /// Store `val` at `addr`, unconditionally: writes to the reserved
    /// device addresses are plain passthrough to the backing store.
    pub fn write(&mut self, addr: u16, val: u16)
        requires
            old(self).wf(),
        ensures
            final(self).wf(),
            final(self)@ == old(self)@.update(addr as int, val),
    {
        self.data[addr as usize] = val;
    }
}

} // verus!
