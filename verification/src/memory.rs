//! The byte-addressable backing store register operations read and
//! write: an owned, zero-filled word buffer, as used in test mode.
//!
//! Offsets are byte offsets from the target's base; access is 32-bit and
//! word-aligned, and the accessor rejects misaligned or out-of-range
//! offsets instead of dereferencing blindly.  A live device mapping
//! satisfies the same word-access contract but needs raw memory access,
//! so it stays outside the verified library.

use vstd::prelude::*;
use crate::errors::RegError;

verus! {

/// A byte offset addresses a word of `words`: 4-byte aligned and inside
/// the buffer.
pub open spec fn word_offset_ok(words: Seq<u32>, off: u64) -> bool {
    off % 4 == 0 && (off as int) / 4 < words.len()
}

/// Which error an invalid byte offset draws.
pub open spec fn word_offset_error(words: Seq<u32>, off: u64) -> RegError {
    if off % 4 != 0 {
        RegError::Misaligned
    } else {
        RegError::AddressOutOfRange
    }
}

/// An owned word buffer addressed by byte offset.
#[derive(Debug)]
pub struct MemoryTarget {
    words: Vec<u32>,
}

impl View for MemoryTarget {
    type V = Seq<u32>;

    closed spec fn view(&self) -> Seq<u32> {
        self.words@
    }
}

impl MemoryTarget {
    /// Whether a byte offset addresses a word of this target: 4-byte
    /// aligned and inside the buffer.
    pub open spec fn valid_offset(&self, off: u64) -> bool {
        word_offset_ok(self@, off)
    }

    /// Which error an invalid byte offset draws.
    pub open spec fn offset_error(&self, off: u64) -> RegError {
        word_offset_error(self@, off)
    }

    /// A zero-filled test buffer of `length` bytes (whole words only);
    /// never touches a device.
    pub fn test(length: u64) -> (t: MemoryTarget)
        requires
            length / 4 <= usize::MAX as u64,
        ensures
            t@.len() == length as int / 4,
            forall|i: int| 0 <= i < t@.len() ==> t@[i] == 0,
    {
        let n = (length / 4) as usize;
        let mut words: Vec<u32> = Vec::new();
        let mut k: usize = 0;
        while k < n
            invariant
                k <= n,
                words@.len() == k,
                forall|i: int| 0 <= i < k ==> words@[i] == 0,
            decreases n - k,
        {
            words.push(0);
            k += 1;
        }
        MemoryTarget { words }
    }

    /// How many whole words the target holds.
    pub fn word_count(&self) -> (n: usize)
        ensures
            n == self@.len(),
    {
        self.words.len()
    }

    /// Read the 32-bit word at byte offset `off`.
    pub fn read_word32(&self, off: u64) -> (r: Result<u32, RegError>)
        ensures
            r == if self.valid_offset(off) {
                Ok::<u32, RegError>(self@[(off as int) / 4])
            } else {
                Err::<u32, RegError>(self.offset_error(off))
            },
    {
        if off % 4 != 0 {
            return Err(RegError::Misaligned);
        }
        let idx = off / 4;
        if idx >= self.words.len() as u64 {
            return Err(RegError::AddressOutOfRange);
        }
        Ok(self.words[idx as usize])
    }

    /// Write the 32-bit word at byte offset `off`.  An invalid offset
    /// leaves the target untouched.
    pub fn write_word32(&mut self, off: u64, v: u32) -> (r: Result<(), RegError>)
        ensures
            if old(self).valid_offset(off) {
                &&& r is Ok
                &&& final(self)@ == old(self)@.update((off as int) / 4, v)
            } else {
                &&& r == Err::<(), RegError>(old(self).offset_error(off))
                &&& final(self)@ == old(self)@
            },
    {
        if off % 4 != 0 {
            return Err(RegError::Misaligned);
        }
        let idx = off / 4;
        if idx >= self.words.len() as u64 {
            return Err(RegError::AddressOutOfRange);
        }
        self.words[idx as usize] = v;
        Ok(())
    }
}

} // verus!
