//! The byte source: a buffer-backed reader with one byte of lookahead.
//!
//! Mirroring a sequential reader wrapped with a single-byte buffer, the reader
//! is created by consuming one byte (so peeking is infallible afterwards), and
//! reading a byte refills the buffer from the bytes behind it.  Consequently
//! the final byte of the input can be peeked but never read: a read that would
//! leave the buffer empty fails instead.

use vstd::prelude::*;

verus! {

/// An error when reading from a byte slice.
#[derive(Clone, Copy, Debug, PartialEq, Eq, Structural)]
pub enum SliceError {
    /// The input was short by the contained number of bytes.
    Short(usize),
}

/// A reader over an owned byte buffer with one byte of lookahead.
///
/// The model is the full input together with a position; the byte at the
/// position is the lookahead buffer, so the position always lies strictly
/// within the input.
pub(crate) struct PeekableRead {
    bytes: Vec<u8>,
    pos: usize,
}

impl PeekableRead {
    /// The entire input this reader was created over.
    pub(crate) closed spec fn input(&self) -> Seq<u8> {
        self.bytes@
    }

    /// The position of the lookahead byte.
    pub(crate) closed spec fn pos(&self) -> int {
        self.pos as int
    }

    /// The lookahead buffer is always a byte of the input.
    pub(crate) open spec fn wf(&self) -> bool {
        0 <= self.pos() < self.input().len()
    }

    /// Create a reader over `bytes`, filling the lookahead buffer.
    ///
    /// Fails when `bytes` is empty, as there is then no byte to buffer.
    pub(crate) fn try_from(bytes: Vec<u8>) -> (r: Result<Self, SliceError>)
        ensures
            match r {
                Ok(p) => p.wf() && p.input() == bytes@ && p.pos() == 0,
                Err(e) => bytes@.len() == 0 && e == SliceError::Short(1usize),
            },
    {
        if bytes.len() == 0 {
            Err(SliceError::Short(1))
        } else {
            Ok(PeekableRead { bytes, pos: 0 })
        }
    }

    /// The buffered byte.
    pub(crate) fn peek(&self) -> (b: u8)
        requires
            self.wf(),
        ensures
            b == self.input()[self.pos()],
    {
        self.bytes[self.pos]
    }

    /// Return the buffered byte and refill the buffer with the byte after it.
    ///
    /// Fails, consuming nothing, when no byte is left to refill the buffer.
    pub(crate) fn read_byte(&mut self) -> (r: Result<u8, SliceError>)
        requires
            old(self).wf(),
        ensures
            final(self).wf(),
            final(self).input() == old(self).input(),
            match r {
                Ok(b) => {
                    &&& b == old(self).input()[old(self).pos()]
                    &&& final(self).pos() == old(self).pos() + 1
                    &&& old(self).pos() + 1 < old(self).input().len()
                },
                Err(e) => {
                    &&& e == SliceError::Short(1usize)
                    &&& final(self).pos() == old(self).pos()
                    &&& old(self).pos() + 1 == old(self).input().len()
                },
            },
    {
        let len = self.bytes.len();
        if self.pos < len - 1 {
            let b = self.bytes[self.pos];
            self.pos = self.pos + 1;
            Ok(b)
        } else {
            Err(SliceError::Short(1))
        }
    }

    /// Read `n` bytes, the buffered byte first, then refill the buffer.
    ///
    /// Requires a byte to remain after the read, to refill the buffer; fails,
    /// consuming nothing, otherwise.  `n` must not be zero.
    pub(crate) fn read_exact_into_non_empty_slice(&mut self, n: usize) -> (r: Result<
        Vec<u8>,
        SliceError,
    >)
        requires
            old(self).wf(),
            n >= 1,
        ensures
            final(self).wf(),
            final(self).input() == old(self).input(),
            match r {
                Ok(v) => {
                    &&& v@ == old(self).input().subrange(
                        old(self).pos(),
                        old(self).pos() + (n as int),
                    )
                    &&& final(self).pos() == old(self).pos() + (n as int)
                    &&& old(self).pos() + (n as int) < old(self).input().len()
                },
                Err(e) => {
                    &&& final(self).pos() == old(self).pos()
                    &&& old(self).pos() + (n as int) >= old(self).input().len()
                    &&& e == (if old(self).pos() + (n as int) == old(self).input().len() {
                        SliceError::Short(1usize)
                    } else {
                        SliceError::Short(
                            ((old(self).pos() + (n as int)) - old(self).input().len()) as usize,
                        )
                    })
                },
            },
    {
        // The read consumes `n` bytes and the refill needs one more.
        let len = self.bytes.len();
        if len - self.pos > n {
            let start: usize = self.pos;
            let mut v: Vec<u8> = Vec::new();
            let mut j: usize = 0;
            while j < n
                invariant
                    j <= n,
                    self.bytes@ == old(self).bytes@,
                    start == old(self).pos,
                    len == self.bytes@.len(),
                    self.pos == start + j,
                    start + n < self.bytes@.len(),
                    v@ == self.bytes@.subrange(start as int, start as int + j as int),
                decreases n - j,
            {
                let b = self.bytes[self.pos];
                v.push(b);
                self.pos = self.pos + 1;
                j = j + 1;
                proof {
                    assert(v@ =~= self.bytes@.subrange(start as int, start as int + j as int));
                }
            }
            Ok(v)
        } else {
            // Mirror a sequential source: the bulk read reports how short the
            // input is; an exhausted refill reports one missing byte.
            let missing = n - (self.bytes.len() - self.pos);
            if missing == 0 {
                Err(SliceError::Short(1))
            } else {
                Err(SliceError::Short(missing))
            }
        }
    }
}

} // verus!
