//! A read position in a byte buffer, with reads that never leave the buffer.

use crate::le::{i32_from_le_bytes, le_i32, le_u32, u32_from_le_bytes};
use crate::scan::find;
use vstd::prelude::*;
use vstd::slice::slice_subrange;

verus! {

/// A buffer and the offset of the next byte to read. The offset never
/// exceeds the length of the buffer.
pub struct Cursor<'a> {
    buf: &'a [u8],
    pos: usize,
}

impl<'a> Cursor<'a> {
    #[verifier::type_invariant]
    spec fn in_bounds(&self) -> bool {
        self.pos <= self.buf@.len()
    }

    /// The whole buffer, read and unread.
    pub closed spec fn buffer(&self) -> Seq<u8> {
        self.buf@
    }

    /// The number of bytes already read.
    pub closed spec fn spec_position(&self) -> int {
        self.pos as int
    }

    /// The number of bytes not yet read.
    pub open spec fn spec_remaining(&self) -> int {
        self.buffer().len() - self.spec_position()
    }

    /// The `n` bytes at the read position.
    pub open spec fn ahead(&self, n: int) -> Seq<u8> {
        self.buffer().subrange(self.spec_position(), self.spec_position() + n)
    }

    /// Whether the read position lies inside the buffer or at its end.
    pub open spec fn in_buffer(&self) -> bool {
        0 <= self.spec_position() <= self.buffer().len()
    }

    /// Whether this cursor is `before` after reading `n` more bytes of the
    /// same buffer.
    pub open spec fn follows(&self, before: &Self, n: int) -> bool {
        &&& self.buffer() == before.buffer()
        &&& self.spec_position() == before.spec_position() + n
        &&& before.in_buffer()
        &&& self.in_buffer()
    }

    /// Starts reading `buf` at its first byte.
    pub fn new(buf: &'a [u8]) -> (out: Self)
        ensures
            out.buffer() == buf@,
            out.spec_position() == 0,
    {
        Cursor { buf, pos: 0 }
    }

    /// The number of bytes already read.
    pub fn position(&self) -> (out: usize)
        ensures
            out == self.spec_position(),
            self.in_buffer(),
    {
        proof {
            use_type_invariant(self);
        }
        self.pos
    }

    /// The number of bytes not yet read.
    pub fn remaining(&self) -> (out: usize)
        ensures
            out == self.spec_remaining(),
            self.in_buffer(),
    {
        proof {
            use_type_invariant(self);
        }
        self.buf.len() - self.pos
    }

    /// The byte `k` places ahead of the read position, if the buffer has one.
    pub fn peek_at(&self, k: usize) -> (out: Option<u8>)
        ensures
            self.in_buffer(),
            out == if k < self.spec_remaining() {
                Some(self.buffer()[self.spec_position() + k])
            } else {
                None
            },
    {
        proof {
            use_type_invariant(self);
        }
        if k < self.buf.len() - self.pos {
            Some(self.buf[self.pos + k])
        } else {
            None
        }
    }

    /// Moves the read position `n` bytes on, or to the end of the buffer if
    /// fewer than `n` bytes are left.
    pub fn advance(&mut self, n: usize)
        ensures
            final(self).follows(
                old(self),
                if n <= old(self).spec_remaining() {
                    n as int
                } else {
                    old(self).spec_remaining()
                },
            ),
    {
        proof {
            use_type_invariant(&*self);
        }
        if n <= self.buf.len() - self.pos {
            self.pos = self.pos + n;
        } else {
            self.pos = self.buf.len();
        }
    }

    /// Reads the next `n` bytes. With fewer than `n` bytes left nothing is
    /// read and the position stays.
    pub fn read_bytes(&mut self, n: usize) -> (out: Option<&'a [u8]>)
        ensures
            match out {
                Some(bytes) => {
                    &&& n <= old(self).spec_remaining()
                    &&& bytes@ == old(self).ahead(n as int)
                    &&& final(self).follows(old(self), n as int)
                },
                None => n > old(self).spec_remaining() && final(self).follows(old(self), 0),
            },
    {
        proof {
            use_type_invariant(&*self);
        }
        if n <= self.buf.len() - self.pos {
            let start: usize = self.pos;
            self.pos = start + n;
            Some(slice_subrange(self.buf, start, start + n))
        } else {
            None
        }
    }

    /// Reads one byte. At the end of the buffer nothing is read.
    pub fn read_u8(&mut self) -> (out: Option<u8>)
        ensures
            match out {
                Some(byte) => {
                    &&& 1 <= old(self).spec_remaining()
                    &&& byte == old(self).buffer()[old(self).spec_position()]
                    &&& final(self).follows(old(self), 1)
                },
                None => 1 > old(self).spec_remaining() && final(self).follows(old(self), 0),
            },
    {
        let out = self.peek_at(0);
        if out.is_some() {
            self.advance(1);
        }
        out
    }

    /// Reads an unsigned 32-bit integer stored least significant byte first.
    /// With fewer than four bytes left nothing is read and the position stays.
    pub fn read_u32_le(&mut self) -> (out: Option<u32>)
        ensures
            match out {
                Some(value) => {
                    &&& 4 <= old(self).spec_remaining()
                    &&& value == le_u32(old(self).ahead(4))
                    &&& final(self).follows(old(self), 4)
                },
                None => 4 > old(self).spec_remaining() && final(self).follows(old(self), 0),
            },
    {
        match self.read_bytes(4) {
            Some(b) => Some(u32_from_le_bytes([b[0], b[1], b[2], b[3]])),
            None => None,
        }
    }

    /// Reads a signed 32-bit integer stored least significant byte first.
    /// With fewer than four bytes left nothing is read and the position stays.
    pub fn read_i32_le(&mut self) -> (out: Option<i32>)
        ensures
            match out {
                Some(value) => {
                    &&& 4 <= old(self).spec_remaining()
                    &&& value == le_i32(old(self).ahead(4))
                    &&& final(self).follows(old(self), 4)
                },
                None => 4 > old(self).spec_remaining() && final(self).follows(old(self), 0),
            },
    {
        match self.read_bytes(4) {
            Some(b) => Some(i32_from_le_bytes([b[0], b[1], b[2], b[3]])),
            None => None,
        }
    }

    /// Reads up to and including the next `delim`. When no `delim` is left
    /// nothing is read and the position stays.
    pub fn read_through(&mut self, delim: u8) -> (out: Option<&'a [u8]>)
        ensures
            ({
                let end = find(old(self).buffer(), delim, old(self).spec_position());
                match out {
                    Some(bytes) => {
                        &&& end < old(self).buffer().len()
                        &&& bytes@ == old(self).ahead(end + 1 - old(self).spec_position())
                        &&& final(self).follows(old(self), end + 1 - old(self).spec_position())
                    },
                    None => end >= old(self).buffer().len() && final(self).follows(old(self), 0),
                }
            }),
    {
        proof {
            use_type_invariant(&*self);
        }
        let start: usize = self.pos;
        let mut end: usize = start;
        while end < self.buf.len() && self.buf[end] != delim
            invariant
                start <= end <= self.buf@.len(),
                find(self.buf@, delim, start as int) == find(self.buf@, delim, end as int),
            decreases self.buf@.len() - end,
        {
            end = end + 1;
        }
        if end < self.buf.len() {
            self.pos = end + 1;
            Some(slice_subrange(self.buf, start, end + 1))
        } else {
            None
        }
    }
}

} // verus!
