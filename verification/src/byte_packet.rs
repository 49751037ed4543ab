use crate::error::DecodeError;
use vstd::prelude::*;

verus! {

/// Number of bytes a packet buffer holds.
pub const BUF_LEN: usize = 512;

/// Where the cursor stands after advancing by `steps` from `pos`: past-end
/// advances are refused and leave the cursor in place.
pub open spec fn stepped(pos: int, steps: int) -> Option<int> {
    if pos + steps <= BUF_LEN {
        Some(pos + steps)
    } else {
        None
    }
}

/// What a big-endian 16-bit read starting at position `p` of `buf` yields.
pub open spec fn u16_be(buf: Seq<u8>, p: int) -> u16 {
    (buf[p] * 256 + buf[p + 1]) as u16
}

/// What a big-endian 32-bit read starting at position `p` of `buf` yields.
pub open spec fn u32_be(buf: Seq<u8>, p: int) -> u32 {
    (buf[p] * 0x1000000 + buf[p + 1] * 0x10000 + buf[p + 2] * 256 + buf[p + 3]) as u32
}

/// Fixed-capacity byte storage with a movable read cursor.
///
/// All decoding reads go through this type; no direct byte indexing escapes
/// it. Out-of-range reads fail with [`DecodeError::OutOfBounds`] without
/// moving the cursor past the end.
pub struct BytePacketBuffer {
    pub buf: [u8; BUF_LEN],
    pub position: usize,
}

impl BytePacketBuffer {
    /// The cursor never runs past the buffer's capacity.
    pub open spec fn wf(&self) -> bool {
        self.position <= BUF_LEN
    }

    /// A zeroed buffer with the cursor at the start.
    pub fn new() -> (r: BytePacketBuffer)
        ensures
            r.buf@ =~= Seq::<u8>::new(BUF_LEN as nat, |i: int| 0u8),
            r.position == 0,
            r.wf(),
    {
        BytePacketBuffer { buf: [0; BUF_LEN], position: 0 }
    }

    /// Current cursor position; no side effect.
    pub fn pos(&self) -> (p: usize)
        ensures
            p == self.position,
    {
        self.position
    }

    /// Moves the cursor `steps` bytes forward. Fails, leaving the buffer
    /// unchanged, when the new position would exceed the capacity.
    pub fn step(&mut self, steps: usize) -> (r: Result<(), DecodeError>)
        ensures
            match stepped(old(self).position as int, steps as int) {
                Some(p) => r is Ok && final(self).position == p,
                None => {
                    &&& r == Err::<(), DecodeError>(DecodeError::OutOfBounds)
                    &&& final(self).position == old(self).position
                },
            },
            final(self).buf == old(self).buf,
            old(self).wf() ==> final(self).wf(),
    {
        if steps > BUF_LEN || self.position > BUF_LEN - steps {
            return Err(DecodeError::OutOfBounds);
        }
        self.position = self.position + steps;
        Ok(())
    }

    /// Moves the cursor to the absolute position `pos`, forward or backward.
    /// Fails, leaving the buffer unchanged, when `pos` exceeds the capacity.
    pub fn seek(&mut self, pos: usize) -> (r: Result<(), DecodeError>)
        ensures
            pos <= BUF_LEN ==> r is Ok && final(self).position == pos,
            pos > BUF_LEN ==> {
                &&& r == Err::<(), DecodeError>(DecodeError::OutOfBounds)
                &&& final(self).position == old(self).position
            },
            final(self).buf == old(self).buf,
            old(self).wf() ==> final(self).wf(),
    {
        if pos > BUF_LEN {
            return Err(DecodeError::OutOfBounds);
        }
        self.position = pos;
        Ok(())
    }

    /// Returns the byte under the cursor and advances the cursor by one.
    /// Fails, leaving the buffer unchanged, when the cursor is at or past
    /// the end.
    pub fn read(&mut self) -> (r: Result<u8, DecodeError>)
        ensures
            old(self).position < BUF_LEN ==> {
                &&& r == Ok::<u8, DecodeError>(old(self).buf@[old(self).position as int])
                &&& final(self).position == old(self).position + 1
            },
            old(self).position >= BUF_LEN ==> {
                &&& r == Err::<u8, DecodeError>(DecodeError::OutOfBounds)
                &&& final(self).position == old(self).position
            },
            final(self).buf == old(self).buf,
            old(self).wf() ==> final(self).wf(),
    {
        if self.position >= BUF_LEN {
            return Err(DecodeError::OutOfBounds);
        }
        let b = self.buf[self.position];
        self.position = self.position + 1;
        Ok(b)
    }

    /// Returns the byte at the absolute position `pos` without moving the
    /// cursor. Fails when `pos` is at or past the end.
    pub fn get(&mut self, pos: usize) -> (r: Result<u8, DecodeError>)
        ensures
            pos < BUF_LEN ==> r == Ok::<u8, DecodeError>(old(self).buf@[pos as int]),
            pos >= BUF_LEN ==> r == Err::<u8, DecodeError>(DecodeError::OutOfBounds),
            *final(self) == *old(self),
    {
        if pos >= BUF_LEN {
            return Err(DecodeError::OutOfBounds);
        }
        Ok(self.buf[pos])
    }

    /// Returns the `len` bytes starting at the absolute position `start`
    /// without moving the cursor. Fails when the range would leave the
    /// buffer.
    pub fn get_range(&mut self, start: usize, len: usize) -> (r: Result<&[u8], DecodeError>)
        ensures
            start + len <= BUF_LEN ==> (r matches Ok(s) && s@ == old(self).buf@.subrange(
                start as int,
                start + len,
            )),
            start + len > BUF_LEN ==> r == Err::<&[u8], DecodeError>(DecodeError::OutOfBounds),
            *final(self) == *old(self),
    {
        if len > BUF_LEN || start > BUF_LEN - len {
            return Err(DecodeError::OutOfBounds);
        }
        Ok(&self.buf.as_slice()[start..start + len])
    }

    /// Reads two bytes in big-endian order, advancing the cursor by two.
    /// Fails when fewer than two bytes remain; the cursor then rests at the
    /// end of the buffer, past any byte already consumed.
    pub fn read_u16(&mut self) -> (r: Result<u16, DecodeError>)
        requires
            old(self).wf(),
        ensures
            old(self).position + 2 <= BUF_LEN ==> {
                &&& r == Ok::<u16, DecodeError>(u16_be(old(self).buf@, old(self).position as int))
                &&& final(self).position == old(self).position + 2
            },
            old(self).position + 2 > BUF_LEN ==> {
                &&& r == Err::<u16, DecodeError>(DecodeError::OutOfBounds)
                &&& final(self).position == BUF_LEN
            },
            final(self).buf == old(self).buf,
            final(self).wf(),
    {
        let hi = match self.read() {
            Ok(b) => b,
            Err(e) => return Err(e),
        };
        let lo = match self.read() {
            Ok(b) => b,
            Err(e) => return Err(e),
        };
        Ok((hi as u16) * 256 + (lo as u16))
    }

    /// Reads four bytes in big-endian order, advancing the cursor by four.
    /// Fails when fewer than four bytes remain; the cursor then rests at the
    /// end of the buffer, past any byte already consumed.
    pub fn read_u32(&mut self) -> (r: Result<u32, DecodeError>)
        requires
            old(self).wf(),
        ensures
            old(self).position + 4 <= BUF_LEN ==> {
                &&& r == Ok::<u32, DecodeError>(u32_be(old(self).buf@, old(self).position as int))
                &&& final(self).position == old(self).position + 4
            },
            old(self).position + 4 > BUF_LEN ==> {
                &&& r == Err::<u32, DecodeError>(DecodeError::OutOfBounds)
                &&& final(self).position == BUF_LEN
            },
            final(self).buf == old(self).buf,
            final(self).wf(),
    {
        let b0 = match self.read() {
            Ok(b) => b,
            Err(e) => return Err(e),
        };
        let b1 = match self.read() {
            Ok(b) => b,
            Err(e) => return Err(e),
        };
        let b2 = match self.read() {
            Ok(b) => b,
            Err(e) => return Err(e),
        };
        let b3 = match self.read() {
            Ok(b) => b,
            Err(e) => return Err(e),
        };
        Ok((b0 as u32) * 0x1000000 + (b1 as u32) * 0x10000 + (b2 as u32) * 256 + (b3 as u32))
    }
}

/// For every `n` in `[0, BUF_LEN]`, advancing by `n` from the start of the
/// buffer and then by `BUF_LEN - n` succeeds and lands the cursor exactly on
/// `BUF_LEN`, while advancing by `BUF_LEN + 1` from the start is refused and
/// leaves the cursor at the start.
pub proof fn lemma_advance_splits_capacity(n: usize)
    requires
        n <= BUF_LEN,
    ensures
        stepped(0, n as int) == Some(n as int),
        stepped(n as int, BUF_LEN - n) == Some(BUF_LEN as int),
        stepped(0, BUF_LEN + 1) is None,
{
}

} // verus!
