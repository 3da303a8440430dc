//! The byte source that a decoder reads from: the bytes received so far from
//! a transport, and whether the transport has ended.

use vstd::prelude::*;
use crate::le::{le_value, read_le_u16, read_le_u32, read_le_u64};

verus! {

/// Why a read from a [`ByteSource`] could not be served.
#[derive(Debug, Clone, Copy, PartialEq, Eq, Structural)]
pub enum SourceError {
    /// Too few bytes have arrived yet; more may come.
    WouldBlock,
    /// Too few bytes are left and the transport has ended.
    UnexpectedEof,
}

/// Bytes received from a transport and not yet consumed.
///
/// Every read is all or nothing: a read that cannot be served in full
/// consumes no byte.
pub struct ByteSource {
    data: Vec<u8>,
    pos: usize,
    closed: bool,
}

impl ByteSource {
    /// The bytes that have arrived and have not been read yet.
    pub closed spec fn pending(&self) -> Seq<u8> {
        self.data@.subrange(self.pos as int, self.data@.len() as int)
    }

    /// Whether the transport has ended, so that no more bytes will arrive.
    pub closed spec fn ended(&self) -> bool {
        self.closed
    }

    pub closed spec fn wf(&self) -> bool {
        self.pos <= self.data@.len()
    }

    /// The error that a read which finds too few bytes reports.
    pub open spec fn shortage(&self) -> SourceError {
        if self.ended() {
            SourceError::UnexpectedEof
        } else {
            SourceError::WouldBlock
        }
    }

    /// An open source with no bytes yet.
    pub fn new() -> (r: Self)
        ensures
            r.wf(),
            r.pending() == Seq::<u8>::empty(),
            !r.ended(),
    {
        let r = ByteSource { data: Vec::new(), pos: 0, closed: false };
        assert(r.pending() =~= Seq::<u8>::empty());
        r
    }

    /// Appends bytes that have arrived from the transport.
    pub fn push_bytes(&mut self, bytes: &[u8])
        requires
            old(self).wf(),
        ensures
            final(self).wf(),
            final(self).pending() == old(self).pending() + bytes@,
            final(self).ended() == old(self).ended(),
    {
        let ghost start = self.pending();
        assert(bytes@.subrange(0, 0) =~= Seq::<u8>::empty());
        let mut i: usize = 0;
        while i < bytes.len()
            invariant
                self.wf(),
                i <= bytes@.len(),
                self.pending() =~= start + bytes@.subrange(0, i as int),
                self.closed == old(self).closed,
            decreases bytes@.len() - i,
        {
            let ghost prev = self.pending();
            self.data.push(bytes[i]);
            assert(self.pending() =~= prev.push(bytes@[i as int]));
            assert(bytes@.subrange(0, i + 1) =~= bytes@.subrange(0, i as int).push(bytes@[i as int]));
            i = i + 1;
            assert(self.pending() =~= start + bytes@.subrange(0, i as int));
        }
        assert(bytes@.subrange(0, i as int) =~= bytes@);
    }

    /// Marks the transport as ended: reads past the pending bytes now fail
    /// with [`SourceError::UnexpectedEof`].
    pub fn close(&mut self)
        requires
            old(self).wf(),
        ensures
            final(self).wf(),
            final(self).pending() == old(self).pending(),
            final(self).ended(),
    {
        self.closed = true;
    }

    /// Whether the transport has ended.
    pub fn is_closed(&self) -> (r: bool)
        ensures
            r == self.ended(),
    {
        self.closed
    }

    /// The number of bytes that have arrived and have not been read yet.
    pub fn remaining(&self) -> (r: usize)
        requires
            self.wf(),
        ensures
            r == self.pending().len(),
    {
        self.data.len() - self.pos
    }

    /// Consumes the next `width` pending bytes, or reports why it cannot.
    fn advance(&mut self, width: usize) -> (r: Result<usize, SourceError>)
        requires
            old(self).wf(),
        ensures
            final(self).wf(),
            final(self).ended() == old(self).ended(),
            match r {
                Ok(at) => {
                    &&& old(self).pending().len() >= width
                    &&& final(self).pending() == old(self).pending().skip(width as int)
                    &&& at + width == final(self).pos
                    &&& final(self).pos <= final(self).data@.len()
                    &&& final(self).data@ == old(self).data@
                    &&& final(self).data@.subrange(at as int, at + width) == old(self).pending().take(width as int)
                },
                Err(e) => {
                    &&& old(self).pending().len() < width
                    &&& e == old(self).shortage()
                    &&& *final(self) == *old(self)
                },
            },
    {
        if self.data.len() - self.pos < width {
            if self.closed {
                Err(SourceError::UnexpectedEof)
            } else {
                Err(SourceError::WouldBlock)
            }
        } else {
            let at = self.pos;
            self.pos = self.pos + width;
            assert(self.pending() =~= old(self).pending().skip(width as int));
            assert(self.data@.subrange(at as int, at + width) =~= old(self).pending().take(width as int));
            Ok(at)
        }
    }

    /// Reads one byte.
    pub fn read_u8(&mut self) -> (r: Result<u8, SourceError>)
        requires
            old(self).wf(),
        ensures
            final(self).wf(),
            final(self).ended() == old(self).ended(),
            old(self).pending().len() >= 1 ==> {
                &&& r == Ok::<u8, SourceError>(old(self).pending()[0])
                &&& final(self).pending() == old(self).pending().skip(1)
            },
            old(self).pending().len() < 1 ==> {
                &&& r == Err::<u8, SourceError>(old(self).shortage())
                &&& final(self).pending() == old(self).pending()
            },
    {
        match self.advance(1) {
            Ok(at) => {
                assert(self.data@[at as int] == self.data@.subrange(at as int, at + 1)[0]);
                Ok(self.data[at])
            },
            Err(e) => Err(e),
        }
    }

    /// Reads a two-byte little-endian unsigned integer.
    pub fn read_u16_le(&mut self) -> (r: Result<u16, SourceError>)
        requires
            old(self).wf(),
        ensures
            final(self).wf(),
            final(self).ended() == old(self).ended(),
            old(self).pending().len() >= 2 ==> {
                &&& r is Ok
                &&& r->Ok_0 as nat == le_value(old(self).pending().take(2))
                &&& final(self).pending() == old(self).pending().skip(2)
            },
            old(self).pending().len() < 2 ==> {
                &&& r == Err::<u16, SourceError>(old(self).shortage())
                &&& final(self).pending() == old(self).pending()
            },
    {
        match self.advance(2) {
            Ok(at) => {
                let b = vstd::slice::slice_subrange(self.data.as_slice(), at, at + 2);
                assert(b@.subrange(0, 2) =~= old(self).pending().take(2));
                Ok(read_le_u16(b))
            },
            Err(e) => Err(e),
        }
    }

    /// Reads a four-byte little-endian unsigned integer.
    pub fn read_u32_le(&mut self) -> (r: Result<u32, SourceError>)
        requires
            old(self).wf(),
        ensures
            final(self).wf(),
            final(self).ended() == old(self).ended(),
            old(self).pending().len() >= 4 ==> {
                &&& r is Ok
                &&& r->Ok_0 as nat == le_value(old(self).pending().take(4))
                &&& final(self).pending() == old(self).pending().skip(4)
            },
            old(self).pending().len() < 4 ==> {
                &&& r == Err::<u32, SourceError>(old(self).shortage())
                &&& final(self).pending() == old(self).pending()
            },
    {
        match self.advance(4) {
            Ok(at) => {
                let b = vstd::slice::slice_subrange(self.data.as_slice(), at, at + 4);
                assert(b@.subrange(0, 4) =~= old(self).pending().take(4));
                Ok(read_le_u32(b))
            },
            Err(e) => Err(e),
        }
    }

    /// Reads an eight-byte little-endian unsigned integer.
    pub fn read_u64_le(&mut self) -> (r: Result<u64, SourceError>)
        requires
            old(self).wf(),
        ensures
            final(self).wf(),
            final(self).ended() == old(self).ended(),
            old(self).pending().len() >= 8 ==> {
                &&& r is Ok
                &&& r->Ok_0 as nat == le_value(old(self).pending().take(8))
                &&& final(self).pending() == old(self).pending().skip(8)
            },
            old(self).pending().len() < 8 ==> {
                &&& r == Err::<u64, SourceError>(old(self).shortage())
                &&& final(self).pending() == old(self).pending()
            },
    {
        match self.advance(8) {
            Ok(at) => {
                let b = vstd::slice::slice_subrange(self.data.as_slice(), at, at + 8);
                assert(b@.subrange(0, 8) =~= old(self).pending().take(8));
                Ok(read_le_u64(b))
            },
            Err(e) => Err(e),
        }
    }
}

} // verus!
