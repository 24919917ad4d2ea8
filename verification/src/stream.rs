//! An archive held in memory, with the position at which the next read starts.

use vstd::prelude::*;
use vstd::slice::slice_subrange;
use vstd::slice::slice_to_vec;
use crate::error::CarError;

verus! {

/// What a `ByteStream` stands for: its bytes and its position.
pub struct StreamView {
    pub bytes: Seq<u8>,
    pub pos: nat,
}

/// A byte buffer with a read position. The position may lie behind the end;
/// a read from there finds nothing.
pub struct ByteStream {
    data: Vec<u8>,
    position: u64,
}

impl View for ByteStream {
    type V = StreamView;

    closed spec fn view(&self) -> StreamView {
        StreamView { bytes: self.data@, pos: self.position as nat }
    }
}

impl ByteStream {
    /// A stream over `data`, positioned at its start.
    pub fn new(data: Vec<u8>) -> (stream: ByteStream)
        ensures
            stream@.bytes == data@,
            stream@.pos == 0,
    {
        ByteStream { data, position: 0 }
    }

    /// The position of the next read.
    pub fn position(&self) -> (pos: u64)
        ensures
            pos == self@.pos,
    {
        self.position
    }

    /// The number of bytes held.
    pub fn len(&self) -> (len: usize)
        ensures
            len == self@.bytes.len(),
    {
        self.data.len()
    }

    /// Moves the position to `pos`, which may lie behind the end.
    pub fn seek(&mut self, pos: u64)
        ensures
            final(self)@.bytes == old(self)@.bytes,
            final(self)@.pos == pos,
    {
        self.position = pos;
    }

    /// The bytes held, from the first one on.
    pub fn as_slice(&self) -> (bytes: &[u8])
        ensures
            bytes@ == self@.bytes,
    {
        self.data.as_slice()
    }

    /// Gives the buffer back.
    pub fn into_inner(self) -> (data: Vec<u8>)
        ensures
            data@ == self@.bytes,
    {
        self.data
    }

    /// Reads `count` bytes and moves behind them. Where fewer are left the
    /// read fails and the position stays.
    pub fn read_exact(&mut self, count: u64) -> (r: Result<Vec<u8>, CarError>)
        ensures
            final(self)@.bytes == old(self)@.bytes,
            match bytes_at(old(self)@.bytes, old(self)@.pos as int, count as int) {
                Some(bytes) => {
                    &&& r matches Ok(out)
                    &&& out@ == bytes
                    &&& final(self)@.pos == old(self)@.pos + count
                },
                None => {
                    &&& r == Err::<Vec<u8>, CarError>(CarError::UnexpectedEof)
                    &&& final(self)@.pos == old(self)@.pos
                },
            },
    {
        let len: u64 = self.data.len() as u64;
        if self.position > len || count > len - self.position {
            return Err(CarError::UnexpectedEof);
        }
        let start: usize = self.position as usize;
        let end: usize = (self.position + count) as usize;
        let out = slice_to_vec(slice_subrange(self.data.as_slice(), start, end));
        self.position = self.position + count;
        Ok(out)
    }
}

/// The `count` bytes of `s` from `pos` on, where `s` holds that many.
pub open spec fn bytes_at(s: Seq<u8>, pos: int, count: int) -> Option<Seq<u8>> {
    if 0 <= pos && 0 <= count && pos + count <= s.len() {
        Some(s.subrange(pos, pos + count))
    } else {
        None
    }
}

} // verus!
