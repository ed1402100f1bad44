//! A forward-only cursor over a byte source, counting how far it has read.

use vstd::prelude::*;
use vstd::slice::slice_subrange;

use crate::DecodeError;
use crate::bytes::{be_u16_at, be_u32_at, read_be_u16, read_be_u32};

verus! {

/// A forward-only view of a byte source: reads advance a cursor that can
/// never move backwards, mirroring a non-seekable stream.
pub struct CountingReader<'a> {
    data: &'a [u8],
    count: usize,
}

impl<'a> CountingReader<'a> {
    /// The whole underlying source.
    pub closed spec fn data_spec(&self) -> Seq<u8> {
        self.data@
    }

    /// How many bytes have been read or skipped so far.
    pub closed spec fn count_spec(&self) -> int {
        self.count as int
    }

    /// Well-formed: the cursor never lies beyond the source.
    pub open spec fn wf(&self) -> bool {
        0 <= self.count_spec() <= self.data_spec().len()
    }

    /// Wraps a byte source in a counting cursor positioned at its start.
    pub fn new(data: &'a [u8]) -> (r: CountingReader<'a>)
        ensures
            r.wf(),
            r.data_spec() == data@,
            r.count_spec() == 0,
    {
        CountingReader { data, count: 0 }
    }

    /// The current cursor position.
    pub fn count(&self) -> (r: usize)
        ensures
            r == self.count_spec(),
    {
        self.count
    }

    /// Advances the cursor to `offset`, discarding the bytes in between.
    /// Fails with [`DecodeError::OutOfOrder`] when the cursor already lies
    /// past `offset` (the source cannot rewind), and with
    /// [`DecodeError::Truncated`] when the source ends before `offset`.
    pub fn skip_to(&mut self, offset: u64) -> (r: Result<(), DecodeError>)
        requires
            old(self).wf(),
        ensures
            final(self).wf(),
            final(self).data_spec() == old(self).data_spec(),
            offset < old(self).count_spec() ==> (r === Err(DecodeError::OutOfOrder)
                && final(self).count_spec() == old(self).count_spec()),
            offset > old(self).data_spec().len() ==> (r === Err(DecodeError::Truncated)
                && final(self).count_spec() == old(self).count_spec()),
            old(self).count_spec() <= offset <= old(self).data_spec().len()
                ==> (r === Ok::<(), DecodeError>(()) && final(self).count_spec() == offset),
    {
        if offset < self.count as u64 {
            Err(DecodeError::OutOfOrder)
        } else if offset > self.data.len() as u64 {
            Err(DecodeError::Truncated)
        } else {
            self.count = offset as usize;
            Ok(())
        }
    }

    /// Reads exactly `n` bytes, advancing the cursor past them. Fails with
    /// [`DecodeError::Truncated`] when fewer than `n` bytes remain; the
    /// cursor then stays where it was.
    pub fn take_slice(&mut self, n: usize) -> (r: Result<&'a [u8], DecodeError>)
        requires
            old(self).wf(),
        ensures
            final(self).wf(),
            final(self).data_spec() == old(self).data_spec(),
            old(self).count_spec() + n <= old(self).data_spec().len()
                ==> (r matches Ok(b)
                    && b@ == old(self).data_spec().subrange(
                        old(self).count_spec(),
                        old(self).count_spec() + n,
                    )
                    && final(self).count_spec() == old(self).count_spec() + n),
            old(self).count_spec() + n > old(self).data_spec().len()
                ==> (r === Err::<&'a [u8], _>(DecodeError::Truncated)
                    && final(self).count_spec() == old(self).count_spec()),
    {
        if n as u64 <= self.data.len() as u64 - self.count as u64 {
            let start = self.count;
            let end = self.count + n;
            let b = slice_subrange(self.data, start, end);
            self.count = end;
            Ok(b)
        } else {
            Err(DecodeError::Truncated)
        }
    }

    /// Reads a big-endian 16-bit word, advancing the cursor past it.
    pub fn read_u16(&mut self) -> (r: Result<u16, DecodeError>)
        requires
            old(self).wf(),
        ensures
            final(self).wf(),
            final(self).data_spec() == old(self).data_spec(),
            old(self).count_spec() + 2 <= old(self).data_spec().len()
                ==> (r matches Ok(v)
                    && v == be_u16_at(old(self).data_spec(), old(self).count_spec())
                    && final(self).count_spec() == old(self).count_spec() + 2),
            old(self).count_spec() + 2 > old(self).data_spec().len()
                ==> (r === Err::<u16, _>(DecodeError::Truncated)
                    && final(self).count_spec() == old(self).count_spec()),
    {
        let b = self.take_slice(2)?;
        let v = read_be_u16(b, 0);
        Ok(v)
    }

    /// Reads a big-endian 32-bit word, advancing the cursor past it.
    pub fn read_u32(&mut self) -> (r: Result<u32, DecodeError>)
        requires
            old(self).wf(),
        ensures
            final(self).wf(),
            final(self).data_spec() == old(self).data_spec(),
            old(self).count_spec() + 4 <= old(self).data_spec().len()
                ==> (r matches Ok(v)
                    && v == be_u32_at(old(self).data_spec(), old(self).count_spec())
                    && final(self).count_spec() == old(self).count_spec() + 4),
            old(self).count_spec() + 4 > old(self).data_spec().len()
                ==> (r === Err::<u32, _>(DecodeError::Truncated)
                    && final(self).count_spec() == old(self).count_spec()),
    {
        let b = self.take_slice(4)?;
        let v = read_be_u32(b, 0);
        Ok(v)
    }
}

} // verus!
