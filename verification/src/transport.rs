use vstd::prelude::*;

use crate::protocol::{
    encode_frame, read_consumes, read_frame, read_outcome, read_result_matches, ByteCursor,
    Frame, ProtocolError,
};

verus! {

/// Reads frames one after another from an inner byte stream.
#[derive(Debug)]
pub struct FramedReader<R> {
    inner: R,
}

impl<R> FramedReader<R> {
    pub closed spec fn inner(&self) -> R {
        self.inner
    }

    pub fn new(inner: R) -> (r: FramedReader<R>)
        ensures
            r.inner() == inner,
    {
        FramedReader { inner }
    }

    pub fn into_inner(self) -> (r: R)
        ensures
            r == self.inner(),
    {
        self.inner
    }
}

impl FramedReader<ByteCursor> {
    /// Reads the next frame; see `read_frame`.
    pub fn read_frame(&mut self) -> (r: Result<Option<Frame>, ProtocolError>)
        ensures
            read_result_matches(read_outcome(old(self).inner()@), r),
            final(self).inner()@ == old(self).inner()@.skip(
                read_consumes(old(self).inner()@) as int,
            ),
    {
        read_frame(&mut self.inner)
    }
}

/// Writes frames one after another to an inner byte sink.
#[derive(Debug)]
pub struct FramedWriter<W> {
    inner: W,
}

impl<W> FramedWriter<W> {
    pub closed spec fn inner(&self) -> W {
        self.inner
    }

    pub fn new(inner: W) -> (r: FramedWriter<W>)
        ensures
            r.inner() == inner,
    {
        FramedWriter { inner }
    }

    pub fn into_inner(self) -> (r: W)
        ensures
            r == self.inner(),
    {
        self.inner
    }
}

impl FramedWriter<Vec<u8>> {
    /// Appends the wire form of `frame` to the buffer.
    pub fn write_frame(&mut self, frame: &Frame) -> (r: Result<(), ProtocolError>)
        ensures
            r is Ok,
            final(self).inner()@ == old(self).inner()@ + encode_frame(frame@),
    {
        frame.write_to(&mut self.inner)
    }

    /// An in-memory buffer has nothing to flush.
    pub fn flush(&mut self) -> (r: Result<(), ProtocolError>)
        ensures
            r is Ok,
            final(self).inner()@ == old(self).inner()@,
    {
        Ok(())
    }
}

} // verus!
