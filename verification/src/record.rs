//! Streams that keep a ghost record of what is done to them.
//!
//! A recorded stream owns a stream and the sequence of operations performed
//! on it since it was wrapped. Each operation goes to the stream exactly once
//! and appends exactly one event that holds what was handed over and what
//! the stream reported. Its contract states both: the event that the record
//! gained, and, by the stream's own relation, that the stream went from its
//! old state to its new one by that very call.

use crate::stream::{ReadEvent, Readable, Writable, WriteEvent};
use vstd::prelude::*;

verus! {

/// A source together with the record of the reads made on it.
pub struct RecordedReader<R: Readable> {
    stream: R,
    log: Ghost<Seq<ReadEvent>>,
}

impl<R: Readable> RecordedReader<R> {
    /// The source as it now is.
    pub closed spec fn stream(&self) -> R {
        self.stream
    }

    /// Every read made on the source since it was wrapped, oldest first.
    pub closed spec fn reads(&self) -> Seq<ReadEvent> {
        self.log@
    }

    /// Wraps `stream` with an empty record.
    pub fn new(stream: R) -> (r: Self)
        ensures
            r.stream() == stream,
            r.reads() == Seq::<ReadEvent>::empty(),
    {
        RecordedReader { stream, log: Ghost(Seq::empty()) }
    }

    /// Gives the source back.
    pub fn into_inner(self) -> (stream: R)
        ensures
            stream == self.stream(),
    {
        self.stream
    }

    /// Reads from the source into `buf`, once, and records the read.
    pub fn read(&mut self, buf: &mut [u8]) -> (res: Result<usize, std::io::Error>)
        ensures
            final(buf)@.len() == old(buf)@.len(),
            res matches Ok(n) ==> n <= old(buf)@.len(),
            final(self).reads() == old(self).reads().push(
                (ReadEvent { buffer: final(buf)@, result: res }),
            ),
            R::did_read(old(self).stream(), old(buf)@, final(self).stream(), final(buf)@, res),
    {
        let res = self.stream.read(buf);
        proof {
            self.log@ = self.log@.push(ReadEvent { buffer: buf@, result: res });
        }
        res
    }
}

/// A destination together with the record of the operations made on it.
pub struct RecordedWriter<W: Writable> {
    stream: W,
    log: Ghost<Seq<WriteEvent>>,
}

impl<W: Writable> RecordedWriter<W> {
    /// The destination as it now is.
    pub closed spec fn stream(&self) -> W {
        self.stream
    }

    /// Every operation made on the destination since it was wrapped, oldest
    /// first.
    pub closed spec fn writes(&self) -> Seq<WriteEvent> {
        self.log@
    }

    /// Wraps `stream` with an empty record.
    pub fn new(stream: W) -> (w: Self)
        ensures
            w.stream() == stream,
            w.writes() == Seq::<WriteEvent>::empty(),
    {
        RecordedWriter { stream, log: Ghost(Seq::empty()) }
    }

    /// Gives the destination back.
    pub fn into_inner(self) -> (stream: W)
        ensures
            stream == self.stream(),
    {
        self.stream
    }

    /// Offers `buf` to the destination, once, and records the write.
    pub fn write(&mut self, buf: &[u8]) -> (res: Result<usize, std::io::Error>)
        ensures
            res matches Ok(n) ==> n <= buf@.len(),
            final(self).writes() == old(self).writes().push(
                (WriteEvent::Write { offered: buf@, count: res }),
            ),
            W::wrote(old(self).stream(), buf@, final(self).stream(), res),
    {
        let res = self.stream.write(buf);
        proof {
            self.log@ = self.log@.push(WriteEvent::Write { offered: buf@, count: res });
        }
        res
    }

    /// Has the destination write all of `buf`, once, and records it.
    pub fn write_all(&mut self, buf: &[u8]) -> (res: Result<(), std::io::Error>)
        ensures
            final(self).writes() == old(self).writes().push(
                (WriteEvent::WriteAll { data: buf@, result: res }),
            ),
            W::wrote_all(old(self).stream(), buf@, final(self).stream(), res),
    {
        let res = self.stream.write_all(buf);
        proof {
            self.log@ = self.log@.push(WriteEvent::WriteAll { data: buf@, result: res });
        }
        res
    }

    /// Flushes the destination, once, and records it.
    pub fn flush(&mut self) -> (res: Result<(), std::io::Error>)
        ensures
            final(self).writes() == old(self).writes().push((WriteEvent::Flush { result: res })),
            W::flushed(old(self).stream(), final(self).stream(), res),
    {
        let res = self.stream.flush();
        proof {
            self.log@ = self.log@.push(WriteEvent::Flush { result: res });
        }
        res
    }
}

} // verus!
