//! The stream capabilities that the decorators wrap, and the events that
//! describe operations on a stream.
//!
//! Nothing is assumed about when a stream succeeds or fails. Every stream
//! promises that a count it reports never exceeds the length of the buffer
//! it was given. What more a kind of stream promises of a call it says in a
//! relation between its state before and after: the in-memory streams say
//! exactly what they do, and a stream that says nothing promises nothing.

use vstd::prelude::*;

verus! {

/// The standard library's I/O error, carried through unchanged and never
/// inspected. Nothing is claimed about its contents.
#[verifier::external_type_specification]
#[verifier::external_body]
pub struct ExIoError(std::io::Error);

/// One `read` on a readable stream.
pub struct ReadEvent {
    /// The caller's whole buffer as the stream left it.
    pub buffer: Seq<u8>,
    /// What the stream reported: the number of bytes delivered, or the failure.
    pub result: Result<usize, std::io::Error>,
}

impl ReadEvent {
    /// The bytes this read delivered: the valid prefix of the buffer on
    /// success, nothing on failure.
    pub open spec fn chunk(self) -> Seq<u8> {
        match self.result {
            Ok(n) => self.buffer.take(n as int),
            Err(_) => Seq::empty(),
        }
    }
}

/// One operation on a writable stream.
pub enum WriteEvent {
    /// A `write` that offered `offered` and reported how many of its leading
    /// bytes it took.
    Write { offered: Seq<u8>, count: Result<usize, std::io::Error> },
    /// A `write_all` of `data`.
    WriteAll { data: Seq<u8>, result: Result<(), std::io::Error> },
    /// A `flush`.
    Flush { result: Result<(), std::io::Error> },
}

impl WriteEvent {
    /// The bytes this operation is known to have put into the stream: the
    /// accepted prefix of a successful `write`, all of a successful
    /// `write_all`, and nothing otherwise.
    pub open spec fn accepted(self) -> Seq<u8> {
        match self {
            WriteEvent::Write { offered, count: Ok(n) } => offered.take(n as int),
            WriteEvent::WriteAll { data, result: Ok(_) } => data,
            _ => Seq::empty(),
        }
    }

    /// Whether the operation reported a failure.
    pub open spec fn failed(self) -> bool {
        match self {
            WriteEvent::Write { count, .. } => count is Err,
            WriteEvent::WriteAll { result, .. } => result is Err,
            WriteEvent::Flush { result } => result is Err,
        }
    }
}

/// The bytes delivered by the successful reads of `log`, in order.
pub open spec fn bytes_read(log: Seq<ReadEvent>) -> Seq<u8>
    decreases log.len(),
{
    if log.len() == 0 {
        Seq::empty()
    } else {
        bytes_read(log.drop_last()) + log.last().chunk()
    }
}

/// The bytes put into a stream by the successful operations of `log`, in order.
pub open spec fn bytes_written(log: Seq<WriteEvent>) -> Seq<u8>
    decreases log.len(),
{
    if log.len() == 0 {
        Seq::empty()
    } else {
        bytes_written(log.drop_last()) + log.last().accepted()
    }
}

/// A blocking source of bytes with short-read semantics: a read may deliver
/// fewer bytes than the buffer holds, and zero bytes mean end of stream.
pub trait Readable: Sized {
    /// What this kind of stream promises of one read: whether a stream in
    /// state `pre`, given a buffer holding `before`, may end in state `post`
    /// with the buffer holding `after` and report `res`. A stream that
    /// promises nothing leaves this as it is.
    open spec fn did_read(
        pre: Self,
        before: Seq<u8>,
        post: Self,
        after: Seq<u8>,
        res: Result<usize, std::io::Error>,
    ) -> bool {
        true
    }

    /// Reads into `buf` and reports how many bytes were delivered, which are
    /// then at the front of `buf`. The count never exceeds the buffer's
    /// length.
    fn read(&mut self, buf: &mut [u8]) -> (res: Result<usize, std::io::Error>)
        ensures
            final(buf)@.len() == old(buf)@.len(),
            res matches Ok(n) ==> n <= old(buf)@.len(),
            Self::did_read(*old(self), old(buf)@, *final(self), final(buf)@, res),
    ;
}

/// A blocking destination for bytes with short-write semantics: a write may
/// accept fewer bytes than it was offered.
pub trait Writable: Sized {
    /// What this kind of stream promises of one `write`: whether a stream in
    /// state `pre`, offered `buf`, may end in state `post` and report `res`.
    /// A stream that promises nothing leaves this as it is.
    open spec fn wrote(
        pre: Self,
        buf: Seq<u8>,
        post: Self,
        res: Result<usize, std::io::Error>,
    ) -> bool {
        true
    }

    /// What this kind of stream promises of one `write_all`, as `wrote` does
    /// of a `write`.
    open spec fn wrote_all(
        pre: Self,
        buf: Seq<u8>,
        post: Self,
        res: Result<(), std::io::Error>,
    ) -> bool {
        true
    }

    /// What this kind of stream promises of one `flush`.
    open spec fn flushed(pre: Self, post: Self, res: Result<(), std::io::Error>) -> bool {
        true
    }

    /// Offers `buf` and reports how many of its leading bytes were accepted.
    /// The count never exceeds the buffer's length.
    fn write(&mut self, buf: &[u8]) -> (res: Result<usize, std::io::Error>)
        ensures
            res matches Ok(n) ==> n <= buf@.len(),
            Self::wrote(*old(self), buf@, *final(self), res),
    ;

    /// Writes all of `buf` or fails.
    fn write_all(&mut self, buf: &[u8]) -> (res: Result<(), std::io::Error>)
        ensures
            Self::wrote_all(*old(self), buf@, *final(self), res),
    ;

    /// Pushes buffered bytes on to their destination.
    fn flush(&mut self) -> (res: Result<(), std::io::Error>)
        ensures
            Self::flushed(*old(self), *final(self), res),
    ;
}

/// Appending one read to a log appends its chunk to the bytes read.
pub proof fn lemma_bytes_read_push(log: Seq<ReadEvent>, ev: ReadEvent)
    ensures
        bytes_read(log.push(ev)) == bytes_read(log) + ev.chunk(),
{
    assert(log.push(ev).drop_last() =~= log);
}

/// Appending one operation to a log appends what it accepted to the bytes
/// written.
pub proof fn lemma_bytes_written_push(log: Seq<WriteEvent>, ev: WriteEvent)
    ensures
        bytes_written(log.push(ev)) == bytes_written(log) + ev.accepted(),
{
    assert(log.push(ev).drop_last() =~= log);
}

/// The bytes written by two logs in a row are those of the first followed by
/// those of the second.
pub proof fn lemma_bytes_written_concat(a: Seq<WriteEvent>, b: Seq<WriteEvent>)
    ensures
        bytes_written(a + b) == bytes_written(a) + bytes_written(b),
    decreases b.len(),
{
    if b.len() == 0 {
        assert(a + b =~= a);
        assert(bytes_written(a) + bytes_written(b) =~= bytes_written(a));
    } else {
        lemma_bytes_written_concat(a, b.drop_last());
        assert((a + b).drop_last() =~= a + b.drop_last());
        assert((a + b).last() == b.last());
        assert(bytes_written(a) + (bytes_written(b.drop_last()) + b.last().accepted())
            =~= (bytes_written(a) + bytes_written(b.drop_last())) + b.last().accepted());
    }
}

} // verus!
