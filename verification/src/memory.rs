//! Streams held in memory.

use crate::stream::{Readable, Writable};
use vstd::prelude::*;

verus! {

/// Appends the first `count` bytes of `buf` to `bytes`.
fn append(bytes: &mut Vec<u8>, buf: &[u8], count: usize)
    requires
        count <= buf@.len(),
    ensures
        final(bytes)@ == old(bytes)@ + buf@.take(count as int),
{
    let mut i: usize = 0;
    while i < count
        invariant
            i <= count <= buf@.len(),
            bytes@ == old(bytes)@ + buf@.take(i as int),
        decreases count - i,
    {
        bytes.push(buf[i]);
        i = i + 1;
        assert(bytes@ =~= old(bytes)@ + buf@.take(i as int));
    }
}

/// The standard library's error for a writer that cannot take a whole
/// buffer, made by `std::io::Error::from` on `ErrorKind::WriteZero`. Nothing
/// is claimed of it.
#[verifier::external_body]
fn write_zero() -> (e: std::io::Error) {
    std::io::Error::from(std::io::ErrorKind::WriteZero)
}

/// A vector of bytes is a destination that keeps, in order, every byte
/// written to it, accepts whatever it is offered, and never fails.
impl Writable for Vec<u8> {
    /// A write appends all that it is offered and reports its length.
    open spec fn wrote(
        pre: Self,
        buf: Seq<u8>,
        post: Self,
        res: Result<usize, std::io::Error>,
    ) -> bool {
        &&& res == Ok::<usize, std::io::Error>(buf.len() as usize)
        &&& post@ == pre@ + buf
    }

    /// A `write_all` appends all that it is given and succeeds.
    open spec fn wrote_all(
        pre: Self,
        buf: Seq<u8>,
        post: Self,
        res: Result<(), std::io::Error>,
    ) -> bool {
        &&& res is Ok
        &&& post@ == pre@ + buf
    }

    /// A flush changes nothing and succeeds.
    open spec fn flushed(pre: Self, post: Self, res: Result<(), std::io::Error>) -> bool {
        &&& res is Ok
        &&& post@ == pre@
    }

    /// Appends all of `buf`.
    fn write(&mut self, buf: &[u8]) -> (res: Result<usize, std::io::Error>) {
        append(self, buf, buf.len());
        assert(buf@.take(buf@.len() as int) =~= buf@);
        Ok(buf.len())
    }

    /// Appends all of `buf`.
    fn write_all(&mut self, buf: &[u8]) -> (res: Result<(), std::io::Error>) {
        append(self, buf, buf.len());
        assert(buf@.take(buf@.len() as int) =~= buf@);
        Ok(())
    }

    /// Has nothing to do.
    fn flush(&mut self) -> (res: Result<(), std::io::Error>) {
        Ok(())
    }
}

/// A destination that keeps, in order, the bytes written to it until it
/// holds as many as its capacity, and takes no more after that.
pub struct BoundedWriter {
    bytes: Vec<u8>,
    capacity: usize,
}

impl BoundedWriter {
    /// The bytes kept so far.
    pub closed spec fn written(&self) -> Seq<u8> {
        self.bytes@
    }

    /// How many more bytes can be kept.
    pub closed spec fn room(&self) -> nat {
        if self.capacity >= self.bytes@.len() {
            (self.capacity - self.bytes@.len()) as nat
        } else {
            0
        }
    }

    /// How many of `offered` bytes a destination in this state takes.
    pub open spec fn takes(&self, offered: nat) -> nat {
        if offered <= self.room() {
            offered
        } else {
            self.room()
        }
    }

    /// An empty destination that keeps up to `capacity` bytes.
    pub fn new(capacity: usize) -> (w: Self)
        ensures
            w.written() == Seq::<u8>::empty(),
            w.room() == capacity,
    {
        BoundedWriter { bytes: Vec::new(), capacity }
    }

    /// The bytes kept.
    pub fn into_bytes(self) -> (bytes: Vec<u8>)
        ensures
            bytes@ == self.written(),
    {
        self.bytes
    }

    /// Keeps as much of the front of `buf` as there is room for and says how
    /// much that was.
    fn keep(&mut self, buf: &[u8]) -> (count: usize)
        ensures
            count == old(self).takes(buf@.len()),
            final(self).written() == old(self).written() + buf@.take(count as int),
            final(self).room() == old(self).room() - count,
    {
        let room = if self.capacity >= self.bytes.len() {
            self.capacity - self.bytes.len()
        } else {
            0
        };
        let count = if buf.len() <= room {
            buf.len()
        } else {
            room
        };
        append(&mut self.bytes, buf, count);
        count
    }
}

impl Writable for BoundedWriter {
    /// A write keeps as much of the front of what it is offered as there is
    /// room for, and reports how much that was; with no room left that is
    /// nothing.
    open spec fn wrote(
        pre: Self,
        buf: Seq<u8>,
        post: Self,
        res: Result<usize, std::io::Error>,
    ) -> bool {
        let count = pre.takes(buf.len());
        &&& res == Ok::<usize, std::io::Error>(count as usize)
        &&& post.written() == pre.written() + buf.take(count as int)
        &&& post.room() == pre.room() - count
    }

    /// A `write_all` keeps as much as a write does, and succeeds if and only
    /// if that was all it was given.
    open spec fn wrote_all(
        pre: Self,
        buf: Seq<u8>,
        post: Self,
        res: Result<(), std::io::Error>,
    ) -> bool {
        let count = pre.takes(buf.len());
        &&& res is Ok <==> buf.len() <= pre.room()
        &&& post.written() == pre.written() + buf.take(count as int)
        &&& post.room() == pre.room() - count
    }

    /// A flush changes nothing and succeeds.
    open spec fn flushed(pre: Self, post: Self, res: Result<(), std::io::Error>) -> bool {
        &&& res is Ok
        &&& post.written() == pre.written()
        &&& post.room() == pre.room()
    }

    /// Keeps what there is room for.
    fn write(&mut self, buf: &[u8]) -> (res: Result<usize, std::io::Error>) {
        Ok(self.keep(buf))
    }

    /// Keeps what there is room for, and fails if that was not all.
    fn write_all(&mut self, buf: &[u8]) -> (res: Result<(), std::io::Error>) {
        if self.keep(buf) == buf.len() {
            Ok(())
        } else {
            Err(write_zero())
        }
    }

    /// Has nothing to do.
    fn flush(&mut self) -> (res: Result<(), std::io::Error>) {
        Ok(())
    }
}

/// A source that delivers the bytes it was made with, as many at a time as
/// the caller's buffer holds, and never fails.
pub struct MemoryReader {
    data: Vec<u8>,
    pos: usize,
}

impl MemoryReader {
    #[verifier::type_invariant]
    spec fn in_bounds(self) -> bool {
        self.pos <= self.data@.len()
    }

    /// The bytes not yet delivered.
    pub closed spec fn remaining(&self) -> Seq<u8> {
        self.data@.skip(self.pos as int)
    }

    /// A source that holds `data`, from which nothing has been read yet.
    pub fn new(data: Vec<u8>) -> (r: Self)
        ensures
            r.remaining() == data@,
    {
        assert(data@.skip(0) =~= data@);
        MemoryReader { data, pos: 0 }
    }
}

impl Readable for MemoryReader {
    /// A read succeeds and delivers the next bytes, as many as fit into the
    /// buffer, into its front; the rest of the buffer stays as it was.
    open spec fn did_read(
        pre: Self,
        before: Seq<u8>,
        post: Self,
        after: Seq<u8>,
        res: Result<usize, std::io::Error>,
    ) -> bool {
        res matches Ok(n) && {
            &&& n == if pre.remaining().len() < before.len() {
                pre.remaining().len()
            } else {
                before.len()
            }
            &&& after == pre.remaining().take(n as int) + before.skip(n as int)
            &&& post.remaining() == pre.remaining().skip(n as int)
        }
    }

    /// Delivers the next bytes, as many as fit into `buf`, into its front and
    /// leaves the rest of `buf` alone.
    fn read(&mut self, buf: &mut [u8]) -> (res: Result<usize, std::io::Error>) {
        proof {
            use_type_invariant(&*self);
        }
        let pos = self.pos;
        let left = self.data.len() - pos;
        let n = if left < buf.len() {
            left
        } else {
            buf.len()
        };
        let mut i: usize = 0;
        while i < n
            invariant
                i <= n,
                pos + n <= self.data@.len() <= usize::MAX,
                n <= buf@.len(),
                buf@.len() == old(buf)@.len(),
                buf@ == self.data@.subrange(pos as int, pos + i) + old(buf)@.skip(i as int),
                *self == *old(self),
            decreases n - i,
        {
            buf[i] = self.data[pos + i];
            i = i + 1;
            assert(buf@ =~= self.data@.subrange(pos as int, pos + i) + old(buf)@.skip(i as int));
        }
        proof {
            let data = self.data@;
            assert(data.skip(pos as int).take(n as int) =~= data.subrange(pos as int, pos + n));
            assert(data.skip(pos + n) =~= data.skip(pos as int).skip(n as int));
        }
        self.pos = pos + n;
        Ok(n)
    }
}

} // verus!
