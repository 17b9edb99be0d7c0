//! A reader that hands on what its source delivers and copies every chunk to
//! a sink.

use crate::mirror::{copied, decorated, lemma_mirrored_bytes, mirror, verdict_of};
use crate::record::{RecordedReader, RecordedWriter};
use crate::stream::{
    bytes_read, bytes_written, lemma_bytes_read_push, ReadEvent, Readable, Writable, WriteEvent,
};
use vstd::prelude::*;
use vstd::utf8::encode_utf8;

verus! {

/// Wraps a source and copies the bytes of every successful read to a sink,
/// each chunk preceded by the label if there is one.
pub struct PrintReader<R: Readable, W: Writable> {
    /// The source that is read from, with the record of the reads.
    underlying_reader: RecordedReader<R>,
    /// The sink that receives the copies, with the record of the writes.
    side_effect_writer: RecordedWriter<W>,
    /// Written to the sink before each chunk; empty for none.
    label: String,
}

impl<R: Readable, W: Writable> PrintReader<R, W> {
    /// The wrapped source as it now is.
    pub closed spec fn source(&self) -> R {
        self.underlying_reader.stream()
    }

    /// The sink as it now is.
    pub closed spec fn sink(&self) -> W {
        self.side_effect_writer.stream()
    }

    /// Every read that this reader has made on its source, oldest first.
    pub closed spec fn reads(&self) -> Seq<ReadEvent> {
        self.underlying_reader.reads()
    }

    /// Every operation that this reader has made on its sink, oldest first.
    pub closed spec fn mirrored(&self) -> Seq<WriteEvent> {
        self.side_effect_writer.writes()
    }

    /// The label as the bytes that are written to the sink.
    pub closed spec fn label(&self) -> Seq<u8> {
        encode_utf8(self.label@)
    }

    /// A reader over `underlying_reader` that copies to `side_effect_writer`
    /// without a label.
    pub fn new(underlying_reader: R, side_effect_writer: W) -> (r: Self)
        ensures
            r.source() == underlying_reader,
            r.sink() == side_effect_writer,
            r.label() == Seq::<u8>::empty(),
            r.reads() == Seq::<ReadEvent>::empty(),
            r.mirrored() == Seq::<WriteEvent>::empty(),
    {
        Self {
            underlying_reader: RecordedReader::new(underlying_reader),
            side_effect_writer: RecordedWriter::new(side_effect_writer),
            label: String::new(),
        }
    }

    /// A reader over `underlying_reader` that copies to `side_effect_writer`,
    /// writing `label` before each chunk.
    pub fn new_with_label(underlying_reader: R, side_effect_writer: W, label: String) -> (r: Self)
        ensures
            r.source() == underlying_reader,
            r.sink() == side_effect_writer,
            r.label() == encode_utf8(label@),
            r.reads() == Seq::<ReadEvent>::empty(),
            r.mirrored() == Seq::<WriteEvent>::empty(),
    {
        Self {
            underlying_reader: RecordedReader::new(underlying_reader),
            side_effect_writer: RecordedWriter::new(side_effect_writer),
            label,
        }
    }

    /// Gives back the source and the sink.
    pub fn into_inner(self) -> (parts: (R, W))
        ensures
            parts.0 == self.source(),
            parts.1 == self.sink(),
    {
        (self.underlying_reader.into_inner(), self.side_effect_writer.into_inner())
    }

    /// Reads from the source into `buf`, copies what was delivered to the
    /// sink, and reports the source's count.
    ///
    /// The source is read exactly once, into the caller's buffer, which is
    /// left as the source filled it. If the source fails, its failure is
    /// returned and the sink is not touched. Otherwise the label, if any, and
    /// then the delivered bytes are written to the sink in full, also when
    /// nothing was delivered. A failure of the sink fails the call although
    /// the source has already been read.
    pub fn read(&mut self, buf: &mut [u8]) -> (res: Result<usize, std::io::Error>)
        ensures
            final(self).label() == old(self).label(),
            final(buf)@.len() == old(buf)@.len(),
            res matches Ok(n) ==> n <= old(buf)@.len(),
            ({
                let primary = final(self).reads().last();
                let added = final(self).mirrored().skip(old(self).mirrored().len() as int);
                &&& final(self).reads() == old(self).reads().push(primary)
                &&& final(self).mirrored() == old(self).mirrored() + added
                &&& primary.buffer == final(buf)@
                &&& decorated(primary.result, primary.chunk(), added, old(self).label(), res)
                &&& R::did_read(
                    old(self).source(),
                    old(buf)@,
                    final(self).source(),
                    final(buf)@,
                    primary.result,
                )
                &&& match primary.result {
                    Err(_) => final(self).sink() == old(self).sink(),
                    Ok(_) => copied(
                        old(self).sink(),
                        old(self).label(),
                        primary.chunk(),
                        final(self).sink(),
                        verdict_of(res),
                    ),
                }
            }),
            res matches Ok(n) ==> {
                let chunk = final(buf)@.take(n as int);
                &&& bytes_read(final(self).reads()) == bytes_read(old(self).reads()) + chunk
                &&& bytes_written(final(self).mirrored()) == bytes_written(old(self).mirrored())
                    + old(self).label() + chunk
            },
    {
        let ghost reads_before = self.underlying_reader.reads();
        let ghost copied_before = self.side_effect_writer.writes();
        let primary = self.underlying_reader.read(buf);
        proof {
            lemma_bytes_read_push(reads_before, ReadEvent { buffer: buf@, result: primary });
        }
        let delivered = match primary {
            Ok(n) => n,
            Err(e) => {
                assert(self.side_effect_writer.writes().skip(copied_before.len() as int)
                    =~= Seq::<WriteEvent>::empty());
                assert(copied_before + Seq::<WriteEvent>::empty() =~= copied_before);
                return Err(e);
            },
        };
        let verdict = mirror(
            &mut self.side_effect_writer,
            self.label.as_str().as_bytes(),
            buf,
            delivered,
        );
        match verdict {
            Ok(_) => {
                proof {
                    assert(verdict->Ok_0 == ());
                    lemma_mirrored_bytes(
                        copied_before,
                        self.side_effect_writer.writes(),
                        self.label(),
                        buf@.take(delivered as int),
                    );
                }
                Ok(delivered)
            },
            Err(e) => Err(e),
        }
    }
}

} // verus!
