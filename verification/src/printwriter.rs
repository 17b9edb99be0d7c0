//! A writer that hands on what it is given to its destination and copies
//! every accepted chunk to a sink.

use crate::mirror::{copied, decorated, lemma_mirrored_bytes, mirror, verdict_of};
use crate::record::RecordedWriter;
use crate::stream::{bytes_written, lemma_bytes_written_push, Writable, WriteEvent};
use vstd::prelude::*;
use vstd::utf8::encode_utf8;

verus! {

/// Wraps a destination and copies the bytes that it accepts to a sink, each
/// chunk preceded by the label if there is one.
pub struct PrintWriter<W1: Writable, W2: Writable> {
    /// The destination that is written to, with the record of the writes.
    underlying_writer: RecordedWriter<W1>,
    /// The sink that receives the copies, with the record of the writes.
    side_effect_writer: RecordedWriter<W2>,
    /// Written to the sink before each chunk; empty for none.
    label: String,
}

impl<W1: Writable, W2: Writable> PrintWriter<W1, W2> {
    /// The wrapped destination as it now is.
    pub closed spec fn destination(&self) -> W1 {
        self.underlying_writer.stream()
    }

    /// The sink as it now is.
    pub closed spec fn sink(&self) -> W2 {
        self.side_effect_writer.stream()
    }

    /// Every operation that this writer has made on its destination, oldest
    /// first.
    pub closed spec fn writes(&self) -> Seq<WriteEvent> {
        self.underlying_writer.writes()
    }

    /// Every operation that this writer has made on its sink, oldest first.
    pub closed spec fn mirrored(&self) -> Seq<WriteEvent> {
        self.side_effect_writer.writes()
    }

    /// The label as the bytes that are written to the sink.
    pub closed spec fn label(&self) -> Seq<u8> {
        encode_utf8(self.label@)
    }

    /// A writer to `underlying_writer` that copies to `side_effect_writer`
    /// without a label.
    pub fn new(underlying_writer: W1, side_effect_writer: W2) -> (w: Self)
        ensures
            w.destination() == underlying_writer,
            w.sink() == side_effect_writer,
            w.label() == Seq::<u8>::empty(),
            w.writes() == Seq::<WriteEvent>::empty(),
            w.mirrored() == Seq::<WriteEvent>::empty(),
    {
        Self {
            underlying_writer: RecordedWriter::new(underlying_writer),
            side_effect_writer: RecordedWriter::new(side_effect_writer),
            label: String::new(),
        }
    }

    /// A writer to `underlying_writer` that copies to `side_effect_writer`,
    /// writing `label` before each chunk.
    pub fn new_with_label(underlying_writer: W1, side_effect_writer: W2, label: String) -> (w:
        Self)
        ensures
            w.destination() == underlying_writer,
            w.sink() == side_effect_writer,
            w.label() == encode_utf8(label@),
            w.writes() == Seq::<WriteEvent>::empty(),
            w.mirrored() == Seq::<WriteEvent>::empty(),
    {
        Self {
            underlying_writer: RecordedWriter::new(underlying_writer),
            side_effect_writer: RecordedWriter::new(side_effect_writer),
            label,
        }
    }

    /// Gives back the destination and the sink.
    pub fn into_inner(self) -> (parts: (W1, W2))
        ensures
            parts.0 == self.destination(),
            parts.1 == self.sink(),
    {
        (self.underlying_writer.into_inner(), self.side_effect_writer.into_inner())
    }

    /// Offers `buf` to the destination, copies what it accepted to the sink,
    /// and reports the destination's count.
    ///
    /// The destination is written to exactly once, with the whole of `buf`.
    /// If it fails, its failure is returned and the sink is not touched.
    /// Otherwise the label, if any, and then the accepted prefix of `buf`,
    /// and no byte beyond it, are written to the sink in full. A failure of
    /// the sink fails the call although the destination has already taken
    /// its bytes.
    pub fn write(&mut self, buf: &[u8]) -> (res: Result<usize, std::io::Error>)
        ensures
            final(self).label() == old(self).label(),
            res matches Ok(n) ==> n <= buf@.len(),
            ({
                let primary = final(self).writes().last();
                let added = final(self).mirrored().skip(old(self).mirrored().len() as int);
                &&& final(self).writes() == old(self).writes().push(primary)
                &&& final(self).mirrored() == old(self).mirrored() + added
                &&& primary matches WriteEvent::Write { offered, count }
                &&& offered == buf@
                &&& decorated(count, primary.accepted(), added, old(self).label(), res)
                &&& W1::wrote(old(self).destination(), buf@, final(self).destination(), count)
                &&& match count {
                    Err(_) => final(self).sink() == old(self).sink(),
                    Ok(_) => copied(
                        old(self).sink(),
                        old(self).label(),
                        primary.accepted(),
                        final(self).sink(),
                        verdict_of(res),
                    ),
                }
            }),
            res matches Ok(n) ==> {
                let chunk = buf@.take(n as int);
                &&& bytes_written(final(self).writes()) == bytes_written(old(self).writes())
                    + chunk
                &&& bytes_written(final(self).mirrored()) == bytes_written(old(self).mirrored())
                    + old(self).label() + chunk
            },
    {
        let ghost taken_before = self.underlying_writer.writes();
        let ghost copied_before = self.side_effect_writer.writes();
        let primary = self.underlying_writer.write(buf);
        proof {
            lemma_bytes_written_push(
                taken_before,
                WriteEvent::Write { offered: buf@, count: primary },
            );
        }
        let accepted = match primary {
            Ok(n) => n,
            Err(e) => {
                assert(self.side_effect_writer.writes().skip(copied_before.len() as int)
                    =~= Seq::<WriteEvent>::empty());
                assert(copied_before + Seq::<WriteEvent>::empty() =~= copied_before);
                return Err(e);
            },
        };
        let verdict = mirror(
            &mut self.side_effect_writer,
            self.label.as_str().as_bytes(),
            buf,
            accepted,
        );
        match verdict {
            Ok(_) => {
                proof {
                    assert(verdict->Ok_0 == ());
                    lemma_mirrored_bytes(
                        copied_before,
                        self.side_effect_writer.writes(),
                        self.label(),
                        buf@.take(accepted as int),
                    );
                }
                Ok(accepted)
            },
            Err(e) => Err(e),
        }
    }

    /// Flushes the destination and then the sink.
    ///
    /// The destination is flushed exactly once. If that fails, its failure
    /// is returned and the sink is not touched. Otherwise the sink is flushed
    /// exactly once, and its result is the result of the call.
    pub fn flush(&mut self) -> (res: Result<(), std::io::Error>)
        ensures
            final(self).label() == old(self).label(),
            ({
                let primary = final(self).writes().last();
                &&& final(self).writes() == old(self).writes().push(primary)
                &&& primary matches WriteEvent::Flush { result }
                &&& W1::flushed(old(self).destination(), final(self).destination(), result)
                &&& match result {
                    Err(_) => {
                        &&& res == result
                        &&& final(self).mirrored() == old(self).mirrored()
                        &&& final(self).sink() == old(self).sink()
                    },
                    Ok(_) => {
                        &&& final(self).mirrored() == old(self).mirrored().push(
                            (WriteEvent::Flush { result: res }),
                        )
                        &&& W2::flushed(old(self).sink(), final(self).sink(), res)
                    },
                }
            }),
            bytes_written(final(self).writes()) == bytes_written(old(self).writes()),
            bytes_written(final(self).mirrored()) == bytes_written(old(self).mirrored()),
    {
        let ghost taken_before = self.underlying_writer.writes();
        let ghost copied_before = self.side_effect_writer.writes();
        let primary = self.underlying_writer.flush();
        proof {
            lemma_bytes_written_push(taken_before, WriteEvent::Flush { result: primary });
            assert(bytes_written(taken_before) + Seq::<u8>::empty() =~= bytes_written(
                taken_before,
            ));
        }
        match primary {
            Ok(_) => {},
            Err(e) => {
                return Err(e);
            },
        }
        let res = self.side_effect_writer.flush();
        proof {
            lemma_bytes_written_push(copied_before, WriteEvent::Flush { result: res });
            assert(bytes_written(copied_before) + Seq::<u8>::empty() =~= bytes_written(
                copied_before,
            ));
        }
        res
    }
}

} // verus!
