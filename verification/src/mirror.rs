//! Copying one chunk of bytes to a sink, under a label.
//!
//! A sink never receives a single labelled stream: for every chunk that
//! passes through a decorator it receives the label, if there is one, and
//! then the chunk, each written in full. The first failure ends the attempt.

use crate::record::RecordedWriter;
use crate::stream::{
    bytes_written, lemma_bytes_written_concat, lemma_bytes_written_push, Writable, WriteEvent,
};
use vstd::prelude::*;
use vstd::slice::slice_subrange;

verus! {

/// The verdict on the copy that a call's report `res` implies.
pub open spec fn verdict_of(res: Result<usize, std::io::Error>) -> Result<(), std::io::Error> {
    match res {
        Ok(_) => Ok(()),
        Err(e) => Err(e),
    }
}

/// Whether `added` is exactly what copying `chunk` under `label` does to a
/// sink when the copy ends in `verdict`.
///
/// Without a label there is one operation, the chunk, and its result is the
/// verdict. With a label there is first the label: if that fails, it is the
/// only operation and its failure is the verdict; otherwise the chunk follows
/// and decides.
pub open spec fn mirrors(
    added: Seq<WriteEvent>,
    label: Seq<u8>,
    chunk: Seq<u8>,
    verdict: Result<(), std::io::Error>,
) -> bool {
    if label.len() == 0 {
        added == seq![(WriteEvent::WriteAll { data: chunk, result: verdict })]
    } else {
        ||| (verdict is Err && added == seq![
            (WriteEvent::WriteAll { data: label, result: verdict }),
        ])
        ||| added == seq![
            (WriteEvent::WriteAll { data: label, result: Ok(()) }),
            (WriteEvent::WriteAll { data: chunk, result: verdict }),
        ]
    }
}

/// Whether copying `chunk` under `label` may take a sink from state `pre` to
/// state `post` and end in `verdict`, by what the sink promises of its
/// writes.
///
/// Without a label the sink has written the chunk. With a label it has
/// either failed to write the label, or written the label and then, from the
/// state that this left, the chunk.
pub open spec fn copied<W: Writable>(
    pre: W,
    label: Seq<u8>,
    chunk: Seq<u8>,
    post: W,
    verdict: Result<(), std::io::Error>,
) -> bool {
    if label.len() == 0 {
        W::wrote_all(pre, chunk, post, verdict)
    } else {
        ||| (verdict is Err && W::wrote_all(pre, label, post, verdict))
        ||| exists|mid: W|
            #[trigger] W::wrote_all(pre, label, mid, Ok(())) && W::wrote_all(
                mid,
                chunk,
                post,
                verdict,
            )
    }
}

/// The operations of a copy of `chunk` under `label` in which nothing fails.
pub open spec fn mirror_events(label: Seq<u8>, chunk: Seq<u8>) -> Seq<WriteEvent> {
    let data = WriteEvent::WriteAll { data: chunk, result: Ok(()) };
    if label.len() == 0 {
        seq![data]
    } else {
        seq![(WriteEvent::WriteAll { data: label, result: Ok(()) }), data]
    }
}

/// What one decorated call does to the sink and reports, given what the
/// primary stream reported and the chunk that it moved.
///
/// If the primary operation failed, the sink is left alone and the failure
/// is reported as it came. Otherwise the chunk is copied to the sink, and
/// the call reports the primary count if the copy succeeded and the copy's
/// failure if it did not.
pub open spec fn decorated(
    primary: Result<usize, std::io::Error>,
    chunk: Seq<u8>,
    added: Seq<WriteEvent>,
    label: Seq<u8>,
    res: Result<usize, std::io::Error>,
) -> bool {
    match primary {
        Err(_) => res == primary && added.len() == 0,
        Ok(n) => mirrors(added, label, chunk, verdict_of(res)) && (res matches Ok(m) ==> m == n),
    }
}

/// Copies the first `count` bytes of `buf` to `sink`, preceded by `label` if
/// the label is not empty. Both are written in full, the label first, and
/// the first failure is returned at once.
pub fn mirror<W: Writable>(
    sink: &mut RecordedWriter<W>,
    label: &[u8],
    buf: &[u8],
    count: usize,
) -> (verdict: Result<(), std::io::Error>)
    requires
        count <= buf@.len(),
    ensures
        ({
            let added = final(sink).writes().skip(old(sink).writes().len() as int);
            let chunk = buf@.take(count as int);
            &&& final(sink).writes() == old(sink).writes() + added
            &&& mirrors(added, label@, chunk, verdict)
            &&& copied(old(sink).stream(), label@, chunk, final(sink).stream(), verdict)
        }),
{
    let ghost before = sink.writes();
    let ghost mut labelled: Seq<WriteEvent> = Seq::empty();
    if label.len() > 0 {
        let first = sink.write_all(label);
        proof {
            labelled = seq![(WriteEvent::WriteAll { data: label@, result: first })];
            assert(sink.writes().skip(before.len() as int) =~= labelled);
        }
        match first {
            Ok(_) => {
                assert(first->Ok_0 == ());
            },
            Err(e) => {
                return Err(e);
            },
        }
    }
    let chunk = slice_subrange(buf, 0, count);
    let verdict = sink.write_all(chunk);
    proof {
        assert(chunk@ =~= buf@.take(count as int));
        let added = sink.writes().skip(before.len() as int);
        let last = WriteEvent::WriteAll { data: chunk@, result: verdict };
        assert(added =~= labelled.push(last));
        if label@.len() == 0 {
            assert(added =~= seq![last]);
        } else {
            assert(added =~= seq![
                (WriteEvent::WriteAll { data: label@, result: Ok(()) }),
                last,
            ]);
        }
    }
    verdict
}

/// A copy in which nothing fails puts the label and then the chunk into the
/// sink.
pub proof fn lemma_mirror_events_bytes(label: Seq<u8>, chunk: Seq<u8>)
    ensures
        bytes_written(mirror_events(label, chunk)) == label + chunk,
{
    let data = WriteEvent::WriteAll { data: chunk, result: Ok(()) };
    assert(bytes_written(Seq::<WriteEvent>::empty()) =~= Seq::<u8>::empty());
    if label.len() == 0 {
        lemma_bytes_written_push(Seq::empty(), data);
        assert(mirror_events(label, chunk) =~= Seq::<WriteEvent>::empty().push(data));
        assert(bytes_written(mirror_events(label, chunk)) =~= label + chunk);
    } else {
        let first = WriteEvent::WriteAll { data: label, result: Ok(()) };
        lemma_bytes_written_push(Seq::empty(), first);
        lemma_bytes_written_push(seq![first], data);
        assert(seq![first] =~= Seq::<WriteEvent>::empty().push(first));
        assert(mirror_events(label, chunk) =~= seq![first].push(data));
        assert(bytes_written(seq![first]) =~= label);
        assert(bytes_written(mirror_events(label, chunk)) =~= label + chunk);
    }
}

/// A copy that succeeded has added the label and then the chunk to the bytes
/// written to the sink, and nothing else.
pub proof fn lemma_mirrored_bytes(
    before: Seq<WriteEvent>,
    after: Seq<WriteEvent>,
    label: Seq<u8>,
    chunk: Seq<u8>,
)
    requires
        after == before + after.skip(before.len() as int),
        mirrors(after.skip(before.len() as int), label, chunk, Ok(())),
    ensures
        after == before + mirror_events(label, chunk),
        bytes_written(after) == bytes_written(before) + label + chunk,
{
    let added = after.skip(before.len() as int);
    assert(added =~= mirror_events(label, chunk));
    assert(after =~= before + added);
    lemma_bytes_written_concat(before, added);
    lemma_mirror_events_bytes(label, chunk);
    assert(bytes_written(before) + (label + chunk) =~= bytes_written(before) + label + chunk);
}

} // verus!
