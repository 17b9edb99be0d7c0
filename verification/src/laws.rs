//! What holds of every decorated call, and of every run of them.
//!
//! The laws are stated over [`decorated`], the relation that the contracts of
//! `PrintReader::read` and `PrintWriter::write` establish between what the
//! primary stream reported, what was done to the sink, and what the call
//! returned.

use crate::mirror::{decorated, lemma_mirror_events_bytes, mirror_events, verdict_of};
use crate::stream::{
    bytes_written, lemma_bytes_written_concat, lemma_bytes_written_push, WriteEvent,
};
use vstd::prelude::*;

verus! {

/// What a run of calls in which nothing fails does to the sink, one copy
/// for each chunk moved.
pub open spec fn mirror_log(label: Seq<u8>, chunks: Seq<Seq<u8>>) -> Seq<WriteEvent>
    decreases chunks.len(),
{
    if chunks.len() == 0 {
        Seq::empty()
    } else {
        mirror_events(label, chunks.first()) + mirror_log(label, chunks.drop_first())
    }
}

/// The chunks in order, each preceded by the label.
pub open spec fn labelled(label: Seq<u8>, chunks: Seq<Seq<u8>>) -> Seq<u8>
    decreases chunks.len(),
{
    if chunks.len() == 0 {
        Seq::empty()
    } else {
        label + chunks.first() + labelled(label, chunks.drop_first())
    }
}

/// A call that succeeds is transparent and mirrors exactly: it returns what
/// the primary stream reported, and the sink receives the label and then the
/// very bytes that the primary stream moved, no more and no fewer.
pub proof fn lemma_success_mirrors_exactly(
    primary: Result<usize, std::io::Error>,
    chunk: Seq<u8>,
    added: Seq<WriteEvent>,
    label: Seq<u8>,
    res: Result<usize, std::io::Error>,
)
    requires
        decorated(primary, chunk, added, label, res),
        res is Ok,
    ensures
        res == primary,
        added == mirror_events(label, chunk),
        bytes_written(added) == label + chunk,
{
    assert(verdict_of(res) == Ok::<(), std::io::Error>(()));
    assert(added =~= mirror_events(label, chunk));
    lemma_mirror_events_bytes(label, chunk);
}

/// One more call in which nothing fails extends a run by one copy.
pub proof fn lemma_run_extends(label: Seq<u8>, chunks: Seq<Seq<u8>>, chunk: Seq<u8>)
    ensures
        mirror_log(label, chunks.push(chunk)) == mirror_log(label, chunks) + mirror_events(
            label,
            chunk,
        ),
        labelled(label, chunks.push(chunk)) == labelled(label, chunks) + label + chunk,
    decreases chunks.len(),
{
    let more = chunks.push(chunk);
    if chunks.len() == 0 {
        assert(more.drop_first() =~= chunks);
        assert(more.first() == chunk);
        assert(mirror_log(label, chunks) =~= Seq::<WriteEvent>::empty());
        assert(labelled(label, chunks) =~= Seq::<u8>::empty());
        assert(mirror_log(label, more) =~= mirror_log(label, chunks) + mirror_events(
            label,
            chunk,
        ));
        assert(labelled(label, more) =~= labelled(label, chunks) + label + chunk);
    } else {
        lemma_run_extends(label, chunks.drop_first(), chunk);
        assert(more.drop_first() =~= chunks.drop_first().push(chunk));
        assert(more.first() == chunks.first());
        assert(mirror_log(label, more) =~= mirror_log(label, chunks) + mirror_events(
            label,
            chunk,
        ));
        assert(labelled(label, more) =~= labelled(label, chunks) + label + chunk);
    }
}

/// Over any number of calls in which nothing fails, the sink receives every
/// chunk in order, each preceded by the label, and nothing else.
pub proof fn lemma_run_mirrors_every_chunk(label: Seq<u8>, chunks: Seq<Seq<u8>>)
    ensures
        bytes_written(mirror_log(label, chunks)) == labelled(label, chunks),
    decreases chunks.len(),
{
    if chunks.len() == 0 {
        assert(bytes_written(Seq::<WriteEvent>::empty()) =~= Seq::<u8>::empty());
    } else {
        lemma_run_mirrors_every_chunk(label, chunks.drop_first());
        lemma_mirror_events_bytes(label, chunks.first());
        lemma_bytes_written_concat(
            mirror_events(label, chunks.first()),
            mirror_log(label, chunks.drop_first()),
        );
    }
}

/// Without a label the sink receives the chunks and not one byte more,
/// however many calls are made.
pub proof fn lemma_empty_label_adds_nothing(chunks: Seq<Seq<u8>>)
    ensures
        labelled(Seq::empty(), chunks) == chunks.flatten(),
        bytes_written(mirror_log(Seq::empty(), chunks)) == chunks.flatten(),
    decreases chunks.len(),
{
    lemma_run_mirrors_every_chunk(Seq::empty(), chunks);
    if chunks.len() > 0 {
        lemma_empty_label_adds_nothing(chunks.drop_first());
        assert(Seq::<u8>::empty() + chunks.first() =~= chunks.first());
    }
}

/// Without a label one call puts into the sink the chunk if it succeeds and
/// nothing if it fails, whatever the streams do.
pub proof fn lemma_unlabelled_call_adds_only_the_chunk(
    primary: Result<usize, std::io::Error>,
    chunk: Seq<u8>,
    added: Seq<WriteEvent>,
    res: Result<usize, std::io::Error>,
)
    requires
        decorated(primary, chunk, added, Seq::empty(), res),
    ensures
        bytes_written(added) == if res is Ok {
            chunk
        } else {
            Seq::empty()
        },
{
    assert(bytes_written(Seq::<WriteEvent>::empty()) =~= Seq::<u8>::empty());
    if primary is Ok {
        let only = WriteEvent::WriteAll { data: chunk, result: verdict_of(res) };
        lemma_bytes_written_push(Seq::empty(), only);
        assert(added =~= Seq::<WriteEvent>::empty().push(only));
        assert(Seq::<u8>::empty() + only.accepted() =~= only.accepted());
    } else {
        assert(added =~= Seq::<WriteEvent>::empty());
    }
}

/// At end of stream the sink is still written to: when the primary stream
/// reports zero bytes, the label, if any, and then an empty chunk go to the
/// sink, and a call that succeeds returns zero.
pub proof fn lemma_end_of_stream_is_mirrored(
    added: Seq<WriteEvent>,
    label: Seq<u8>,
    res: Result<usize, std::io::Error>,
)
    requires
        decorated(Ok(0), Seq::empty(), added, label, res),
    ensures
        added.len() >= 1,
        added[0] matches WriteEvent::WriteAll { data, .. } && data == (if label.len() == 0 {
            Seq::<u8>::empty()
        } else {
            label
        }),
        res is Ok ==> res == Ok::<usize, std::io::Error>(0) && added == mirror_events(
            label,
            Seq::empty(),
        ) && bytes_written(added) == label,
{
    if res is Ok {
        lemma_success_mirrors_exactly(Ok(0), Seq::empty(), added, label, res);
        assert(label + Seq::<u8>::empty() =~= label);
    }
}

/// A failure of the sink fails the whole call, although the primary
/// operation has succeeded: if any operation on the sink failed, the call
/// returns that failure, and the failed operation is the last one made.
pub proof fn lemma_sink_failure_fails_call(
    primary: Result<usize, std::io::Error>,
    chunk: Seq<u8>,
    added: Seq<WriteEvent>,
    label: Seq<u8>,
    res: Result<usize, std::io::Error>,
    i: int,
)
    requires
        decorated(primary, chunk, added, label, res),
        0 <= i < added.len(),
        added[i].failed(),
    ensures
        primary is Ok,
        res is Err,
        i == added.len() - 1,
        added[i] matches WriteEvent::WriteAll { result, .. } && result == verdict_of(res),
{
}

/// A call fails only if one of its streams did: either the primary stream
/// failed, and then nothing was done to the sink, or the last operation on
/// the sink failed. In both cases the failure is returned as it came.
pub proof fn lemma_failure_has_a_cause(
    primary: Result<usize, std::io::Error>,
    chunk: Seq<u8>,
    added: Seq<WriteEvent>,
    label: Seq<u8>,
    res: Result<usize, std::io::Error>,
)
    requires
        decorated(primary, chunk, added, label, res),
        res is Err,
    ensures
        primary is Err ==> res == primary && added.len() == 0,
        primary is Ok ==> added.len() >= 1 && (added.last() matches WriteEvent::WriteAll {
            result,
            ..
        } && result == verdict_of(res)),
{
}

} // verus!
