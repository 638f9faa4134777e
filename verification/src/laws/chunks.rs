//! What a chunk server does with a frame and with a chunk.

use crate::chunk::{
    chunks_of, chunks_state, joined, joined_from, next_seqn, reply, reply_view, Chunks, Frame,
    FrameView, ServerView,
};
use crate::laws::state::law_greatest_is_the_greatest;
use crate::order::{
    entries, lemma_ordered_empty, lemma_ordered_insert_last, lemma_same_map, ordered, seconds,
    seqn_end, SequenceNumber,
};
use vstd::prelude::*;

verus! {

/// A frame is known by its kind and by what it holds.
pub proof fn law_chunk_frame_is_what_it_holds(frame: Frame)
    ensures
        match frame {
            Frame::Write { bytes, checksum, seqn } => {
                &&& frame@ matches FrameView::Write { bytes: seen, checksum: sum, seqn: number }
                &&& seen == bytes@
                &&& sum == checksum
                &&& number == seqn
            },
            Frame::WriteAck { seqn } => frame@ matches FrameView::WriteAck { seqn: number }
                && number == seqn,
        },
{
}

/// A reply, or the lack of one, is known by what it holds.
pub proof fn law_chunk_reply_is_what_it_holds(answer: Option<Frame>)
    ensures
        match answer {
            Some(frame) => reply_view(answer) matches Some(seen) && seen == frame@,
            None => reply_view(answer) is None,
        },
{
}

/// A tree of chunks is known by the bytes under each number.
pub proof fn law_tree_is_what_it_holds(tree: Map<SequenceNumber, Vec<u8>>, k: SequenceNumber)
    ensures
        chunks_of(tree).contains_key(k) <==> tree.contains_key(k),
        tree.contains_key(k) ==> chunks_of(tree)[k] == tree[k]@,
{
}

/// A chunk is acknowledged by its own number, whatever it holds and whether it is kept. An
/// acknowledgement is not answered.
pub proof fn law_chunk_is_acknowledged_by_its_number(frame: FrameView)
    ensures
        match frame {
            FrameView::Write { bytes, checksum, seqn } => reply(frame) matches Some(
                FrameView::WriteAck { seqn: acknowledged },
            ) && acknowledged == seqn,
            FrameView::WriteAck { seqn } => reply(frame) is None,
        },
{
}

/// A chunk is kept if its number is greater than all others, and left out if not. What the server
/// has under other numbers stays as it is, and so does all else. The checksum does not matter.
pub proof fn law_chunk_is_kept_if_its_number_is_new(
    server: ServerView,
    bytes: Seq<u8>,
    checksum: u32,
    seqn: SequenceNumber,
)
    ensures
        ({
            let after = server.after(FrameView::Write { bytes, checksum, seqn });
            let greater = forall|k: SequenceNumber| #[trigger]
                server.chunks.contains_key(k) ==> k < seqn;
            &&& after.address == server.address
            &&& after.last_acknowledged_seqn == server.last_acknowledged_seqn
            &&& greater ==> after.chunks.contains_key(seqn) && after.chunks[seqn] == bytes
            &&& !greater ==> after.chunks == server.chunks
            &&& forall|k: SequenceNumber|
                k != seqn ==> (#[trigger] after.chunks.contains_key(k)
                    <==> server.chunks.contains_key(k)) && (server.chunks.contains_key(k)
                    ==> after.chunks[k] == server.chunks[k])
        }),
{
    law_greatest_is_the_greatest(server.chunks);
}

/// An acknowledgement is noted, whatever was acknowledged before, and changes nothing else.
pub proof fn law_chunk_acknowledgement_is_noted(server: ServerView, seqn: SequenceNumber)
    ensures
        ({
            let after = server.after(FrameView::WriteAck { seqn });
            &&& after.last_acknowledged_seqn == seqn
            &&& after.address == server.address
            &&& after.chunks == server.chunks
        }),
{
}

/// The next chunk gets the number that follows the greatest, 0 where there is none.
pub proof fn law_next_number_follows_the_greatest(chunks: Chunks)
    ensures
        forall|k: SequenceNumber| #[trigger] chunks.contains_key(k) ==> k < next_seqn(chunks),
        0 <= next_seqn(chunks) <= 0x1_0000_0000,
        next_seqn(chunks) == 0 || chunks.contains_key((next_seqn(chunks) - 1) as SequenceNumber),
{
    law_greatest_is_the_greatest(chunks);
}

/// A chunk can be written unless the greatest of all numbers is taken.
pub proof fn law_chunks_can_be_written_while_there_are_numbers(server: ServerView)
    ensures
        server.can_write() <==> !server.chunks.contains_key(SequenceNumber::MAX),
{
    law_greatest_is_the_greatest(server.chunks);
}

/// A chunk that the server writes gets the number that follows the greatest, 0 where there is none.
/// All other chunks stay as they are, and so does all else.
pub proof fn law_written_chunk_gets_the_next_number(
    server: ServerView,
    bytes: Seq<u8>,
    seqn: SequenceNumber,
)
    requires
        forall|k: SequenceNumber| #[trigger] server.chunks.contains_key(k) ==> k < seqn,
        seqn == 0 || server.chunks.contains_key((seqn - 1) as SequenceNumber),
    ensures
        ({
            let after = server.written(bytes);
            &&& after.address == server.address
            &&& after.last_acknowledged_seqn == server.last_acknowledged_seqn
            &&& after.chunks.contains_key(seqn)
            &&& after.chunks[seqn] == bytes
            &&& forall|k: SequenceNumber|
                k != seqn ==> (#[trigger] after.chunks.contains_key(k)
                    <==> server.chunks.contains_key(k)) && (server.chunks.contains_key(k)
                    ==> after.chunks[k] == server.chunks[k])
        }),
{
    law_greatest_is_the_greatest(server.chunks);
    if seqn > 0 {
        assert(server.chunks.contains_key((seqn - 1) as SequenceNumber));
    } else {
        assert(forall|k: SequenceNumber| !server.chunks.contains_key(k));
    }
    assert(next_seqn(server.chunks) == seqn);
}

/// No runs join to no bytes, and one more run is put behind what the others join to.
pub proof fn law_runs_join_one_behind_the_other(runs: Seq<Seq<u8>>, run: Seq<u8>)
    ensures
        runs.len() == 0 ==> joined(runs).len() == 0,
        joined(runs.push(run)) == joined(runs) + run,
{
    assert(runs.push(run).drop_last() =~= runs);
}

/// No chunks make no bytes. The chunk under the greatest number is put behind what the others make.
pub proof fn law_chunks_join_in_the_order_of_their_numbers(chunks: Chunks, last: SequenceNumber)
    ensures
        (forall|k: SequenceNumber| !chunks.contains_key(k)) ==> chunks_state(chunks).len() == 0,
        chunks.contains_key(last) && (forall|k: SequenceNumber| #[trigger]
            chunks.contains_key(k) ==> k <= last) ==> chunks_state(chunks) == chunks_state(
            chunks.remove(last),
        ) + chunks[last],
{
    if forall|k: SequenceNumber| !chunks.contains_key(k) {
        lemma_same_map(chunks, Map::empty());
        lemma_ordered_empty::<Seq<u8>>();
        assert(seconds(ordered(chunks)) =~= Seq::empty());
    }
    if chunks.contains_key(last) && (forall|k: SequenceNumber| #[trigger]
        chunks.contains_key(k) ==> k <= last) {
        let others = chunks.remove(last);
        lemma_ordered_insert_last(others, last, chunks[last]);
        assert(others.insert(last, chunks[last]) =~= chunks);
        assert(seconds(ordered(chunks)).drop_last() =~= seconds(ordered(others)));
    }
}

/// What comes from a number on are the bytes of the chunks that have it or a greater one: the state
/// that is left when the lower ones are taken out.
pub proof fn law_chunks_from_a_number_on(chunks: Chunks, from: SequenceNumber)
    ensures
        joined_from(chunks, from) == chunks_state(
            chunks.restrict(Set::new(|k: SequenceNumber| from <= k)),
        ),
{
    let kept = chunks.restrict(Set::new(|k: SequenceNumber| from <= k));
    lemma_entries_of_the_kept(chunks, kept, from, seqn_end());
}

/// Taking out the entries below a number leaves those from it on.
proof fn lemma_entries_of_the_kept(chunks: Chunks, kept: Chunks, from: SequenceNumber, hi: int)
    requires
        0 <= hi <= seqn_end(),
        kept == chunks.restrict(Set::new(|k: SequenceNumber| from <= k)),
    ensures
        entries(chunks, from as int, hi) == entries(kept, 0, hi),
    decreases hi,
{
    if 0 < hi {
        lemma_entries_of_the_kept(chunks, kept, from, hi - 1);
        let k = (hi - 1) as SequenceNumber;
        assert(kept.contains_key(k) <==> chunks.contains_key(k) && from <= k);
        if hi <= from {
            assert(entries(chunks, from as int, hi - 1) =~= Seq::empty());
        }
    }
}

/// The frame that tells of a chunk carries the chunks from the last acknowledged number on, with
/// the number and the checksum that it is given.
pub proof fn law_chunk_frame_carries_from_the_acknowledged_on(
    server: ServerView,
    seqn: SequenceNumber,
    checksum: u32,
)
    ensures
        ({
            let acknowledged = server.last_acknowledged_seqn;
            let kept = server.chunks.restrict(Set::new(|k: SequenceNumber| acknowledged <= k));
            &&& server.write_of(seqn, checksum) matches FrameView::Write {
                bytes,
                checksum: sum,
                seqn: number,
            }
            &&& bytes == chunks_state(kept)
            &&& sum == checksum
            &&& number == seqn
        }),
{
    law_chunks_from_a_number_on(server.chunks, server.last_acknowledged_seqn);
}

} // verus!
