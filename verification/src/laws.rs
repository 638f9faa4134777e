//! What holds of the protocols as a whole, between peers whose machines have the same byte order
//! and the same word width: what a checksum is fed depends on both.

use crate::chunk::{self, chunks_state, lemma_next_chunk, next_seqn};
use crate::client::{self, lemma_written};
use crate::delta::{
    applied, distinct, entries_after, last_for, latest, lemma_last_for, lemma_merged, log_state,
    merged, resolved, DeltaView, Log,
};
use crate::digest::lemma_length_first;
use crate::encoding::{
    delta_fits, entries_encoding, lemma_entries_tell_apart, log_checksum, log_encoding, log_fits,
};
use crate::frame::{accepts, ack_of, write_of, ChecksumMismatch, ClientFrameView, FrameView};
use crate::mirror;
use crate::order::{
    lemma_entries, lemma_greatest, lemma_ordered_empty,
    lemma_ordered_insert_last, lemma_ordered_tells_apart, lemma_same_map, ordered, seconds,
    seqn_end, SequenceNumber,
};
use crate::server::{self, after_frame, session_at, Sessions};
use crate::session::{Address, ID};
use vstd::prelude::*;

pub mod calls;
pub mod checksums;
pub mod chunks;
pub mod endpoints;
pub mod mirrors;
pub mod sessions;
pub mod state;

verus! {

/// A run of changes may be merged into one, whatever changes follow.
pub proof fn law_merge_keeps_the_state(head: Seq<DeltaView>, tail: Seq<DeltaView>)
    ensures
        resolved(seq![DeltaView::Append(resolved(head))] + tail) == resolved(head + tail),
    decreases tail.len(),
{
    let merged_head = seq![DeltaView::Append(resolved(head))];
    if tail.len() == 0 {
        assert(merged_head + tail =~= merged_head);
        assert(head + tail =~= head);
        assert(resolved(merged_head.drop_last()) =~= Seq::empty());
        assert(Seq::<u8>::empty() + resolved(head) =~= resolved(head));
    } else {
        law_merge_keeps_the_state(head, tail.drop_last());
        assert((merged_head + tail).drop_last() =~= merged_head + tail.drop_last());
        assert((head + tail).drop_last() =~= head + tail.drop_last());
    }
}

/// What comes before a reset does not matter.
pub proof fn law_reset_forgets(head: Seq<DeltaView>, tail: Seq<DeltaView>)
    ensures
        resolved(head + seq![DeltaView::Reset] + tail) == resolved(tail),
    decreases tail.len(),
{
    let start = head + seq![DeltaView::Reset];
    if tail.len() == 0 {
        assert(start + tail =~= start);
    } else {
        law_reset_forgets(head, tail.drop_last());
        assert((start + tail).drop_last() =~= start + tail.drop_last());
    }
}

/// A change whose number comes after all others applies to the state that the log had.
pub proof fn law_next_change_applies(log: Log, seqn: SequenceNumber, delta: DeltaView)
    requires
        forall|k: SequenceNumber| #[trigger] log.contains_key(k) ==> k < seqn,
    ensures
        log_state(log.insert(seqn, delta)) == applied(log_state(log), delta),
{
    lemma_ordered_insert_last(log, seqn, delta);
    let changes = seconds(ordered(log.insert(seqn, delta)));
    assert(changes.drop_last() =~= seconds(ordered(log)));
}

/// To write the same changes into a log again changes nothing.
pub proof fn law_writing_twice_is_writing_once(log: Log, new: Seq<(SequenceNumber, DeltaView)>)
    ensures
        merged(merged(log, new), new) == merged(log, new),
{
    let once = merged(log, new);
    let twice = merged(once, new);
    assert forall|k: SequenceNumber|
        #[trigger] twice.contains_key(k) == once.contains_key(k) && (once.contains_key(k)
            ==> twice[k] == once[k]) by {
        lemma_merged(log, new, k);
        lemma_merged(once, new, k);
    }
    lemma_same_map(twice, once);
}

/// Changes may be written into a log in any order: their numbers decide, not when they come.
pub proof fn law_order_of_arrival_does_not_matter(
    log: Log,
    a: Seq<(SequenceNumber, DeltaView)>,
    b: Seq<(SequenceNumber, DeltaView)>,
)
    requires
        distinct(a),
        distinct(b),
        forall|e: (SequenceNumber, DeltaView)| #[trigger] a.contains(e) <==> b.contains(e),
    ensures
        merged(log, a) == merged(log, b),
{
    let x = merged(log, a);
    let y = merged(log, b);
    assert forall|k: SequenceNumber|
        #[trigger] x.contains_key(k) == y.contains_key(k) && (y.contains_key(k) ==> x[k]
            == y[k]) by {
        lemma_merged(log, a, k);
        lemma_merged(log, b, k);
        lemma_last_for(a, k);
        lemma_last_for(b, k);
        if last_for(a, k) is Some {
            assert(a.contains((k, last_for(a, k)->0)));
        }
        if last_for(b, k) is Some {
            assert(b.contains((k, last_for(b, k)->0)));
            assert(a.contains((k, last_for(b, k)->0)));
        }
    }
    lemma_same_map(x, y);
}

/// Logs that feed a checksum the same bytes are the same: where the checksums of different logs
/// agree, two different runs of bytes have the same CRC-32.
pub proof fn law_encoding_tells_logs_apart(a: Log, b: Log)
    requires
        log_fits(a),
        log_fits(b),
        log_encoding(a) == log_encoding(b),
    ensures
        a == b,
{
    lemma_entries(a, 0, seqn_end());
    lemma_entries(b, 0, seqn_end());
    lemma_length_first(
        ordered(a).len(),
        entries_encoding(ordered(a)),
        ordered(b).len(),
        entries_encoding(ordered(b)),
    );
    assert forall|i: int| 0 <= i < ordered(a).len() implies delta_fits(
        (#[trigger] ordered(a)[i]).1,
    ) by {
        assert(a.contains_key(ordered(a)[i].0));
    }
    assert forall|i: int| 0 <= i < ordered(b).len() implies delta_fits(
        (#[trigger] ordered(b)[i]).1,
    ) by {
        assert(b.contains_key(ordered(b)[i].0));
    }
    lemma_entries_tell_apart(ordered(a), ordered(b));
    lemma_ordered_tells_apart(a, b);
}

/// Whether a peer that holds `behind` lacks nothing of `ahead` but what comes after
/// `acknowledged`, and holds nothing that `ahead` does not.
pub open spec fn lags(behind: Log, ahead: Log, acknowledged: SequenceNumber) -> bool {
    forall|k: SequenceNumber|
        #![trigger behind.contains_key(k)]
        #![trigger ahead.contains_key(k)]
        {
            &&& behind.contains_key(k) ==> ahead.contains_key(k)
            &&& k <= acknowledged && ahead.contains_key(k) ==> behind.contains_key(k) && behind[k]
                == ahead[k]
        }
}

/// The write that tells a peer of all that it has not acknowledged brings the peer's log to the
/// sender's, and the peer accepts it.
pub proof fn law_update_catches_up(behind: Log, ahead: Log, acknowledged: SequenceNumber)
    requires
        lags(behind, ahead, acknowledged),
    ensures
        merged(behind, entries_after(ahead, acknowledged)) == ahead,
        accepts(behind, write_of(ahead, acknowledged, log_checksum(ahead))),
{
    let new = entries_after(ahead, acknowledged);
    let all = merged(behind, new);
    lemma_entries(ahead, acknowledged + 1, seqn_end());
    assert(distinct(new));
    assert forall|k: SequenceNumber|
        #[trigger] all.contains_key(k) == ahead.contains_key(k) && (ahead.contains_key(k) ==> all[k]
            == ahead[k]) by {
        lemma_merged(behind, new, k);
        lemma_last_for(new, k);
        assert(behind.contains_key(k) ==> ahead.contains_key(k));
        match last_for(new, k) {
            Some(delta) => {
                assert(new.contains((k, delta)));
                let i = choose|i: int| 0 <= i < new.len() && new[i] == (k, delta);
                assert(ahead.contains_key(new[i].0));
            },
            None => {
                if ahead.contains_key(k) && acknowledged < k {
                    assert(new.contains((k, ahead[k])));
                }
            },
        }
    }
    lemma_same_map(all, ahead);
}

/// Whether the server's log lags behind a client's no further than the client knows.
pub open spec fn in_step(server: Log, client: client::SessionView) -> bool {
    &&& lags(server, client.deltas, client.last_acknowledged_seqn)
    &&& client.last_acknowledged_seqn <= latest(client.deltas)
}

/// A new client is in step with a server that has not heard of it.
pub proof fn law_new_client_is_in_step(id: ID, from: Address)
    ensures
        in_step(
            server::SessionView::fresh(from).deltas,
            client::SessionView { id, deltas: Map::empty(), last_acknowledged_seqn: 0 },
        ),
{
}

/// Whatever is lost on the way, a client that makes a change stays in step with the server. Where
/// the write arrives, the server accepts it, its log becomes the client's, its state the client's
/// old state with the change applied, and it acknowledges all of it.
pub proof fn law_client_write_reaches_the_server(
    client: client::SessionView,
    sessions: Sessions,
    from: Address,
    delta: DeltaView,
)
    requires
        client.can_write(),
        in_step(session_at(sessions, client.id, from).deltas, client),
    ensures
        ({
            let session = session_at(sessions, client.id, from);
            let written = client.written(delta);
            let frame = written.envelope(FrameView::Write(written.update()));
            let served = after_frame(sessions, from, frame)[client.id];
            let ack = ack_of(written.deltas);
            &&& served.deltas == written.deltas
            &&& log_state(served.deltas) == applied(log_state(client.deltas), delta)
            &&& session.reply(frame.inner) == Ok::<Option<FrameView>, ChecksumMismatch>(Some(ack))
            // The write is lost.
            &&& in_step(session.deltas, written)
            // The write arrives, the acknowledgement is lost.
            &&& in_step(served.deltas, written)
            // Both arrive.
            &&& in_step(served.deltas, written.after(ack))
        }),
{
    let session = session_at(sessions, client.id, from);
    let written = client.written(delta);
    let seqn = (latest(client.deltas) + 1) as SequenceNumber;
    lemma_greatest(client.deltas);
    lemma_written(client, delta);
    assert forall|k: SequenceNumber| #[trigger] session.deltas.contains_key(k) implies k < seqn by {
        assert(client.deltas.contains_key(k));
    }
    assert(lags(session.deltas, written.deltas, client.last_acknowledged_seqn));
    law_update_catches_up(session.deltas, written.deltas, client.last_acknowledged_seqn);
}

/// What a client and the sessions come to when the client makes a change, its write arrives, and
/// the reply arrives.
pub open spec fn exchange(
    client: client::SessionView,
    sessions: Sessions,
    from: Address,
    delta: DeltaView,
) -> (client::SessionView, Sessions) {
    let written = client.written(delta);
    let frame = written.envelope(FrameView::Write(written.update()));
    let answered = match session_at(sessions, client.id, from).reply(frame.inner) {
        Ok(Some(reply)) => written.after(reply),
        _ => written,
    };
    (answered, after_frame(sessions, from, frame))
}

/// What a client and the sessions come to when the client makes changes one after the other, and
/// nothing is lost.
pub open spec fn exchanges(
    client: client::SessionView,
    sessions: Sessions,
    from: Address,
    deltas: Seq<DeltaView>,
) -> (client::SessionView, Sessions)
    decreases deltas.len(),
{
    if deltas.len() == 0 {
        (client, sessions)
    } else {
        let before = exchanges(client, sessions, from, deltas.drop_last());
        exchange(before.0, before.1, from, deltas.last())
    }
}

/// When a new client makes changes and nothing is lost, the server has the client's log, and its
/// state is what the changes resolve to.
pub proof fn law_synchronises(id: ID, sessions: Sessions, from: Address, deltas: Seq<DeltaView>)
    requires
        !sessions.contains_key(id),
        0 < deltas.len() <= SequenceNumber::MAX,
    ensures
        ({
            let client = client::SessionView {
                id,
                deltas: Map::empty(),
                last_acknowledged_seqn: 0,
            };
            let (client, served) = exchanges(client, sessions, from, deltas);
            &&& served.contains_key(id)
            &&& served[id].deltas == client.deltas
            &&& log_state(served[id].deltas) == resolved(deltas)
            &&& latest(client.deltas) == deltas.len()
            &&& client.last_acknowledged_seqn == deltas.len()
        }),
    decreases deltas.len(),
{
    let start = client::SessionView { id, deltas: Map::empty(), last_acknowledged_seqn: 0 };
    let (client, served) = exchanges(start, sessions, from, deltas.drop_last());
    lemma_exchanges(start, sessions, from, deltas.drop_last());
    law_client_write_reaches_the_server(client, served, from, deltas.last());
    lemma_written(client, deltas.last());
}

/// Changes that a new client makes keep it in step.
proof fn lemma_exchanges(
    start: client::SessionView,
    sessions: Sessions,
    from: Address,
    deltas: Seq<DeltaView>,
)
    requires
        !sessions.contains_key(start.id),
        start.deltas == Map::<SequenceNumber, DeltaView>::empty(),
        start.last_acknowledged_seqn == 0,
        deltas.len() < SequenceNumber::MAX,
    ensures
        ({
            let (client, served) = exchanges(start, sessions, from, deltas);
            &&& client.id == start.id
            &&& in_step(session_at(served, start.id, from).deltas, client)
            &&& log_state(client.deltas) == resolved(deltas)
            &&& latest(client.deltas) == deltas.len()
            &&& client.last_acknowledged_seqn == deltas.len()
        }),
    decreases deltas.len(),
{
    if deltas.len() == 0 {
        lemma_ordered_empty::<DeltaView>();
        assert(seconds(ordered(start.deltas)) =~= Seq::empty());
    } else {
        let (client, served) = exchanges(start, sessions, from, deltas.drop_last());
        lemma_exchanges(start, sessions, from, deltas.drop_last());
        law_client_write_reaches_the_server(client, served, from, deltas.last());
        lemma_written(client, deltas.last());
    }
}

/// A change that the server makes reaches a client that lags behind no further than the server
/// knows, as long as the latest number, which the change goes under, has not been acknowledged.
pub proof fn law_server_write_reaches_the_client(
    session: server::SessionView,
    client: client::SessionView,
    delta: DeltaView,
)
    requires
        lags(client.deltas, session.deltas, session.last_acknowledged_seqn),
        session.last_acknowledged_seqn < latest(session.deltas),
    ensures
        ({
            let written = session.written(delta);
            let write = FrameView::Write(written.update());
            &&& client.after(write).deltas == written.deltas
            &&& client.reply(write) == Ok::<Option<FrameView>, ChecksumMismatch>(
                Some(ack_of(written.deltas)),
            )
        }),
{
    let written = session.written(delta);
    lemma_greatest(session.deltas);
    assert(lags(client.deltas, written.deltas, session.last_acknowledged_seqn));
    law_update_catches_up(client.deltas, written.deltas, session.last_acknowledged_seqn);
}

/// A client's frame touches no session but the client's.
pub proof fn law_sessions_are_apart(
    sessions: Sessions,
    from: Address,
    frame: ClientFrameView,
    other: ID,
)
    requires
        other != frame.session_id,
    ensures
        after_frame(sessions, from, frame).contains_key(other) == sessions.contains_key(other),
        sessions.contains_key(other) ==> after_frame(sessions, from, frame)[other]
            == sessions[other],
{
}

/// Whatever a client sends, its session is known afterwards at the address it was sent from.
pub proof fn law_server_knows_where_a_client_is(
    sessions: Sessions,
    from: Address,
    frame: ClientFrameView,
)
    ensures
        after_frame(sessions, from, frame).contains_key(frame.session_id),
        after_frame(sessions, from, frame)[frame.session_id].remote_address == from,
{
}

/// What a chunk server writes is put at the end of its state.
pub proof fn law_chunk_server_write_appends(server: chunk::ServerView, bytes: Seq<u8>)
    requires
        server.can_write(),
    ensures
        chunks_state(server.written(bytes).chunks) == chunks_state(server.chunks) + bytes,
{
    lemma_greatest(server.chunks);
    lemma_next_chunk(server.chunks, next_seqn(server.chunks) as SequenceNumber, bytes);
}

/// A frame leaves the state of a chunk server as it is, or puts the frame's bytes at its end:
/// nothing that was written is ever lost.
pub proof fn law_chunk_server_only_appends(server: chunk::ServerView, frame: chunk::FrameView)
    ensures
        match frame {
            chunk::FrameView::Write { bytes, checksum, seqn } => chunks_state(
                server.after(frame).chunks,
            ) == (if next_seqn(server.chunks) <= seqn {
                chunks_state(server.chunks) + bytes
            } else {
                chunks_state(server.chunks)
            }),
            chunk::FrameView::WriteAck { seqn } => server.after(frame).chunks == server.chunks,
        },
{
    if let chunk::FrameView::Write { bytes, checksum, seqn } = frame {
        if next_seqn(server.chunks) <= seqn {
            lemma_next_chunk(server.chunks, seqn, bytes);
        }
    }
}

/// A frame that comes in again changes nothing in a chunk server.
pub proof fn law_chunk_server_takes_a_frame_once(
    server: chunk::ServerView,
    frame: chunk::FrameView,
)
    ensures
        server.after(frame).after(frame) == server.after(frame),
{
    if let chunk::FrameView::Write { bytes, checksum, seqn } = frame {
        lemma_greatest(server.chunks);
        lemma_greatest(server.after(frame).chunks);
        assert(server.after(frame).chunks.contains_key(seqn) || next_seqn(server.chunks) > seqn);
    }
}

/// As long as nothing has been acknowledged, the frame that tells of a chunk carries the whole
/// state of a chunk server.
pub proof fn law_first_chunk_frame_carries_the_state(
    server: chunk::ServerView,
    seqn: SequenceNumber,
    checksum: u32,
)
    requires
        server.last_acknowledged_seqn == 0,
    ensures
        server.write_of(seqn, checksum) == (chunk::FrameView::Write {
            bytes: chunks_state(server.chunks),
            checksum,
            seqn,
        }),
{
}

/// A peer that holds the bytes that the writer of a mirror held before it wrote accepts the
/// write, and then holds what the writer holds.
pub proof fn law_mirror_write_is_accepted(state: Seq<u8>, bytes: Seq<u8>)
    ensures
        mirror::accepts(state, mirror::write_of(state, bytes)),
        state + mirror::write_of(state, bytes).bytes == state + bytes,
{
}

} // verus!
