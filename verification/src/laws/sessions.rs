//! What the two sides of the delta protocol do with a frame and with a change.

use crate::client;
use crate::delta::{entries_view, latest, log_state, merged, DeltaView, Log};
use crate::digest::crc32_of;
use crate::encoding::log_encoding;
use crate::frame::{
    accepts, ack_of, mismatch_of, write_of, ChecksumMismatch, ClientFrame, ClientFrameView, Frame,
    FrameView, ServerFrame, WriteAckFrame, WriteFrame, WriteFrameView,
};
use crate::laws::state::{
    law_greatest_number_comes_last, law_latest_is_the_greatest,
    law_what_comes_after_has_a_greater_number,
};
use crate::order::SequenceNumber;
use crate::server::{self, after_frame, session_at, Sessions};
use crate::session::{Address, ID};
use vstd::prelude::*;

verus! {

/// A frame is known by its kind and by what it holds.
pub proof fn law_frame_is_what_it_holds(
    write: WriteFrame,
    frame: Frame,
    to_server: ClientFrame,
    to_client: ServerFrame,
)
    ensures
        write@.new_deltas == entries_view(write.new_deltas@),
        write@.state_checksum == write.state_checksum,
        match frame {
            Frame::Write(held) => frame@ matches FrameView::Write(seen) && seen == held@,
            Frame::WriteAck(held) => frame@ matches FrameView::WriteAck(seen) && seen.seqn
                == held.seqn,
        },
        to_server@.session_id == to_server.session_id,
        to_server@.inner == to_server.inner@,
        to_client@.inner == to_client.inner@,
{
}

/// An outcome is known by its reply, or by the lack of one, or by the checksums that differ.
pub proof fn law_outcome_is_what_it_holds(
    client: Result<Option<Frame>, ChecksumMismatch>,
    server: Result<Option<ServerFrame>, ChecksumMismatch>,
)
    ensures
        match client {
            Ok(Some(reply)) => client::reply_view(client) matches Ok(Some(seen)) && seen == reply@,
            Ok(None) => client::reply_view(client) matches Ok(None),
            Err(mismatch) => client::reply_view(client) matches Err(seen) && seen == mismatch,
        },
        match server {
            Ok(Some(reply)) => server::reply_view(server) matches Ok(Some(seen)) && seen
                == reply.inner@,
            Ok(None) => server::reply_view(server) matches Ok(None),
            Err(mismatch) => server::reply_view(server) matches Err(seen) && seen == mismatch,
        },
{
}

/// A log accepts a write if and only if the checksum that the write carries is that of the log with
/// the write merged into it. Where it does not, the mismatch is between these two.
pub proof fn law_log_accepts_a_write_by_its_checksum(log: Log, write: WriteFrameView)
    ensures
        ({
            let sum = crc32_of(log_encoding(merged(log, write.new_deltas)));
            &&& accepts(log, write) <==> write.state_checksum == sum
            &&& mismatch_of(log, write).expected == sum
            &&& mismatch_of(log, write).received == write.state_checksum
        }),
{
}

/// What a write says of a log is what the log holds above a number, no less and no more, in
/// ascending order, with the checksum that it is given.
pub proof fn law_write_carries_what_is_above_a_number(
    log: Log,
    acknowledged: SequenceNumber,
    sum: u32,
)
    ensures
        ({
            let sent = write_of(log, acknowledged, sum);
            &&& sent.state_checksum == sum
            &&& forall|i: int, j: int|
                0 <= i < j < sent.new_deltas.len() ==> (#[trigger] sent.new_deltas[i]).0 < (
                #[trigger] sent.new_deltas[j]).0
            &&& forall|k: SequenceNumber, delta: DeltaView|
                #[trigger] sent.new_deltas.contains((k, delta)) <==> acknowledged < k
                    && log.contains_key(k) && log[k] == delta
        }),
{
    law_what_comes_after_has_a_greater_number(log, acknowledged);
}

/// To merge changes into a session's log, or to note an acknowledgement or an address, changes that
/// and nothing else.
pub proof fn law_session_changes_in_one_place(
    client: client::SessionView,
    session: server::SessionView,
    new_deltas: Seq<(SequenceNumber, DeltaView)>,
    seqn: SequenceNumber,
    address: Address,
)
    ensures
        ({
            let after = client.with_write(new_deltas);
            &&& after.deltas == merged(client.deltas, new_deltas)
            &&& after.id == client.id
            &&& after.last_acknowledged_seqn == client.last_acknowledged_seqn
        }),
        ({
            let after = client.acknowledged(seqn);
            &&& after.last_acknowledged_seqn == seqn
            &&& after.id == client.id
            &&& after.deltas == client.deltas
        }),
        ({
            let after = session.with_write(new_deltas);
            &&& after.deltas == merged(session.deltas, new_deltas)
            &&& after.remote_address == session.remote_address
            &&& after.last_acknowledged_seqn == session.last_acknowledged_seqn
        }),
        ({
            let after = session.acknowledged(seqn);
            &&& after.last_acknowledged_seqn == seqn
            &&& after.remote_address == session.remote_address
            &&& after.deltas == session.deltas
        }),
        ({
            let after = session.seen_at(address);
            &&& after.remote_address == address
            &&& after.last_acknowledged_seqn == session.last_acknowledged_seqn
            &&& after.deltas == session.deltas
        }),
{
}

/// A new session of the server's has an empty log, of which nothing has been acknowledged, and is
/// where its client sends from.
pub proof fn law_new_session_is_empty(from: Address)
    ensures
        server::SessionView::fresh(from).remote_address == from,
        server::SessionView::fresh(from).last_acknowledged_seqn == 0,
        forall|k: SequenceNumber| !server::SessionView::fresh(from).deltas.contains_key(k),
{
}

/// A server session takes in a write if and only if the checksum that the write carries is that of
/// its log with the write merged into it. It then acknowledges the greatest number of the log.
/// Otherwise it reports the two checksums, and all of it is as before. Where its client is, and how
/// far the client has the log, a write does not touch.
pub proof fn law_server_session_checks_every_write(
    session: server::SessionView,
    write: WriteFrameView,
)
    ensures
        ({
            let all = merged(session.deltas, write.new_deltas);
            let sum = crc32_of(log_encoding(all));
            let after = session.after(FrameView::Write(write));
            let reply = session.reply(FrameView::Write(write));
            &&& after.remote_address == session.remote_address
            &&& after.last_acknowledged_seqn == session.last_acknowledged_seqn
            &&& write.state_checksum == sum ==> after.deltas == all
            &&& write.state_checksum != sum ==> after.deltas == session.deltas
            &&& reply is Ok <==> write.state_checksum == sum
            &&& match reply {
                Ok(answer) => {
                    &&& answer matches Some(FrameView::WriteAck(ack))
                    &&& forall|k: SequenceNumber| #[trigger] all.contains_key(k) ==> k <= ack.seqn
                    &&& all.contains_key(ack.seqn) || (ack.seqn == 0 && forall|k: SequenceNumber|
                        !all.contains_key(k))
                },
                Err(mismatch) => {
                    &&& mismatch.expected == sum
                    &&& mismatch.received == write.state_checksum
                },
            }
        }),
{
    law_latest_is_the_greatest(merged(session.deltas, write.new_deltas));
}

/// A client takes in a write if and only if the checksum that the write carries is that of its log
/// with the write merged into it. It then acknowledges the greatest number of the log. Otherwise it
/// reports the two checksums, and all of it is as before. Who it is, and how far the server has the
/// log, a write does not touch.
pub proof fn law_client_checks_every_write(client: client::SessionView, write: WriteFrameView)
    ensures
        ({
            let all = merged(client.deltas, write.new_deltas);
            let sum = crc32_of(log_encoding(all));
            let after = client.after(FrameView::Write(write));
            let reply = client.reply(FrameView::Write(write));
            &&& after.id == client.id
            &&& after.last_acknowledged_seqn == client.last_acknowledged_seqn
            &&& write.state_checksum == sum ==> after.deltas == all
            &&& write.state_checksum != sum ==> after.deltas == client.deltas
            &&& reply is Ok <==> write.state_checksum == sum
            &&& match reply {
                Ok(answer) => {
                    &&& answer matches Some(FrameView::WriteAck(ack))
                    &&& forall|k: SequenceNumber| #[trigger] all.contains_key(k) ==> k <= ack.seqn
                    &&& all.contains_key(ack.seqn) || (ack.seqn == 0 && forall|k: SequenceNumber|
                        !all.contains_key(k))
                },
                Err(mismatch) => {
                    &&& mismatch.expected == sum
                    &&& mismatch.received == write.state_checksum
                },
            }
        }),
{
    law_latest_is_the_greatest(merged(client.deltas, write.new_deltas));
}

/// An acknowledgement is noted, whatever was acknowledged before. It is not answered, and changes
/// nothing else.
pub proof fn law_acknowledgement_is_noted(
    client: client::SessionView,
    session: server::SessionView,
    ack: WriteAckFrame,
)
    ensures
        ({
            let after = client.after(FrameView::WriteAck(ack));
            &&& after.last_acknowledged_seqn == ack.seqn
            &&& after.id == client.id
            &&& after.deltas == client.deltas
            &&& client.reply(FrameView::WriteAck(ack)) matches Ok(None)
        }),
        ({
            let after = session.after(FrameView::WriteAck(ack));
            &&& after.last_acknowledged_seqn == ack.seqn
            &&& after.remote_address == session.remote_address
            &&& after.deltas == session.deltas
            &&& session.reply(FrameView::WriteAck(ack)) matches Ok(None)
        }),
{
}

/// The frame that acknowledges a log carries the greatest number of the log.
pub proof fn law_acknowledgement_carries_the_greatest_number(log: Log)
    ensures
        ack_of(log) matches FrameView::WriteAck(ack) && (forall|k: SequenceNumber| #[trigger]
            log.contains_key(k) ==> k <= ack.seqn) && (log.contains_key(ack.seqn) || (ack.seqn == 0
            && forall|k: SequenceNumber| !log.contains_key(k))),
{
    law_latest_is_the_greatest(log);
}

/// A change of the server's goes under the greatest number that the log had, 0 where it was empty.
/// Under every other number the log holds what it held. So the change takes the place of the last
/// one: it appends to the state that all entries below it stand for, cuts it, or drops it.
pub proof fn law_server_change_replaces_the_last_one(
    session: server::SessionView,
    delta: DeltaView,
    seqn: SequenceNumber,
)
    requires
        forall|k: SequenceNumber| #[trigger] session.deltas.contains_key(k) ==> k <= seqn,
        session.deltas.contains_key(seqn) || (seqn == 0 && forall|k: SequenceNumber|
            !session.deltas.contains_key(k)),
    ensures
        ({
            let after = session.written(delta);
            let below = log_state(session.deltas.remove(seqn));
            let state = log_state(after.deltas);
            &&& after.remote_address == session.remote_address
            &&& after.last_acknowledged_seqn == session.last_acknowledged_seqn
            &&& after.deltas.contains_key(seqn)
            &&& after.deltas[seqn] == delta
            &&& forall|k: SequenceNumber|
                k != seqn ==> (#[trigger] after.deltas.contains_key(k)
                    <==> session.deltas.contains_key(k)) && (session.deltas.contains_key(k)
                    ==> after.deltas[k] == session.deltas[k])
            &&& match delta {
                DeltaView::Append(bytes) => state == below + bytes,
                DeltaView::Truncate(n) => {
                    &&& state.len() <= n
                    &&& state.len() == n || state.len() == below.len()
                    &&& state.is_prefix_of(below)
                },
                DeltaView::Reset => state.len() == 0,
            }
        }),
{
    law_latest_is_the_greatest(session.deltas);
    assert(latest(session.deltas) == seqn);
    let after = session.written(delta);
    assert forall|k: SequenceNumber| #[trigger] after.deltas.contains_key(k) implies k <= seqn by {
        assert(k == seqn || session.deltas.contains_key(k));
    }
    law_greatest_number_comes_last(after.deltas, seqn);
    assert(after.deltas.remove(seqn) =~= session.deltas.remove(seqn));
}

/// A change of a client's goes under the number that follows the greatest of its log, 1 where the
/// log is empty. The log holds all that it held. So the change appends to the state, cuts it, or
/// drops it.
pub proof fn law_client_change_comes_last(
    client: client::SessionView,
    delta: DeltaView,
    seqn: SequenceNumber,
)
    requires
        forall|k: SequenceNumber| #[trigger] client.deltas.contains_key(k) ==> k < seqn,
        client.deltas.contains_key((seqn - 1) as SequenceNumber) || (seqn == 1
            && forall|k: SequenceNumber| !client.deltas.contains_key(k)),
    ensures
        ({
            let after = client.written(delta);
            let before = log_state(client.deltas);
            let state = log_state(after.deltas);
            &&& after.id == client.id
            &&& after.last_acknowledged_seqn == client.last_acknowledged_seqn
            &&& after.deltas.contains_key(seqn)
            &&& after.deltas[seqn] == delta
            &&& forall|k: SequenceNumber|
                k != seqn ==> (#[trigger] after.deltas.contains_key(k)
                    <==> client.deltas.contains_key(k)) && (client.deltas.contains_key(k)
                    ==> after.deltas[k] == client.deltas[k])
            &&& match delta {
                DeltaView::Append(bytes) => state == before + bytes,
                DeltaView::Truncate(n) => {
                    &&& state.len() <= n
                    &&& state.len() == n || state.len() == before.len()
                    &&& state.is_prefix_of(before)
                },
                DeltaView::Reset => state.len() == 0,
            }
        }),
{
    law_latest_is_the_greatest(client.deltas);
    if client.deltas.contains_key((seqn - 1) as SequenceNumber) {
        assert(latest(client.deltas) == seqn - 1);
    } else {
        assert(latest(client.deltas) == 0);
    }
    let after = client.written(delta);
    assert forall|k: SequenceNumber| #[trigger] after.deltas.contains_key(k) implies k <= seqn by {
        assert(k == seqn || client.deltas.contains_key(k));
    }
    law_greatest_number_comes_last(after.deltas, seqn);
    assert(!client.deltas.contains_key(seqn));
    assert(after.deltas.remove(seqn) =~= client.deltas);
}

/// Both sides can make a change as long as there is a number behind the last acknowledged one. A
/// client needs one behind the greatest of its log too.
pub proof fn law_changes_can_be_made_while_there_are_numbers(
    client: client::SessionView,
    session: server::SessionView,
)
    ensures
        client.can_write() <==> !client.deltas.contains_key(SequenceNumber::MAX)
            && client.last_acknowledged_seqn != SequenceNumber::MAX,
        session.can_write() <==> session.last_acknowledged_seqn != SequenceNumber::MAX,
{
    law_latest_is_the_greatest(client.deltas);
}

/// What either side sends of a change is what its log holds above the last acknowledged number, no
/// less and no more, in ascending order, with the checksum of its whole log.
pub proof fn law_update_carries_what_is_not_acknowledged(
    client: client::SessionView,
    session: server::SessionView,
)
    ensures
        ({
            let sent = client.update();
            &&& sent.state_checksum == crc32_of(log_encoding(client.deltas))
            &&& forall|i: int, j: int|
                0 <= i < j < sent.new_deltas.len() ==> (#[trigger] sent.new_deltas[i]).0 < (
                #[trigger] sent.new_deltas[j]).0
            &&& forall|k: SequenceNumber, delta: DeltaView|
                #[trigger] sent.new_deltas.contains((k, delta)) <==> client.last_acknowledged_seqn
                    < k && client.deltas.contains_key(k) && client.deltas[k] == delta
        }),
        ({
            let sent = session.update();
            &&& sent.state_checksum == crc32_of(log_encoding(session.deltas))
            &&& forall|i: int, j: int|
                0 <= i < j < sent.new_deltas.len() ==> (#[trigger] sent.new_deltas[i]).0 < (
                #[trigger] sent.new_deltas[j]).0
            &&& forall|k: SequenceNumber, delta: DeltaView|
                #[trigger] sent.new_deltas.contains((k, delta)) <==> session.last_acknowledged_seqn
                    < k && session.deltas.contains_key(k) && session.deltas[k] == delta
        }),
{
    law_what_comes_after_has_a_greater_number(client.deltas, client.last_acknowledged_seqn);
    law_what_comes_after_has_a_greater_number(session.deltas, session.last_acknowledged_seqn);
}

/// What a client sends names its session, and says what it is to say.
pub proof fn law_envelope_names_the_session(client: client::SessionView, frame: FrameView)
    ensures
        client.envelope(frame).session_id == client.id,
        client.envelope(frame).inner == frame,
{
}

/// A session that the server has not heard of starts with an empty log, of which nothing has been
/// acknowledged. One that it knows has its log and what was acknowledged of it. Either is where the
/// client sends from.
pub proof fn law_session_is_found_or_made(sessions: Sessions, id: ID, from: Address)
    ensures
        ({
            let session = session_at(sessions, id, from);
            &&& session.remote_address == from
            &&& sessions.contains_key(id) ==> session.deltas == sessions[id].deltas
                && session.last_acknowledged_seqn == sessions[id].last_acknowledged_seqn
            &&& !sessions.contains_key(id) ==> session.last_acknowledged_seqn == 0
                && forall|k: SequenceNumber| !session.deltas.contains_key(k)
        }),
{
}

/// A client's frame does to its session, and to no other, what the session does with it: a write is
/// merged into the log if its checksum is right, an acknowledgement is noted.
pub proof fn law_server_hands_a_frame_to_its_session(
    sessions: Sessions,
    from: Address,
    frame: ClientFrameView,
)
    ensures
        ({
            let id = frame.session_id;
            let known = sessions.contains_key(id);
            let log = if known {
                sessions[id].deltas
            } else {
                Map::empty()
            };
            let acknowledged = if known {
                sessions[id].last_acknowledged_seqn
            } else {
                0
            };
            let served = after_frame(sessions, from, frame);
            let reply = session_at(sessions, id, from).reply(frame.inner);
            &&& forall|other: ID|
                other != id ==> (#[trigger] served.contains_key(other) <==> sessions.contains_key(
                    other,
                )) && (sessions.contains_key(other) ==> served[other] == sessions[other])
            &&& served.contains_key(id)
            &&& served[id].remote_address == from
            &&& match frame.inner {
                FrameView::Write(write) => {
                    let all = merged(log, write.new_deltas);
                    let right = write.state_checksum == crc32_of(log_encoding(all));
                    &&& served[id].last_acknowledged_seqn == acknowledged
                    &&& right ==> served[id].deltas == all
                    &&& !right ==> served[id].deltas == log
                    &&& reply is Ok <==> right
                    &&& reply matches Ok(answer) ==> answer is Some
                },
                FrameView::WriteAck(ack) => {
                    &&& served[id].last_acknowledged_seqn == ack.seqn
                    &&& served[id].deltas == log
                    &&& reply matches Ok(None)
                },
            }
        }),
{
}

} // verus!
