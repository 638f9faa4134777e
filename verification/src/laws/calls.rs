//! What the calls of the library do, in terms of what goes in and what comes out.
//!
//! Each law speaks of any call that keeps its contract: of its arguments, of what they are before
//! and after it, and of its result.

use crate::chunk;
use crate::client;
use crate::delta::{
    borrowed_view, deltas_view, entries_view, log_state, merge, merged, resolve, Delta, DeltaView,
    Deltas,
};
use crate::digest::{bytes_encoding, checksum, crc32_of, Encode};
use crate::encoding::log_encoding;
use crate::endpoint::{decimal, host_and_port, lemma_first_colon, InvalidPort};
use crate::frame::{
    compare_checksums, ChecksumMismatch, ClientFrame, Frame, ServerFrame, WriteAckFrame,
    WriteFrame,
};
use crate::laws::chunks::{
    law_chunk_frame_carries_from_the_acknowledged_on,
    law_chunks_join_in_the_order_of_their_numbers, law_next_number_follows_the_greatest,
};
use crate::laws::law_next_change_applies;
use crate::laws::sessions::{
    law_client_change_comes_last, law_server_change_replaces_the_last_one,
    law_update_carries_what_is_not_acknowledged, law_write_carries_what_is_above_a_number,
};
use crate::laws::state::{law_latest_is_the_greatest, law_what_comes_after_has_a_greater_number};
use crate::mirror;
use crate::order::SequenceNumber;
use crate::server;
use crate::session::{Address, ID};
use std::collections::BTreeMap;
use vstd::prelude::*;
use vstd::std_specs::iter::IteratorSpec;

verus! {

/// An address without a colon is the host, and the port is the default one.
pub proof fn law_host_alone_gets_the_default_port(
    address: &str,
    default_port: u16,
    outcome: Result<(&str, u16), InvalidPort>,
)
    requires
        call_ensures(host_and_port, (address, default_port), outcome),
        forall|i: int| 0 <= i < address@.len() ==> #[trigger] address@[i] != ':',
    ensures
        outcome matches Ok((host, port)) && host@ == address@ && port == default_port,
{
    lemma_first_colon(address@, address@.len() as int);
}

/// What comes before the first colon is the host, and what comes after it, less one plus sign, is
/// the port: one decimal digit or more, and at most 65535. All else is refused.
pub proof fn law_host_and_port_part_at_the_first_colon(
    address: &str,
    default_port: u16,
    outcome: Result<(&str, u16), InvalidPort>,
    host: Seq<char>,
    digits: Seq<char>,
)
    requires
        call_ensures(host_and_port, (address, default_port), outcome),
        address@ == host + seq![':'] + digits || address@ == host + seq![':', '+'] + digits,
        forall|i: int| 0 <= i < host.len() ==> #[trigger] host[i] != ':',
        address@ == host + seq![':'] + digits && digits.len() > 0 ==> digits[0] != '+',
    ensures
        outcome is Ok <==> {
            &&& digits.len() > 0
            &&& forall|i: int| 0 <= i < digits.len() ==> '0' <= #[trigger] digits[i] <= '9'
            &&& decimal(digits) <= 65535
        },
        outcome matches Ok((seen, port)) ==> seen@ == host && port == decimal(digits),
{
    let at = host.len() as int;
    assert(address@[at] == ':');
    assert forall|i: int| 0 <= i < at implies address@[i] != ':' by {
        assert(address@[i] == host[i]);
    }
    lemma_first_colon(address@, at);
    assert(address@.take(at) =~= host);
    let rest = address@.skip(at + 1);
    if address@ == host + seq![':'] + digits {
        assert(rest =~= digits);
    } else {
        assert(rest[0] == '+');
        assert(rest.skip(1) =~= digits);
    }
}

/// Checksums are compared by their equality, and where they differ each is reported in its place.
pub proof fn law_checksums_are_compared(
    expected: u32,
    received: u32,
    outcome: Result<(), ChecksumMismatch>,
)
    requires
        call_ensures(compare_checksums, (expected, received), outcome),
    ensures
        outcome is Ok <==> expected == received,
        outcome matches Err(mismatch) ==> mismatch.expected == expected && mismatch.received
            == received,
{
}

/// A run of changes resolves to what its last change makes of what the others resolve to: bytes
/// come behind it, a cut leaves the first bytes, a reset leaves none. To merge the run is to append
/// what it resolves to.
pub proof fn law_run_is_resolved<'a, I: Iterator<Item = &'a Delta>>(
    others: I,
    before: Vec<u8>,
    run: I,
    after: Vec<u8>,
    one: Delta,
)
    requires
        run.remaining().len() > 0,
        others.remaining() == run.remaining().drop_last(),
        call_ensures(resolve, (others,), before),
        call_ensures(resolve, (run,), after),
        call_ensures(merge, (run,), one),
    ensures
        match *run.remaining().last() {
            Delta::Append(bytes) => {
                &&& after@.len() == before@.len() + bytes@.len()
                &&& forall|i: int| 0 <= i < before@.len() ==> #[trigger] after@[i] == before@[i]
                &&& forall|i: int|
                    before@.len() <= i < after@.len() ==> #[trigger] after@[i] == bytes@[i
                        - before@.len()]
            },
            Delta::Truncate(n) => {
                &&& after@.len() <= n
                &&& after@.len() == n || after@.len() == before@.len()
                &&& after@.len() <= before@.len()
                &&& forall|i: int| 0 <= i < after@.len() ==> #[trigger] after@[i] == before@[i]
            },
            Delta::Reset => after@.len() == 0,
        },
        one matches Delta::Append(bytes) && bytes@ == after@,
{
    let seen = borrowed_view(run.remaining());
    assert(seen.drop_last() =~= borrowed_view(others.remaining()));
}

/// No changes resolve to no bytes.
pub proof fn law_no_changes_resolve_to_nothing<'a, I: Iterator<Item = &'a Delta>>(
    run: I,
    state: Vec<u8>,
)
    requires
        run.remaining().len() == 0,
        call_ensures(resolve, (run,), state),
    ensures
        state@.len() == 0,
{
}

/// The checksum of a value is the CRC-32 of what it feeds.
pub proof fn law_checksum_is_the_crc32_of_what_is_fed<T: Encode>(value: T, sum: u32)
    requires
        call_ensures(checksum, (value,), sum),
    ensures
        sum == crc32_of(value.encoding()),
{
}

/// A change that is put into a log under a number above all others shows in the state: bytes come
/// behind what was there, a cut leaves the first bytes, a reset leaves none.
pub proof fn law_change_shows_in_the_state(
    was: &Deltas,
    before: Vec<u8>,
    log: &mut Deltas,
    seqn: SequenceNumber,
    delta: Delta,
    is: &Deltas,
    after: Vec<u8>,
)
    requires
        was@ == old(log)@,
        call_ensures(Deltas::resolve, (was,), before),
        forall|k: SequenceNumber| #[trigger] was@.contains_key(k) ==> k < seqn,
        call_ensures(Deltas::insert, (log, seqn, delta), ()),
        is@ == final(log)@,
        call_ensures(Deltas::resolve, (is,), after),
    ensures
        match delta {
            Delta::Append(bytes) => {
                &&& after@.len() == before@.len() + bytes@.len()
                &&& forall|i: int| 0 <= i < before@.len() ==> #[trigger] after@[i] == before@[i]
                &&& forall|i: int|
                    before@.len() <= i < after@.len() ==> #[trigger] after@[i] == bytes@[i
                        - before@.len()]
            },
            Delta::Truncate(n) => {
                &&& after@.len() <= n
                &&& after@.len() == n || after@.len() == before@.len()
                &&& after@.len() <= before@.len()
                &&& forall|i: int| 0 <= i < after@.len() ==> #[trigger] after@[i] == before@[i]
            },
            Delta::Reset => after@.len() == 0,
        },
{
    law_next_change_applies(was@, seqn, delta@);
}

/// New logs hold nothing, and stand for no bytes.
pub proof fn law_new_logs_are_empty(made: Deltas, state: Vec<u8>)
    requires
        call_ensures(Deltas::new, (), made),
        call_ensures(Deltas::resolve, (&made,), state),
    ensures
        forall|k: SequenceNumber| !made@.contains_key(k),
        state@.len() == 0,
{
}

/// A log holds under a number what was put there last, and under others what it held.
pub proof fn law_log_holds_what_was_put_there(log: &mut Deltas, seqn: SequenceNumber, delta: Delta)
    requires
        call_ensures(Deltas::insert, (log, seqn, delta), ()),
    ensures
        final(log)@.contains_key(seqn),
        final(log)@[seqn] == delta@,
        forall|k: SequenceNumber|
            k != seqn ==> (#[trigger] final(log)@.contains_key(k) <==> old(log)@.contains_key(k))
                && (old(log)@.contains_key(k) ==> final(log)@[k] == old(log)@[k]),
{
}

/// Many changes are written into a log as one after the other is.
pub proof fn law_many_changes_are_merged(log: &mut Deltas, new: Vec<(SequenceNumber, Delta)>)
    requires
        call_ensures(Deltas::insert_many, (log, new), ()),
    ensures
        final(log)@ == merged(old(log)@, entries_view(new@)),
{
}

/// A log that is made of changes holds them as if they had been written into an empty one. A copy
/// of a change or of a log holds what it is a copy of.
pub proof fn law_logs_are_made_and_copied(
    entries: Vec<(SequenceNumber, Delta)>,
    made: Deltas,
    copy: Deltas,
    delta: &Delta,
    same: Delta,
)
    requires
        call_ensures(Deltas::from, (entries,), made),
        call_ensures(Deltas::clone, (&made,), copy),
        call_ensures(Delta::clone, (delta,), same),
    ensures
        made@ == merged(Map::empty(), entries_view(entries@)),
        copy@ == made@,
        match *delta {
            Delta::Append(bytes) => same matches Delta::Append(copied) && copied@ == bytes@,
            Delta::Truncate(n) => same matches Delta::Truncate(kept) && kept == n,
            Delta::Reset => same is Reset,
        },
{
}

/// The latest number of a log is in it and none is greater. That of the empty log is 0.
pub proof fn law_latest_number_is_found(log: &Deltas, seqn: SequenceNumber)
    requires
        call_ensures(Deltas::latest_seqn, (log,), seqn),
    ensures
        forall|k: SequenceNumber| #[trigger] log@.contains_key(k) ==> k <= seqn,
        log@.contains_key(seqn) || (seqn == 0 && forall|k: SequenceNumber| !log@.contains_key(k)),
{
    law_latest_is_the_greatest(log@);
}

/// The changes since a number are those with a greater one, each with its number, in ascending
/// order, and none is left out. Without their numbers they are the same.
pub proof fn law_changes_since_a_number(
    log: &Deltas,
    seqn: &SequenceNumber,
    numbered: Vec<(SequenceNumber, Delta)>,
    changes: Vec<Delta>,
)
    requires
        call_ensures(Deltas::entries_since, (log, seqn), numbered),
        call_ensures(Deltas::since, (log, seqn), changes),
    ensures
        forall|i: int, j: int|
            0 <= i < j < numbered@.len() ==> (#[trigger] numbered@[i]).0 < (
            #[trigger] numbered@[j]).0,
        forall|i: int|
            0 <= i < numbered@.len() ==> *seqn < (#[trigger] numbered@[i]).0 && log@.contains_key(
                numbered@[i].0,
            ) && log@[numbered@[i].0] == numbered@[i].1@,
        forall|k: SequenceNumber| #[trigger]
            log@.contains_key(k) && *seqn < k ==> exists|i: int|
                0 <= i < numbered@.len() && (#[trigger] numbered@[i]).0 == k,
        changes@.len() == numbered@.len(),
        forall|i: int| 0 <= i < changes@.len() ==> (#[trigger] changes@[i])@ == numbered@[i].1@,
{
    let found = entries_view(numbered@);
    law_what_comes_after_has_a_greater_number(log@, *seqn);
    assert forall|i: int, j: int| 0 <= i < j < numbered@.len() implies (#[trigger] numbered@[i]).0
        < (#[trigger] numbered@[j]).0 by {
        assert(found[i].0 < found[j].0);
    }
    assert forall|i: int| 0 <= i < numbered@.len() implies *seqn < (#[trigger] numbered@[i]).0
        && log@.contains_key(numbered@[i].0) && log@[numbered@[i].0] == numbered@[i].1@ by {
        assert(found[i] == (numbered@[i].0, numbered@[i].1@));
        assert(found.contains((numbered@[i].0, numbered@[i].1@)));
    }
    assert forall|k: SequenceNumber| #[trigger]
        log@.contains_key(k) && *seqn < k implies exists|i: int|
        0 <= i < numbered@.len() && (#[trigger] numbered@[i]).0 == k by {
        assert(found.contains((k, log@[k])));
        let i = choose|i: int| 0 <= i < found.len() && found[i] == (k, log@[k]);
        assert(numbered@[i].0 == k);
    }
    let bare = deltas_view(changes@);
    assert(bare.len() == found.len());
    assert forall|i: int| 0 <= i < changes@.len() implies (#[trigger] changes@[i])@
        == numbered@[i].1@ by {
        assert(bare[i] == found[i].1);
    }
}

/// The checksum of a log is the CRC-32 of what it feeds. The one that is taken ahead is that of the
/// log with the changes written into it.
pub proof fn law_log_checksum_is_taken(
    log: &mut Deltas,
    was: &Deltas,
    new: Vec<(SequenceNumber, Delta)>,
    ahead: u32,
    is: &Deltas,
    sum: u32,
)
    requires
        was@ == old(log)@,
        call_ensures(Deltas::checksum_with, (was, &new), ahead),
        call_ensures(Deltas::insert_many, (log, new), ()),
        is@ == final(log)@,
        call_ensures(Deltas::checksum, (is,), sum),
    ensures
        ahead == sum,
        sum == crc32_of(log_encoding(is@)),
{
}

/// A client takes in a write if and only if the checksum that the write carries is that of its log
/// with the write merged into it. It then acknowledges the greatest number of its log. Otherwise it
/// is as before, and reports the two checksums.
pub proof fn law_client_receives_a_write(
    client: &mut client::Session,
    frame: WriteFrame,
    outcome: Result<WriteAckFrame, ChecksumMismatch>,
)
    requires
        call_ensures(client::Session::receive_write, (client, frame), outcome),
    ensures
        ({
            let all = merged(old(client)@.deltas, entries_view(frame.new_deltas@));
            let sum = crc32_of(log_encoding(all));
            &&& final(client)@.id == old(client)@.id
            &&& final(client)@.last_acknowledged_seqn == old(client)@.last_acknowledged_seqn
            &&& outcome is Ok <==> frame.state_checksum == sum
            &&& match outcome {
                Ok(ack) => {
                    &&& final(client)@.deltas == all
                    &&& forall|k: SequenceNumber| #[trigger] all.contains_key(k) ==> k <= ack.seqn
                    &&& all.contains_key(ack.seqn) || (ack.seqn == 0 && forall|k: SequenceNumber|
                        !all.contains_key(k))
                },
                Err(mismatch) => {
                    &&& final(client)@.deltas == old(client)@.deltas
                    &&& mismatch.expected == sum
                    &&& mismatch.received == frame.state_checksum
                },
            }
        }),
{
    law_latest_is_the_greatest(merged(old(client)@.deltas, entries_view(frame.new_deltas@)));
}

/// A server session takes in a write if and only if the checksum that the write carries is that of
/// its log with the write merged into it. It then acknowledges the greatest number of its log.
/// Otherwise it is as before, and reports the two checksums.
pub proof fn law_server_session_receives_a_write(
    session: &mut server::Session,
    frame: WriteFrame,
    outcome: Result<Option<ServerFrame>, ChecksumMismatch>,
)
    requires
        call_ensures(server::Session::receive_write, (session, frame), outcome),
    ensures
        ({
            let all = merged(old(session)@.deltas, entries_view(frame.new_deltas@));
            let sum = crc32_of(log_encoding(all));
            &&& final(session)@.remote_address == old(session)@.remote_address
            &&& final(session)@.last_acknowledged_seqn == old(session)@.last_acknowledged_seqn
            &&& outcome is Ok <==> frame.state_checksum == sum
            &&& match outcome {
                Ok(reply) => {
                    &&& final(session)@.deltas == all
                    &&& reply matches Some(ServerFrame { inner: Frame::WriteAck(ack) })
                    &&& forall|k: SequenceNumber| #[trigger] all.contains_key(k) ==> k <= ack.seqn
                    &&& all.contains_key(ack.seqn) || (ack.seqn == 0 && forall|k: SequenceNumber|
                        !all.contains_key(k))
                },
                Err(mismatch) => {
                    &&& final(session)@.deltas == old(session)@.deltas
                    &&& mismatch.expected == sum
                    &&& mismatch.received == frame.state_checksum
                },
            }
        }),
{
    law_latest_is_the_greatest(merged(old(session)@.deltas, entries_view(frame.new_deltas@)));
}

/// What either side takes without a test it merges and acknowledges all the same.
pub proof fn law_changes_are_merged_and_acknowledged(
    client: &mut client::Session,
    session: &mut server::Session,
    new_deltas: Vec<(SequenceNumber, Delta)>,
    ack: WriteAckFrame,
    reply: Option<ServerFrame>,
)
    requires
        call_ensures(client::Session::apply_write, (client, new_deltas), ack),
        call_ensures(server::Session::apply_write, (session, new_deltas), reply),
    ensures
        ({
            let all = merged(old(client)@.deltas, entries_view(new_deltas@));
            &&& final(client)@.deltas == all
            &&& final(client)@.id == old(client)@.id
            &&& final(client)@.last_acknowledged_seqn == old(client)@.last_acknowledged_seqn
            &&& forall|k: SequenceNumber| #[trigger] all.contains_key(k) ==> k <= ack.seqn
            &&& all.contains_key(ack.seqn) || (ack.seqn == 0 && forall|k: SequenceNumber|
                !all.contains_key(k))
        }),
        ({
            let all = merged(old(session)@.deltas, entries_view(new_deltas@));
            &&& final(session)@.deltas == all
            &&& final(session)@.remote_address == old(session)@.remote_address
            &&& final(session)@.last_acknowledged_seqn == old(session)@.last_acknowledged_seqn
            &&& reply matches Some(ServerFrame { inner: Frame::WriteAck(sent) })
            &&& forall|k: SequenceNumber| #[trigger] all.contains_key(k) ==> k <= sent.seqn
            &&& all.contains_key(sent.seqn) || (sent.seqn == 0 && forall|k: SequenceNumber|
                !all.contains_key(k))
        }),
{
    law_latest_is_the_greatest(merged(old(client)@.deltas, entries_view(new_deltas@)));
    law_latest_is_the_greatest(merged(old(session)@.deltas, entries_view(new_deltas@)));
}

/// Either side notes an acknowledgement, whatever it has noted before, and nothing else changes.
pub proof fn law_either_side_notes_an_acknowledgement(
    client: &mut client::Session,
    session: &mut server::Session,
    ack: WriteAckFrame,
    reply: Option<ServerFrame>,
)
    requires
        call_ensures(client::Session::on_write_ack, (client, ack), ()),
        call_ensures(server::Session::on_write_ack, (session, ack), reply),
    ensures
        final(client)@.last_acknowledged_seqn == ack.seqn,
        final(client)@.id == old(client)@.id,
        final(client)@.deltas == old(client)@.deltas,
        final(session)@.last_acknowledged_seqn == ack.seqn,
        final(session)@.remote_address == old(session)@.remote_address,
        final(session)@.deltas == old(session)@.deltas,
        reply is None,
{
}

/// Both sides do with a frame what they do with the write or the acknowledgement that it holds.
pub proof fn law_either_side_takes_in_a_frame(
    client: &mut client::Session,
    session: &mut server::Session,
    frame: Frame,
    said: Result<Option<Frame>, ChecksumMismatch>,
    reply: Result<Option<ServerFrame>, ChecksumMismatch>,
)
    requires
        call_ensures(
            client::Session::on_frame,
            (client, (ServerFrame { inner: frame })),
            said,
        ),
        call_ensures(server::Session::on_frame, (session, frame), reply),
        old(client)@.deltas == old(session)@.deltas,
    ensures
        final(client)@.deltas == final(session)@.deltas,
        final(client)@.id == old(client)@.id,
        final(session)@.remote_address == old(session)@.remote_address,
        match frame {
            Frame::Write(write) => {
                let all = merged(old(client)@.deltas, entries_view(write.new_deltas@));
                let sum = crc32_of(log_encoding(all));
                &&& final(client)@.last_acknowledged_seqn == old(client)@.last_acknowledged_seqn
                &&& final(session)@.last_acknowledged_seqn == old(session)@.last_acknowledged_seqn
                &&& write.state_checksum == sum ==> {
                    &&& final(client)@.deltas == all
                    &&& said matches Ok(Some(Frame::WriteAck(ack)))
                    &&& reply matches Ok(Some(ServerFrame { inner: Frame::WriteAck(same) }))
                    &&& ack.seqn == same.seqn
                    &&& forall|k: SequenceNumber| #[trigger] all.contains_key(k) ==> k <= ack.seqn
                    &&& all.contains_key(ack.seqn) || (ack.seqn == 0 && forall|k: SequenceNumber|
                        !all.contains_key(k))
                }
                &&& write.state_checksum != sum ==> {
                    &&& final(client)@.deltas == old(client)@.deltas
                    &&& said matches Err(mismatch)
                    &&& reply matches Err(same)
                    &&& mismatch == same
                    &&& mismatch.expected == sum
                    &&& mismatch.received == write.state_checksum
                }
            },
            Frame::WriteAck(ack) => {
                &&& final(client)@.deltas == old(client)@.deltas
                &&& final(client)@.last_acknowledged_seqn == ack.seqn
                &&& final(session)@.last_acknowledged_seqn == ack.seqn
                &&& said matches Ok(None)
                &&& reply matches Ok(None)
            },
        },
{
    if let Frame::Write(write) = frame {
        law_latest_is_the_greatest(merged(old(client)@.deltas, entries_view(write.new_deltas@)));
    }
}

/// A client acknowledges a write whose checksum is right, reports one whose checksum is not, and
/// answers nothing else. It does so in its own name.
pub proof fn law_client_answers_a_frame(
    client: &mut client::Session,
    frame: ServerFrame,
    action: client::Action,
)
    requires
        call_ensures(
            client::Session::step,
            (client, (client::Event::Decoded { frame })),
            action,
        ),
    ensures
        final(client)@.id == old(client)@.id,
        match frame.inner {
            Frame::Write(write) => {
                let all = merged(old(client)@.deltas, entries_view(write.new_deltas@));
                let sum = crc32_of(log_encoding(all));
                &&& final(client)@.last_acknowledged_seqn == old(client)@.last_acknowledged_seqn
                &&& write.state_checksum == sum ==> {
                    &&& final(client)@.deltas == all
                    &&& action matches client::Action::Send { frame: sent }
                    &&& sent.session_id == old(client)@.id
                    &&& sent.inner matches Frame::WriteAck(ack)
                    &&& forall|k: SequenceNumber| #[trigger] all.contains_key(k) ==> k <= ack.seqn
                    &&& all.contains_key(ack.seqn) || (ack.seqn == 0 && forall|k: SequenceNumber|
                        !all.contains_key(k))
                }
                &&& write.state_checksum != sum ==> {
                    &&& final(client)@.deltas == old(client)@.deltas
                    &&& action matches client::Action::Fail { mismatch }
                    &&& mismatch.expected == sum
                    &&& mismatch.received == write.state_checksum
                }
            },
            Frame::WriteAck(ack) => {
                &&& final(client)@.last_acknowledged_seqn == ack.seqn
                &&& final(client)@.deltas == old(client)@.deltas
                &&& action is Receive
            },
        },
{
    if let Frame::Write(write) = frame.inner {
        law_latest_is_the_greatest(merged(old(client)@.deltas, entries_view(write.new_deltas@)));
    }
}

/// A client stops at an empty datagram, has any other one read, whole, and waits for the next once
/// it has sent. None of this changes it.
pub proof fn law_client_goes_on(
    client: &mut client::Session,
    event: client::Event,
    action: client::Action,
)
    requires
        call_ensures(client::Session::step, (client, event), action),
        !(event is Decoded),
    ensures
        final(client)@ == old(client)@,
        match event {
            client::Event::Received { len } => if len == 0 {
                action is Stop
            } else {
                action matches client::Action::Decode { len: read } && read == len
            },
            _ => action is Receive,
        },
{
}

/// A server answers where the frame came from, as the session does that the frame names. It makes
/// the session where there is none, and leaves all others as they are.
pub proof fn law_server_answers_a_frame(
    server: &mut server::Server,
    from: Address,
    frame: ClientFrame,
    action: server::Action,
)
    requires
        call_ensures(
            server::Server::step,
            (server, (server::Event::Decoded { from, frame })),
            action,
        ),
    ensures
        ({
            let id = frame.session_id;
            let log = if old(server)@.contains_key(id) {
                old(server)@[id].deltas
            } else {
                Map::empty()
            };
            let acknowledged = if old(server)@.contains_key(id) {
                old(server)@[id].last_acknowledged_seqn
            } else {
                0
            };
            let after = final(server)@[id];
            &&& forall|other: ID|
                other != id ==> (#[trigger] final(server)@.contains_key(other)
                    <==> old(server)@.contains_key(other)) && (old(server)@.contains_key(other)
                    ==> final(server)@[other] == old(server)@[other])
            &&& final(server)@.contains_key(id)
            &&& after.remote_address == from
            &&& match frame.inner {
                Frame::Write(write) => {
                    let all = merged(log, entries_view(write.new_deltas@));
                    let sum = crc32_of(log_encoding(all));
                    &&& after.last_acknowledged_seqn == acknowledged
                    &&& write.state_checksum == sum ==> {
                        &&& after.deltas == all
                        &&& action matches server::Action::Send { to, frame: sent }
                        &&& to == from
                        &&& sent.inner matches Frame::WriteAck(ack)
                        &&& forall|k: SequenceNumber| #[trigger]
                            all.contains_key(k) ==> k <= ack.seqn
                        &&& all.contains_key(ack.seqn) || (ack.seqn == 0
                            && forall|k: SequenceNumber| !all.contains_key(k))
                    }
                    &&& write.state_checksum != sum ==> {
                        &&& after.deltas == log
                        &&& action matches server::Action::Fail { mismatch }
                        &&& mismatch.expected == sum
                        &&& mismatch.received == write.state_checksum
                    }
                },
                Frame::WriteAck(ack) => {
                    &&& after.last_acknowledged_seqn == ack.seqn
                    &&& after.deltas == log
                    &&& action is Receive
                },
            }
        }),
{
    let log = if old(server)@.contains_key(frame.session_id) {
        old(server)@[frame.session_id].deltas
    } else {
        Map::empty()
    };
    if let Frame::Write(write) = frame.inner {
        law_latest_is_the_greatest(merged(log, entries_view(write.new_deltas@)));
    }
}

/// A server stops at an empty datagram, has any other one read, whole, and waits for the next once
/// it has sent. None of this changes it.
pub proof fn law_server_goes_on(
    server: &mut server::Server,
    event: server::Event,
    action: server::Action,
)
    requires
        call_ensures(server::Server::step, (server, event), action),
        !(event is Decoded),
    ensures
        final(server)@ == old(server)@,
        match event {
            server::Event::Received { from, len } => if len == 0 {
                action is Stop
            } else {
                action matches server::Action::Decode { from: source, len: read } && source == from
                    && read == len
            },
            _ => action is Receive,
        },
{
}

/// A new server has no session. The state of a session is what its log stands for, and asking for
/// it changes nothing.
pub proof fn law_server_tells_the_state_of_a_session(
    made: server::Server,
    server: &mut server::Server,
    id: ID,
    state: Option<Vec<u8>>,
)
    requires
        call_ensures(server::Server::new, (), made),
        call_ensures(server::Server::state_of, (server, id), state),
    ensures
        forall|other: ID| !made@.contains_key(other),
        final(server)@ == old(server)@,
        state is Some <==> old(server)@.contains_key(id),
        state matches Some(bytes) ==> bytes@ == log_state(old(server)@[id].deltas),
{
}

/// New sessions have empty logs, of which nothing has been acknowledged.
pub proof fn law_new_sessions_are_empty(
    id: ID,
    client: client::Session,
    from: Address,
    session: server::Session,
)
    requires
        call_ensures(client::Session::new, (id,), client),
        call_ensures(server::Session::new, (from,), session),
    ensures
        client@.id == id,
        client@.last_acknowledged_seqn == 0,
        forall|k: SequenceNumber| !client@.deltas.contains_key(k),
        session@.remote_address == from,
        session@.last_acknowledged_seqn == 0,
        forall|k: SequenceNumber| !session@.deltas.contains_key(k),
{
}

/// A client's change goes under the number that follows the greatest of its log, 1 where the log is
/// empty, and shows at the end of its state. The frame that tells of it names the client and
/// carries all that the log holds above the last acknowledged number, in ascending order, with the
/// checksum of the log.
pub proof fn law_client_writes_a_change(
    client: &mut client::Session,
    delta: Delta,
    sent: ClientFrame,
    seqn: SequenceNumber,
)
    requires
        call_ensures(client::Session::write, (client, delta), sent),
        forall|k: SequenceNumber| #[trigger] old(client)@.deltas.contains_key(k) ==> k < seqn,
        old(client)@.deltas.contains_key((seqn - 1) as SequenceNumber) || (seqn == 1
            && forall|k: SequenceNumber| !old(client)@.deltas.contains_key(k)),
    ensures
        ({
            let log = final(client)@.deltas;
            let before = log_state(old(client)@.deltas);
            let state = log_state(log);
            let acknowledged = old(client)@.last_acknowledged_seqn;
            &&& final(client)@.id == old(client)@.id
            &&& final(client)@.last_acknowledged_seqn == acknowledged
            &&& log.contains_key(seqn)
            &&& log[seqn] == delta@
            &&& forall|k: SequenceNumber|
                k != seqn ==> (#[trigger] log.contains_key(k) <==> old(client)@.deltas.contains_key(
                    k,
                )) && (old(client)@.deltas.contains_key(k) ==> log[k] == old(client)@.deltas[k])
            &&& match delta {
                Delta::Append(bytes) => state == before + bytes@,
                Delta::Truncate(n) => {
                    &&& state.len() <= n
                    &&& state.len() == n || state.len() == before.len()
                    &&& state.is_prefix_of(before)
                },
                Delta::Reset => state.len() == 0,
            }
            &&& sent.session_id == old(client)@.id
            &&& sent.inner matches Frame::Write(write)
            &&& write.state_checksum == crc32_of(log_encoding(log))
            &&& forall|i: int, j: int|
                0 <= i < j < write@.new_deltas.len() ==> (#[trigger] write@.new_deltas[i]).0 < (
                #[trigger] write@.new_deltas[j]).0
            &&& forall|k: SequenceNumber, d: DeltaView|
                #[trigger] write@.new_deltas.contains((k, d)) <==> acknowledged < k
                    && log.contains_key(k) && log[k] == d
        }),
{
    law_client_change_comes_last(old(client)@, delta@, seqn);
    law_update_carries_what_is_not_acknowledged(
        final(client)@,
        arbitrary::<server::SessionView>(),
    );
}

/// A server's change goes under the greatest number that the log had, 0 where it was empty, and
/// leaves all other numbers as they are: it takes the place of the last change. The frame that
/// tells of it goes to where the client is and carries all that the log holds above the last
/// acknowledged number, in ascending order, with the checksum of the log.
pub proof fn law_server_writes_a_change(
    server: &server::Server,
    session: &mut server::Session,
    delta: Delta,
    sent: (Address, ServerFrame),
    seqn: SequenceNumber,
)
    requires
        call_ensures(server::Server::write, (server, delta, session), sent),
        forall|k: SequenceNumber| #[trigger] old(session)@.deltas.contains_key(k) ==> k <= seqn,
        old(session)@.deltas.contains_key(seqn) || (seqn == 0 && forall|k: SequenceNumber|
            !old(session)@.deltas.contains_key(k)),
    ensures
        ({
            let log = final(session)@.deltas;
            let below = log_state(old(session)@.deltas.remove(seqn));
            let state = log_state(log);
            let acknowledged = old(session)@.last_acknowledged_seqn;
            &&& final(session)@.remote_address == old(session)@.remote_address
            &&& final(session)@.last_acknowledged_seqn == acknowledged
            &&& log.contains_key(seqn)
            &&& log[seqn] == delta@
            &&& forall|k: SequenceNumber|
                k != seqn ==> (#[trigger] log.contains_key(k)
                    <==> old(session)@.deltas.contains_key(k)) && (old(
                    session,
                )@.deltas.contains_key(k) ==> log[k] == old(session)@.deltas[k])
            &&& match delta {
                Delta::Append(bytes) => state == below + bytes@,
                Delta::Truncate(n) => {
                    &&& state.len() <= n
                    &&& state.len() == n || state.len() == below.len()
                    &&& state.is_prefix_of(below)
                },
                Delta::Reset => state.len() == 0,
            }
            &&& sent.0 == old(session)@.remote_address
            &&& sent.1.inner matches Frame::Write(write)
            &&& write.state_checksum == crc32_of(log_encoding(log))
            &&& forall|i: int, j: int|
                0 <= i < j < write@.new_deltas.len() ==> (#[trigger] write@.new_deltas[i]).0 < (
                #[trigger] write@.new_deltas[j]).0
            &&& forall|k: SequenceNumber, d: DeltaView|
                #[trigger] write@.new_deltas.contains((k, d)) <==> acknowledged < k
                    && log.contains_key(k) && log[k] == d
        }),
{
    law_server_change_replaces_the_last_one(old(session)@, delta@, seqn);
    law_update_carries_what_is_not_acknowledged(
        arbitrary::<client::SessionView>(),
        final(session)@,
    );
}

/// Either side can make a change as long as there is a number behind the last acknowledged one. A
/// client needs one behind the greatest of its log too.
pub proof fn law_either_side_can_write_while_there_are_numbers(
    client: &client::Session,
    client_can: bool,
    session: &server::Session,
    session_can: bool,
)
    requires
        call_ensures(client::Session::can_write, (client,), client_can),
        call_ensures(server::Session::can_write, (session,), session_can),
    ensures
        client_can <==> !client@.deltas.contains_key(SequenceNumber::MAX)
            && client@.last_acknowledged_seqn != SequenceNumber::MAX,
        session_can <==> session@.last_acknowledged_seqn != SequenceNumber::MAX,
{
    law_latest_is_the_greatest(client@.deltas);
}

/// A client's frames name the client, and say what they are to say.
pub proof fn law_client_names_itself(client: &client::Session, frame: Frame, sent: ClientFrame)
    requires
        call_ensures(client::Session::envelope, (client, frame), sent),
    ensures
        sent.session_id == client@.id,
        sent.inner@ == frame@,
{
}

/// The log that a session shows is its log.
pub proof fn law_sessions_show_their_logs(
    client: &client::Session,
    client_log: &Deltas,
    session: &server::Session,
    session_log: &Deltas,
)
    requires
        call_ensures(client::Session::deltas, (client,), client_log),
        call_ensures(server::Session::deltas, (session,), session_log),
    ensures
        client_log@ == client@.deltas,
        session_log@ == session@.deltas,
{
}

/// What either side has not had acknowledged is what its log holds above the last acknowledged
/// number, in ascending order, and it goes with the checksum that is given.
pub proof fn law_either_side_tells_what_is_not_acknowledged(
    client: &client::Session,
    said: WriteFrame,
    session: &server::Session,
    told: WriteFrame,
    sum: u32,
)
    requires
        call_ensures(client::Session::unacknowledged, (client, sum), said),
        call_ensures(server::Session::unacknowledged, (session, sum), told),
    ensures
        said.state_checksum == sum,
        told.state_checksum == sum,
        forall|i: int, j: int|
            0 <= i < j < said@.new_deltas.len() ==> (#[trigger] said@.new_deltas[i]).0 < (
            #[trigger] said@.new_deltas[j]).0,
        forall|k: SequenceNumber, d: DeltaView|
            #[trigger] said@.new_deltas.contains((k, d)) <==> client@.last_acknowledged_seqn < k
                && client@.deltas.contains_key(k) && client@.deltas[k] == d,
        forall|i: int, j: int|
            0 <= i < j < told@.new_deltas.len() ==> (#[trigger] told@.new_deltas[i]).0 < (
            #[trigger] told@.new_deltas[j]).0,
        forall|k: SequenceNumber, d: DeltaView|
            #[trigger] told@.new_deltas.contains((k, d)) <==> session@.last_acknowledged_seqn < k
                && session@.deltas.contains_key(k) && session@.deltas[k] == d,
{
    law_write_carries_what_is_above_a_number(client@.deltas, client@.last_acknowledged_seqn, sum);
    law_write_carries_what_is_above_a_number(
        session@.deltas,
        session@.last_acknowledged_seqn,
        sum,
    );
}

/// The two ways to write into a server session put the change in the same place.
pub proof fn law_server_session_writes_a_change(
    session: &mut server::Session,
    delta: Delta,
    write: WriteFrame,
    other: &mut server::Session,
    seqn: SequenceNumber,
)
    requires
        call_ensures(server::Session::write, (session, delta), write),
        call_ensures(server::Session::replace_latest, (other, delta), ()),
        old(session)@ == old(other)@,
        forall|k: SequenceNumber| #[trigger] old(session)@.deltas.contains_key(k) ==> k <= seqn,
        old(session)@.deltas.contains_key(seqn) || (seqn == 0 && forall|k: SequenceNumber|
            !old(session)@.deltas.contains_key(k)),
    ensures
        final(session)@ == final(other)@,
        final(session)@.deltas.contains_key(seqn),
        final(session)@.deltas[seqn] == delta@,
        forall|k: SequenceNumber|
            k != seqn ==> (#[trigger] final(session)@.deltas.contains_key(k)
                <==> old(session)@.deltas.contains_key(k)) && (old(session)@.deltas.contains_key(k)
                ==> final(session)@.deltas[k] == old(session)@.deltas[k]),
        write.state_checksum == crc32_of(log_encoding(final(session)@.deltas)),
{
    law_server_change_replaces_the_last_one(old(session)@, delta@, seqn);
}

/// A chunk server keeps a chunk if its number is greater than all others, acknowledges any chunk by
/// its number, and notes acknowledgements. Nothing else changes.
pub proof fn law_chunk_server_handles_a_frame(
    server: &mut chunk::Server,
    frame: chunk::Frame,
    answer: Option<chunk::Frame>,
)
    requires
        call_ensures(chunk::Server::handle_frame, (server, frame), answer),
    ensures
        final(server)@.address == old(server)@.address,
        match frame {
            chunk::Frame::Write { bytes, checksum, seqn } => {
                let greater = forall|k: SequenceNumber| #[trigger]
                    old(server)@.chunks.contains_key(k) ==> k < seqn;
                &&& answer matches Some(chunk::Frame::WriteAck { seqn: acknowledged })
                &&& acknowledged == seqn
                &&& final(server)@.last_acknowledged_seqn == old(server)@.last_acknowledged_seqn
                &&& greater ==> final(server)@.chunks.contains_key(seqn)
                    && final(server)@.chunks[seqn] == bytes@
                &&& !greater ==> final(server)@.chunks == old(server)@.chunks
                &&& forall|k: SequenceNumber|
                    k != seqn ==> (#[trigger] final(server)@.chunks.contains_key(k)
                        <==> old(server)@.chunks.contains_key(k)) && (old(
                        server,
                    )@.chunks.contains_key(k) ==> final(server)@.chunks[k]
                        == old(server)@.chunks[k])
            },
            chunk::Frame::WriteAck { seqn } => {
                &&& answer is None
                &&& final(server)@.last_acknowledged_seqn == seqn
                &&& final(server)@.chunks == old(server)@.chunks
            },
        },
{
    law_next_number_follows_the_greatest(old(server)@.chunks);
}

/// A chunk server stops at an empty datagram. Of any other it notes where it came from, has it
/// read, whole, and does with what it holds what it does with a frame. It answers where the frame
/// came from.
pub proof fn law_chunk_server_goes_on(
    server: &mut chunk::Server,
    event: chunk::Event,
    action: chunk::Action,
)
    requires
        call_ensures(chunk::Server::step, (server, event), action),
    ensures
        match event {
            chunk::Event::Received { from, len } => {
                &&& final(server)@.chunks == old(server)@.chunks
                &&& final(server)@.last_acknowledged_seqn == old(server)@.last_acknowledged_seqn
                &&& len == 0 ==> action is Stop && final(server)@.address == old(server)@.address
                &&& len > 0 ==> {
                    &&& final(server)@.address == Some(from)
                    &&& action matches chunk::Action::Decode { from: source, len: read }
                    &&& source == from
                    &&& read == len
                }
            },
            chunk::Event::Decoded { from, frame } => {
                &&& final(server)@.address == old(server)@.address
                &&& match frame {
                    chunk::Frame::Write { bytes, checksum, seqn } => {
                        let greater = forall|k: SequenceNumber| #[trigger]
                            old(server)@.chunks.contains_key(k) ==> k < seqn;
                        &&& action matches chunk::Action::Send { to, frame: sent }
                        &&& to == from
                        &&& sent matches chunk::Frame::WriteAck { seqn: acknowledged }
                        &&& acknowledged == seqn
                        &&& greater ==> final(server)@.chunks == old(server)@.chunks.insert(
                            seqn,
                            bytes@,
                        )
                        &&& !greater ==> final(server)@.chunks == old(server)@.chunks
                    },
                    chunk::Frame::WriteAck { seqn } => {
                        &&& action is Receive
                        &&& final(server)@.chunks == old(server)@.chunks
                        &&& final(server)@.last_acknowledged_seqn == seqn
                    },
                }
            },
            chunk::Event::Sent => action is Receive && final(server)@ == old(server)@,
        },
{
    law_next_number_follows_the_greatest(old(server)@.chunks);
}

/// What a chunk server writes comes at the end of its state, under the number that follows the
/// greatest, 0 where there is none. The frame that tells of it carries that number, the checksum of
/// the whole state, and the chunks from the last acknowledged number on.
pub proof fn law_chunk_server_writes_a_chunk(
    server: &mut chunk::Server,
    was: &chunk::Server,
    before: Vec<u8>,
    bytes: &[u8],
    sent: chunk::Frame,
    is: &chunk::Server,
    after: Vec<u8>,
)
    requires
        was@ == old(server)@,
        call_ensures(chunk::Server::state, (was,), before),
        was@.can_write(),
        call_ensures(chunk::Server::write, (server, bytes), sent),
        is@ == final(server)@,
        call_ensures(chunk::Server::state, (is,), after),
    ensures
        after@ == before@ + bytes@,
        ({
            let acknowledged = was@.last_acknowledged_seqn;
            &&& sent matches chunk::Frame::Write { bytes: carried, checksum, seqn }
            &&& forall|k: SequenceNumber| #[trigger] was@.chunks.contains_key(k) ==> k < seqn
            &&& seqn == 0 || was@.chunks.contains_key((seqn - 1) as SequenceNumber)
            &&& is@.chunks == was@.chunks.insert(seqn, bytes@)
            &&& is@.address == was@.address
            &&& is@.last_acknowledged_seqn == acknowledged
            &&& checksum == crc32_of(bytes_encoding(after@))
            &&& carried@ == chunk::chunks_state(
                is@.chunks.restrict(Set::new(|k: SequenceNumber| acknowledged <= k)),
            )
        }),
{
    law_next_number_follows_the_greatest(was@.chunks);
    if let chunk::Frame::Write { bytes: carried, checksum, seqn } = sent {
        law_chunk_frame_carries_from_the_acknowledged_on(is@, seqn, checksum);
    }
}

/// A new chunk server has no chunk and no client, and nothing has been acknowledged. A chunk can be
/// written unless the greatest of all numbers is taken.
pub proof fn law_chunk_server_starts_empty(
    made: chunk::Server,
    server: &chunk::Server,
    can: bool,
    address: Option<Address>,
)
    requires
        call_ensures(chunk::Server::new, (), made),
        call_ensures(chunk::Server::can_write, (server,), can),
        call_ensures(chunk::Server::address, (server,), address),
    ensures
        made@.address is None,
        made@.last_acknowledged_seqn == 0,
        forall|k: SequenceNumber| !made@.chunks.contains_key(k),
        can <==> !server@.chunks.contains_key(SequenceNumber::MAX),
        address == server@.address,
{
    law_next_number_follows_the_greatest(server@.chunks);
}

/// A chunk that is put behind the others gets the number that follows the greatest, 0 where there
/// is none.
pub proof fn law_chunk_is_put_behind_the_others(
    server: &mut chunk::Server,
    bytes: &[u8],
    seqn: SequenceNumber,
)
    requires
        old(server)@.can_write(),
        call_ensures(chunk::Server::append, (server, bytes), seqn),
    ensures
        forall|k: SequenceNumber| #[trigger] old(server)@.chunks.contains_key(k) ==> k < seqn,
        seqn == 0 || old(server)@.chunks.contains_key((seqn - 1) as SequenceNumber),
        final(server)@.chunks == old(server)@.chunks.insert(seqn, bytes@),
        final(server)@.address == old(server)@.address,
        final(server)@.last_acknowledged_seqn == old(server)@.last_acknowledged_seqn,
{
    law_next_number_follows_the_greatest(old(server)@.chunks);
}

/// Chunks are joined in the order of their numbers: without the one under the greatest number, its
/// bytes are gone from the end.
pub proof fn law_chunks_are_resolved(
    chunks: &BTreeMap<SequenceNumber, Vec<u8>>,
    state: Vec<u8>,
    others: &BTreeMap<SequenceNumber, Vec<u8>>,
    before: Vec<u8>,
    last: SequenceNumber,
)
    requires
        call_ensures(chunk::resolve_deltas, (chunks,), state),
        call_ensures(chunk::resolve_deltas, (others,), before),
        chunks@.contains_key(last),
        forall|k: SequenceNumber| #[trigger] chunks@.contains_key(k) ==> k <= last,
        others@ == chunks@.remove(last),
    ensures
        state@ == before@ + chunks@[last]@,
{
    let all = chunk::chunks_of(chunks@);
    law_chunks_join_in_the_order_of_their_numbers(all, last);
    assert(chunk::chunks_of(others@) =~= all.remove(last));
}

/// A mirror takes in a write if and only if the checksum that the write carries is the CRC-32 of
/// all bytes that it then holds, whether it held any before or not. Otherwise it is as before, and
/// reports the two checksums.
pub proof fn law_mirror_receives_a_write(
    session: &mut mirror::Session,
    bytes: Vec<u8>,
    checksum: u32,
    outcome: Result<(), ChecksumMismatch>,
)
    requires
        call_ensures(
            mirror::Session::receive_frame,
            (session, (mirror::ServerFrame::Write { bytes, checksum })),
            outcome,
        ),
    ensures
        outcome is Ok <==> checksum == crc32_of(old(session)@ + bytes@),
        match outcome {
            Ok(()) => {
                &&& checksum == crc32_of(final(session)@)
                &&& final(session)@.len() == old(session)@.len() + bytes@.len()
                &&& old(session)@.is_prefix_of(final(session)@)
                &&& bytes@.is_suffix_of(final(session)@)
            },
            Err(mismatch) => {
                &&& final(session)@ == old(session)@
                &&& mismatch.expected == crc32_of(old(session)@ + bytes@)
                &&& mismatch.received == checksum
            },
        },
{
}

/// What a mirror writes comes behind the bytes that it holds, and the frame that tells of it
/// carries the bytes that were written, with the CRC-32 of all. A mirror that held the same takes
/// it in and holds the same again.
pub proof fn law_mirror_write_is_taken_in(
    writer: &mut mirror::Session,
    bytes: &[u8],
    sent: mirror::ClientFrame,
    reader: &mut mirror::Session,
    received: mirror::ServerFrame,
    outcome: Result<(), ChecksumMismatch>,
)
    requires
        call_ensures(mirror::Session::write, (writer, bytes), sent),
        received@ == sent@,
        call_ensures(mirror::Session::receive_frame, (reader, received), outcome),
        old(reader)@ == old(writer)@,
    ensures
        final(writer)@ == old(writer)@ + bytes@,
        sent matches mirror::ClientFrame::Write { bytes: carried, checksum } && carried@ == bytes@
            && checksum == crc32_of(final(writer)@),
        outcome is Ok,
        final(reader)@ == final(writer)@,
{
}

/// A new mirror holds no bytes. A mirror shows what it holds, and what is appended comes behind it.
pub proof fn law_mirror_shows_what_was_appended(
    made: mirror::Session,
    held: &mirror::Session,
    shown: &[u8],
    session: &mut mirror::Session,
    bytes: &[u8],
)
    requires
        call_ensures(mirror::Session::new, (), made),
        call_ensures(mirror::Session::state, (held,), shown),
        call_ensures(mirror::Session::append, (session, bytes), ()),
    ensures
        made@.len() == 0,
        shown@ == held@,
        final(session)@.len() == old(session)@.len() + bytes@.len(),
        old(session)@.is_prefix_of(final(session)@),
        bytes@.is_suffix_of(final(session)@),
{
}

/// The checksum of raw bytes is their CRC-32.
pub proof fn law_raw_checksum_is_the_crc32(bytes: &[u8], sum: u32)
    requires
        call_ensures(mirror::checksum, (bytes,), sum),
    ensures
        sum == crc32_of(bytes@),
{
}

} // verus!
