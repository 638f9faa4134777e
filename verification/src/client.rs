//! The client's side of the delta protocol.

use crate::delta::{
    applied, entries_view, latest, log_state, merged, Delta, DeltaView, Deltas, Log,
};
use crate::encoding::log_checksum;
use crate::frame::{
    accepts, ack_of, compare_checksums, mismatch_of, write_of, ChecksumMismatch, ClientFrame,
    ClientFrameView, Frame, FrameView, SequenceNumber, ServerFrame, WriteAckFrame, WriteFrame,
    WriteFrameView,
};
use crate::laws::law_next_change_applies;
use crate::order::{is_greatest, lemma_greatest};
use crate::session::ID;
use vstd::prelude::*;

pub use crate::chunk::resolve_deltas;

verus! {

/// What has happened on the client's socket.
#[derive(Debug, PartialEq, Eq)]
pub enum Event {
    /// A datagram of `len` bytes has come in.
    Received { len: usize },
    /// The datagram that came in last holds `frame`.
    Decoded { frame: ServerFrame },
    /// The frame that was to be sent is on its way.
    Sent,
}

/// What is to be done on the client's socket.
#[derive(Debug, PartialEq, Eq)]
pub enum Action {
    /// Wait for the next datagram.
    Receive,
    /// Read the frame that the first `len` bytes of the last datagram hold.
    Decode { len: usize },
    /// Send a frame to the server.
    Send { frame: ClientFrame },
    /// Close the session: the server has sent an empty datagram.
    Stop,
    /// Give up: the logs have parted.
    Fail { mismatch: ChecksumMismatch },
}

/// A client's session: its log, and how far the server is known to have it.
pub struct Session {
    id: ID,
    deltas: Deltas,
    /// Last acknowledged sequence number
    last_acknowledged_seqn: SequenceNumber,
}

/// What a [`Session`] stands for.
#[verifier::ext_equal]
pub struct SessionView {
    pub id: ID,
    pub deltas: Log,
    pub last_acknowledged_seqn: SequenceNumber,
}

impl View for Session {
    type V = SessionView;

    closed spec fn view(&self) -> SessionView {
        SessionView {
            id: self.id,
            deltas: self.deltas@,
            last_acknowledged_seqn: self.last_acknowledged_seqn,
        }
    }
}

impl SessionView {
    /// Whether there is a number left for the next change, and for what follows the last
    /// acknowledged one.
    pub open spec fn can_write(self) -> bool {
        &&& latest(self.deltas) < SequenceNumber::MAX
        &&& self.last_acknowledged_seqn < SequenceNumber::MAX
    }

    /// The session with a change put behind the latest one.
    pub open spec fn written(self, delta: DeltaView) -> SessionView {
        SessionView {
            deltas: self.deltas.insert((latest(self.deltas) + 1) as SequenceNumber, delta),
            ..self
        }
    }

    /// The session with a write of the server's merged into its log.
    pub open spec fn with_write(self, new_deltas: Seq<(SequenceNumber, DeltaView)>) -> SessionView {
        SessionView { deltas: merged(self.deltas, new_deltas), ..self }
    }

    /// The session once the server has acknowledged `seqn`.
    pub open spec fn acknowledged(self, seqn: SequenceNumber) -> SessionView {
        SessionView { last_acknowledged_seqn: seqn, ..self }
    }

    /// The session once a frame of the server's has come in.
    pub open spec fn after(self, frame: FrameView) -> SessionView {
        match frame {
            FrameView::Write(write) => if accepts(self.deltas, write) {
                self.with_write(write.new_deltas)
            } else {
                self
            },
            FrameView::WriteAck(ack) => self.acknowledged(ack.seqn),
        }
    }

    /// What the session replies to a frame of the server's: a write that it accepts is
    /// acknowledged, one that it does not accept is a mismatch, and to the rest it replies nothing.
    pub open spec fn reply(self, frame: FrameView) -> Result<Option<FrameView>, ChecksumMismatch> {
        match frame {
            FrameView::Write(write) => if accepts(self.deltas, write) {
                Ok(Some(ack_of(merged(self.deltas, write.new_deltas))))
            } else {
                Err(mismatch_of(self.deltas, write))
            },
            FrameView::WriteAck(_) => Ok(None),
        }
    }

    /// The write that tells the server of all that it has not acknowledged.
    pub open spec fn update(self) -> WriteFrameView {
        write_of(self.deltas, self.last_acknowledged_seqn, log_checksum(self.deltas))
    }

    /// What the session sends the server to say `frame`.
    pub open spec fn envelope(self, frame: FrameView) -> ClientFrameView {
        ClientFrameView { session_id: self.id, inner: frame }
    }
}

/// What a reply, or the lack of one, stands for.
pub open spec fn reply_view(outcome: Result<Option<Frame>, ChecksumMismatch>) -> Result<
    Option<FrameView>,
    ChecksumMismatch,
> {
    match outcome {
        Ok(Some(reply)) => Ok(Some(reply@)),
        Ok(None) => Ok(None),
        Err(mismatch) => Err(mismatch),
    }
}

/// The change that a session makes comes behind all others, and applies to the state that the log
/// had.
pub proof fn lemma_written(session: SessionView, delta: DeltaView)
    requires
        latest(session.deltas) < SequenceNumber::MAX,
    ensures
        latest(session.written(delta).deltas) == latest(session.deltas) + 1,
        log_state(session.written(delta).deltas) == applied(log_state(session.deltas), delta),
{
    let seqn = (latest(session.deltas) + 1) as SequenceNumber;
    let written = session.deltas.insert(seqn, delta);
    lemma_greatest(session.deltas);
    law_next_change_applies(session.deltas, seqn, delta);
    lemma_greatest(written);
    assert(written.contains_key(seqn));
    assert(is_greatest(written, Some(seqn)));
}

impl Session {
    /// A session with an empty log, of which nothing has been acknowledged.
    pub fn new(id: ID) -> (session: Self)
        ensures
            session@ == (SessionView { id, deltas: Map::empty(), last_acknowledged_seqn: 0 }),
            latest(session@.deltas) == 0,
            log_state(session@.deltas) == Seq::<u8>::empty(),
    {
        Session { id, deltas: Deltas::default(), last_acknowledged_seqn: 0 }
    }

    /// The session's log.
    pub fn deltas(&self) -> (log: &Deltas)
        ensures
            log@ == self@.deltas,
    {
        &self.deltas
    }

    /// Merges changes of the server's into the log and acknowledges them.
    pub fn apply_write(&mut self, new_deltas: Vec<(SequenceNumber, Delta)>) -> (ack: WriteAckFrame)
        ensures
            final(self)@ == old(self)@.with_write(entries_view(new_deltas@)),
            ack.seqn == latest(final(self)@.deltas),
    {
        self.deltas.insert_many(new_deltas);
        WriteAckFrame { seqn: self.deltas.latest_seqn() }
    }

    /// Takes in a write that brings the log to the state of the server's.
    pub fn on_write(&mut self, frame: WriteFrame) -> (ack: WriteAckFrame)
        requires
            accepts(old(self)@.deltas, frame@),
        ensures
            final(self)@ == old(self)@.with_write(frame@.new_deltas),
            ack.seqn == latest(final(self)@.deltas),
    {
        self.apply_write(frame.new_deltas)
    }

    /// Takes in a write, or leaves the session as it is where the checksums differ.
    pub fn receive_write(&mut self, frame: WriteFrame) -> (outcome: Result<
        WriteAckFrame,
        ChecksumMismatch,
    >)
        ensures
            final(self)@ == old(self)@.after(FrameView::Write(frame@)),
            outcome is Ok <==> frame.state_checksum == log_checksum(
                merged(old(self)@.deltas, entries_view(frame.new_deltas@)),
            ),
            outcome is Ok ==> final(self)@.deltas == merged(
                old(self)@.deltas,
                entries_view(frame.new_deltas@),
            ),
            outcome is Err ==> final(self)@ == old(self)@,
            match outcome {
                Ok(ack) => {
                    &&& accepts(old(self)@.deltas, frame@)
                    &&& ack.seqn == latest(final(self)@.deltas)
                },
                Err(mismatch) => {
                    &&& !accepts(old(self)@.deltas, frame@)
                    &&& mismatch == mismatch_of(old(self)@.deltas, frame@)
                },
            },
    {
        let expected = self.deltas.checksum_with(&frame.new_deltas);
        match compare_checksums(expected, frame.state_checksum) {
            Ok(()) => Ok(self.on_write(frame)),
            Err(mismatch) => Err(mismatch),
        }
    }

    /// Notes how far the server has the log.
    pub fn on_write_ack(&mut self, frame: WriteAckFrame)
        ensures
            final(self)@ == old(self)@.acknowledged(frame.seqn),
    {
        self.last_acknowledged_seqn = frame.seqn;
    }

    /// Takes in a frame and makes the reply, if there is one to make.
    pub fn on_frame(&mut self, frame: ServerFrame) -> (outcome: Result<
        Option<Frame>,
        ChecksumMismatch,
    >)
        ensures
            final(self)@ == old(self)@.after(frame@.inner),
            reply_view(outcome) == old(self)@.reply(frame@.inner),
    {
        match frame.inner {
            Frame::Write(write) => match self.receive_write(write) {
                Ok(ack) => Ok(Some(Frame::WriteAck(ack))),
                Err(mismatch) => Err(mismatch),
            },
            Frame::WriteAck(write_ack) => {
                self.on_write_ack(write_ack);
                Ok(None)
            },
        }
    }

    /// Addresses a frame to the server.
    pub fn envelope(&self, frame: Frame) -> (client_frame: ClientFrame)
        ensures
            client_frame@ == self@.envelope(frame@),
    {
        ClientFrame { session_id: self.id, inner: frame }
    }

    /// Decides what follows an event.
    pub fn step(&mut self, event: Event) -> (action: Action)
        ensures
            match event {
                Event::Received { len } => {
                    &&& final(self)@ == old(self)@
                    &&& action == (if len == 0 {
                        Action::Stop
                    } else {
                        Action::Decode { len }
                    })
                },
                Event::Decoded { frame } => {
                    &&& final(self)@ == old(self)@.after(frame@.inner)
                    &&& match old(self)@.reply(frame@.inner) {
                        Ok(Some(reply)) => {
                            &&& action matches Action::Send { frame: sent }
                            &&& sent@ == old(self)@.envelope(reply)
                        },
                        Ok(None) => action == Action::Receive,
                        Err(mismatch) => action == (Action::Fail { mismatch }),
                    }
                },
                Event::Sent => {
                    &&& final(self)@ == old(self)@
                    &&& action == Action::Receive
                },
            },
    {
        match event {
            Event::Received { len } => if len == 0 {
                Action::Stop
            } else {
                Action::Decode { len }
            },
            Event::Decoded { frame } => match self.on_frame(frame) {
                Ok(Some(reply)) => Action::Send { frame: self.envelope(reply) },
                Ok(None) => Action::Receive,
                Err(mismatch) => Action::Fail { mismatch },
            },
            Event::Sent => Action::Receive,
        }
    }

    /// Whether [`Session::write`] can number another change.
    pub fn can_write(&self) -> (can: bool)
        ensures
            can == self@.can_write(),
    {
        self.deltas.latest_seqn() < SequenceNumber::MAX && self.last_acknowledged_seqn
            < SequenceNumber::MAX
    }

    /// Puts a change behind the latest one.
    pub fn append(&mut self, delta: Delta)
        requires
            latest(old(self)@.deltas) < SequenceNumber::MAX,
        ensures
            final(self)@ == old(self)@.written(delta@),
            latest(final(self)@.deltas) == latest(old(self)@.deltas) + 1,
            log_state(final(self)@.deltas) == applied(log_state(old(self)@.deltas), delta@),
    {
        proof {
            lemma_written(self@, delta@);
        }
        let seqn = self.deltas.latest_seqn() + 1;
        self.deltas.insert(seqn, delta);
    }

    /// The write that tells the server of all that it has not acknowledged.
    pub fn unacknowledged(&self, state_checksum: u32) -> (write: WriteFrame)
        requires
            self@.last_acknowledged_seqn < SequenceNumber::MAX,
        ensures
            write@ == write_of(self@.deltas, self@.last_acknowledged_seqn, state_checksum),
    {
        WriteFrame {
            new_deltas: self.deltas.entries_since(&self.last_acknowledged_seqn),
            state_checksum,
        }
    }

    /// Makes a change, and the frame that tells the server of it.
    pub fn write(&mut self, delta: Delta) -> (client_frame: ClientFrame)
        requires
            old(self)@.can_write(),
        ensures
            final(self)@ == old(self)@.written(delta@),
            latest(final(self)@.deltas) == latest(old(self)@.deltas) + 1,
            log_state(final(self)@.deltas) == applied(log_state(old(self)@.deltas), delta@),
            client_frame@ == final(self)@.envelope(FrameView::Write(final(self)@.update())),
    {
        self.append(delta);
        let write = self.unacknowledged(self.deltas.checksum());
        self.envelope(Frame::Write(write))
    }
}

} // verus!
