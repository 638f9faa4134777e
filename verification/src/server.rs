//! The server's side of the delta protocol.

use crate::delta::{entries_view, latest, log_state, merged, Delta, DeltaView, Deltas, Log};
use crate::encoding::log_checksum;
use crate::frame::{
    accepts, ack_of, compare_checksums, mismatch_of, write_of, ChecksumMismatch, ClientFrame,
    ClientFrameView, Frame, FrameView, SequenceNumber, ServerFrame, ServerFrameView, WriteAckFrame,
    WriteFrame, WriteFrameView,
};
use crate::registry::{no_sessions, put_session, sessions_of, take_session};
use crate::session::{Address, ID};
use dashmap::DashMap;
use vstd::prelude::*;

verus! {

/// The port that a server listens on unless told otherwise.
pub const DEFAULT_PORT: u16 = 7070;

/// The server's end of one client's session.
pub struct Session {
    pub deltas: Deltas,
    remote_address: Address,
    last_acknowledged_seqn: SequenceNumber,
}

/// What a [`Session`] stands for.
#[verifier::ext_equal]
pub struct SessionView {
    pub deltas: Log,
    pub remote_address: Address,
    pub last_acknowledged_seqn: SequenceNumber,
}

/// Sessions by their identifiers.
pub type Sessions = Map<ID, SessionView>;

impl View for Session {
    type V = SessionView;

    closed spec fn view(&self) -> SessionView {
        SessionView {
            deltas: self.deltas@,
            remote_address: self.remote_address,
            last_acknowledged_seqn: self.last_acknowledged_seqn,
        }
    }
}

impl SessionView {
    /// A session of which nothing is known but where its client sends from.
    pub open spec fn fresh(remote_address: Address) -> SessionView {
        SessionView { deltas: Map::empty(), remote_address, last_acknowledged_seqn: 0 }
    }

    /// Whether there is a number left for what follows the last acknowledged one.
    pub open spec fn can_write(self) -> bool {
        self.last_acknowledged_seqn < SequenceNumber::MAX
    }

    /// The session with a change put under the latest number, in place of the one that is there.
    pub open spec fn written(self, delta: DeltaView) -> SessionView {
        SessionView { deltas: self.deltas.insert(latest(self.deltas), delta), ..self }
    }

    /// The session with a write of the client's merged into its log.
    pub open spec fn with_write(self, new_deltas: Seq<(SequenceNumber, DeltaView)>) -> SessionView {
        SessionView { deltas: merged(self.deltas, new_deltas), ..self }
    }

    /// The session once the client has acknowledged `seqn`.
    pub open spec fn acknowledged(self, seqn: SequenceNumber) -> SessionView {
        SessionView { last_acknowledged_seqn: seqn, ..self }
    }

    /// The session once its client has sent from `address`.
    pub open spec fn seen_at(self, address: Address) -> SessionView {
        SessionView { remote_address: address, ..self }
    }

    /// The session once a frame of the client's has come in.
    pub open spec fn after(self, frame: FrameView) -> SessionView {
        match frame {
            FrameView::Write(write) => if accepts(self.deltas, write) {
                self.with_write(write.new_deltas)
            } else {
                self
            },
            FrameView::WriteAck(ack) => self.acknowledged(ack.seqn),
        }
    }

    /// What the session replies to a frame of the client's: a write that it accepts is
    /// acknowledged, one that it does not accept is a mismatch, and to the rest it replies nothing.
    pub open spec fn reply(self, frame: FrameView) -> Result<Option<FrameView>, ChecksumMismatch> {
        match frame {
            FrameView::Write(write) => if accepts(self.deltas, write) {
                Ok(Some(ack_of(merged(self.deltas, write.new_deltas))))
            } else {
                Err(mismatch_of(self.deltas, write))
            },
            FrameView::WriteAck(_) => Ok(None),
        }
    }

    /// The write that tells the client of all that it has not acknowledged.
    pub open spec fn update(self) -> WriteFrameView {
        write_of(self.deltas, self.last_acknowledged_seqn, log_checksum(self.deltas))
    }
}

/// What a reply, or the lack of one, stands for.
pub open spec fn reply_view(outcome: Result<Option<ServerFrame>, ChecksumMismatch>) -> Result<
    Option<FrameView>,
    ChecksumMismatch,
> {
    match outcome {
        Ok(Some(reply)) => Ok(Some(reply@.inner)),
        Ok(None) => Ok(None),
        Err(mismatch) => Err(mismatch),
    }
}

impl Session {
    /// A session with an empty log, of which nothing has been acknowledged.
    pub fn new(remote_address: Address) -> (session: Self)
        ensures
            session@ == SessionView::fresh(remote_address),
            latest(session@.deltas) == 0,
            log_state(session@.deltas) == Seq::<u8>::empty(),
    {
        Session { deltas: Deltas::new(), remote_address, last_acknowledged_seqn: 0 }
    }

    /// The session's log.
    pub fn deltas(&self) -> (log: &Deltas)
        ensures
            log@ == self@.deltas,
    {
        &self.deltas
    }

    /// Merges changes of the client's into the log and acknowledges them.
    pub fn apply_write(&mut self, new_deltas: Vec<(SequenceNumber, Delta)>) -> (reply: Option<
        ServerFrame,
    >)
        ensures
            final(self)@ == old(self)@.with_write(entries_view(new_deltas@)),
            reply matches Some(frame) && frame@.inner == ack_of(final(self)@.deltas),
    {
        self.deltas.insert_many(new_deltas);
        Some(
            ServerFrame {
                inner: Frame::WriteAck(WriteAckFrame { seqn: self.deltas.latest_seqn() }),
            },
        )
    }

    /// Takes in a write that brings the log to the state of the client's. Whoever waits for a
    /// write on this session is then to be woken.
    pub fn on_write(&mut self, frame: WriteFrame) -> (reply: Option<ServerFrame>)
        requires
            accepts(old(self)@.deltas, frame@),
        ensures
            final(self)@ == old(self)@.with_write(frame@.new_deltas),
            reply matches Some(ack) && ack@.inner == ack_of(final(self)@.deltas),
    {
        self.apply_write(frame.new_deltas)
    }

    /// Takes in a write, or leaves the session as it is where the checksums differ.
    pub fn receive_write(&mut self, frame: WriteFrame) -> (outcome: Result<
        Option<ServerFrame>,
        ChecksumMismatch,
    >)
        ensures
            final(self)@ == old(self)@.after(FrameView::Write(frame@)),
            reply_view(outcome) == old(self)@.reply(FrameView::Write(frame@)),
            outcome is Ok <==> frame.state_checksum == log_checksum(
                merged(old(self)@.deltas, entries_view(frame.new_deltas@)),
            ),
            outcome is Ok ==> final(self)@.deltas == merged(
                old(self)@.deltas,
                entries_view(frame.new_deltas@),
            ),
            outcome is Err ==> final(self)@ == old(self)@,
    {
        let expected = self.deltas.checksum_with(&frame.new_deltas);
        match compare_checksums(expected, frame.state_checksum) {
            Ok(()) => Ok(self.on_write(frame)),
            Err(mismatch) => Err(mismatch),
        }
    }

    /// Notes how far the client has the log. There is nothing to reply.
    pub fn on_write_ack(&mut self, frame: WriteAckFrame) -> (reply: Option<ServerFrame>)
        ensures
            final(self)@ == old(self)@.acknowledged(frame.seqn),
            reply is None,
    {
        self.last_acknowledged_seqn = frame.seqn;
        None
    }

    /// Takes in a frame and makes the reply, if there is one to make.
    pub fn on_frame(&mut self, frame: Frame) -> (outcome: Result<
        Option<ServerFrame>,
        ChecksumMismatch,
    >)
        ensures
            final(self)@ == old(self)@.after(frame@),
            reply_view(outcome) == old(self)@.reply(frame@),
    {
        match frame {
            Frame::Write(write) => self.receive_write(write),
            Frame::WriteAck(write_ack) => Ok(self.on_write_ack(write_ack)),
        }
    }

    /// Whether [`Session::write`] can tell what the client lacks.
    pub fn can_write(&self) -> (can: bool)
        ensures
            can == self@.can_write(),
    {
        self.last_acknowledged_seqn < SequenceNumber::MAX
    }

    /// Puts a change under the latest number, in place of the one that is there.
    pub fn replace_latest(&mut self, delta: Delta)
        ensures
            final(self)@ == old(self)@.written(delta@),
            final(self)@.deltas == old(self)@.deltas.insert(latest(old(self)@.deltas), delta@),
    {
        let seqn = self.deltas.latest_seqn();
        self.deltas.insert(seqn, delta);
    }

    /// The write that tells the client of all that it has not acknowledged.
    pub fn unacknowledged(&self, state_checksum: u32) -> (write: WriteFrame)
        requires
            self@.can_write(),
        ensures
            write@ == write_of(self@.deltas, self@.last_acknowledged_seqn, state_checksum),
    {
        WriteFrame {
            new_deltas: self.deltas.entries_since(&self.last_acknowledged_seqn),
            state_checksum,
        }
    }

    /// Makes a change, and the write that tells the client of it.
    pub fn write(&mut self, delta: Delta) -> (write: WriteFrame)
        requires
            old(self)@.can_write(),
        ensures
            final(self)@ == old(self)@.written(delta@),
            final(self)@.deltas == old(self)@.deltas.insert(latest(old(self)@.deltas), delta@),
            write@ == final(self)@.update(),
            write.state_checksum == log_checksum(final(self)@.deltas),
    {
        self.replace_latest(delta);
        self.unacknowledged(self.deltas.checksum())
    }
}

/// A server: the sessions of its clients.
pub struct Server {
    sessions: DashMap<ID, Session>,
}

impl View for Server {
    type V = Sessions;

    closed spec fn view(&self) -> Sessions {
        sessions_of(self.sessions)
    }
}

/// What has happened on the server's socket.
#[derive(Debug, PartialEq, Eq)]
pub enum Event {
    /// A datagram of `len` bytes has come in.
    Received { from: Address, len: usize },
    /// The datagram that came in last holds `frame`.
    Decoded { from: Address, frame: ClientFrame },
    /// The frame that was to be sent is on its way.
    Sent,
}

/// What is to be done on the server's socket.
#[derive(Debug, PartialEq, Eq)]
pub enum Action {
    /// Wait for the next datagram.
    Receive,
    /// Read the frame that the first `len` bytes of the last datagram hold.
    Decode { from: Address, len: usize },
    /// Wake whoever waits for a write on the session, and send a frame.
    Send { to: Address, frame: ServerFrame },
    /// Shut down: a client has sent an empty datagram.
    Stop,
    /// Give up: the logs have parted.
    Fail { mismatch: ChecksumMismatch },
}

/// The session `id` as it is when a frame of its client's comes in from `from`.
pub open spec fn session_at(sessions: Sessions, id: ID, from: Address) -> SessionView {
    if sessions.contains_key(id) {
        sessions[id].seen_at(from)
    } else {
        SessionView::fresh(from)
    }
}

/// The sessions once a client's frame has come in from `from`.
pub open spec fn after_frame(
    sessions: Sessions,
    from: Address,
    frame: ClientFrameView,
) -> Sessions {
    let id = frame.session_id;
    sessions.insert(id, session_at(sessions, id, from).after(frame.inner))
}

impl Server {
    /// A server without sessions.
    pub fn new() -> (server: Self)
        ensures
            server@ == Sessions::empty(),
    {
        Server { sessions: no_sessions() }
    }

    /// Hands a client's frame to its session, which is made where there is none, and notes where
    /// the client sends from.
    pub fn on_frame(&mut self, from: Address, frame: ClientFrame) -> (outcome: Result<
        Option<ServerFrame>,
        ChecksumMismatch,
    >)
        ensures
            final(self)@ == after_frame(old(self)@, from, frame@),
            reply_view(outcome) == session_at(old(self)@, frame.session_id, from).reply(
                frame@.inner,
            ),
    {
        let id = frame.session_id;
        let mut session = match take_session(&mut self.sessions, id) {
            Some(session) => session,
            None => Session::new(from),
        };
        if session.remote_address != from {
            session.remote_address = from;
        }
        let outcome = session.on_frame(frame.inner);
        let ghost after = session@;
        put_session(&mut self.sessions, id, session);
        assert(self@ =~= old(self)@.insert(id, after));
        outcome
    }

    /// Decides what follows an event.
    pub fn step(&mut self, event: Event) -> (action: Action)
        ensures
            match event {
                Event::Received { from, len } => {
                    &&& final(self)@ == old(self)@
                    &&& action == (if len == 0 {
                        Action::Stop
                    } else {
                        Action::Decode { from, len }
                    })
                },
                Event::Decoded { from, frame } => {
                    &&& final(self)@ == after_frame(old(self)@, from, frame@)
                    &&& match session_at(old(self)@, frame.session_id, from).reply(frame@.inner) {
                        Ok(Some(reply)) => {
                            &&& action matches Action::Send { to, frame: sent }
                            &&& to == from
                            &&& sent@ == (ServerFrameView { inner: reply })
                        },
                        Ok(None) => action == Action::Receive,
                        Err(mismatch) => action == (Action::Fail { mismatch }),
                    }
                },
                Event::Sent => {
                    &&& final(self)@ == old(self)@
                    &&& action == Action::Receive
                },
            },
    {
        match event {
            Event::Received { from, len } => if len == 0 {
                Action::Stop
            } else {
                Action::Decode { from, len }
            },
            Event::Decoded { from, frame } => match self.on_frame(from, frame) {
                Ok(Some(reply)) => Action::Send { to: from, frame: reply },
                Ok(None) => Action::Receive,
                Err(mismatch) => Action::Fail { mismatch },
            },
            Event::Sent => Action::Receive,
        }
    }

    /// Computes the state of a session, if there is one under `id`.
    pub fn state_of(&mut self, id: ID) -> (state: Option<Vec<u8>>)
        ensures
            final(self)@ == old(self)@,
            match state {
                Some(bytes) => {
                    &&& old(self)@.contains_key(id)
                    &&& bytes@ == log_state(old(self)@[id].deltas)
                },
                None => !old(self)@.contains_key(id),
            },
    {
        match take_session(&mut self.sessions, id) {
            Some(session) => {
                let state = session.deltas.resolve();
                put_session(&mut self.sessions, id, session);
                assert(self@ =~= old(self)@);
                Some(state)
            },
            None => {
                assert(self@ =~= old(self)@);
                None
            },
        }
    }

    /// Makes a change in a session, and the frame that tells its client of it, with the address
    /// that the frame goes to.
    pub fn write(&self, delta: Delta, session: &mut Session) -> (sent: (Address, ServerFrame))
        requires
            old(session)@.can_write(),
        ensures
            final(session)@ == old(session)@.written(delta@),
            sent.0 == old(session)@.remote_address,
            sent.1@ == (ServerFrameView { inner: FrameView::Write(final(session)@.update()) }),
    {
        let write = session.write(delta);
        (session.remote_address, ServerFrame { inner: Frame::Write(write) })
    }
}

} // verus!
