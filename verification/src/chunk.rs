//! The chunk protocol: the state is the numbered chunks of bytes that were written, joined.

use crate::digest::{bytes_encoding, checksum, crc32_of};
use crate::order::{
    entries, entries_from, greatest, greatest_seqn, is_greatest, lemma_entries_map_values,
    lemma_greatest, lemma_ordered_empty, lemma_ordered_insert_last, ordered, owned, seconds,
    seqn_end, SequenceNumber,
};
use crate::session::Address;
use std::collections::BTreeMap;
use vstd::prelude::*;

verus! {

broadcast use {vstd::laws_cmp::group_laws_cmp, vstd::std_specs::btree::group_btree_axioms};

/// The port that a server listens on unless told otherwise.
pub const PORT: u16 = 7070;

/// What one side tells the other.
#[derive(Debug, Clone, PartialEq, Eq)]
pub enum Frame {
    /// A chunk, with the checksum of the sender's state.
    Write { bytes: Vec<u8>, checksum: u32, seqn: SequenceNumber },
    /// A chunk has come in.
    WriteAck { seqn: SequenceNumber },
}

/// What a [`Frame`] stands for.
pub enum FrameView {
    Write { bytes: Seq<u8>, checksum: u32, seqn: SequenceNumber },
    WriteAck { seqn: SequenceNumber },
}

impl View for Frame {
    type V = FrameView;

    open spec fn view(&self) -> FrameView {
        match *self {
            Frame::Write { bytes, checksum, seqn } => FrameView::Write {
                bytes: bytes@,
                checksum,
                seqn,
            },
            Frame::WriteAck { seqn } => FrameView::WriteAck { seqn },
        }
    }
}

/// Chunks under their sequence numbers.
pub type Chunks = Map<SequenceNumber, Seq<u8>>;

/// What a tree of chunks stands for.
pub open spec fn chunks_of(tree: Map<SequenceNumber, Vec<u8>>) -> Chunks {
    tree.map_values(|bytes: Vec<u8>| bytes@)
}

/// Runs of bytes, put one after the other.
pub open spec fn joined(runs: Seq<Seq<u8>>) -> Seq<u8>
    decreases runs.len(),
{
    if runs.len() == 0 {
        Seq::empty()
    } else {
        joined(runs.drop_last()) + runs.last()
    }
}

/// The chunks from the number `from` on, joined in the order of their numbers.
pub open spec fn joined_from(chunks: Chunks, from: SequenceNumber) -> Seq<u8> {
    joined(seconds(entries(chunks, from as int, seqn_end())))
}

/// The state that chunks stand for: all of them, joined in the order of their numbers.
pub open spec fn chunks_state(chunks: Chunks) -> Seq<u8> {
    joined(seconds(ordered(chunks)))
}

/// Joins the chunks from the number `from` on.
fn join_from(deltas: &BTreeMap<SequenceNumber, Vec<u8>>, from: SequenceNumber) -> (bytes: Vec<u8>)
    ensures
        bytes@ == joined_from(chunks_of(deltas@), from),
{
    let found = entries_from(deltas, from);
    let ghost runs = seconds(owned(found@)).map_values(|bytes: Vec<u8>| bytes@);
    let mut bytes: Vec<u8> = Vec::new();
    for i in 0..found.len()
        invariant
            runs == seconds(owned(found@)).map_values(|bytes: Vec<u8>| bytes@),
            bytes@ == joined(runs.take(i as int)),
    {
        bytes.extend_from_slice(found[i].1);
        proof {
            assert(runs.take(i + 1).drop_last() =~= runs.take(i as int));
            assert(bytes@ =~= joined(runs.take(i + 1)));
        }
    }
    proof {
        let view = |bytes: Vec<u8>| bytes@;
        lemma_entries_map_values(deltas@, view, from as int, seqn_end());
        assert(runs.take(found@.len() as int) =~= runs);
        assert(runs =~= seconds(entries(chunks_of(deltas@), from as int, seqn_end())));
    }
    bytes
}

/// Joins chunks to the state that they stand for.
pub fn resolve_deltas(deltas: &BTreeMap<SequenceNumber, Vec<u8>>) -> (state: Vec<u8>)
    ensures
        state@ == chunks_state(chunks_of(deltas@)),
{
    join_from(deltas, 0)
}

/// A server: its state, where its client sends from, and how far the client is known to have it.
pub struct Server {
    address: Option<Address>,
    deltas: BTreeMap<SequenceNumber, Vec<u8>>,
    /// Last acknowledged sequence number
    last_acknowledged_seqn: SequenceNumber,
}

/// What a [`Server`] stands for.
#[verifier::ext_equal]
pub struct ServerView {
    pub address: Option<Address>,
    pub chunks: Chunks,
    pub last_acknowledged_seqn: SequenceNumber,
}

impl View for Server {
    type V = ServerView;

    closed spec fn view(&self) -> ServerView {
        ServerView {
            address: self.address,
            chunks: chunks_of(self.deltas@),
            last_acknowledged_seqn: self.last_acknowledged_seqn,
        }
    }
}

/// The number that the next chunk gets: the one after the greatest, 0 for the first.
pub open spec fn next_seqn(chunks: Chunks) -> int {
    match greatest(chunks) {
        Some(seqn) => seqn + 1,
        None => 0,
    }
}

impl ServerView {
    /// Whether there is a number left for the next chunk.
    pub open spec fn can_write(self) -> bool {
        next_seqn(self.chunks) < seqn_end()
    }

    /// The server with a chunk put behind the others.
    pub open spec fn written(self, bytes: Seq<u8>) -> ServerView {
        ServerView {
            chunks: self.chunks.insert(next_seqn(self.chunks) as SequenceNumber, bytes),
            ..self
        }
    }

    /// The frame that tells the client of all chunks from the last acknowledged one on.
    pub open spec fn write_of(self, seqn: SequenceNumber, checksum: u32) -> FrameView {
        FrameView::Write {
            bytes: joined_from(self.chunks, self.last_acknowledged_seqn),
            checksum,
            seqn,
        }
    }

    /// The server once a frame of the client's has come in: a chunk is kept if its number comes
    /// after all others.
    pub open spec fn after(self, frame: FrameView) -> ServerView {
        match frame {
            FrameView::Write { bytes, checksum, seqn } => if next_seqn(self.chunks) <= seqn {
                ServerView { chunks: self.chunks.insert(seqn, bytes), ..self }
            } else {
                self
            },
            FrameView::WriteAck { seqn } => ServerView { last_acknowledged_seqn: seqn, ..self },
        }
    }
}

/// A chunk whose number comes after all others is put at the end of the state.
pub proof fn lemma_next_chunk(chunks: Chunks, seqn: SequenceNumber, bytes: Seq<u8>)
    requires
        next_seqn(chunks) <= seqn,
    ensures
        next_seqn(chunks.insert(seqn, bytes)) == seqn + 1,
        chunks_state(chunks.insert(seqn, bytes)) == chunks_state(chunks) + bytes,
{
    let grown = chunks.insert(seqn, bytes);
    lemma_greatest(chunks);
    lemma_greatest(grown);
    assert(grown.contains_key(seqn));
    assert(is_greatest(grown, Some(seqn)));
    lemma_ordered_insert_last(chunks, seqn, bytes);
    assert(seconds(ordered(grown)).drop_last() =~= seconds(ordered(chunks)));
}

/// What a server replies to a frame: any chunk is acknowledged, kept or not.
pub open spec fn reply(frame: FrameView) -> Option<FrameView> {
    match frame {
        FrameView::Write { bytes, checksum, seqn } => Some(FrameView::WriteAck { seqn }),
        FrameView::WriteAck { seqn } => None,
    }
}

/// What a reply, or the lack of one, stands for.
pub open spec fn reply_view(reply: Option<Frame>) -> Option<FrameView> {
    match reply {
        Some(frame) => Some(frame@),
        None => None,
    }
}

/// What has happened on the server's socket.
#[derive(Debug, PartialEq, Eq)]
pub enum Event {
    /// A datagram of `len` bytes has come in.
    Received { from: Address, len: usize },
    /// The datagram that came in last holds `frame`.
    Decoded { from: Address, frame: Frame },
    /// The frame that was to be sent is on its way.
    Sent,
}

/// What is to be done on the server's socket.
#[derive(Debug, PartialEq, Eq)]
pub enum Action {
    /// Wait for the next datagram.
    Receive,
    /// Read the frame that the first `len` bytes of the last datagram hold.
    Decode { from: Address, len: usize },
    /// Send a frame.
    Send { to: Address, frame: Frame },
    /// Shut down: the client has sent an empty datagram.
    Stop,
}

impl Server {
    /// A server without chunks that has not heard of its client.
    pub fn new() -> (server: Self)
        ensures
            server@ == (ServerView {
                address: None,
                chunks: Map::empty(),
                last_acknowledged_seqn: 0,
            }),
            next_seqn(server@.chunks) == 0,
            chunks_state(server@.chunks) == Seq::<u8>::empty(),
    {
        let server = Server { address: None, deltas: BTreeMap::new(), last_acknowledged_seqn: 0 };
        assert(server@.chunks =~= Map::empty());
        proof {
            lemma_ordered_empty::<Seq<u8>>();
            assert(seconds(ordered(server@.chunks)) =~= Seq::empty());
        }
        server
    }

    /// Where the client sends from, if it has sent anything.
    pub fn address(&self) -> (address: Option<Address>)
        ensures
            address == self@.address,
    {
        self.address
    }

    /// Computes the state.
    pub fn state(&self) -> (state: Vec<u8>)
        ensures
            state@ == chunks_state(self@.chunks),
    {
        resolve_deltas(&self.deltas)
    }

    /// The greatest number that a chunk has.
    fn latest_seqn(&self) -> (seqn: Option<SequenceNumber>)
        ensures
            seqn == greatest(self@.chunks),
    {
        proof {
            lemma_greatest(self@.chunks);
        }
        let found = greatest_seqn(&self.deltas);
        assert(is_greatest(self@.chunks, found)) by {
            assert(forall|k: SequenceNumber| #[trigger]
                self@.chunks.contains_key(k) <==> self.deltas@.contains_key(k));
        }
        found
    }

    /// Takes in a frame and makes the reply, if there is one to make.
    pub fn handle_frame(&mut self, frame: Frame) -> (answer: Option<Frame>)
        ensures
            final(self)@ == old(self)@.after(frame@),
            reply_view(answer) == reply(frame@),
            match frame {
                Frame::Write { bytes, checksum, seqn } => answer == Some(Frame::WriteAck { seqn }),
                Frame::WriteAck { seqn } => answer is None,
            },
    {
        match frame {
            Frame::Write { bytes, checksum: _, seqn } => {
                match self.latest_seqn() {
                    Some(latest_seqn) if latest_seqn >= seqn => {},
                    _ => {
                        let ghost run = bytes@;
                        self.deltas.insert(seqn, bytes);
                        assert(self@.chunks =~= old(self)@.chunks.insert(seqn, run));
                    },
                }
                Some(Frame::WriteAck { seqn })
            },
            Frame::WriteAck { seqn } => {
                self.last_acknowledged_seqn = seqn;
                None
            },
        }
    }

    /// Decides what follows an event.
    pub fn step(&mut self, event: Event) -> (action: Action)
        ensures
            match event {
                Event::Received { from, len } => if len == 0 {
                    &&& final(self)@ == old(self)@
                    &&& action == Action::Stop
                } else {
                    &&& final(self)@ == (ServerView { address: Some(from), ..old(self)@ })
                    &&& action == (Action::Decode { from, len })
                },
                Event::Decoded { from, frame } => {
                    &&& final(self)@ == old(self)@.after(frame@)
                    &&& match reply(frame@) {
                        Some(answer) => {
                            &&& action matches Action::Send { to, frame: sent }
                            &&& to == from
                            &&& sent@ == answer
                        },
                        None => action == Action::Receive,
                    }
                },
                Event::Sent => {
                    &&& final(self)@ == old(self)@
                    &&& action == Action::Receive
                },
            },
    {
        match event {
            Event::Received { from, len } => {
                if len == 0 {
                    return Action::Stop;
                }
                if self.address != Some(from) {
                    self.address = Some(from);
                }
                Action::Decode { from, len }
            },
            Event::Decoded { from, frame } => match self.handle_frame(frame) {
                Some(answer) => Action::Send { to: from, frame: answer },
                None => Action::Receive,
            },
            Event::Sent => Action::Receive,
        }
    }

    /// Whether [`Server::write`] can number another chunk.
    pub fn can_write(&self) -> (can: bool)
        ensures
            can == self@.can_write(),
    {
        match self.latest_seqn() {
            Some(seqn) => seqn < SequenceNumber::MAX,
            None => true,
        }
    }

    /// Puts a chunk behind the others, and returns the number that it has got.
    pub fn append(&mut self, bytes: &[u8]) -> (seqn: SequenceNumber)
        requires
            old(self)@.can_write(),
        ensures
            final(self)@ == old(self)@.written(bytes@),
            seqn == next_seqn(old(self)@.chunks),
            next_seqn(final(self)@.chunks) == seqn + 1,
            chunks_state(final(self)@.chunks) == chunks_state(old(self)@.chunks) + bytes@,
    {
        let seqn: SequenceNumber = match self.latest_seqn() {
            Some(seqn) => seqn + 1,
            None => 0,
        };
        let mut chunk: Vec<u8> = Vec::new();
        chunk.extend_from_slice(bytes);
        assert(chunk@ =~= bytes@);
        self.deltas.insert(seqn, chunk);
        assert(self@.chunks =~= old(self)@.chunks.insert(seqn, bytes@));
        proof {
            lemma_next_chunk(old(self)@.chunks, seqn, bytes@);
        }
        seqn
    }

    /// The frame that tells the client of all chunks from the last acknowledged one on.
    pub fn unacknowledged(&self, seqn: SequenceNumber, checksum: u32) -> (frame: Frame)
        ensures
            frame@ == self@.write_of(seqn, checksum),
    {
        Frame::Write { bytes: join_from(&self.deltas, self.last_acknowledged_seqn), checksum, seqn }
    }

    /// Puts a chunk behind the others, and makes the frame that tells the client of it.
    pub fn write(&mut self, bytes: &[u8]) -> (frame: Frame)
        requires
            old(self)@.can_write(),
        ensures
            final(self)@ == old(self)@.written(bytes@),
            next_seqn(final(self)@.chunks) == next_seqn(old(self)@.chunks) + 1,
            chunks_state(final(self)@.chunks) == chunks_state(old(self)@.chunks) + bytes@,
            frame@ == final(self)@.write_of(
                next_seqn(old(self)@.chunks) as SequenceNumber,
                crc32_of(bytes_encoding(chunks_state(final(self)@.chunks))),
            ),
    {
        let seqn = self.append(bytes);
        let sum = checksum(resolve_deltas(&self.deltas));
        self.unacknowledged(seqn, sum)
    }
}

} // verus!
