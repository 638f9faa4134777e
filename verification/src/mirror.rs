//! The mirror protocol: both sides hold the bytes, and every write is appended to them.

use crate::digest::{crc32, crc32_of};
use crate::frame::{compare_checksums, ChecksumMismatch};
use vstd::prelude::*;

verus! {

/// What the server tells a client.
#[derive(Debug, Clone, PartialEq, Eq)]
pub enum ServerFrame {
    /// Bytes to append, with the checksum of the bytes that there are then.
    Write { bytes: Vec<u8>, checksum: u32 },
}

/// What a client tells the server.
#[derive(Debug, Clone, PartialEq, Eq)]
pub enum ClientFrame {
    /// Bytes to append, with the checksum of the bytes that there are then.
    Write { bytes: Vec<u8>, checksum: u32 },
}

/// What a frame stands for.
pub struct WriteView {
    pub bytes: Seq<u8>,
    pub checksum: u32,
}

impl View for ServerFrame {
    type V = WriteView;

    open spec fn view(&self) -> WriteView {
        match *self {
            ServerFrame::Write { bytes, checksum } => WriteView { bytes: bytes@, checksum },
        }
    }
}

impl View for ClientFrame {
    type V = WriteView;

    open spec fn view(&self) -> WriteView {
        match *self {
            ClientFrame::Write { bytes, checksum } => WriteView { bytes: bytes@, checksum },
        }
    }
}

/// The checksum of a run of bytes.
pub fn checksum(bytes: &[u8]) -> (sum: u32)
    ensures
        sum == crc32_of(bytes@),
{
    crc32(bytes)
}

/// Whether a write brings `state` to what its sender had.
pub open spec fn accepts(state: Seq<u8>, write: WriteView) -> bool {
    write.checksum == crc32_of(state + write.bytes)
}

/// The write that tells a peer of bytes that were appended to `state`.
pub open spec fn write_of(state: Seq<u8>, bytes: Seq<u8>) -> WriteView {
    WriteView { bytes, checksum: crc32_of(state + bytes) }
}

/// A client's session: the bytes.
pub struct Session {
    state: Vec<u8>,
}

impl View for Session {
    type V = Seq<u8>;

    closed spec fn view(&self) -> Seq<u8> {
        self.state@
    }
}

impl Session {
    /// A session without bytes.
    pub fn new() -> (session: Self)
        ensures
            session@ == Seq::<u8>::empty(),
    {
        Session { state: Vec::new() }
    }

    /// The bytes.
    pub fn state(&self) -> (state: &[u8])
        ensures
            state@ == self@,
    {
        self.state.as_slice()
    }

    /// Appends bytes.
    pub fn append(&mut self, bytes: &[u8])
        ensures
            final(self)@ == old(self)@ + bytes@,
    {
        self.state.extend_from_slice(bytes);
        assert(self@ =~= old(self)@ + bytes@);
    }

    /// Takes in a write that brings the bytes to what the server has.
    pub fn on_frame(&mut self, frame: ServerFrame)
        requires
            accepts(old(self)@, frame@),
        ensures
            final(self)@ == old(self)@ + frame@.bytes,
    {
        match frame {
            ServerFrame::Write { bytes, checksum: _ } => self.append(&bytes),
        }
    }

    /// Takes in a write, or leaves the bytes as they are where the checksums differ.
    pub fn receive_frame(&mut self, frame: ServerFrame) -> (outcome: Result<(), ChecksumMismatch>)
        ensures
            outcome is Ok <==> frame@.checksum == crc32_of(old(self)@ + frame@.bytes),
            outcome is Ok ==> frame@.checksum == crc32_of(final(self)@),
            match outcome {
                Ok(()) => {
                    &&& accepts(old(self)@, frame@)
                    &&& final(self)@ == old(self)@ + frame@.bytes
                },
                Err(mismatch) => {
                    &&& !accepts(old(self)@, frame@)
                    &&& final(self)@ == old(self)@
                    &&& mismatch.expected == crc32_of(old(self)@ + frame@.bytes)
                    &&& mismatch.received == frame@.checksum
                },
            },
    {
        let mut grown: Vec<u8> = self.state.clone();
        let received: u32 = match &frame {
            ServerFrame::Write { bytes, checksum } => {
                grown.extend_from_slice(bytes);
                *checksum
            },
        };
        assert(grown@ =~= self@ + frame@.bytes);
        match compare_checksums(checksum(&grown), received) {
            Ok(()) => {
                self.on_frame(frame);
                Ok(())
            },
            Err(mismatch) => Err(mismatch),
        }
    }

    /// Appends bytes, and makes the frame that tells the server of them.
    pub fn write(&mut self, bytes: &[u8]) -> (frame: ClientFrame)
        ensures
            final(self)@ == old(self)@ + bytes@,
            frame@ == write_of(old(self)@, bytes@),
    {
        self.append(bytes);
        let mut sent: Vec<u8> = Vec::new();
        sent.extend_from_slice(bytes);
        assert(sent@ =~= bytes@);
        ClientFrame::Write { bytes: sent, checksum: checksum(&self.state) }
    }
}

} // verus!
