//! The frames of the delta protocol.

use crate::delta::{entries_after, entries_view, latest, merged, Delta, DeltaView, Log};
use crate::encoding::log_checksum;
use crate::session::ID;
use vstd::prelude::*;

pub use crate::order::SequenceNumber;

verus! {

/// Carries changes, and the checksum of the sender's log.
#[derive(Debug, Clone, PartialEq, Eq)]
pub struct WriteFrame {
    pub new_deltas: Vec<(SequenceNumber, Delta)>,
    pub state_checksum: u32,
}

/// Tells how far the sender's log reaches.
#[derive(Debug, Clone, Copy, PartialEq, Eq, Structural)]
pub struct WriteAckFrame {
    pub seqn: SequenceNumber,
}

/// What one side tells the other.
#[derive(Debug, Clone, PartialEq, Eq)]
pub enum Frame {
    Write(WriteFrame),
    WriteAck(WriteAckFrame),
}

/// A frame on its way to the server.
#[derive(Debug, Clone, PartialEq, Eq)]
pub struct ClientFrame {
    pub session_id: ID,
    pub inner: Frame,
}

/// A frame on its way to a client.
#[derive(Debug, Clone, PartialEq, Eq)]
pub struct ServerFrame {
    pub inner: Frame,
}

/// What a [`WriteFrame`] stands for.
#[verifier::ext_equal]
pub struct WriteFrameView {
    pub new_deltas: Seq<(SequenceNumber, DeltaView)>,
    pub state_checksum: u32,
}

/// What a [`Frame`] stands for.
pub enum FrameView {
    Write(WriteFrameView),
    WriteAck(WriteAckFrame),
}

/// What a [`ClientFrame`] stands for.
pub struct ClientFrameView {
    pub session_id: ID,
    pub inner: FrameView,
}

/// What a [`ServerFrame`] stands for.
pub struct ServerFrameView {
    pub inner: FrameView,
}

impl View for WriteFrame {
    type V = WriteFrameView;

    open spec fn view(&self) -> WriteFrameView {
        WriteFrameView {
            new_deltas: entries_view(self.new_deltas@),
            state_checksum: self.state_checksum,
        }
    }
}

impl View for Frame {
    type V = FrameView;

    open spec fn view(&self) -> FrameView {
        match *self {
            Frame::Write(write) => FrameView::Write(write@),
            Frame::WriteAck(write_ack) => FrameView::WriteAck(write_ack),
        }
    }
}

impl View for ClientFrame {
    type V = ClientFrameView;

    open spec fn view(&self) -> ClientFrameView {
        ClientFrameView { session_id: self.session_id, inner: self.inner@ }
    }
}

impl View for ServerFrame {
    type V = ServerFrameView;

    open spec fn view(&self) -> ServerFrameView {
        ServerFrameView { inner: self.inner@ }
    }
}

/// The checksum that a log has once a write has been merged into it.
pub open spec fn checksum_after(log: Log, write: WriteFrameView) -> u32 {
    log_checksum(merged(log, write.new_deltas))
}

/// Whether a write brings `log` to the state that its sender had.
pub open spec fn accepts(log: Log, write: WriteFrameView) -> bool {
    write.state_checksum == checksum_after(log, write)
}

/// The write that tells a peer of all that comes after `acknowledged`.
pub open spec fn write_of(
    log: Log,
    acknowledged: SequenceNumber,
    state_checksum: u32,
) -> WriteFrameView {
    WriteFrameView { new_deltas: entries_after(log, acknowledged), state_checksum }
}

/// The frame that acknowledges a log.
pub open spec fn ack_of(log: Log) -> FrameView {
    FrameView::WriteAck(WriteAckFrame { seqn: latest(log) })
}

/// Two logs that should be the same have different checksums.
#[derive(Debug, Clone, Copy, PartialEq, Eq, Structural)]
pub struct ChecksumMismatch {
    /// The checksum of the receiver's log, the write merged into it.
    pub expected: u32,
    /// The checksum that the write carries.
    pub received: u32,
}

/// How the checksums differ where `log` does not accept a write.
pub open spec fn mismatch_of(log: Log, write: WriteFrameView) -> ChecksumMismatch {
    ChecksumMismatch { expected: checksum_after(log, write), received: write.state_checksum }
}

/// Holds the checksum that a write carries against the receiver's.
pub fn compare_checksums(expected: u32, received: u32) -> (outcome: Result<(), ChecksumMismatch>)
    ensures
        outcome == (if expected == received {
            Ok::<(), ChecksumMismatch>(())
        } else {
            Err(ChecksumMismatch { expected, received })
        }),
{
    if expected != received {
        Err(ChecksumMismatch { expected, received })
    } else {
        Ok(())
    }
}

} // verus!
