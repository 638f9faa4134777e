//! What a mirror does with a write.

use crate::digest::crc32_of;
use crate::mirror::{accepts, write_of, ClientFrame, ServerFrame, WriteView};
use vstd::prelude::*;

verus! {

/// A frame is known by what it holds.
pub proof fn law_mirror_frame_is_what_it_holds(to_client: ServerFrame, to_server: ClientFrame)
    ensures
        to_client matches ServerFrame::Write { bytes, checksum } && to_client@.bytes == bytes@
            && to_client@.checksum == checksum,
        to_server matches ClientFrame::Write { bytes, checksum } && to_server@.bytes == bytes@
            && to_server@.checksum == checksum,
{
}

/// A write is accepted if and only if its checksum is the CRC-32 of all bytes that there are once
/// it has been appended, whether there were any before or not.
pub proof fn law_mirror_checks_every_write(state: Seq<u8>, write: WriteView, after: Seq<u8>)
    requires
        after.len() == state.len() + write.bytes.len(),
        forall|i: int| 0 <= i < state.len() ==> #[trigger] after[i] == state[i],
        forall|i: int|
            state.len() <= i < after.len() ==> #[trigger] after[i] == write.bytes[i - state.len()],
    ensures
        accepts(state, write) <==> write.checksum == crc32_of(after),
{
    assert(after =~= state + write.bytes);
}

/// What a mirror sends are the bytes that were appended, with the CRC-32 of all that there are
/// then.
pub proof fn law_mirror_sends_what_was_appended(state: Seq<u8>, bytes: Seq<u8>)
    ensures
        write_of(state, bytes).bytes == bytes,
        write_of(state, bytes).checksum == crc32_of(state + bytes),
{
}

} // verus!
