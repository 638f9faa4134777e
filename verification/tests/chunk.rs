use libsync::chunk::{resolve_deltas, Action, Event, Frame, Server};
use libsync::session::{Address, Host};
use std::collections::BTreeMap;

const HOME: Address = Address { host: Host::V4(0x7F00_0001), port: 4000 };

fn write(seqn: u32, bytes: &[u8]) -> Frame {
    Frame::Write { bytes: bytes.to_vec(), checksum: 0, seqn }
}

#[test]
fn chunks_are_joined_in_order() {
    let mut chunks = BTreeMap::new();
    chunks.insert(5, vec![3, 4]);
    chunks.insert(1, vec![1, 2]);
    chunks.insert(3, vec![]);
    assert_eq!(resolve_deltas(&chunks), vec![1, 2, 3, 4]);
    assert_eq!(libsync::client::resolve_deltas(&chunks), vec![1, 2, 3, 4]);
    assert_eq!(resolve_deltas(&BTreeMap::new()), Vec::<u8>::new());
}

#[test]
fn a_chunk_is_kept_if_its_number_comes_after_all_others() {
    let mut server = Server::new();
    assert_eq!(server.handle_frame(write(2, &[1])), Some(Frame::WriteAck { seqn: 2 }));
    assert_eq!(server.handle_frame(write(2, &[2])), Some(Frame::WriteAck { seqn: 2 }));
    assert_eq!(server.handle_frame(write(1, &[3])), Some(Frame::WriteAck { seqn: 1 }));
    assert_eq!(server.state(), vec![1]);
    assert_eq!(server.handle_frame(write(3, &[4])), Some(Frame::WriteAck { seqn: 3 }));
    assert_eq!(server.state(), vec![1, 4]);
}

#[test]
fn the_number_zero_is_kept_by_an_empty_server() {
    let mut server = Server::new();
    server.handle_frame(write(0, &[1]));
    assert_eq!(server.state(), vec![1]);
}

#[test]
fn a_write_carries_everything_from_the_last_acknowledged_chunk_on() {
    let mut server = Server::new();
    assert_eq!(
        server.write(&[1]),
        Frame::Write { bytes: vec![1], checksum: libsync::checksum(vec![1u8]), seqn: 0 },
    );
    assert_eq!(
        server.write(&[2]),
        Frame::Write { bytes: vec![1, 2], checksum: libsync::checksum(vec![1u8, 2]), seqn: 1 },
    );
    assert_eq!(server.handle_frame(Frame::WriteAck { seqn: 1 }), None);
    assert_eq!(
        server.write(&[3]),
        Frame::Write { bytes: vec![2, 3], checksum: libsync::checksum(vec![1u8, 2, 3]), seqn: 2 },
    );
    assert_eq!(server.state(), vec![1, 2, 3]);
}

#[test]
fn the_server_notes_where_its_client_is() {
    let mut server = Server::new();
    assert_eq!(server.step(Event::Received { from: HOME, len: 0 }), Action::Stop);
    assert_eq!(server.address(), None);
    assert_eq!(
        server.step(Event::Received { from: HOME, len: 4 }),
        Action::Decode { from: HOME, len: 4 },
    );
    assert_eq!(server.address(), Some(HOME));
    assert_eq!(
        server.step(Event::Decoded { from: HOME, frame: write(1, &[1]) }),
        Action::Send { to: HOME, frame: Frame::WriteAck { seqn: 1 } },
    );
    assert_eq!(server.step(Event::Sent), Action::Receive);
    assert_eq!(
        server.step(Event::Decoded { from: HOME, frame: Frame::WriteAck { seqn: 1 } }),
        Action::Receive,
    );
}

#[test]
fn the_last_number_leaves_none_for_a_chunk() {
    let mut server = Server::new();
    assert!(server.can_write());
    server.handle_frame(write(u32::MAX, &[1]));
    assert!(!server.can_write());
}
