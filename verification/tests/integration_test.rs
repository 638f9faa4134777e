use libsync::client;
use libsync::delta::{Delta, Deltas};
use libsync::frame::{
    ChecksumMismatch, ClientFrame, Frame, ServerFrame, WriteAckFrame, WriteFrame,
};
use libsync::server;
use libsync::session::{Address, Host};

const HOME: Address = Address { host: Host::V4(0x7F00_0001), port: 4000 };
const AWAY: Address = Address {
    host: Host::V6 { ip: 1, flowinfo: 0, scope_id: 0 },
    port: 4001,
};

fn ack(seqn: u32) -> ServerFrame {
    ServerFrame { inner: Frame::WriteAck(WriteAckFrame { seqn }) }
}

/// Hands a client's frame to the server, and the server's reply to the client.
fn deliver(
    server: &mut server::Server,
    client: &mut client::Session,
    from: Address,
    frame: ClientFrame,
) {
    match server.step(server::Event::Decoded { from, frame }) {
        server::Action::Send { to, frame } => {
            assert_eq!(to, from);
            assert_eq!(server.step(server::Event::Sent), server::Action::Receive);
            assert_eq!(
                client.step(client::Event::Decoded { frame }),
                client::Action::Receive,
            );
        }
        action => panic!("no reply but {:?}", action),
    }
}

#[test]
fn test_synchronize_state() {
    let mut server = server::Server::new();
    let mut client = client::Session::new(1);
    let deltas = [
        Delta::Append(vec![1, 2, 3]), // [ 1, 2, 3 ]
        Delta::Reset,                 // [ ]
        Delta::Append(vec![4, 5]),    // [ 4, 5 ]
        Delta::Truncate(1),           // [ 4 ]
        Delta::Append(vec![6, 7, 8]), // [ 4, 6, 7, 8 ]
        Delta::Truncate(3),           // [ 4, 6, 7 ]
    ];

    for (i, delta) in deltas.iter().enumerate() {
        let frame = client.write(delta.clone());
        println!("wrote delta. i: {}", i);
        deliver(&mut server, &mut client, HOME, frame);
    }

    assert_eq!(server.state_of(1), Some(vec![4, 6, 7]));
    assert_eq!(client.deltas().resolve(), vec![4, 6, 7]);
}

#[test]
fn a_write_carries_what_is_not_acknowledged() {
    let mut client = client::Session::new(9);
    client.write(Delta::Append(vec![1]));
    client.write(Delta::Append(vec![2]));
    client.on_write_ack(WriteAckFrame { seqn: 1 });
    let frame = client.write(Delta::Reset);
    let state_checksum = Deltas::from(vec![
        (1, Delta::Append(vec![1])),
        (2, Delta::Append(vec![2])),
        (3, Delta::Reset),
    ])
    .checksum();
    assert_eq!(
        frame,
        ClientFrame {
            session_id: 9,
            inner: Frame::Write(WriteFrame {
                new_deltas: vec![(2, Delta::Append(vec![2])), (3, Delta::Reset)],
                state_checksum,
            }),
        },
    );
}

#[test]
fn lost_writes_are_made_up_for() {
    let mut server = server::Server::new();
    let mut client = client::Session::new(1);
    let first = client.write(Delta::Append(vec![1]));
    deliver(&mut server, &mut client, HOME, first);
    client.write(Delta::Append(vec![2]));
    let third = client.write(Delta::Append(vec![3]));
    deliver(&mut server, &mut client, HOME, third);
    assert_eq!(server.state_of(1), Some(vec![1, 2, 3]));
}

#[test]
fn lost_acknowledgements_are_made_up_for() {
    let mut server = server::Server::new();
    let mut client = client::Session::new(1);
    let first = client.write(Delta::Append(vec![1]));
    server.step(server::Event::Decoded { from: HOME, frame: first });
    let second = client.write(Delta::Append(vec![2]));
    deliver(&mut server, &mut client, HOME, second);
    assert_eq!(server.state_of(1), Some(vec![1, 2]));
}

#[test]
fn a_write_that_does_not_fit_is_a_mismatch() {
    let mut server = server::Server::new();
    let new_deltas = vec![(1, Delta::Append(vec![1]))];
    let expected = Deltas::from(new_deltas.clone()).checksum();
    let received = expected ^ 1;
    let frame = ClientFrame {
        session_id: 1,
        inner: Frame::Write(WriteFrame { new_deltas, state_checksum: received }),
    };
    assert_eq!(
        server.step(server::Event::Decoded { from: HOME, frame }),
        server::Action::Fail { mismatch: ChecksumMismatch { expected, received } },
    );
    assert_eq!(server.state_of(1), Some(vec![]));
}

#[test]
fn a_client_notices_a_mismatch_too() {
    let mut client = client::Session::new(1);
    let new_deltas = vec![(4, Delta::Append(vec![1]))];
    let expected = Deltas::from(new_deltas.clone()).checksum();
    let write = WriteFrame { new_deltas, state_checksum: expected.wrapping_add(1) };
    let received = write.state_checksum;
    let frame = ServerFrame { inner: Frame::Write(write) };
    assert_eq!(
        client.step(client::Event::Decoded { frame }),
        client::Action::Fail { mismatch: ChecksumMismatch { expected, received } },
    );
    assert_eq!(client.deltas().latest_seqn(), 0);
}

#[test]
fn sessions_are_apart() {
    let mut server = server::Server::new();
    let mut one = client::Session::new(1);
    let mut two = client::Session::new(2);
    let frame = one.write(Delta::Append(vec![1]));
    deliver(&mut server, &mut one, HOME, frame);
    let frame = two.write(Delta::Append(vec![2]));
    deliver(&mut server, &mut two, AWAY, frame);
    assert_eq!(server.state_of(1), Some(vec![1]));
    assert_eq!(server.state_of(2), Some(vec![2]));
    assert_eq!(server.state_of(3), None);
}

#[test]
fn a_client_may_move() {
    let mut server = server::Server::new();
    let mut client = client::Session::new(1);
    let frame = client.write(Delta::Append(vec![1]));
    deliver(&mut server, &mut client, HOME, frame);
    let frame = client.write(Delta::Append(vec![2]));
    deliver(&mut server, &mut client, AWAY, frame);
    assert_eq!(server.state_of(1), Some(vec![1, 2]));
}

#[test]
fn an_empty_datagram_stops_both_sides() {
    let mut server = server::Server::new();
    assert_eq!(
        server.step(server::Event::Received { from: HOME, len: 0 }),
        server::Action::Stop,
    );
    assert_eq!(
        server.step(server::Event::Received { from: HOME, len: 3 }),
        server::Action::Decode { from: HOME, len: 3 },
    );
    let mut client = client::Session::new(1);
    assert_eq!(client.step(client::Event::Received { len: 0 }), client::Action::Stop);
    assert_eq!(
        client.step(client::Event::Received { len: 3 }),
        client::Action::Decode { len: 3 },
    );
    assert_eq!(client.step(client::Event::Sent), client::Action::Receive);
}

#[test]
fn an_acknowledgement_gets_no_reply() {
    let mut server = server::Server::new();
    let frame = ClientFrame {
        session_id: 1,
        inner: Frame::WriteAck(WriteAckFrame { seqn: 5 }),
    };
    assert_eq!(
        server.step(server::Event::Decoded { from: HOME, frame }),
        server::Action::Receive,
    );
}

#[test]
fn a_server_session_accepts_and_acknowledges() {
    let mut session = server::Session::new(HOME);
    let mut client = client::Session::new(1);
    for byte in 1..4u8 {
        let frame = client.write(Delta::Append(vec![byte]));
        if let Frame::Write(write) = frame.inner {
            assert_eq!(session.receive_write(write), Ok(Some(ack(u32::from(byte)))));
        }
    }
    assert_eq!(session.deltas.resolve(), vec![1, 2, 3]);
}

#[test]
fn a_server_change_reaches_the_client() {
    let server = server::Server::new();
    let mut session = server::Session::new(HOME);
    let mut client = client::Session::new(1);
    let frame = client.write(Delta::Append(vec![1]));
    if let Frame::Write(write) = frame.inner {
        session.on_write(write);
    }
    assert!(session.can_write());
    let (to, frame) = server.write(Delta::Append(vec![8, 9]), &mut session);
    assert_eq!(to, HOME);
    assert_eq!(session.deltas.resolve(), vec![8, 9]);
    assert_eq!(
        client.step(client::Event::Decoded { frame }),
        client::Action::Send {
            frame: ClientFrame {
                session_id: 1,
                inner: Frame::WriteAck(WriteAckFrame { seqn: 1 }),
            },
        },
    );
    assert_eq!(client.deltas().resolve(), vec![8, 9]);
}

#[test]
fn the_change_of_a_fresh_server_session_is_not_carried() {
    let mut session = server::Session::new(HOME);
    let write = session.write(Delta::Append(vec![1]));
    assert_eq!(write.new_deltas, vec![]);
    assert_eq!(
        write.state_checksum,
        Deltas::from(vec![(0, Delta::Append(vec![1]))]).checksum(),
    );
}

#[test]
fn the_last_number_leaves_none_for_a_write() {
    let mut client = client::Session::new(1);
    assert!(client.can_write());
    client.apply_write(vec![(u32::MAX, Delta::Reset)]);
    assert!(!client.can_write());
    let mut client = client::Session::new(1);
    client.on_write_ack(WriteAckFrame { seqn: u32::MAX });
    assert!(!client.can_write());
    let mut session = server::Session::new(HOME);
    session.on_write_ack(WriteAckFrame { seqn: u32::MAX });
    assert!(!session.can_write());
}
