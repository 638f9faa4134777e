use libsync::frame::ChecksumMismatch;
use libsync::mirror::{checksum, ClientFrame, ServerFrame, Session};

#[test]
fn a_write_is_appended_and_told() {
    let mut session = Session::new();
    assert_eq!(
        session.write(&[1, 2]),
        ClientFrame::Write { bytes: vec![1, 2], checksum: checksum(&[1, 2]) },
    );
    assert_eq!(
        session.write(&[3]),
        ClientFrame::Write { bytes: vec![3], checksum: checksum(&[1, 2, 3]) },
    );
    assert_eq!(session.state(), &[1, 2, 3]);
}

#[test]
fn a_mirror_accepts_what_its_peer_wrote() {
    let mut writer = Session::new();
    let mut reader = Session::new();
    for bytes in [vec![1u8], vec![], vec![2, 3]] {
        let ClientFrame::Write { bytes, checksum } = writer.write(&bytes);
        assert_eq!(reader.receive_frame(ServerFrame::Write { bytes, checksum }), Ok(()));
    }
    assert_eq!(reader.state(), writer.state());
    assert_eq!(reader.state(), &[1, 2, 3]);
}

#[test]
fn a_mirror_that_has_parted_notices() {
    let mut session = Session::new();
    session.append(&[7]);
    let received = checksum(&[1]);
    let frame = ServerFrame::Write { bytes: vec![1], checksum: received };
    assert_eq!(
        session.receive_frame(frame),
        Err(ChecksumMismatch { expected: checksum(&[7, 1]), received }),
    );
    assert_eq!(session.state(), &[7]);
}

#[test]
fn a_fitting_frame_is_taken_in() {
    let mut session = Session::new();
    session.on_frame(ServerFrame::Write { bytes: vec![5], checksum: checksum(&[5]) });
    assert_eq!(session.state(), &[5]);
}
