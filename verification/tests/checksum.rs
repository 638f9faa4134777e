use libsync::delta::{Delta, Deltas};
use libsync::digest::Encode;
use libsync::frame::{compare_checksums, ChecksumMismatch};
use std::collections::BTreeMap;
use std::hash::Hash;

fn hashed(value: impl Hash) -> u32 {
    let mut hasher = crc32fast::Hasher::new();
    value.hash(&mut hasher);
    hasher.finalize()
}

fn entries() -> Vec<(u32, Delta)> {
    vec![
        (1, Delta::Append(vec![1, 2, 3])),
        (2, Delta::Truncate(300)),
        (70000, Delta::Reset),
        (70001, Delta::Append(vec![])),
    ]
}

#[test]
fn raw_bytes_have_their_crc32() {
    assert_eq!(libsync::mirror::checksum(b"123456789"), 0xCBF4_3926);
    assert_eq!(libsync::mirror::checksum(b""), 0);
}

#[test]
fn a_crc32_goes_bit_by_bit() {
    for n in [0usize, 1, 2, 3, 4, 7, 8, 15, 16, 17, 63, 64, 65, 200, 1000] {
        let bytes: Vec<u8> = (0..n).map(|i| (i * i + 3 * i + n) as u8).collect();
        let mut register = 0xFFFF_FFFFu32;
        for byte in &bytes {
            register ^= u32::from(*byte);
            for _ in 0..8 {
                let out = register & 1;
                register >>= 1;
                if out == 1 {
                    register ^= 0xEDB8_8320;
                }
            }
        }
        assert_eq!(libsync::mirror::checksum(&bytes), !register);
    }
}

#[test]
fn bytes_are_fed_behind_their_length() {
    let mut fed = Vec::new();
    vec![1u8, 2, 3].encode(&mut fed);
    let mut expected = 3usize.to_ne_bytes().to_vec();
    expected.extend([1, 2, 3]);
    assert_eq!(fed, expected);
    assert_eq!(libsync::checksum(vec![1u8, 2, 3]), crc32fast::hash(&fed));
}

#[test]
fn numbers_are_fed_as_the_machine_holds_them() {
    let mut fed = vec![9u8];
    0x0102_0304u32.encode(&mut fed);
    let order = if u16::from_ne_bytes([1, 0]) == 1 { [9, 4, 3, 2, 1] } else { [9, 1, 2, 3, 4] };
    assert_eq!(fed, order);
    for n in [0usize, 258, 0x0102_0304, usize::MAX] {
        let mut fed = Vec::new();
        n.encode(&mut fed);
        assert_eq!(fed, n.to_ne_bytes());
    }
}

#[test]
fn a_log_is_fed_entry_by_entry() {
    let log = Deltas::from(vec![(2, Delta::Reset), (1, Delta::Append(vec![7]))]);
    let mut fed = Vec::new();
    log.encode(&mut fed);
    let mut expected = 2usize.to_ne_bytes().to_vec();
    expected.extend(1u32.to_ne_bytes());
    expected.extend(0usize.to_ne_bytes());
    expected.extend(1usize.to_ne_bytes());
    expected.push(7);
    expected.extend(2u32.to_ne_bytes());
    expected.extend(2usize.to_ne_bytes());
    assert_eq!(fed, expected);
    assert_eq!(log.checksum(), crc32fast::hash(&expected));
}

#[test]
fn bytes_feed_what_the_standard_hash_feeds() {
    assert_eq!(libsync::checksum(vec![5u8, 6]), hashed(vec![5u8, 6]));
    assert_eq!(libsync::checksum(Vec::<u8>::new()), hashed(Vec::<u8>::new()));
}

#[test]
fn logs_feed_what_the_standard_hash_feeds() {
    let tree: BTreeMap<u32, Delta> = entries().into_iter().collect();
    assert_eq!(Deltas::from(entries()).checksum(), hashed(&tree));
    assert_eq!(Deltas::new().checksum(), hashed(BTreeMap::<u32, Delta>::new()));
}

#[test]
fn a_checksum_can_be_taken_ahead() {
    let log = Deltas::from(vec![(1, Delta::Append(vec![1])), (2, Delta::Reset)]);
    let new = vec![(2, Delta::Truncate(4)), (3, Delta::Append(vec![2]))];
    let mut grown = log.clone();
    grown.insert_many(new.clone());
    assert_eq!(log.checksum_with(&new), grown.checksum());
    assert_ne!(log.checksum_with(&new), log.checksum());
}

#[test]
fn different_logs_feed_different_bytes() {
    let logs = [
        Deltas::new(),
        Deltas::from(vec![(0, Delta::Reset)]),
        Deltas::from(vec![(1, Delta::Reset)]),
        Deltas::from(vec![(1, Delta::Truncate(0))]),
        Deltas::from(vec![(1, Delta::Append(vec![]))]),
        Deltas::from(vec![(1, Delta::Append(vec![0]))]),
    ];
    for i in 0..logs.len() {
        for j in 0..i {
            let mut a = Vec::new();
            let mut b = Vec::new();
            logs[i].encode(&mut a);
            logs[j].encode(&mut b);
            assert_ne!(a, b);
        }
    }
}

#[test]
fn checksums_are_compared() {
    assert_eq!(compare_checksums(4, 4), Ok(()));
    assert_eq!(compare_checksums(4, 5), Err(ChecksumMismatch { expected: 4, received: 5 }));
}
