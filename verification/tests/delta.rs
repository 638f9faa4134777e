use libsync::delta::{merge, Delta, Deltas};

fn six_deltas() -> Vec<(u32, Delta)> {
    let deltas = [
        (0, Delta::Append(vec![1, 2, 3])), // [ 1, 2, 3 ]
        (1, Delta::Reset),                 // [ ]
        (2, Delta::Append(vec![4, 5])),    // [ 4, 5 ]
        (3, Delta::Truncate(1)),           // [ 4 ]
        (4, Delta::Append(vec![6, 7, 8])), // [ 4, 6, 7, 8 ]
        (5, Delta::Truncate(3)),           // [ 4, 6, 7 ]
    ];
    deltas.to_vec()
}

#[test]
fn resolve() {
    let deltas = [
        (0, Delta::Append(vec![1, 2, 3])), // [ 1, 2, 3 ]
        (1, Delta::Reset),                 // [ ]
        (2, Delta::Append(vec![4, 5])),    // [ 4, 5 ]
        (3, Delta::Truncate(1)),           // [ 4 ]
        (4, Delta::Append(vec![6, 7, 8])), // [ 4, 6, 7, 8 ]
        (5, Delta::Truncate(3)),           // [ 4, 6, 7 ]
    ];
    let deltas = Deltas::from(deltas.to_vec());
    assert_eq!(deltas.resolve(), vec![4, 6, 7]);
}

#[test]
fn resolve_of_a_run() {
    let run = [Delta::Append(vec![1, 2]), Delta::Truncate(1), Delta::Append(vec![9])];
    assert_eq!(libsync::delta::resolve(run.iter()), vec![1, 9]);
    assert_eq!(libsync::delta::resolve([].iter()), Vec::<u8>::new());
}

#[test]
fn truncate_past_the_end_keeps_all() {
    let run = [Delta::Append(vec![1, 2]), Delta::Truncate(5)];
    assert_eq!(libsync::delta::resolve(run.iter()), vec![1, 2]);
}

#[test]
fn merge_makes_one_append() {
    let run = [Delta::Append(vec![1, 2, 3]), Delta::Truncate(2)];
    assert_eq!(merge(run.iter()), Delta::Append(vec![1, 2]));
}

#[test]
fn merging_a_head_keeps_the_state() {
    let changes: Vec<Delta> = six_deltas().into_iter().map(|e| e.1).collect();
    for cut in 0..changes.len() + 1 {
        let mut short = vec![merge(changes[..cut].iter())];
        short.extend(changes[cut..].iter().cloned());
        assert_eq!(libsync::delta::resolve(short.iter()), vec![4, 6, 7]);
    }
}

#[test]
fn reset_forgets_what_came_before() {
    let run = [Delta::Append(vec![1, 2]), Delta::Reset, Delta::Append(vec![3])];
    assert_eq!(libsync::delta::resolve(run.iter()), vec![3]);
}

#[test]
fn a_new_log_is_empty() {
    let log = Deltas::new();
    assert_eq!(log.latest_seqn(), 0);
    assert_eq!(log.resolve(), Vec::<u8>::new());
    assert_eq!(Deltas::default().latest_seqn(), 0);
}

#[test]
fn the_latest_number_is_the_greatest() {
    let mut log = Deltas::new();
    log.insert(7, Delta::Reset);
    log.insert(3, Delta::Reset);
    assert_eq!(log.latest_seqn(), 7);
}

#[test]
fn insert_replaces() {
    let mut log = Deltas::new();
    log.insert(1, Delta::Append(vec![1]));
    log.insert(1, Delta::Append(vec![2]));
    assert_eq!(log.resolve(), vec![2]);
}

#[test]
fn since_leaves_out_the_number_itself() {
    let log = Deltas::from(six_deltas());
    assert_eq!(log.since(&3), vec![Delta::Append(vec![6, 7, 8]), Delta::Truncate(3)]);
    assert_eq!(log.since(&5), Vec::<Delta>::new());
    assert_eq!(
        log.entries_since(&4),
        vec![(5, Delta::Truncate(3))],
    );
}

#[test]
fn writing_twice_is_writing_once() {
    let mut log = Deltas::from(six_deltas());
    let once = log.checksum();
    log.insert_many(six_deltas());
    assert_eq!(log.checksum(), once);
    assert_eq!(log.resolve(), vec![4, 6, 7]);
}

#[test]
fn the_order_of_arrival_does_not_matter() {
    let mut reversed = six_deltas();
    reversed.reverse();
    let log = Deltas::from(reversed);
    assert_eq!(log.resolve(), vec![4, 6, 7]);
    assert_eq!(log.checksum(), Deltas::from(six_deltas()).checksum());
}

#[test]
fn a_copy_is_the_same_log() {
    let log = Deltas::from(six_deltas());
    let mut copy = log.clone();
    assert_eq!(copy.checksum(), log.checksum());
    copy.insert(6, Delta::Reset);
    assert_eq!(copy.resolve(), Vec::<u8>::new());
    assert_eq!(log.resolve(), vec![4, 6, 7]);
}
