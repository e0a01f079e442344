use block_stm::emitter::{
    count_committed_expired_stats, latency_of, note_request, request_batch_size, sequence_ranges,
    update_account_seq_num, SequenceRange,
};
use std::collections::HashMap;

fn range(account: u64, start: u64, end: u64) -> SequenceRange {
    SequenceRange { account, start, end }
}

#[test]
fn ranges_span_the_requests_of_each_sender() {
    let requests = vec![(5, 10), (9, 3), (5, 12), (5, 11), (9, 2), (1, 0)];
    assert_eq!(
        sequence_ranges(&requests),
        vec![range(5, 10, 13), range(9, 2, 4), range(1, 0, 1)]
    );
    assert_eq!(sequence_ranges(&Vec::new()), Vec::new());
}

#[test]
fn noting_a_request_widens_or_begins_a_range() {
    let mut ranges = Vec::new();
    note_request(&mut ranges, 4, 7);
    assert_eq!(ranges, vec![range(4, 7, 8)]);
    note_request(&mut ranges, 4, 7);
    assert_eq!(ranges, vec![range(4, 7, 8)]);
    note_request(&mut ranges, 4, 5);
    assert_eq!(ranges, vec![range(4, 5, 8)]);
    note_request(&mut ranges, 6, 0);
    note_request(&mut ranges, 4, 9);
    assert_eq!(ranges, vec![range(4, 5, 10), range(6, 0, 1)]);
}

#[test]
fn batch_size_is_between_one_and_the_accounts() {
    assert_eq!(request_batch_size(100, 10, 50), 10);
    assert_eq!(request_batch_size(100, 10, 4), 4);
    assert_eq!(request_batch_size(5, 10, 4), 1);
    assert_eq!(request_batch_size(100, 10, 0), 1);
    assert_eq!(request_batch_size(0, 1, 7), 1);
    assert_eq!(request_batch_size(7, 1, 7), 7);
}

#[test]
fn committed_and_expired_are_counted_per_account() {
    let ranges = vec![range(1, 10, 15), range(2, 0, 4), range(3, 7, 9), range(4, 20, 30)];
    let mut latest = HashMap::new();
    latest.insert(1, 13); // three committed, two expired
    latest.insert(2, 4); // all four committed
    latest.insert(4, 18); // stale: nothing committed, ten expired
    // Account 3 could not be fetched: both expired.
    assert_eq!(count_committed_expired_stats(&ranges, &latest), (7, 14));
    assert_eq!(count_committed_expired_stats(&Vec::new(), &latest), (0, 0));
    // A range without a request counts for nothing, fetched or not.
    let empty = vec![range(1, 13, 13), range(3, 7, 7), range(4, 20, 20)];
    assert_eq!(count_committed_expired_stats(&empty, &latest), (0, 0));
    assert_eq!(count_committed_expired_stats(&ranges, &HashMap::new()), (0, 21));
}

#[test]
fn account_goes_on_with_what_was_fetched() {
    let ranges = vec![range(1, 10, 15), range(2, 0, 4)];
    let mut latest = HashMap::new();
    latest.insert(1, 13);
    latest.insert(7, 99);

    let mut seq = 15;
    update_account_seq_num(&mut seq, 1, &ranges, &latest);
    assert_eq!(seq, 13);

    // Nothing fetched: back to the first request.
    let mut seq = 4;
    update_account_seq_num(&mut seq, 2, &ranges, &latest);
    assert_eq!(seq, 0);

    // No request made: unchanged, whatever was fetched.
    let mut seq = 50;
    update_account_seq_num(&mut seq, 7, &ranges, &latest);
    assert_eq!(seq, 50);

    // All committed: unchanged.
    latest.insert(2, 4);
    let mut seq = 4;
    update_account_seq_num(&mut seq, 2, &ranges, &latest);
    assert_eq!(seq, 4);
}

#[test]
fn latency_is_completion_less_offset() {
    assert_eq!(latency_of(10_000, 300, 10), (7_000, 700));
    assert_eq!(latency_of(1_000, 0, 3), (1_000, 333));
    assert_eq!(latency_of(500, 500, 1), (0, 0));
    // Only the low 64 bits of the sum are kept.
    assert_eq!(latency_of((1u128 << 64) + 5, 0, 1), (5, 5));
}
