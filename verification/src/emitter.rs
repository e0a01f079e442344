//! The bookkeeping of a worker that submits transactions account by
//! account: how many accounts a round of requests takes, the sequence
//! numbers that the requests of each account span, and what became of the
//! requests once the accounts' sequence numbers were fetched again.

use crate::task::AccountAddress;
use std::collections::HashMap;
use vstd::prelude::*;

verus! {

broadcast use vstd::std_specs::hash::group_hash_axioms;

/// The sequence numbers that the requests of one account span: from `start`
/// up to, but not including, `end`.
#[derive(Clone, Copy, Debug, PartialEq, Eq, Structural)]
pub struct SequenceRange {
    pub account: AccountAddress,
    pub start: u64,
    pub end: u64,
}

/// The place of the account's range, or the number of ranges where it has
/// none.
pub open spec fn place_of(ranges: Seq<SequenceRange>, account: AccountAddress) -> int
    decreases ranges.len(),
{
    if ranges.len() == 0 {
        0
    } else if ranges[0].account == account {
        0
    } else {
        1 + place_of(ranges.drop_first(), account)
    }
}

/// No account has two ranges, and no range ends before it starts.
pub open spec fn ranges_wf(ranges: Seq<SequenceRange>) -> bool {
    &&& forall|i: int, j: int|
        0 <= i < j < ranges.len() ==> ranges[i].account != ranges[j].account
    &&& forall|i: int| 0 <= i < ranges.len() ==> (#[trigger] ranges[i]).start <= ranges[i].end
}

/// The ranges after a request of `sender` with sequence number `cur`: the
/// sender's range is widened to hold it, or begun with it.
pub open spec fn noted(ranges: Seq<SequenceRange>, sender: AccountAddress, cur: u64) -> Seq<
    SequenceRange,
> {
    let at = place_of(ranges, sender);
    if at < ranges.len() {
        ranges.update(
            at,
            SequenceRange {
                account: sender,
                start: if ranges[at].start > cur {
                    cur
                } else {
                    ranges[at].start
                },
                end: if ranges[at].end < cur + 1 {
                    (cur + 1) as u64
                } else {
                    ranges[at].end
                },
            },
        )
    } else {
        ranges.push(SequenceRange { account: sender, start: cur, end: (cur + 1) as u64 })
    }
}

/// The ranges of the requests, each given by its sender and its sequence
/// number.
pub open spec fn ranges_of(requests: Seq<(AccountAddress, u64)>) -> Seq<SequenceRange>
    decreases requests.len(),
{
    if requests.len() == 0 {
        Seq::empty()
    } else {
        noted(ranges_of(requests.drop_last()), requests.last().0, requests.last().1)
    }
}

/// Where the account has a range it stands at the account's place, and
/// before it stands no range of the account.
pub proof fn lemma_place_of(ranges: Seq<SequenceRange>, account: AccountAddress)
    ensures
        0 <= place_of(ranges, account) <= ranges.len(),
        place_of(ranges, account) < ranges.len() ==> ranges[place_of(ranges, account)].account
            == account,
        forall|i: int| 0 <= i < place_of(ranges, account) ==> ranges[i].account != account,
    decreases ranges.len(),
{
    if ranges.len() > 0 && ranges[0].account != account {
        let rest = ranges.drop_first();
        lemma_place_of(rest, account);
        assert forall|i: int| 0 <= i < place_of(ranges, account) implies ranges[i].account
            != account by {
            if i > 0 {
                assert(rest[i - 1] == ranges[i]);
            }
        }
    }
}

/// Noting a request keeps the ranges well formed.
pub proof fn lemma_noted_wf(ranges: Seq<SequenceRange>, sender: AccountAddress, cur: u64)
    requires
        ranges_wf(ranges),
        cur < u64::MAX,
    ensures
        ranges_wf(noted(ranges, sender, cur)),
{
    lemma_place_of(ranges, sender);
    let at = place_of(ranges, sender);
    let after = noted(ranges, sender, cur);
    assert forall|i: int, j: int| 0 <= i < j < after.len() implies after[i].account
        != after[j].account by {
        if at < ranges.len() {
            assert(after[i].account == ranges[i].account);
            assert(after[j].account == ranges[j].account);
        } else if j == ranges.len() {
            assert(ranges[i].account != sender);
        }
    }
    assert forall|i: int| 0 <= i < after.len() implies (#[trigger] after[i]).start
        <= after[i].end by {
        if i < ranges.len() {
            assert(ranges[i].start <= ranges[i].end);
        }
    }
}

/// The ranges of requests whose sequence numbers are not the last that can
/// be counted are well formed.
pub proof fn lemma_ranges_of_wf(requests: Seq<(AccountAddress, u64)>)
    requires
        forall|i: int| 0 <= i < requests.len() ==> (#[trigger] requests[i]).1 < u64::MAX,
    ensures
        ranges_wf(ranges_of(requests)),
    decreases requests.len(),
{
    if requests.len() > 0 {
        let before = requests.drop_last();
        assert forall|i: int| 0 <= i < before.len() implies (#[trigger] before[i]).1
            < u64::MAX by {
            assert(before[i] == requests[i]);
        }
        lemma_ranges_of_wf(before);
        lemma_noted_wf(ranges_of(before), requests.last().0, requests.last().1);
    }
}

/// The place of the account's range among the ranges.
fn find_range(ranges: &Vec<SequenceRange>, account: AccountAddress) -> (at: usize)
    ensures
        at == place_of(ranges@, account),
        at <= ranges@.len(),
        at < ranges@.len() ==> ranges@[at as int].account == account,
{
    let mut at: usize = 0;
    proof {
        lemma_place_of(ranges@, account);
        assert(ranges@.subrange(0, ranges@.len() as int) =~= ranges@);
    }
    while at < ranges.len() && ranges[at].account != account
        invariant
            at <= ranges@.len(),
            place_of(ranges@, account) == at + place_of(
                ranges@.subrange(at as int, ranges@.len() as int),
                account,
            ),
        decreases ranges@.len() - at,
    {
        proof {
            let rest = ranges@.subrange(at as int, ranges@.len() as int);
            assert(rest.drop_first() =~= ranges@.subrange(at + 1, ranges@.len() as int));
        }
        at = at + 1;
    }
    proof {
        let rest = ranges@.subrange(at as int, ranges@.len() as int);
        if at < ranges.len() {
            assert(rest[0] == ranges@[at as int]);
        } else {
            assert(rest.len() == 0);
        }
    }
    at
}

/// Notes a request of `sender` with sequence number `cur`, which must not be
/// the last that can be counted.
pub fn note_request(ranges: &mut Vec<SequenceRange>, sender: AccountAddress, cur: u64)
    requires
        cur < u64::MAX,
    ensures
        final(ranges)@ == noted(old(ranges)@, sender, cur),
{
    let at = find_range(ranges, sender);
    if at < ranges.len() {
        let range = ranges[at];
        let start = if range.start > cur {
            cur
        } else {
            range.start
        };
        let end = if range.end < cur + 1 {
            cur + 1
        } else {
            range.end
        };
        ranges.set(at, SequenceRange { account: sender, start, end });
    } else {
        ranges.push(SequenceRange { account: sender, start: cur, end: cur + 1 });
    }
}

/// The ranges of the requests, each given by its sender and its sequence
/// number, in the order in which the senders first occur. No sequence
/// number may be the last that can be counted.
pub fn sequence_ranges(requests: &Vec<(AccountAddress, u64)>) -> (ranges: Vec<SequenceRange>)
    requires
        forall|i: int| 0 <= i < requests@.len() ==> (#[trigger] requests@[i]).1 < u64::MAX,
    ensures
        ranges@ == ranges_of(requests@),
        ranges_wf(ranges@),
{
    let mut ranges: Vec<SequenceRange> = Vec::new();
    let mut i: usize = 0;
    while i < requests.len()
        invariant
            i <= requests@.len(),
            forall|k: int| 0 <= k < requests@.len() ==> (#[trigger] requests@[k]).1 < u64::MAX,
            ranges@ == ranges_of(requests@.subrange(0, i as int)),
        decreases requests@.len() - i,
    {
        let (sender, cur) = requests[i];
        proof {
            let next = requests@.subrange(0, i + 1);
            assert(next.drop_last() =~= requests@.subrange(0, i as int));
            assert(next.last() == requests@[i as int]);
        }
        note_request(&mut ranges, sender, cur);
        i = i + 1;
    }
    proof {
        assert(requests@.subrange(0, i as int) =~= requests@);
        lemma_ranges_of_wf(requests@);
    }
    ranges
}

/// How many accounts a round of requests takes: as many as make a full
/// batch, at most all of them, and at least one.
pub fn request_batch_size(
    max_submit_batch_size: usize,
    transactions_per_account: usize,
    num_accounts: usize,
) -> (size: usize)
    requires
        transactions_per_account > 0,
    ensures
        size == (if max_submit_batch_size / transactions_per_account == 0 || num_accounts == 0 {
            1usize
        } else if max_submit_batch_size / transactions_per_account <= num_accounts {
            max_submit_batch_size / transactions_per_account
        } else {
            num_accounts
        }),
{
    let full = max_submit_batch_size / transactions_per_account;
    let least = if full <= num_accounts {
        full
    } else {
        num_accounts
    };
    if least >= 1 {
        least
    } else {
        1
    }
}

/// How many requests of a range were committed, where the account's
/// sequence number was fetched as `latest`, or could not be fetched.
pub open spec fn committed_of(range: SequenceRange, latest: Option<u64>) -> int {
    match latest {
        Some(count) => if count >= range.start {
            count - range.start
        } else {
            0
        },
        None => 0,
    }
}

/// How many requests of a range have expired: all that were not committed.
pub open spec fn expired_of(range: SequenceRange, latest: Option<u64>) -> int {
    range.end - range.start - committed_of(range, latest)
}

/// What was fetched for an account.
pub open spec fn fetched(latest: Map<AccountAddress, u64>, account: AccountAddress) -> Option<
    u64,
> {
    if latest.contains_key(account) {
        Some(latest[account])
    } else {
        None
    }
}

/// The committed requests of all the ranges.
pub open spec fn total_committed(
    ranges: Seq<SequenceRange>,
    latest: Map<AccountAddress, u64>,
) -> int
    decreases ranges.len(),
{
    if ranges.len() == 0 {
        0
    } else {
        total_committed(ranges.drop_last(), latest) + committed_of(
            ranges.last(),
            fetched(latest, ranges.last().account),
        )
    }
}

/// The expired requests of all the ranges.
pub open spec fn total_expired(ranges: Seq<SequenceRange>, latest: Map<AccountAddress, u64>) -> int
    decreases ranges.len(),
{
    if ranges.len() == 0 {
        0
    } else {
        total_expired(ranges.drop_last(), latest) + expired_of(
            ranges.last(),
            fetched(latest, ranges.last().account),
        )
    }
}

/// No account was fetched with a sequence number beyond its requests.
pub open spec fn fetched_within(
    ranges: Seq<SequenceRange>,
    latest: Map<AccountAddress, u64>,
) -> bool {
    forall|i: int|
        0 <= i < ranges.len() && latest.contains_key((#[trigger] ranges[i]).account)
            ==> latest[ranges[i].account] <= ranges[i].end
}

/// The number of requests in all the ranges.
pub open spec fn total_requests(ranges: Seq<SequenceRange>) -> int
    decreases ranges.len(),
{
    if ranges.len() == 0 {
        0
    } else {
        total_requests(ranges.drop_last()) + ranges.last().end - ranges.last().start
    }
}

/// Every request is counted once: as committed or as expired.
pub proof fn lemma_committed_and_expired(
    ranges: Seq<SequenceRange>,
    latest: Map<AccountAddress, u64>,
)
    requires
        ranges_wf(ranges),
        fetched_within(ranges, latest),
    ensures
        total_committed(ranges, latest) + total_expired(ranges, latest) == total_requests(ranges),
        0 <= total_committed(ranges, latest),
        0 <= total_expired(ranges, latest),
    decreases ranges.len(),
{
    if ranges.len() > 0 {
        let before = ranges.drop_last();
        assert forall|i: int|
            0 <= i < before.len() && latest.contains_key(
                (#[trigger] before[i]).account,
            ) implies latest[before[i].account] <= before[i].end by {
            assert(before[i] == ranges[i]);
        }
        assert forall|i: int| 0 <= i < before.len() implies (#[trigger] before[i]).start
            <= before[i].end by {
            assert(before[i] == ranges[i]);
        }
        assert(ranges_wf(before));
        lemma_committed_and_expired(before, latest);
        let last = ranges[ranges.len() - 1];
        assert(last.start <= last.end);
        assert(latest.contains_key(last.account) ==> latest[last.account] <= last.end);
    }
}

/// Counts the requests that were committed and those that expired, from the
/// sequence numbers that were fetched for the accounts. The requests are no
/// more than can be counted.
pub fn count_committed_expired_stats(
    account_to_start_and_end_seq_num: &Vec<SequenceRange>,
    latest_fetched_counts: &HashMap<AccountAddress, u64>,
) -> (stats: (usize, usize))
    requires
        ranges_wf(account_to_start_and_end_seq_num@),
        fetched_within(account_to_start_and_end_seq_num@, latest_fetched_counts@),
        total_requests(account_to_start_and_end_seq_num@) <= usize::MAX,
    ensures
        stats.0 == total_committed(account_to_start_and_end_seq_num@, latest_fetched_counts@),
        stats.1 == total_expired(account_to_start_and_end_seq_num@, latest_fetched_counts@),
{
    let ranges = account_to_start_and_end_seq_num;
    let mut committed: usize = 0;
    let mut expired: usize = 0;
    let mut i: usize = 0;
    proof {
        lemma_committed_and_expired(ranges@, latest_fetched_counts@);
    }
    while i < ranges.len()
        invariant
            i <= ranges@.len(),
            ranges_wf(ranges@),
            fetched_within(ranges@, latest_fetched_counts@),
            total_requests(ranges@) <= usize::MAX,
            committed == total_committed(ranges@.subrange(0, i as int), latest_fetched_counts@),
            expired == total_expired(ranges@.subrange(0, i as int), latest_fetched_counts@),
            committed + expired == total_requests(ranges@.subrange(0, i as int)),
            total_requests(ranges@.subrange(0, i as int)) <= total_requests(ranges@),
        decreases ranges@.len() - i,
    {
        let range = ranges[i];
        proof {
            let next = ranges@.subrange(0, i + 1);
            assert(next.drop_last() =~= ranges@.subrange(0, i as int));
            assert(next.last() == ranges@[i as int]);
            assert(ranges@[i as int].start <= ranges@[i as int].end);
            lemma_requests_grow(ranges@, i + 1);
        }
        let (cur_committed, cur_expired) = match latest_fetched_counts.get(&range.account) {
            Some(count) => {
                if *count >= range.start {
                    ((*count - range.start) as usize, (range.end - *count) as usize)
                } else {
                    (0, (range.end - range.start) as usize)
                }
            },
            None => (0, (range.end - range.start) as usize),
        };
        committed = committed + cur_committed;
        expired = expired + cur_expired;
        i = i + 1;
    }
    proof {
        assert(ranges@.subrange(0, i as int) =~= ranges@);
    }
    (committed, expired)
}

/// The requests of the first ranges are no more than those of all.
pub proof fn lemma_requests_grow(ranges: Seq<SequenceRange>, n: int)
    requires
        ranges_wf(ranges),
        0 <= n <= ranges.len(),
    ensures
        0 <= total_requests(ranges.subrange(0, n)) <= total_requests(ranges),
    decreases ranges.len() - n,
{
    if n == ranges.len() {
        assert(ranges.subrange(0, n) =~= ranges);
        lemma_requests_count(ranges);
    } else {
        lemma_requests_grow(ranges, n + 1);
        let next = ranges.subrange(0, n + 1);
        assert(next.drop_last() =~= ranges.subrange(0, n));
        assert(next.last() == ranges[n]);
        assert(ranges[n].start <= ranges[n].end);
        assert forall|i: int| 0 <= i < n implies (#[trigger] ranges.subrange(0, n)[i]).start
            <= ranges.subrange(0, n)[i].end by {
            assert(ranges.subrange(0, n)[i] == ranges[i]);
        }
        lemma_requests_count(ranges.subrange(0, n));
    }
}

/// The number of requests in ranges that do not end before they start is
/// not negative.
pub proof fn lemma_requests_count(ranges: Seq<SequenceRange>)
    requires
        forall|i: int| 0 <= i < ranges.len() ==> (#[trigger] ranges[i]).start <= ranges[i].end,
    ensures
        0 <= total_requests(ranges),
    decreases ranges.len(),
{
    if ranges.len() > 0 {
        let before = ranges.drop_last();
        assert forall|i: int| 0 <= i < before.len() implies (#[trigger] before[i]).start
            <= before[i].end by {
            assert(before[i] == ranges[i]);
        }
        lemma_requests_count(before);
        assert(ranges[ranges.len() - 1].start <= ranges[ranges.len() - 1].end);
    }
}

/// The sequence number with which an account goes on after its requests:
/// the one that was fetched for it; where none could be fetched, the first
/// of its requests; and its own where it made no request.
pub open spec fn spec_next_sequence_number(
    sequence_number: u64,
    account: AccountAddress,
    ranges: Seq<SequenceRange>,
    latest: Map<AccountAddress, u64>,
) -> u64 {
    let at = place_of(ranges, account);
    if at >= ranges.len() {
        sequence_number
    } else if latest.contains_key(account) {
        latest[account]
    } else {
        ranges[at].start
    }
}

/// Sets the account's sequence number to the one it goes on with. Where the
/// account made requests, its sequence number is the end of their range, and
/// what was fetched for it is not beyond that.
pub fn update_account_seq_num(
    sequence_number: &mut u64,
    account: AccountAddress,
    account_to_start_and_end_seq_num: &Vec<SequenceRange>,
    latest_fetched_counts: &HashMap<AccountAddress, u64>,
)
    requires
        place_of(account_to_start_and_end_seq_num@, account)
            < account_to_start_and_end_seq_num@.len() ==> {
            &&& *old(sequence_number) == account_to_start_and_end_seq_num@[place_of(
                account_to_start_and_end_seq_num@,
                account,
            )].end
            &&& latest_fetched_counts@.contains_key(account) ==> latest_fetched_counts@[account]
                <= *old(sequence_number)
        },
    ensures
        *final(sequence_number) == spec_next_sequence_number(
            *old(sequence_number),
            account,
            account_to_start_and_end_seq_num@,
            latest_fetched_counts@,
        ),
{
    let at = find_range(account_to_start_and_end_seq_num, account);
    if at >= account_to_start_and_end_seq_num.len() {
        return;
    }
    match latest_fetched_counts.get(&account) {
        Some(count) => {
            if *count != *sequence_number {
                *sequence_number = *count;
            }
        },
        None => {
            *sequence_number = account_to_start_and_end_seq_num[at].start;
        },
    }
}

/// The latency of the committed requests, in milliseconds: the sum over
/// them, which is the sum of the times at which they were seen committed
/// less the time at which each was sent on average; and its mean. Both as
/// far as 64 bits hold them. At least one request was committed, and none
/// before it was sent.
pub fn latency_of(
    sum_of_completion_timestamps_millis: u128,
    avg_txn_offset_time: u64,
    num_committed: usize,
) -> (latency: (u64, u64))
    requires
        num_committed > 0,
        avg_txn_offset_time * num_committed <= sum_of_completion_timestamps_millis,
    ensures
        latency.0 == ((sum_of_completion_timestamps_millis - avg_txn_offset_time * num_committed)
            as u128) as u64,
        latency.1 == (((sum_of_completion_timestamps_millis - avg_txn_offset_time * num_committed)
            / (num_committed as int)) as u128) as u64,
{
    assert(avg_txn_offset_time * num_committed <= u128::MAX);
    let sum_latency = sum_of_completion_timestamps_millis - (avg_txn_offset_time as u128
        * num_committed as u128);
    let avg_latency = (sum_latency / num_committed as u128) as u64;
    (sum_latency as u64, avg_latency)
}

} // verus!
