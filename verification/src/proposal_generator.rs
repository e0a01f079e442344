//! How large a proposer makes its block, and how long it waits before it
//! proposes: the limits that the health of the chain, the latency of the
//! pipeline and the time that recent blocks took to execute put on a
//! proposal; the rounds whose proposers failed; and the rule that a
//! validator proposes once in a round.

use vstd::prelude::*;

verus! {

/// A round of the protocol.
pub type Round = u64;

/// The limits on a proposal while fewer than a given share of the voting
/// power takes part.
#[derive(Clone, Copy, Debug, PartialEq, Eq, Structural)]
pub struct ChainHealthBackoffValues {
    pub backoff_if_below_participating_voting_power_percentage: usize,
    pub max_sending_block_txns_after_filtering_override: u64,
    pub max_sending_block_bytes_override: u64,
    pub backoff_proposal_delay_ms: u64,
}

/// The limits on a proposal while the pipeline is behind by more than a
/// given latency.
#[derive(Clone, Copy, Debug, PartialEq, Eq, Structural)]
pub struct PipelineBackpressureValues {
    pub back_pressure_pipeline_latency_limit_ms: u64,
    pub max_sending_block_txns_after_filtering_override: u64,
    pub max_sending_block_bytes_override: u64,
    pub backpressure_proposal_delay_ms: u64,
}

/// When and how the time that recent blocks took to execute limits the
/// size of a proposal.
#[derive(Clone, Copy, Debug, PartialEq, Eq, Structural)]
pub struct ExecutionBackpressureConfig {
    pub num_blocks_to_look_at: usize,
    pub min_blocks_to_activate: usize,
    pub target_block_time_ms: usize,
    pub min_block_time_ms_to_activate: usize,
    pub min_calibrated_txns_per_block: u64,
}

/// The keys stand in strictly increasing order.
pub open spec fn keys_increase(keys: Seq<u64>) -> bool {
    forall|a: int, b: int| 0 <= a < b < keys.len() ==> keys[a] < keys[b]
}

/// The position of the least key that is at least `bound`: the number of
/// keys below `bound`.
fn first_at_or_above(keys: &Vec<u64>, bound: u64) -> (at: usize)
    requires
        keys_increase(keys@),
    ensures
        at <= keys@.len(),
        forall|i: int| 0 <= i < at ==> keys@[i] < bound,
        forall|i: int| at <= i < keys@.len() ==> keys@[i] >= bound,
{
    let mut at: usize = 0;
    while at < keys.len() && keys[at] < bound
        invariant
            keys_increase(keys@),
            at <= keys@.len(),
            forall|i: int| 0 <= i < at ==> keys@[i] < bound,
        decreases keys@.len() - at,
    {
        at = at + 1;
    }
    proof {
        assert forall|i: int| at <= i < keys@.len() implies keys@[i] >= bound by {
            if at < i {
                assert(keys@[at as int] < keys@[i]);
            }
        }
    }
    at
}

/// The keys of the chain health limits.
pub open spec fn chain_health_keys(values: Seq<ChainHealthBackoffValues>) -> Seq<u64> {
    Seq::new(
        values.len(),
        |i: int| values[i].backoff_if_below_participating_voting_power_percentage as u64,
    )
}

/// The keys of the pipeline limits.
pub open spec fn pipeline_keys(values: Seq<PipelineBackpressureValues>) -> Seq<u64> {
    Seq::new(values.len(), |i: int| values[i].back_pressure_pipeline_latency_limit_ms)
}

/// No two of the keys are the same.
pub open spec fn keys_distinct(keys: Seq<u64>) -> bool {
    forall|a: int, b: int| 0 <= a < b < keys.len() ==> keys[a] != keys[b]
}

/// `backoff` holds the limits, of `values`, for the least share that is not
/// below `voting_power_percentage`, or nothing where every share is below it.
pub open spec fn holds_at_percentage(
    values: Seq<ChainHealthBackoffValues>,
    voting_power_percentage: usize,
    backoff: Option<ChainHealthBackoffValues>,
) -> bool {
    match backoff {
        Some(v) => {
            &&& values.contains(v)
            &&& v.backoff_if_below_participating_voting_power_percentage
                >= voting_power_percentage
            &&& forall|w: ChainHealthBackoffValues|
                values.contains(w) && w.backoff_if_below_participating_voting_power_percentage
                    >= voting_power_percentage
                    ==> v.backoff_if_below_participating_voting_power_percentage
                    <= w.backoff_if_below_participating_voting_power_percentage
        },
        None => forall|w: ChainHealthBackoffValues|
            values.contains(w) ==> w.backoff_if_below_participating_voting_power_percentage
                < voting_power_percentage,
    }
}

/// `backoff` holds the limits, of `values`, for the greatest latency below
/// `pipeline_pending_latency_ms`, or nothing where no latency is below it.
pub open spec fn holds_at_latency(
    values: Seq<PipelineBackpressureValues>,
    pipeline_pending_latency_ms: u64,
    backoff: Option<PipelineBackpressureValues>,
) -> bool {
    match backoff {
        Some(v) => {
            &&& values.contains(v)
            &&& v.back_pressure_pipeline_latency_limit_ms < pipeline_pending_latency_ms
            &&& forall|w: PipelineBackpressureValues|
                values.contains(w) && w.back_pressure_pipeline_latency_limit_ms
                    < pipeline_pending_latency_ms ==> w.back_pressure_pipeline_latency_limit_ms
                    <= v.back_pressure_pipeline_latency_limit_ms
        },
        None => forall|w: PipelineBackpressureValues|
            values.contains(w) ==> w.back_pressure_pipeline_latency_limit_ms
                >= pipeline_pending_latency_ms,
    }
}

/// The size to which the sizes that recent blocks calibrate to limit the
/// block, if they limit it: of the sizes, in increasing order, the one at
/// `index`, or the last where there are fewer, raised to the least
/// calibrated size; and this only where enough blocks gave one and where it
/// is below `max_block_txns`.
pub open spec fn spec_execution_backoff(
    execution: Option<ExecutionBackpressureConfig>,
    sizes: Seq<u64>,
    index: usize,
    max_block_txns: u64,
) -> Option<u64> {
    match execution {
        None => None,
        Some(config) => if sizes.len() == 0 || sizes.len() < config.min_blocks_to_activate {
            None
        } else {
            let size = max_of(
                sizes[if index < sizes.len() {
                    index as int
                } else {
                    sizes.len() - 1
                }],
                config.min_calibrated_txns_per_block,
            );
            if max_block_txns > size {
                Some(size)
            } else {
                None
            }
        },
    }
}

/// The limits that the health of the chain puts on a proposal, by the share
/// of the voting power below which they hold.
#[derive(Clone, Debug)]
pub struct ChainHealthBackoffConfig {
    backoffs: Vec<ChainHealthBackoffValues>,
    keys: Vec<u64>,
}

impl View for ChainHealthBackoffConfig {
    type V = Seq<ChainHealthBackoffValues>;

    /// The limits, in the order of their shares.
    closed spec fn view(&self) -> Seq<ChainHealthBackoffValues> {
        self.backoffs@
    }
}

impl ChainHealthBackoffConfig {
    pub closed spec fn wf(&self) -> bool {
        &&& self.keys@ == chain_health_keys(self.backoffs@)
        &&& keys_increase(self.keys@)
    }

    /// The limits in the order of their shares. No two of them may be for
    /// the same share.
    pub fn new(backoffs: Vec<ChainHealthBackoffValues>) -> (config: Self)
        requires
            keys_distinct(chain_health_keys(backoffs@)),
        ensures
            config.wf(),
            keys_increase(chain_health_keys(config@)),
            config@.len() == backoffs@.len(),
            forall|v: ChainHealthBackoffValues| config@.contains(v) <==> backoffs@.contains(v),
    {
        let mut config = Self { backoffs: Vec::new(), keys: Vec::new() };
        assert(config.keys@ =~= chain_health_keys(config.backoffs@));
        let mut i: usize = 0;
        while i < backoffs.len()
            invariant
                i <= backoffs@.len(),
                config.wf(),
                keys_distinct(chain_health_keys(backoffs@)),
                config.backoffs@.len() == i,
                forall|v: ChainHealthBackoffValues|
                    config.backoffs@.contains(v) <==> backoffs@.subrange(0, i as int).contains(v),
            decreases backoffs@.len() - i,
        {
            let v = backoffs[i];
            let key = v.backoff_if_below_participating_voting_power_percentage as u64;
            let at = first_at_or_above(&config.keys, key);
            let ghost before = config.backoffs@;
            let ghost before_keys = config.keys@;
            proof {
                if at < before.len() && before_keys[at as int] == key {
                    let w = before[at as int];
                    assert(before.contains(w));
                    let j = choose|j: int|
                        0 <= j < i && backoffs@.subrange(0, i as int)[j] == w;
                    assert(chain_health_keys(backoffs@)[j] == chain_health_keys(backoffs@)[i as int]);
                }
            }
            config.backoffs.insert(at, v);
            config.keys.insert(at, key);
            proof {
                let after = config.backoffs@;
                assert(config.keys@ =~= chain_health_keys(after));
                assert forall|a: int, b: int| 0 <= a < b < config.keys@.len() implies config.keys@[a]
                    < config.keys@[b] by {
                    let a0 = if a < at { a } else { a - 1 };
                    let b0 = if b < at { b } else { b - 1 };
                    if a != at && b != at {
                        assert(before_keys[a0] < before_keys[b0]);
                    }
                }
                let next = backoffs@.subrange(0, i + 1);
                assert forall|w: ChainHealthBackoffValues| after.contains(w) <==> next.contains(
                    w,
                ) by {
                    if after.contains(w) {
                        let p = choose|p: int| 0 <= p < after.len() && after[p] == w;
                        if p == at {
                            assert(next[i as int] == w);
                        } else {
                            let p0 = if p < at { p } else { p - 1 };
                            assert(before[p0] == w);
                            assert(before.contains(w));
                            let j = choose|j: int|
                                0 <= j < i && backoffs@.subrange(0, i as int)[j] == w;
                            assert(next[j] == w);
                        }
                    }
                    if next.contains(w) {
                        let j = choose|j: int| 0 <= j < next.len() && next[j] == w;
                        if j == i {
                            assert(after[at as int] == w);
                        } else {
                            assert(backoffs@.subrange(0, i as int)[j] == w);
                            assert(backoffs@.subrange(0, i as int).contains(w));
                            assert(before.contains(w));
                            let p0 = choose|p0: int| 0 <= p0 < before.len() && before[p0] == w;
                            let p = if p0 < at { p0 } else { p0 + 1 };
                            assert(after[p] == w);
                        }
                    }
                }
            }
            i = i + 1;
        }
        proof {
            assert(backoffs@.subrange(0, i as int) =~= backoffs@);
        }
        config
    }

    /// No limits at all.
    pub fn new_no_backoff() -> (config: Self)
        ensures
            config.wf(),
            config@.len() == 0,
    {
        let config = Self { backoffs: Vec::new(), keys: Vec::new() };
        assert(config.keys@ =~= chain_health_keys(config.backoffs@));
        config
    }

    /// The limits that hold while `voting_power_percentage` percent of the
    /// voting power take part: those for the least share that is not below
    /// this percentage.
    pub fn get_backoff(&self, voting_power_percentage: usize) -> (backoff: Option<
        ChainHealthBackoffValues,
    >)
        requires
            self.wf(),
        ensures
            holds_at_percentage(self@, voting_power_percentage, backoff),
    {
        if self.backoffs.len() == 0 {
            return None;
        }
        let at = first_at_or_above(&self.keys, voting_power_percentage as u64);
        if at < self.backoffs.len() {
            proof {
                let keys = self.keys@;
                assert forall|w: ChainHealthBackoffValues|
                    self@.contains(w) && w.backoff_if_below_participating_voting_power_percentage
                        >= voting_power_percentage implies self.backoffs@[at as int].backoff_if_below_participating_voting_power_percentage
                    <= w.backoff_if_below_participating_voting_power_percentage by {
                    let p = choose|p: int| 0 <= p < self@.len() && self@[p] == w;
                    assert(keys[p] == w.backoff_if_below_participating_voting_power_percentage);
                    if p < at {
                        assert(keys[p] < voting_power_percentage);
                    } else if p > at {
                        assert(keys[at as int] < keys[p]);
                    }
                }
                assert(keys[at as int]
                    == self.backoffs@[at as int].backoff_if_below_participating_voting_power_percentage);
            }
            Some(self.backoffs[at])
        } else {
            proof {
                assert forall|w: ChainHealthBackoffValues| self@.contains(w) implies w.backoff_if_below_participating_voting_power_percentage
                    < voting_power_percentage by {
                    let p = choose|p: int| 0 <= p < self@.len() && self@[p] == w;
                    assert(self.keys@[p] < voting_power_percentage);
                }
            }
            None
        }
    }
}

/// Why a validator may not propose in a round.
#[derive(Clone, Copy, Debug, PartialEq, Eq, Structural)]
pub enum ProposalError {
    /// The validator has proposed in this round or in a later one.
    AlreadyProposed,
    /// The round is not above that of the highest quorum certificate.
    RoundTooLow,
    /// The epoch has ended.
    EpochEnded,
}

/// The first of the rounds whose proposers failed.
pub open spec fn failed_rounds_start(
    end_round: Round,
    previous_round: Round,
    max_failed_authors_to_store: usize,
) -> int {
    let oldest_kept = if end_round >= max_failed_authors_to_store {
        end_round - max_failed_authors_to_store
    } else {
        0
    };
    if previous_round + 1 >= oldest_kept {
        previous_round + 1
    } else {
        oldest_kept
    }
}

/// The limits on a proposal after all that holds it back was weighed.
#[derive(Clone, Copy, Debug, PartialEq, Eq, Structural)]
pub struct ProposalLimits {
    /// The number of unique transactions that the block may hold.
    pub max_block_txns_after_filtering: u64,
    /// The number of transactions of the block that are to be executed,
    /// where it is below the number that the block may hold.
    pub max_txns_from_block_to_execute: Option<u64>,
    /// The bytes that the block may hold.
    pub max_block_bytes: u64,
    /// The time to wait before the proposal.
    pub proposal_delay_ms: u64,
}

/// The smaller of two numbers.
pub open spec fn min_of(a: u64, b: u64) -> u64 {
    if a <= b {
        a
    } else {
        b
    }
}

/// The larger of two numbers.
pub open spec fn max_of(a: u64, b: u64) -> u64 {
    if a >= b {
        a
    } else {
        b
    }
}

/// The limit where an override may lower it.
pub open spec fn lowered(limit: u64, by: Option<u64>) -> u64 {
    match by {
        Some(v) => min_of(limit, v),
        None => limit,
    }
}

/// The delay where another may lengthen it.
pub open spec fn lengthened(delay: u64, by: Option<u64>) -> u64 {
    match by {
        Some(v) => max_of(delay, v),
        None => delay,
    }
}

/// The limits on a proposal: the configured sizes, lowered by each limit
/// that holds; the longest of the delays. Where the number of transactions
/// falls below the least that a block is made for, the block is made for
/// that least number and only the lower number of its transactions is to be
/// executed.
pub open spec fn spec_max_block_sizes(
    max_block_txns_after_filtering: u64,
    max_block_bytes: u64,
    min_max_txns_in_block_after_filtering_from_backpressure: u64,
    chain_health: Option<ChainHealthBackoffValues>,
    pipeline: Option<PipelineBackpressureValues>,
    execution: Option<u64>,
) -> ProposalLimits {
    let txns = lowered(
        lowered(
            lowered(
                max_block_txns_after_filtering,
                match chain_health {
                    Some(v) => Some(v.max_sending_block_txns_after_filtering_override),
                    None => None,
                },
            ),
            match pipeline {
                Some(v) => Some(v.max_sending_block_txns_after_filtering_override),
                None => None,
            },
        ),
        execution,
    );
    let bytes = lowered(
        lowered(
            max_block_bytes,
            match chain_health {
                Some(v) => Some(v.max_sending_block_bytes_override),
                None => None,
            },
        ),
        match pipeline {
            Some(v) => Some(v.max_sending_block_bytes_override),
            None => None,
        },
    );
    let delay = lengthened(
        lengthened(
            0,
            match chain_health {
                Some(v) => Some(v.backoff_proposal_delay_ms),
                None => None,
            },
        ),
        match pipeline {
            Some(v) => Some(v.backpressure_proposal_delay_ms),
            None => None,
        },
    );
    if min_max_txns_in_block_after_filtering_from_backpressure > txns {
        ProposalLimits {
            max_block_txns_after_filtering: min_max_txns_in_block_after_filtering_from_backpressure,
            max_txns_from_block_to_execute: Some(txns),
            max_block_bytes: bytes,
            proposal_delay_ms: delay,
        }
    } else {
        ProposalLimits {
            max_block_txns_after_filtering: txns,
            max_txns_from_block_to_execute: None,
            max_block_bytes: bytes,
            proposal_delay_ms: delay,
        }
    }
}

fn lower(limit: u64, by: Option<u64>) -> (r: u64)
    ensures
        r == lowered(limit, by),
{
    match by {
        Some(v) => if limit <= v {
            limit
        } else {
            v
        },
        None => limit,
    }
}

fn lengthen(delay: u64, by: Option<u64>) -> (r: u64)
    ensures
        r == lengthened(delay, by),
{
    match by {
        Some(v) => if delay >= v {
            delay
        } else {
            v
        },
        None => delay,
    }
}

/// The limits that the latency of the pipeline puts on a proposal, by the
/// latency above which they hold, and the configuration of the limit that
/// execution times put on it.
#[derive(Clone, Debug)]
pub struct PipelineBackpressureConfig {
    backoffs: Vec<PipelineBackpressureValues>,
    keys: Vec<u64>,
    execution: Option<ExecutionBackpressureConfig>,
}

impl View for PipelineBackpressureConfig {
    type V = Seq<PipelineBackpressureValues>;

    /// The limits, in the order of their latencies.
    closed spec fn view(&self) -> Seq<PipelineBackpressureValues> {
        self.backoffs@
    }
}

impl PipelineBackpressureConfig {
    pub closed spec fn wf(&self) -> bool {
        &&& self.keys@ == pipeline_keys(self.backoffs@)
        &&& keys_increase(self.keys@)
    }

    /// The configuration of the limit that execution times put on a
    /// proposal.
    pub closed spec fn execution(&self) -> Option<ExecutionBackpressureConfig> {
        self.execution
    }

    /// The limits in the order of their latencies. No two of them may be
    /// for the same latency.
    pub fn new(
        backoffs: Vec<PipelineBackpressureValues>,
        execution: Option<ExecutionBackpressureConfig>,
    ) -> (config: Self)
        requires
            keys_distinct(pipeline_keys(backoffs@)),
        ensures
            config.wf(),
            config.execution() == execution,
            keys_increase(pipeline_keys(config@)),
            config@.len() == backoffs@.len(),
            forall|v: PipelineBackpressureValues| config@.contains(v) <==> backoffs@.contains(v),
    {
        let mut config = Self { backoffs: Vec::new(), keys: Vec::new(), execution };
        assert(config.keys@ =~= pipeline_keys(config.backoffs@));
        let mut i: usize = 0;
        while i < backoffs.len()
            invariant
                i <= backoffs@.len(),
                config.wf(),
                config.execution == execution,
                keys_distinct(pipeline_keys(backoffs@)),
                config.backoffs@.len() == i,
                forall|v: PipelineBackpressureValues|
                    config.backoffs@.contains(v) <==> backoffs@.subrange(0, i as int).contains(v),
            decreases backoffs@.len() - i,
        {
            let v = backoffs[i];
            let key = v.back_pressure_pipeline_latency_limit_ms;
            let at = first_at_or_above(&config.keys, key);
            let ghost before = config.backoffs@;
            let ghost before_keys = config.keys@;
            proof {
                if at < before.len() && before_keys[at as int] == key {
                    let w = before[at as int];
                    assert(before.contains(w));
                    let j = choose|j: int|
                        0 <= j < i && backoffs@.subrange(0, i as int)[j] == w;
                    assert(pipeline_keys(backoffs@)[j] == pipeline_keys(backoffs@)[i as int]);
                }
            }
            config.backoffs.insert(at, v);
            config.keys.insert(at, key);
            proof {
                let after = config.backoffs@;
                assert(config.keys@ =~= pipeline_keys(after));
                assert forall|a: int, b: int| 0 <= a < b < config.keys@.len() implies config.keys@[a]
                    < config.keys@[b] by {
                    let a0 = if a < at { a } else { a - 1 };
                    let b0 = if b < at { b } else { b - 1 };
                    if a != at && b != at {
                        assert(before_keys[a0] < before_keys[b0]);
                    }
                }
                let next = backoffs@.subrange(0, i + 1);
                assert forall|w: PipelineBackpressureValues| after.contains(w) <==> next.contains(
                    w,
                ) by {
                    if after.contains(w) {
                        let p = choose|p: int| 0 <= p < after.len() && after[p] == w;
                        if p == at {
                            assert(next[i as int] == w);
                        } else {
                            let p0 = if p < at { p } else { p - 1 };
                            assert(before[p0] == w);
                            assert(before.contains(w));
                            let j = choose|j: int|
                                0 <= j < i && backoffs@.subrange(0, i as int)[j] == w;
                            assert(next[j] == w);
                        }
                    }
                    if next.contains(w) {
                        let j = choose|j: int| 0 <= j < next.len() && next[j] == w;
                        if j == i {
                            assert(after[at as int] == w);
                        } else {
                            assert(backoffs@.subrange(0, i as int)[j] == w);
                            assert(backoffs@.subrange(0, i as int).contains(w));
                            assert(before.contains(w));
                            let p0 = choose|p0: int| 0 <= p0 < before.len() && before[p0] == w;
                            let p = if p0 < at { p0 } else { p0 + 1 };
                            assert(after[p] == w);
                        }
                    }
                }
            }
            i = i + 1;
        }
        proof {
            assert(backoffs@.subrange(0, i as int) =~= backoffs@);
        }
        config
    }

    /// No limits at all.
    pub fn new_no_backoff() -> (config: Self)
        ensures
            config.wf(),
            config@.len() == 0,
            config.execution() is None,
    {
        let config = Self { backoffs: Vec::new(), keys: Vec::new(), execution: None };
        assert(config.keys@ =~= pipeline_keys(config.backoffs@));
        config
    }

    /// The configuration of the limit that execution times put on a
    /// proposal.
    pub fn execution_backpressure(&self) -> (execution: Option<ExecutionBackpressureConfig>)
        ensures
            execution == self.execution(),
    {
        self.execution
    }

    /// The limits that hold while the pipeline is behind by
    /// `pipeline_pending_latency_ms` milliseconds: those for the greatest
    /// latency below it.
    pub fn get_backoff(&self, pipeline_pending_latency_ms: u64) -> (backoff: Option<
        PipelineBackpressureValues,
    >)
        requires
            self.wf(),
        ensures
            holds_at_latency(self@, pipeline_pending_latency_ms, backoff),
    {
        if self.backoffs.len() == 0 {
            return None;
        }
        let at = first_at_or_above(&self.keys, pipeline_pending_latency_ms);
        if at > 0 {
            proof {
                let keys = self.keys@;
                assert forall|w: PipelineBackpressureValues|
                    self@.contains(w) && w.back_pressure_pipeline_latency_limit_ms
                        < pipeline_pending_latency_ms implies w.back_pressure_pipeline_latency_limit_ms
                    <= self.backoffs@[at - 1].back_pressure_pipeline_latency_limit_ms by {
                    let p = choose|p: int| 0 <= p < self@.len() && self@[p] == w;
                    assert(keys[p] == w.back_pressure_pipeline_latency_limit_ms);
                    if p < at - 1 {
                        assert(keys[p] < keys[at - 1]);
                    }
                }
                assert(keys[at - 1]
                    == self.backoffs@[at - 1].back_pressure_pipeline_latency_limit_ms);
            }
            Some(self.backoffs[at - 1])
        } else {
            proof {
                assert forall|w: PipelineBackpressureValues| self@.contains(w) implies w.back_pressure_pipeline_latency_limit_ms
                    >= pipeline_pending_latency_ms by {
                    let p = choose|p: int| 0 <= p < self@.len() && self@[p] == w;
                    assert(self.keys@[p] >= pipeline_pending_latency_ms);
                }
            }
            None
        }
    }

    /// The size to which recent blocks limit the block, from the sizes that
    /// they calibrate to, in increasing order, and the place in that order
    /// of the one to take.
    pub fn get_execution_block_size_backoff(
        &self,
        sizes: &Vec<u64>,
        index: usize,
        max_block_txns: u64,
    ) -> (limit: Option<u64>)
        ensures
            limit == spec_execution_backoff(self.execution(), sizes@, index, max_block_txns),
    {
        match self.execution {
            None => None,
            Some(config) => {
                if sizes.len() == 0 || sizes.len() < config.min_blocks_to_activate {
                    return None;
                }
                let at = if index < sizes.len() {
                    index
                } else {
                    sizes.len() - 1
                };
                let calibrated_block_size = if sizes[at] >= config.min_calibrated_txns_per_block {
                    sizes[at]
                } else {
                    config.min_calibrated_txns_per_block
                };
                if max_block_txns > calibrated_block_size {
                    Some(calibrated_block_size)
                } else {
                    None
                }
            },
        }
    }
}

/// The account of a validator.
pub type Author = u64;

/// What a proposer goes by when it makes a block.
#[derive(Clone, Debug)]
pub struct ProposalGenerator {
    author: Author,
    max_block_txns_after_filtering: u64,
    max_block_bytes: u64,
    max_failed_authors_to_store: usize,
    min_max_txns_in_block_after_filtering_from_backpressure: u64,
    pipeline_backpressure_config: PipelineBackpressureConfig,
    chain_health_backoff_config: ChainHealthBackoffConfig,
    last_round_generated: Round,
}

/// What a proposal generator holds.
pub struct ProposalGeneratorView {
    pub author: Author,
    pub max_block_txns_after_filtering: u64,
    pub max_block_bytes: u64,
    pub max_failed_authors_to_store: usize,
    pub min_max_txns_in_block_after_filtering_from_backpressure: u64,
    pub pipeline_backpressure: Seq<PipelineBackpressureValues>,
    pub execution_backpressure: Option<ExecutionBackpressureConfig>,
    pub chain_health_backoff: Seq<ChainHealthBackoffValues>,
    /// The last round in which a proposal was made.
    pub last_round_generated: Round,
}

impl View for ProposalGenerator {
    type V = ProposalGeneratorView;

    closed spec fn view(&self) -> ProposalGeneratorView {
        ProposalGeneratorView {
            author: self.author,
            max_block_txns_after_filtering: self.max_block_txns_after_filtering,
            max_block_bytes: self.max_block_bytes,
            max_failed_authors_to_store: self.max_failed_authors_to_store,
            min_max_txns_in_block_after_filtering_from_backpressure: self.min_max_txns_in_block_after_filtering_from_backpressure,
            pipeline_backpressure: self.pipeline_backpressure_config@,
            execution_backpressure: self.pipeline_backpressure_config.execution(),
            chain_health_backoff: self.chain_health_backoff_config@,
            last_round_generated: self.last_round_generated,
        }
    }
}

/// What the check of a round against the highest quorum certificate gives.
pub open spec fn spec_ensure_highest_quorum_cert(
    hqc_round: Round,
    hqc_ends_epoch: bool,
    round: Round,
) -> Result<(), ProposalError> {
    if hqc_round >= round {
        Err(ProposalError::RoundTooLow)
    } else if hqc_ends_epoch {
        Err(ProposalError::EpochEnded)
    } else {
        Ok(())
    }
}

impl ProposalGenerator {
    pub closed spec fn wf(&self) -> bool {
        &&& self.pipeline_backpressure_config.wf()
        &&& self.chain_health_backoff_config.wf()
    }

    /// A generator that has proposed in no round yet.
    pub fn new(
        author: Author,
        max_block_txns_after_filtering: u64,
        max_block_bytes: u64,
        max_failed_authors_to_store: usize,
        min_max_txns_in_block_after_filtering_from_backpressure: u64,
        pipeline_backpressure_config: PipelineBackpressureConfig,
        chain_health_backoff_config: ChainHealthBackoffConfig,
    ) -> (generator: Self)
        requires
            pipeline_backpressure_config.wf(),
            chain_health_backoff_config.wf(),
        ensures
            generator.wf(),
            generator@ == (ProposalGeneratorView {
                author,
                max_block_txns_after_filtering,
                max_block_bytes,
                max_failed_authors_to_store,
                min_max_txns_in_block_after_filtering_from_backpressure,
                pipeline_backpressure: pipeline_backpressure_config@,
                execution_backpressure: pipeline_backpressure_config.execution(),
                chain_health_backoff: chain_health_backoff_config@,
                last_round_generated: 0,
            }),
    {
        Self {
            author,
            max_block_txns_after_filtering,
            max_block_bytes,
            max_failed_authors_to_store,
            min_max_txns_in_block_after_filtering_from_backpressure,
            pipeline_backpressure_config,
            chain_health_backoff_config,
            last_round_generated: 0,
        }
    }

    /// The account of the validator that proposes.
    pub fn author(&self) -> (author: Author)
        ensures
            author == self@.author,
    {
        self.author
    }

    /// The last round in which a proposal was made.
    pub fn last_round_generated(&self) -> (round: Round)
        ensures
            round == self@.last_round_generated,
    {
        self.last_round_generated
    }

    /// Whether a proposal in `round` may extend the highest quorum
    /// certificate, which is for round `hqc_round` and does or does not end
    /// the epoch.
    pub fn ensure_highest_quorum_cert(hqc_round: Round, hqc_ends_epoch: bool, round: Round) -> (checked:
        Result<(), ProposalError>)
        ensures
            checked == spec_ensure_highest_quorum_cert(hqc_round, hqc_ends_epoch, round),
    {
        if hqc_round >= round {
            Err(ProposalError::RoundTooLow)
        } else if hqc_ends_epoch {
            Err(ProposalError::EpochEnded)
        } else {
            Ok(())
        }
    }

    /// Begins the proposal for `round`. At most one proposal is made in a
    /// round and none in a round below one that has a proposal: such a round
    /// is refused and nothing changes. Any other round is noted as the last
    /// with a proposal, and is then held against the highest quorum
    /// certificate.
    pub fn begin_proposal(&mut self, round: Round, hqc_round: Round, hqc_ends_epoch: bool) -> (begun:
        Result<(), ProposalError>)
        requires
            old(self).wf(),
        ensures
            final(self).wf(),
            old(self)@.last_round_generated >= round ==> begun == Err::<(), ProposalError>(
                ProposalError::AlreadyProposed,
            ) && final(self)@ == old(self)@,
            old(self)@.last_round_generated < round ==> begun == spec_ensure_highest_quorum_cert(
                hqc_round,
                hqc_ends_epoch,
                round,
            ) && final(self)@ == (ProposalGeneratorView {
                last_round_generated: round,
                ..old(self)@
            }),
    {
        if self.last_round_generated < round {
            self.last_round_generated = round;
        } else {
            return Err(ProposalError::AlreadyProposed);
        }
        Self::ensure_highest_quorum_cert(hqc_round, hqc_ends_epoch, round)
    }

    /// The rounds, from the one after `previous_round` up to `round`, whose
    /// proposers did not produce a block, each with its proposer: at most
    /// the last `max_failed_authors_to_store` of them, and `round` itself
    /// only where the current round counts. The rounds must not be the last
    /// that can be counted.
    pub fn compute_failed_authors<F: Fn(Round) -> Author>(
        &self,
        round: Round,
        previous_round: Round,
        include_cur_round: bool,
        valid_proposer: F,
    ) -> (failed_authors: Vec<(Round, Author)>)
        requires
            previous_round < u64::MAX,
            include_cur_round ==> round < u64::MAX,
            forall|r: Round| valid_proposer.requires((r,)),
        ensures
            ({
                let end_round = round + (if include_cur_round {
                    1int
                } else {
                    0int
                });
                let start = failed_rounds_start(
                    end_round as Round,
                    previous_round,
                    self@.max_failed_authors_to_store,
                );
                &&& failed_authors@.len() == (if start < end_round {
                    end_round - start
                } else {
                    0
                })
                &&& forall|i: int|
                    0 <= i < failed_authors@.len() ==> (#[trigger] failed_authors@[i]).0 == start
                        + i && valid_proposer.ensures((failed_authors@[i].0,), failed_authors@[i].1)
            }),
    {
        let end_round = if include_cur_round {
            round + 1
        } else {
            round
        };
        let oldest_kept = end_round.saturating_sub(self.max_failed_authors_to_store as u64);
        let start = if previous_round + 1 >= oldest_kept {
            previous_round + 1
        } else {
            oldest_kept
        };
        let mut failed_authors: Vec<(Round, Author)> = Vec::new();
        if start >= end_round {
            return failed_authors;
        }
        let mut i = start;
        while i < end_round
            invariant
                start <= i <= end_round,
                failed_authors@.len() == i - start,
                forall|r: Round| valid_proposer.requires((r,)),
                forall|j: int|
                    0 <= j < failed_authors@.len() ==> (#[trigger] failed_authors@[j]).0 == start
                        + j && valid_proposer.ensures((failed_authors@[j].0,), failed_authors@[j].1),
            decreases end_round - i,
        {
            let author = valid_proposer(i);
            failed_authors.push((i, author));
            i = i + 1;
        }
        failed_authors
    }

    /// Weighs what holds a proposal back: the limits for the health of the
    /// chain at `voting_power_percentage`, those for a pipeline that is
    /// behind by `pipeline_pending_latency_ms`, and the size to which the
    /// execution times of recent blocks calibrate the block, from their
    /// sizes in increasing order and the place in it of the one to take.
    pub fn calculate_max_block_sizes(
        &self,
        voting_power_percentage: usize,
        pipeline_pending_latency_ms: u64,
        sizes: &Vec<u64>,
        index: usize,
    ) -> (limits: ProposalLimits)
        requires
            self.wf(),
        ensures
            exists|
                chain_health: Option<ChainHealthBackoffValues>,
                pipeline: Option<PipelineBackpressureValues>,
            |
                holds_at_percentage(
                    self@.chain_health_backoff,
                    voting_power_percentage,
                    chain_health,
                ) && holds_at_latency(
                    self@.pipeline_backpressure,
                    pipeline_pending_latency_ms,
                    pipeline,
                ) && limits == spec_max_block_sizes(
                    self@.max_block_txns_after_filtering,
                    self@.max_block_bytes,
                    self@.min_max_txns_in_block_after_filtering_from_backpressure,
                    chain_health,
                    pipeline,
                    spec_execution_backoff(
                        self@.execution_backpressure,
                        sizes@,
                        index,
                        self@.max_block_txns_after_filtering,
                    ),
                ),
    {
        let mut txns = self.max_block_txns_after_filtering;
        let mut bytes = self.max_block_bytes;
        let mut delay: u64 = 0;
        let chain_health_backoff = self.chain_health_backoff_config.get_backoff(
            voting_power_percentage,
        );
        match chain_health_backoff {
            Some(value) => {
                txns = lower(txns, Some(value.max_sending_block_txns_after_filtering_override));
                bytes = lower(bytes, Some(value.max_sending_block_bytes_override));
                delay = lengthen(delay, Some(value.backoff_proposal_delay_ms));
            },
            None => {},
        }
        let pipeline_backpressure = self.pipeline_backpressure_config.get_backoff(
            pipeline_pending_latency_ms,
        );
        match pipeline_backpressure {
            Some(value) => {
                txns = lower(txns, Some(value.max_sending_block_txns_after_filtering_override));
                bytes = lower(bytes, Some(value.max_sending_block_bytes_override));
                delay = lengthen(delay, Some(value.backpressure_proposal_delay_ms));
            },
            None => {},
        }
        let execution_backpressure = self.pipeline_backpressure_config.get_execution_block_size_backoff(
            sizes,
            index,
            self.max_block_txns_after_filtering,
        );
        txns = lower(txns, execution_backpressure);
        let limits = if self.min_max_txns_in_block_after_filtering_from_backpressure > txns {
            ProposalLimits {
                max_block_txns_after_filtering: self.min_max_txns_in_block_after_filtering_from_backpressure,
                max_txns_from_block_to_execute: Some(txns),
                max_block_bytes: bytes,
                proposal_delay_ms: delay,
            }
        } else {
            ProposalLimits {
                max_block_txns_after_filtering: txns,
                max_txns_from_block_to_execute: None,
                max_block_bytes: bytes,
                proposal_delay_ms: delay,
            }
        };
        proof {
            assert(limits == spec_max_block_sizes(
                self@.max_block_txns_after_filtering,
                self@.max_block_bytes,
                self@.min_max_txns_in_block_after_filtering_from_backpressure,
                chain_health_backoff,
                pipeline_backpressure,
                spec_execution_backoff(
                    self@.execution_backpressure,
                    sizes@,
                    index,
                    self@.max_block_txns_after_filtering,
                ),
            ));
        }
        limits
    }
}

} // verus!
