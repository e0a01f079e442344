use block_stm::proposal_generator::{
    ChainHealthBackoffConfig, ChainHealthBackoffValues, ExecutionBackpressureConfig,
    PipelineBackpressureConfig, PipelineBackpressureValues, ProposalError, ProposalGenerator,
    ProposalLimits,
};

fn chain_values(percentage: usize, txns: u64, bytes: u64, delay: u64) -> ChainHealthBackoffValues {
    ChainHealthBackoffValues {
        backoff_if_below_participating_voting_power_percentage: percentage,
        max_sending_block_txns_after_filtering_override: txns,
        max_sending_block_bytes_override: bytes,
        backoff_proposal_delay_ms: delay,
    }
}

fn pipeline_values(latency: u64, txns: u64, bytes: u64, delay: u64) -> PipelineBackpressureValues {
    PipelineBackpressureValues {
        back_pressure_pipeline_latency_limit_ms: latency,
        max_sending_block_txns_after_filtering_override: txns,
        max_sending_block_bytes_override: bytes,
        backpressure_proposal_delay_ms: delay,
    }
}

fn execution_config(min_blocks: usize, min_txns: u64) -> ExecutionBackpressureConfig {
    ExecutionBackpressureConfig {
        num_blocks_to_look_at: 12,
        min_blocks_to_activate: min_blocks,
        target_block_time_ms: 250,
        min_block_time_ms_to_activate: 100,
        min_calibrated_txns_per_block: min_txns,
    }
}

fn generator(
    pipeline: PipelineBackpressureConfig,
    chain: ChainHealthBackoffConfig,
    min_max: u64,
) -> ProposalGenerator {
    ProposalGenerator::new(7, 1800, 5_000_000, 3, min_max, pipeline, chain)
}

#[test]
fn chain_health_takes_the_least_share_not_below() {
    let config = ChainHealthBackoffConfig::new(vec![
        chain_values(76, 100, 1000, 300),
        chain_values(80, 400, 4000, 100),
        chain_values(78, 200, 2000, 200),
    ]);
    assert_eq!(config.get_backoff(77), Some(chain_values(78, 200, 2000, 200)));
    assert_eq!(config.get_backoff(78), Some(chain_values(78, 200, 2000, 200)));
    assert_eq!(config.get_backoff(79), Some(chain_values(80, 400, 4000, 100)));
    assert_eq!(config.get_backoff(80), Some(chain_values(80, 400, 4000, 100)));
    assert_eq!(config.get_backoff(0), Some(chain_values(76, 100, 1000, 300)));
    assert_eq!(config.get_backoff(81), None);
    assert_eq!(config.get_backoff(100), None);
}

#[test]
fn chain_health_without_limits_gives_none() {
    let config = ChainHealthBackoffConfig::new_no_backoff();
    assert_eq!(config.get_backoff(0), None);
    assert_eq!(config.get_backoff(67), None);
    let empty = ChainHealthBackoffConfig::new(Vec::new());
    assert_eq!(empty.get_backoff(50), None);
}

#[test]
fn pipeline_takes_the_greatest_latency_below() {
    let config = PipelineBackpressureConfig::new(
        vec![
            pipeline_values(2000, 100, 1000, 300),
            pipeline_values(1000, 400, 4000, 100),
            pipeline_values(1500, 200, 2000, 200),
        ],
        None,
    );
    assert_eq!(config.get_backoff(0), None);
    assert_eq!(config.get_backoff(1000), None);
    assert_eq!(config.get_backoff(1001), Some(pipeline_values(1000, 400, 4000, 100)));
    assert_eq!(config.get_backoff(1500), Some(pipeline_values(1000, 400, 4000, 100)));
    assert_eq!(config.get_backoff(1501), Some(pipeline_values(1500, 200, 2000, 200)));
    assert_eq!(config.get_backoff(2001), Some(pipeline_values(2000, 100, 1000, 300)));
    assert_eq!(config.get_backoff(u64::MAX), Some(pipeline_values(2000, 100, 1000, 300)));
}

#[test]
fn pipeline_without_limits_gives_none() {
    let config = PipelineBackpressureConfig::new_no_backoff();
    assert_eq!(config.get_backoff(5000), None);
    assert_eq!(config.get_execution_block_size_backoff(&vec![10, 20], 1, 100), None);
}

#[test]
fn execution_backoff_takes_the_size_at_the_index() {
    let config = PipelineBackpressureConfig::new(Vec::new(), Some(execution_config(3, 8)));
    let sizes = vec![5, 40, 60, 90];
    assert_eq!(config.get_execution_block_size_backoff(&sizes, 1, 1800), Some(40));
    assert_eq!(config.get_execution_block_size_backoff(&sizes, 2, 1800), Some(60));
    // Below the least calibrated size: raised to it.
    assert_eq!(config.get_execution_block_size_backoff(&sizes, 0, 1800), Some(8));
    // Past the end: the last.
    assert_eq!(config.get_execution_block_size_backoff(&sizes, 9, 1800), Some(90));
    // No reduction: no limit.
    assert_eq!(config.get_execution_block_size_backoff(&sizes, 2, 60), None);
    assert_eq!(config.get_execution_block_size_backoff(&sizes, 2, 61), Some(60));
}

#[test]
fn execution_backoff_needs_enough_blocks() {
    let config = PipelineBackpressureConfig::new(Vec::new(), Some(execution_config(3, 8)));
    assert_eq!(config.get_execution_block_size_backoff(&vec![40, 60], 0, 1800), None);
    assert_eq!(config.get_execution_block_size_backoff(&vec![40, 60, 70], 0, 1800), Some(40));
    let eager = PipelineBackpressureConfig::new(Vec::new(), Some(execution_config(0, 8)));
    assert_eq!(eager.get_execution_block_size_backoff(&Vec::new(), 0, 1800), None);
    assert_eq!(eager.get_execution_block_size_backoff(&vec![40], 0, 1800), Some(40));
}

#[test]
fn failed_authors_are_the_last_rounds_before_the_proposal() {
    let g = generator(
        PipelineBackpressureConfig::new_no_backoff(),
        ChainHealthBackoffConfig::new_no_backoff(),
        0,
    );
    let proposer = |round: u64| round * 10 + 1;
    assert_eq!(
        g.compute_failed_authors(10, 5, false, proposer),
        vec![(7, 71), (8, 81), (9, 91)]
    );
    assert_eq!(
        g.compute_failed_authors(10, 5, true, proposer),
        vec![(8, 81), (9, 91), (10, 101)]
    );
    assert_eq!(g.compute_failed_authors(10, 8, false, proposer), vec![(9, 91)]);
    assert_eq!(g.compute_failed_authors(10, 8, true, proposer), vec![(9, 91), (10, 101)]);
    assert_eq!(g.compute_failed_authors(10, 9, false, proposer), Vec::new());
    assert_eq!(g.compute_failed_authors(10, 9, true, proposer), vec![(10, 101)]);
    assert_eq!(g.compute_failed_authors(3, 9, true, proposer), Vec::new());
    assert_eq!(g.compute_failed_authors(1, 0, true, proposer), vec![(1, 11)]);
}

#[test]
fn failed_authors_none_are_stored() {
    let g = ProposalGenerator::new(
        7,
        1800,
        5_000_000,
        0,
        0,
        PipelineBackpressureConfig::new_no_backoff(),
        ChainHealthBackoffConfig::new_no_backoff(),
    );
    assert_eq!(g.compute_failed_authors(10, 5, true, |r: u64| r), Vec::new());
}

#[test]
fn one_proposal_in_a_round() {
    let mut g = generator(
        PipelineBackpressureConfig::new_no_backoff(),
        ChainHealthBackoffConfig::new_no_backoff(),
        0,
    );
    assert_eq!(g.author(), 7);
    assert_eq!(g.last_round_generated(), 0);
    assert_eq!(g.begin_proposal(0, 0, false), Err(ProposalError::AlreadyProposed));
    assert_eq!(g.begin_proposal(4, 3, false), Ok(()));
    assert_eq!(g.last_round_generated(), 4);
    assert_eq!(g.begin_proposal(4, 3, false), Err(ProposalError::AlreadyProposed));
    assert_eq!(g.begin_proposal(3, 2, false), Err(ProposalError::AlreadyProposed));
    assert_eq!(g.last_round_generated(), 4);
    // The round is noted even where the certificate stands against it.
    assert_eq!(g.begin_proposal(6, 6, false), Err(ProposalError::RoundTooLow));
    assert_eq!(g.last_round_generated(), 6);
    assert_eq!(g.begin_proposal(7, 6, true), Err(ProposalError::EpochEnded));
    assert_eq!(g.begin_proposal(8, 9, true), Err(ProposalError::RoundTooLow));
    assert_eq!(g.begin_proposal(9, 8, false), Ok(()));
}

#[test]
fn round_against_highest_quorum_cert() {
    assert_eq!(ProposalGenerator::ensure_highest_quorum_cert(3, false, 4), Ok(()));
    assert_eq!(
        ProposalGenerator::ensure_highest_quorum_cert(4, false, 4),
        Err(ProposalError::RoundTooLow)
    );
    assert_eq!(
        ProposalGenerator::ensure_highest_quorum_cert(3, true, 4),
        Err(ProposalError::EpochEnded)
    );
}

#[test]
fn block_sizes_without_backpressure() {
    let g = generator(
        PipelineBackpressureConfig::new_no_backoff(),
        ChainHealthBackoffConfig::new_no_backoff(),
        0,
    );
    assert_eq!(
        g.calculate_max_block_sizes(100, 0, &Vec::new(), 0),
        ProposalLimits {
            max_block_txns_after_filtering: 1800,
            max_txns_from_block_to_execute: None,
            max_block_bytes: 5_000_000,
            proposal_delay_ms: 0,
        }
    );
}

#[test]
fn block_sizes_take_the_lowest_limit_and_the_longest_delay() {
    let pipeline = PipelineBackpressureConfig::new(
        vec![pipeline_values(1000, 600, 3_000_000, 100), pipeline_values(2000, 300, 6_000_000, 400)],
        Some(execution_config(2, 10)),
    );
    let chain = ChainHealthBackoffConfig::new(vec![
        chain_values(80, 500, 2_000_000, 150),
        chain_values(70, 100, 1_000_000, 900),
    ]);
    let g = generator(pipeline, chain, 0);
    // Chain health at 75%: the limits for 80. Pipeline at 1500 ms: those for 1000.
    assert_eq!(
        g.calculate_max_block_sizes(75, 1500, &Vec::new(), 0),
        ProposalLimits {
            max_block_txns_after_filtering: 500,
            max_txns_from_block_to_execute: None,
            max_block_bytes: 2_000_000,
            proposal_delay_ms: 150,
        }
    );
    // Pipeline at 2500 ms: the limits for 2000, whose bytes are above the configured ones.
    assert_eq!(
        g.calculate_max_block_sizes(90, 2500, &Vec::new(), 0),
        ProposalLimits {
            max_block_txns_after_filtering: 300,
            max_txns_from_block_to_execute: None,
            max_block_bytes: 5_000_000,
            proposal_delay_ms: 400,
        }
    );
    // Execution times calibrate the block to 50 transactions.
    assert_eq!(
        g.calculate_max_block_sizes(60, 2500, &vec![20, 50, 70], 1),
        ProposalLimits {
            max_block_txns_after_filtering: 50,
            max_txns_from_block_to_execute: None,
            max_block_bytes: 1_000_000,
            proposal_delay_ms: 900,
        }
    );
}

#[test]
fn block_sizes_below_the_least_block_limit_what_is_executed() {
    let pipeline = PipelineBackpressureConfig::new(
        vec![pipeline_values(1000, 600, 3_000_000, 100)],
        Some(execution_config(1, 10)),
    );
    let g = generator(pipeline, ChainHealthBackoffConfig::new_no_backoff(), 100);
    assert_eq!(
        g.calculate_max_block_sizes(100, 1500, &vec![30], 0),
        ProposalLimits {
            max_block_txns_after_filtering: 100,
            max_txns_from_block_to_execute: Some(30),
            max_block_bytes: 3_000_000,
            proposal_delay_ms: 100,
        }
    );
    // At the least size itself the block is not cut.
    assert_eq!(
        g.calculate_max_block_sizes(100, 1500, &vec![100], 0),
        ProposalLimits {
            max_block_txns_after_filtering: 100,
            max_txns_from_block_to_execute: None,
            max_block_bytes: 3_000_000,
            proposal_delay_ms: 100,
        }
    );
}
