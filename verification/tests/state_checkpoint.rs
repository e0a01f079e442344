use block_stm::state_checkpoint::{
    CheckpointError, ChunkToCommit, DoStateCheckpoint, InMemoryStateCalculatorV2, ResultVersions,
    StateStorageUsage, TransactionsByStatus, UsageUpdate,
};
use block_stm::task::{TransactionAuxiliaryData, TransactionOutput, TransactionStatus};

fn update(key: usize, value: Option<usize>, cached: Option<usize>) -> UsageUpdate {
    UsageUpdate { key_size: key, value_size: value, cached_value_size: cached }
}

#[test]
fn block_input_must_hold_a_transaction() {
    assert_eq!(
        InMemoryStateCalculatorV2::validate_input_for_block(Some(4), Some(4), 0, &Vec::new()),
        Err(CheckpointError::EmptyBlock)
    );
    // The empty block is reported before anything else.
    assert_eq!(
        InMemoryStateCalculatorV2::validate_input_for_block(Some(3), Some(4), 2, &Vec::new()),
        Err(CheckpointError::EmptyBlock)
    );
}

#[test]
fn block_input_must_start_from_a_checkpoint() {
    let need = vec![false, true];
    assert_eq!(
        InMemoryStateCalculatorV2::validate_input_for_block(Some(3), Some(4), 0, &need),
        Err(CheckpointError::BaseNotCheckpoint)
    );
    assert_eq!(
        InMemoryStateCalculatorV2::validate_input_for_block(None, Some(0), 0, &need),
        Err(CheckpointError::BaseNotCheckpoint)
    );
    assert_eq!(
        InMemoryStateCalculatorV2::validate_input_for_block(Some(4), Some(4), 1, &need),
        Err(CheckpointError::BaseCorrupted)
    );
    assert_eq!(
        InMemoryStateCalculatorV2::validate_input_for_block(Some(4), Some(4), 0, &need),
        Ok(())
    );
    assert_eq!(InMemoryStateCalculatorV2::validate_input_for_block(None, None, 0, &need), Ok(()));
}

#[test]
fn block_input_has_its_checkpoint_at_the_end_only() {
    let check =
        |need: Vec<bool>| InMemoryStateCalculatorV2::validate_input_for_block(None, None, 0, &need);
    assert_eq!(check(vec![true]), Ok(()));
    assert_eq!(check(vec![false]), Err(CheckpointError::CheckpointMisplaced { index: 0 }));
    assert_eq!(check(vec![false, false, true]), Ok(()));
    assert_eq!(
        check(vec![false, false, false]),
        Err(CheckpointError::CheckpointMisplaced { index: 2 })
    );
    assert_eq!(
        check(vec![false, true, true]),
        Err(CheckpointError::CheckpointMisplaced { index: 1 })
    );
    assert_eq!(
        check(vec![true, true, false]),
        Err(CheckpointError::CheckpointMisplaced { index: 0 })
    );
}

#[test]
fn versions_after_a_block() {
    assert_eq!(
        InMemoryStateCalculatorV2::result_versions(3, Some(9), Some(9), Some(2), true),
        Ok(ResultVersions {
            first_version: 10,
            latest_checkpoint_version: Some(12),
            current_version: 12,
            ends_in_checkpoint: true,
        })
    );
    // The first block of a ledger.
    assert_eq!(
        InMemoryStateCalculatorV2::result_versions(1, None, None, Some(0), true),
        Ok(ResultVersions {
            first_version: 0,
            latest_checkpoint_version: Some(0),
            current_version: 0,
            ends_in_checkpoint: true,
        })
    );
    assert_eq!(
        InMemoryStateCalculatorV2::result_versions(3, Some(9), Some(9), Some(1), true),
        Err(CheckpointError::NoCheckpointAtEnd)
    );
    assert_eq!(
        InMemoryStateCalculatorV2::result_versions(3, Some(9), Some(9), None, true),
        Err(CheckpointError::NoCheckpointAtEnd)
    );
}

#[test]
fn versions_after_a_chunk() {
    // No checkpoint in the chunk: the latest stays where it was.
    assert_eq!(
        InMemoryStateCalculatorV2::result_versions(4, Some(5), Some(9), None, false),
        Ok(ResultVersions {
            first_version: 10,
            latest_checkpoint_version: Some(5),
            current_version: 13,
            ends_in_checkpoint: false,
        })
    );
    assert_eq!(
        InMemoryStateCalculatorV2::result_versions(4, None, Some(9), Some(1), false),
        Ok(ResultVersions {
            first_version: 10,
            latest_checkpoint_version: Some(11),
            current_version: 13,
            ends_in_checkpoint: false,
        })
    );
    assert_eq!(
        InMemoryStateCalculatorV2::result_versions(4, None, Some(9), Some(3), false),
        Ok(ResultVersions {
            first_version: 10,
            latest_checkpoint_version: Some(13),
            current_version: 13,
            ends_in_checkpoint: true,
        })
    );
}

#[test]
fn usage_follows_the_updates() {
    let old = StateStorageUsage::Counted { items: 10, bytes: 1_000 };
    let updates = vec![
        update(8, Some(100), None),      // a new item: +1, +108
        update(8, Some(50), Some(70)),   // a smaller value: 0, -20
        update(16, None, Some(30)),      // a deletion: -1, -46
        update(4, None, None),           // a deletion of nothing
    ];
    assert_eq!(
        InMemoryStateCalculatorV2::calculate_usage(old, &updates),
        StateStorageUsage::Counted { items: 10, bytes: 1_042 }
    );
    assert_eq!(InMemoryStateCalculatorV2::calculate_usage(old, &Vec::new()), old);
    assert_eq!(
        InMemoryStateCalculatorV2::calculate_usage(StateStorageUsage::Untracked, &updates),
        StateStorageUsage::Untracked
    );
}

#[test]
fn delta_of_one_update() {
    let mut items = 5;
    let mut bytes = -10;
    InMemoryStateCalculatorV2::add_to_delta(&update(8, Some(100), Some(2)), &mut items, &mut bytes);
    assert_eq!((items, bytes), (5, 88));
    InMemoryStateCalculatorV2::add_to_delta(&update(8, None, Some(2)), &mut items, &mut bytes);
    assert_eq!((items, bytes), (4, 78));
    InMemoryStateCalculatorV2::add_to_delta(&update(1, Some(0), None), &mut items, &mut bytes);
    assert_eq!((items, bytes), (5, 79));
}

#[test]
fn usage_accessors() {
    let usage = StateStorageUsage::Counted { items: 3, bytes: 40 };
    assert!(!usage.is_untracked());
    assert_eq!((usage.items(), usage.bytes()), (3, 40));
    let untracked = StateStorageUsage::new_untracked();
    assert!(untracked.is_untracked());
    assert_eq!((untracked.items(), untracked.bytes()), (0, 0));
}

#[test]
fn checkpoint_hashes_without_known_ones() {
    assert_eq!(DoStateCheckpoint::run(3, None, None), Ok(vec![None, None, None]));
    assert_eq!(
        DoStateCheckpoint::run(3, Some((2, [7; 32])), None),
        Ok(vec![None, None, Some([7; 32])])
    );
    assert_eq!(
        DoStateCheckpoint::run(3, Some((0, [7; 32])), None),
        Ok(vec![Some([7; 32]), None, None])
    );
    assert_eq!(DoStateCheckpoint::run(0, None, None), Ok(Vec::new()));
}

#[test]
fn checkpoint_hashes_with_known_ones() {
    let known = vec![Some([1; 32]), None, Some([3; 32])];
    assert_eq!(
        DoStateCheckpoint::run(3, Some((2, [3; 32])), Some(known.clone())),
        Ok(known.clone())
    );
    assert_eq!(
        DoStateCheckpoint::run(3, Some((1, [2; 32])), Some(known.clone())),
        Ok(vec![Some([1; 32]), Some([2; 32]), Some([3; 32])])
    );
    assert_eq!(DoStateCheckpoint::run(3, None, Some(known.clone())), Ok(known.clone()));
    let mut other = [3; 32];
    other[31] = 4;
    assert_eq!(
        DoStateCheckpoint::run(3, Some((2, other)), Some(known.clone())),
        Err(CheckpointError::LastCheckpointNotExpected)
    );
    assert_eq!(
        DoStateCheckpoint::run(4, Some((2, [3; 32])), Some(known.clone())),
        Err(CheckpointError::BadNumberOfKnownHashes)
    );
    assert_eq!(
        DoStateCheckpoint::run(2, None, Some(known)),
        Err(CheckpointError::BadNumberOfKnownHashes)
    );
}

#[test]
fn transactions_by_status_hold_their_parts() {
    let statuses = vec![TransactionStatus::Keep, TransactionStatus::Discard(5), TransactionStatus::Retry];
    let to_commit = vec![TransactionOutput::new(Vec::new(), Vec::new(), 7, TransactionStatus::Keep, TransactionAuxiliaryData::Empty)];
    let to_discard = vec![TransactionOutput::new(Vec::new(), Vec::new(), 0, TransactionStatus::Discard(5), TransactionAuxiliaryData::Empty)];
    let to_retry = vec![TransactionOutput::new(Vec::new(), Vec::new(), 0, TransactionStatus::Retry, TransactionAuxiliaryData::Empty)];
    let by_status = TransactionsByStatus::new(statuses.clone(), to_commit, to_discard, to_retry);
    assert_eq!(by_status.input_txns_len(), 3);
    let (s, c, d, r) = by_status.into_inner();
    assert_eq!(s, statuses);
    assert_eq!(c.len(), 1);
    assert_eq!(c[0].gas_used, 7);
    assert_eq!(d[0].status, TransactionStatus::Discard(5));
    assert_eq!(r[0].status, TransactionStatus::Retry);
}

#[test]
fn chunk_versions() {
    let chunk = ChunkToCommit {
        first_version: 100,
        transaction_outputs: vec![
            TransactionOutput::new(Vec::new(), Vec::new(), 1, TransactionStatus::Keep, TransactionAuxiliaryData::Empty),
            TransactionOutput::new(Vec::new(), Vec::new(), 2, TransactionStatus::Keep, TransactionAuxiliaryData::Empty),
        ],
        base_state_version: Some(99),
        is_reconfig: false,
    };
    assert_eq!(chunk.len(), 2);
    assert!(!chunk.is_empty());
    assert_eq!(chunk.next_version(), 102);
    assert_eq!(chunk.expect_last_version(), 101);
    let empty = ChunkToCommit {
        first_version: 100,
        transaction_outputs: Vec::new(),
        base_state_version: None,
        is_reconfig: true,
    };
    assert!(empty.is_empty());
    assert_eq!(empty.next_version(), 100);
    assert_eq!(empty.expect_last_version(), 99);
}
