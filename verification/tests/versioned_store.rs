use block_stm::types::Version;
use block_stm::versioned_data::{EntryStatus, ReadResult, VersionedData, VersionedEntry};

#[test]
fn read_of_unwritten_key_is_not_found() {
    let store = VersionedData::new();
    assert_eq!(store.read(7, 0), ReadResult::NotFound);
    assert_eq!(store.read(7, 10), ReadResult::NotFound);
}

#[test]
fn read_sees_the_highest_writer_below_the_reader() {
    let mut store = VersionedData::new();
    store.record_write(7, 1, 0, 100);
    store.record_write(7, 4, 2, 400);
    store.record_write(8, 2, 0, 999);
    assert_eq!(store.read(7, 0), ReadResult::NotFound);
    assert_eq!(store.read(7, 1), ReadResult::NotFound);
    assert_eq!(
        store.read(7, 2),
        ReadResult::Found { value: 100, version: Version::new(1, 0) }
    );
    assert_eq!(
        store.read(7, 4),
        ReadResult::Found { value: 100, version: Version::new(1, 0) }
    );
    assert_eq!(
        store.read(7, 5),
        ReadResult::Found { value: 400, version: Version::new(4, 2) }
    );
    assert_eq!(
        store.read(7, u32::MAX),
        ReadResult::Found { value: 400, version: Version::new(4, 2) }
    );
}

#[test]
fn a_writer_does_not_see_its_own_write() {
    let mut store = VersionedData::new();
    store.record_write(1, 3, 0, 5);
    assert_eq!(store.read(1, 3), ReadResult::NotFound);
}

#[test]
fn record_write_overwrites_the_writers_entry() {
    let mut store = VersionedData::new();
    store.record_write(1, 3, 0, 5);
    store.record_write(1, 3, 1, 6);
    assert_eq!(
        store.read(1, 4),
        ReadResult::Found { value: 6, version: Version::new(3, 1) }
    );
    assert_eq!(
        store.get(1, 3),
        Some(VersionedEntry { incarnation: 1, value: 6, status: EntryStatus::Written })
    );
}

#[test]
fn estimate_blocks_the_readers_above_it() {
    let mut store = VersionedData::new();
    store.record_write(1, 2, 0, 5);
    store.record_write(1, 6, 0, 9);
    store.record_write(2, 2, 0, 7);
    store.mark_estimate(&vec![1, 3], 2);
    assert_eq!(store.read(1, 2), ReadResult::NotFound);
    assert_eq!(store.read(1, 3), ReadResult::Dependency { blocking_idx: 2 });
    assert_eq!(store.read(1, 6), ReadResult::Dependency { blocking_idx: 2 });
    assert_eq!(
        store.read(1, 7),
        ReadResult::Found { value: 9, version: Version::new(6, 0) }
    );
    // Key 2 was not among the keys: its entry stays written.
    assert_eq!(
        store.read(2, 3),
        ReadResult::Found { value: 7, version: Version::new(2, 0) }
    );
    assert_eq!(
        store.get(1, 2),
        Some(VersionedEntry { incarnation: 0, value: 5, status: EntryStatus::Estimate })
    );
}

#[test]
fn estimate_of_another_writer_is_left_alone() {
    let mut store = VersionedData::new();
    store.record_write(1, 2, 0, 5);
    store.mark_estimate(&vec![1], 3);
    assert_eq!(
        store.read(1, 5),
        ReadResult::Found { value: 5, version: Version::new(2, 0) }
    );
}

#[test]
fn write_over_an_estimate_unblocks() {
    let mut store = VersionedData::new();
    store.record_write(1, 2, 0, 5);
    store.mark_estimate(&vec![1], 2);
    store.record_write(1, 2, 1, 8);
    assert_eq!(
        store.read(1, 3),
        ReadResult::Found { value: 8, version: Version::new(2, 1) }
    );
}

#[test]
fn remove_estimates_below_drops_only_estimates_below_the_bound() {
    let mut store = VersionedData::new();
    store.record_write(1, 1, 0, 10);
    store.record_write(1, 2, 0, 20);
    store.record_write(1, 5, 0, 50);
    store.record_write(2, 2, 0, 21);
    store.mark_estimate(&vec![1, 2], 2);
    store.mark_estimate(&vec![1], 5);
    store.remove_estimates_below(5);
    // The estimates of writer 2 are gone, the written entry of writer 1 and
    // the estimate of writer 5 are left.
    assert_eq!(store.get(1, 2), None);
    assert_eq!(store.get(2, 2), None);
    assert_eq!(
        store.get(1, 1),
        Some(VersionedEntry { incarnation: 0, value: 10, status: EntryStatus::Written })
    );
    assert_eq!(
        store.get(1, 5),
        Some(VersionedEntry { incarnation: 0, value: 50, status: EntryStatus::Estimate })
    );
    assert_eq!(
        store.read(1, 4),
        ReadResult::Found { value: 10, version: Version::new(1, 0) }
    );
    assert_eq!(store.read(1, 6), ReadResult::Dependency { blocking_idx: 5 });
    store.remove_estimates_below(6);
    assert_eq!(
        store.read(1, 6),
        ReadResult::Found { value: 10, version: Version::new(1, 0) }
    );
}

#[test]
fn remove_and_remove_writes_drop_entries() {
    let mut store = VersionedData::new();
    store.record_write(1, 1, 0, 10);
    store.record_write(2, 1, 0, 20);
    store.record_write(3, 1, 0, 30);
    store.record_write(1, 2, 0, 11);
    store.remove(1, 1);
    assert_eq!(store.get(1, 1), None);
    assert_eq!(store.read(1, 2), ReadResult::NotFound);
    store.remove_writes(&vec![2, 3, 9], 1);
    assert_eq!(store.get(2, 1), None);
    assert_eq!(store.get(3, 1), None);
    assert_eq!(
        store.get(1, 2),
        Some(VersionedEntry { incarnation: 0, value: 11, status: EntryStatus::Written })
    );
    // Removing what is not there changes nothing.
    store.remove(9, 9);
    assert_eq!(
        store.read(1, 3),
        ReadResult::Found { value: 11, version: Version::new(2, 0) }
    );
}

#[test]
fn many_writers_in_any_order_of_arrival() {
    let mut store = VersionedData::new();
    for idx in [5u32, 1, 9, 3, 7, 0, 8, 2, 6, 4] {
        store.record_write(42, idx, 0, idx as u64 * 10);
    }
    for reader in 1u32..=10 {
        assert_eq!(
            store.read(42, reader),
            ReadResult::Found {
                value: (reader as u64 - 1) * 10,
                version: Version::new(reader - 1, 0)
            }
        );
    }
}
