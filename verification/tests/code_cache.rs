use block_stm::code_cache::{
    module_id_of_key, CodeCache, ModuleCacheEntry, ModuleId, ModuleMap, ScriptCacheEntry,
    UnsyncCodeCache,
};
use block_stm::types::CODE_KEYS_FROM;
use block_stm::task::VMError;
use std::cell::Cell;

fn id(name: u64) -> ModuleId {
    ModuleId { address: 1, name }
}

fn entry(code: u64, verified: bool) -> ModuleCacheEntry {
    ModuleCacheEntry { code, size: 10, verified }
}

#[test]
fn unsync_cache_stores_and_fetches_modules() {
    let mut cache = UnsyncCodeCache::empty();
    assert_eq!(cache.num_modules(), 0);
    cache.store_module(id(1), entry(11, false));
    cache.store_module(id(2), entry(22, true));
    assert_eq!(cache.num_modules(), 2);
    let never = |_: &ModuleId| -> Result<Option<ModuleCacheEntry>, VMError> {
        panic!("the module is cached")
    };
    assert_eq!(cache.fetch_or_initialize_module(&id(1), &never), Ok(Some(entry(11, false))));
    // Storing again replaces the entry.
    cache.store_module(id(1), entry(12, true));
    assert_eq!(cache.fetch_or_initialize_module(&id(1), &never), Ok(Some(entry(12, true))));
    assert_eq!(cache.num_modules(), 2);
}

#[test]
fn unsync_cache_initializes_a_missing_module_once() {
    let mut cache = UnsyncCodeCache::empty();
    let calls = Cell::new(0);
    let init = |m: &ModuleId| -> Result<Option<ModuleCacheEntry>, VMError> {
        calls.set(calls.get() + 1);
        Ok(Some(entry(m.name * 100, false)))
    };
    assert_eq!(cache.fetch_or_initialize_module(&id(3), &init), Ok(Some(entry(300, false))));
    assert_eq!(cache.fetch_or_initialize_module(&id(3), &init), Ok(Some(entry(300, false))));
    assert_eq!(calls.get(), 1);
    assert_eq!(cache.num_modules(), 1);
}

#[test]
fn unsync_cache_caches_neither_absence_nor_errors() {
    let mut cache = UnsyncCodeCache::empty();
    let absent = |_: &ModuleId| -> Result<Option<ModuleCacheEntry>, VMError> { Ok(None) };
    let broken = |_: &ModuleId| -> Result<Option<ModuleCacheEntry>, VMError> {
        Err(VMError::Fatal(5))
    };
    assert_eq!(cache.fetch_or_initialize_module(&id(1), &absent), Ok(None));
    assert_eq!(cache.fetch_or_initialize_module(&id(1), &broken), Err(VMError::Fatal(5)));
    assert_eq!(cache.num_modules(), 0);
}

#[test]
fn unsync_cache_keeps_scripts_by_hash() {
    let mut cache = UnsyncCodeCache::empty();
    let h1 = [1u8; 32];
    let mut h2 = [1u8; 32];
    h2[31] = 2;
    assert_eq!(cache.fetch_script(&h1), None);
    cache.store_script(h1, ScriptCacheEntry { code: 7, verified: true });
    assert_eq!(cache.fetch_script(&h1), Some(ScriptCacheEntry { code: 7, verified: true }));
    assert_eq!(cache.fetch_script(&h2), None);
}

#[test]
fn unsync_cache_collects_the_verified_modules() {
    let mut cache = UnsyncCodeCache::empty();
    cache.store_module(id(1), entry(11, true));
    cache.store_module(id(2), entry(22, false));
    cache.store_module(id(3), entry(33, true));
    let mut collector = ModuleMap::new();
    collector.insert(id(9), entry(99, true));
    collector.insert(id(1), entry(0, false));
    cache.collect_verified_entries_into(&mut collector, |e: &ModuleCacheEntry| ModuleCacheEntry {
        code: e.code + 1,
        size: e.size,
        verified: e.verified,
    });
    assert_eq!(collector.len(), 3);
    assert_eq!(collector.get(id(1)), Some(entry(12, true)));
    assert_eq!(collector.get(id(2)), None);
    assert_eq!(collector.get(id(3)), Some(entry(34, true)));
    assert_eq!(collector.get(id(9)), Some(entry(99, true)));
}

#[test]
fn published_module_is_seen_by_higher_transactions_only() {
    let mut cache = CodeCache::new(ModuleMap::new());
    cache.publish_module(id(1), 5, entry(55, false));
    for reader in 0..=5u32 {
        assert_eq!(cache.fetch_module(id(1), reader), None, "reader {reader}");
    }
    for reader in 6..10u32 {
        assert_eq!(cache.fetch_module(id(1), reader), Some(entry(55, false)), "reader {reader}");
    }
    assert_eq!(cache.fetch_module(id(2), 9), None);
}

#[test]
fn reader_sees_the_last_publisher_below_it() {
    let mut cache = CodeCache::new(ModuleMap::new());
    cache.store_module(id(1), entry(10, true));
    cache.publish_module(id(1), 7, entry(70, false));
    cache.publish_module(id(1), 3, entry(30, false));
    assert_eq!(cache.fetch_module(id(1), 0), Some(entry(10, true)));
    assert_eq!(cache.fetch_module(id(1), 3), Some(entry(10, true)));
    assert_eq!(cache.fetch_module(id(1), 4), Some(entry(30, false)));
    assert_eq!(cache.fetch_module(id(1), 7), Some(entry(30, false)));
    assert_eq!(cache.fetch_module(id(1), 8), Some(entry(70, false)));
    assert_eq!(cache.fetch_module(id(1), u32::MAX), Some(entry(70, false)));
    // A later incarnation of the publisher publishes again.
    cache.publish_module(id(1), 3, entry(31, true));
    assert_eq!(cache.fetch_module(id(1), 5), Some(entry(31, true)));
}

#[test]
fn base_cache_is_asked_first_and_is_not_shadowed() {
    let mut base = ModuleMap::new();
    base.insert(id(1), entry(1, true));
    let mut cache = CodeCache::new(base);
    cache.publish_module(id(1), 2, entry(2, false));
    assert!(cache.store_module(id(1), entry(3, false)));
    for reader in [0u32, 2, 3, 100] {
        assert_eq!(cache.fetch_module(id(1), reader), Some(entry(1, true)));
    }
}

#[test]
fn loaded_entries_are_not_replaced() {
    let mut cache = CodeCache::new(ModuleMap::new());
    assert!(cache.store_module(id(1), entry(1, false)));
    assert!(!cache.store_module(id(1), entry(2, true)));
    assert_eq!(cache.fetch_module(id(1), 0), Some(entry(1, false)));
    let h = [9u8; 32];
    assert!(cache.store_script(h, ScriptCacheEntry { code: 1, verified: false }));
    assert!(!cache.store_script(h, ScriptCacheEntry { code: 2, verified: true }));
    assert_eq!(cache.fetch_script(&h), Some(ScriptCacheEntry { code: 1, verified: false }));
}

#[test]
fn layered_cache_initializes_what_neither_layer_has() {
    let mut base = ModuleMap::new();
    base.insert(id(1), entry(1, true));
    let mut cache = CodeCache::new(base);
    cache.publish_module(id(2), 4, entry(2, false));
    let calls = Cell::new(0);
    let load = |m: &ModuleId| -> Result<Option<ModuleCacheEntry>, VMError> {
        calls.set(calls.get() + 1);
        Ok(Some(entry(1000 + m.name, false)))
    };
    assert_eq!(cache.fetch_or_initialize_module(&id(1), 0, &load), Ok(Some(entry(1, true))));
    assert_eq!(cache.fetch_or_initialize_module(&id(2), 9, &load), Ok(Some(entry(2, false))));
    assert_eq!(calls.get(), 0);
    // Below the publisher the module comes from storage.
    assert_eq!(cache.fetch_or_initialize_module(&id(2), 4, &load), Ok(Some(entry(1002, false))));
    assert_eq!(cache.fetch_or_initialize_module(&id(2), 1, &load), Ok(Some(entry(1002, false))));
    assert_eq!(calls.get(), 1);
    assert_eq!(cache.fetch_module(id(2), 5), Some(entry(2, false)));
}

#[test]
fn end_of_block_collection_takes_the_last_verified_entry_of_each_module() {
    let mut cache = CodeCache::new(ModuleMap::new());
    cache.store_module(id(1), entry(10, true));
    cache.store_module(id(2), entry(20, false));
    cache.store_module(id(3), entry(30, true));
    cache.publish_module(id(3), 2, entry(32, false));
    cache.publish_module(id(4), 1, entry(41, true));
    cache.publish_module(id(4), 6, entry(46, true));
    cache.publish_module(id(5), 0, entry(50, false));
    let mut collected = cache.collect_verified_entries();
    collected.sort_by_key(|(m, _)| m.name);
    assert_eq!(collected, vec![(id(1), entry(10, true)), (id(4), entry(46, true))]);
}

#[test]
fn code_written_to_the_state_is_published_for_the_transactions_above() {
    let key = CODE_KEYS_FROM + (3u128 << 64) + 9;
    assert_eq!(module_id_of_key(key), ModuleId { address: 3, name: 9 });
    assert_eq!(module_id_of_key(CODE_KEYS_FROM), ModuleId { address: 0, name: 0 });
    let mut cache = CodeCache::new(ModuleMap::new());
    cache.publish_written_code(5, &vec![(1, 1), (key, 77), (CODE_KEYS_FROM, 5)]);
    let published = ModuleCacheEntry { code: 77, size: 8, verified: false };
    assert_eq!(cache.fetch_module(ModuleId { address: 3, name: 9 }, 5), None);
    assert_eq!(cache.fetch_module(ModuleId { address: 3, name: 9 }, 6), Some(published));
    assert_eq!(
        cache.fetch_module(ModuleId { address: 0, name: 0 }, 6),
        Some(ModuleCacheEntry { code: 5, size: 8, verified: false })
    );
    assert_eq!(cache.fetch_module(ModuleId { address: 0, name: 1 }, 6), None);
}

#[test]
fn storing_a_module_counts_it_once() {
    let mut cache = UnsyncCodeCache::empty();
    let id = ModuleId { address: 1, name: 7 };
    let first = ModuleCacheEntry { code: 10, size: 3, verified: false };
    let second = ModuleCacheEntry { code: 11, size: 4, verified: true };
    cache.store_module(id, first);
    assert_eq!(cache.num_modules(), 1);
    // Storing under the same id replaces the entry and adds none.
    cache.store_module(id, second);
    assert_eq!(cache.num_modules(), 1);
    let loader = |_: &ModuleId| -> Result<Option<ModuleCacheEntry>, _> { Ok(Some(first)) };
    assert_eq!(cache.fetch_or_initialize_module(&id, &loader), Ok(Some(second)));
    assert_eq!(cache.num_modules(), 1);
    let other = ModuleId { address: 1, name: 8 };
    assert_eq!(cache.fetch_or_initialize_module(&other, &loader), Ok(Some(first)));
    assert_eq!(cache.num_modules(), 2);
    // A second fetch finds the entry and does not ask the loader.
    let never = |_: &ModuleId| -> Result<Option<ModuleCacheEntry>, _> { Ok(None) };
    assert_eq!(cache.fetch_or_initialize_module(&other, &never), Ok(Some(first)));
    assert_eq!(cache.num_modules(), 2);
}
