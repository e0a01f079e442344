//! The code caches: where deserialized and verified modules and scripts are
//! kept while a block runs.
//!
//! `UnsyncCodeCache` serves sequential execution: one map of modules, one of
//! scripts. `CodeCache` serves parallel execution: an immutable base, and
//! over it what the block loaded and what its transactions published, each
//! publication visible only to the transactions after its publisher.

use vstd::prelude::*;
use crate::types::{StateKey, StateValue, TxnIndex, CODE_KEYS_FROM, is_code_key};
use crate::task::{AccountAddress, VMError, WriteOp};
use crate::versioned_data::{
    latest_below, lemma_latest_below, lemma_latest_below_is, lemma_latest_below_none,
};

verus! {

/// Identifies a module: the account that holds it and its name.
#[derive(Clone, Copy, Debug, PartialEq, Eq, Structural)]
pub struct ModuleId {
    pub address: AccountAddress,
    pub name: u64,
}

/// A cached module: its code, its size, and whether the code was verified.
#[derive(Clone, Copy, Debug, PartialEq, Eq, Structural)]
pub struct ModuleCacheEntry {
    pub code: u64,
    pub size: u64,
    pub verified: bool,
}

/// A cached script.
#[derive(Clone, Copy, Debug, PartialEq, Eq, Structural)]
pub struct ScriptCacheEntry {
    pub code: u64,
    pub verified: bool,
}

impl ModuleCacheEntry {
    pub fn is_verified(&self) -> (b: bool)
        ensures
            b == self.verified,
    {
        self.verified
    }
}

/// What a computation on code yields.
pub type VMResult<T> = Result<T, VMError>;

/// What a module map holds.
pub type Modules = Map<ModuleId, ModuleCacheEntry>;

/// What a script map holds, by the bytes of the script's hash.
pub type Scripts = Map<Seq<u8>, ScriptCacheEntry>;

/// A hash map of modules: a `hashbrown::HashMap` from the pair of a
/// module's address and name to its entry. Verus sees none of it; what it
/// holds goes by the name `module_map_contents`.
#[verifier::external_body]
pub struct ModuleMap {
    inner: hashbrown::HashMap<(u64, u64), ModuleCacheEntry>,
}

/// A hash map of scripts: a `hashbrown::HashMap` from a script's hash to
/// its entry. What it holds goes by the name `script_map_contents`.
#[verifier::external_body]
pub struct ScriptMap {
    inner: hashbrown::HashMap<[u8; 32], ScriptCacheEntry>,
}

/// What a module map holds: the entry of each module that it has, under
/// the module's id.
pub uninterp spec fn module_map_contents(m: ModuleMap) -> Modules;

/// What a script map holds: the entry of each script that it has, under the
/// bytes of the script's hash.
pub uninterp spec fn script_map_contents(m: ScriptMap) -> Scripts;

/// `hashbrown::HashMap::new`: a map that holds nothing.
#[verifier::external_body]
fn module_map_new() -> (m: ModuleMap)
    ensures
        module_map_contents(m) == Modules::empty(),
{
    ModuleMap { inner: hashbrown::HashMap::new() }
}

/// `hashbrown::HashMap::insert`: afterwards the key maps to the value and
/// every other key to what it mapped to.
#[verifier::external_body]
fn module_map_insert(m: &mut ModuleMap, id: ModuleId, entry: ModuleCacheEntry)
    ensures
        module_map_contents(*final(m)) == module_map_contents(*old(m)).insert(id, entry),
{
    m.inner.insert((id.address, id.name), entry);
}

/// `hashbrown::HashMap::get`: the value that the key maps to, if it maps
/// to one.
#[verifier::external_body]
fn module_map_get(m: &ModuleMap, id: ModuleId) -> (entry: Option<ModuleCacheEntry>)
    ensures
        entry == (if module_map_contents(*m).contains_key(id) {
            Some(module_map_contents(*m)[id])
        } else {
            None
        }),
{
    m.inner.get(&(id.address, id.name)).copied()
}

/// `hashbrown::HashMap::len`: the number of keys.
#[verifier::external_body]
fn module_map_len(m: &ModuleMap) -> (n: usize)
    ensures
        n == module_map_contents(*m).len(),
{
    m.inner.len()
}

/// `hashbrown::HashMap::iter`: every pair of a key and its value, each
/// once, in an order that nothing is said about.
#[verifier::external_body]
fn module_map_entries(m: &ModuleMap) -> (entries: Vec<(ModuleId, ModuleCacheEntry)>)
    ensures
        forall|i: int|
            0 <= i < entries@.len() ==> module_map_contents(*m).contains_key(
                (#[trigger] entries@[i]).0,
            ) && module_map_contents(*m)[entries@[i].0] == entries@[i].1,
        forall|id: ModuleId| #[trigger]
            module_map_contents(*m).contains_key(id) ==> exists|i: int|
                0 <= i < entries@.len() && (#[trigger] entries@[i]).0 == id,
        forall|i: int, j: int|
            0 <= i < j < entries@.len() ==> (#[trigger] entries@[i]).0 != (
            #[trigger] entries@[j]).0,
{
    m.inner.iter().map(|(key, entry)| (ModuleId { address: key.0, name: key.1 }, *entry)).collect()
}

/// `hashbrown::HashMap::new`: a map that holds nothing.
#[verifier::external_body]
fn script_map_new() -> (m: ScriptMap)
    ensures
        script_map_contents(m) == Scripts::empty(),
{
    ScriptMap { inner: hashbrown::HashMap::new() }
}

/// `hashbrown::HashMap::insert`: afterwards the key maps to the value and
/// every other key to what it mapped to.
#[verifier::external_body]
fn script_map_insert(m: &mut ScriptMap, hash: [u8; 32], entry: ScriptCacheEntry)
    ensures
        script_map_contents(*final(m)) == script_map_contents(*old(m)).insert(hash@, entry),
{
    m.inner.insert(hash, entry);
}

/// `hashbrown::HashMap::get`: the value that the key maps to, if it maps
/// to one.
#[verifier::external_body]
fn script_map_get(m: &ScriptMap, hash: &[u8; 32]) -> (entry: Option<ScriptCacheEntry>)
    ensures
        entry == (if script_map_contents(*m).contains_key(hash@) {
            Some(script_map_contents(*m)[hash@])
        } else {
            None
        }),
{
    m.inner.get(hash).cloned()
}

impl ModuleMap {
    /// A map that holds no module.
    pub fn new() -> (m: Self)
        ensures
            module_map_contents(m) == Modules::empty(),
            module_map_contents(m).dom().finite(),
    {
        module_map_new()
    }

    /// Sets the entry of module `id`. A map of finitely many modules stays
    /// one, and holds one module more where the id is new.
    pub fn insert(&mut self, id: ModuleId, entry: ModuleCacheEntry)
        ensures
            module_map_contents(*final(self)) == module_map_contents(*old(self)).insert(id, entry),
            module_map_contents(*old(self)).dom().finite() ==> module_map_contents(
                *final(self),
            ).dom().finite() && module_map_contents(*final(self)).len() == count_after_store(
                module_map_contents(*old(self)),
                id,
            ),
    {
        module_map_insert(self, id, entry)
    }

    /// The entry of module `id`, if the map has one.
    pub fn get(&self, id: ModuleId) -> (entry: Option<ModuleCacheEntry>)
        ensures
            entry == (if module_map_contents(*self).contains_key(id) {
                Some(module_map_contents(*self)[id])
            } else {
                None
            }),
    {
        module_map_get(self, id)
    }

    /// The number of modules that the map holds.
    pub fn len(&self) -> (n: usize)
        ensures
            n == module_map_contents(*self).len(),
    {
        module_map_len(self)
    }
}

/// What a code cache for sequential execution holds.
pub struct UnsyncCodeCacheView {
    pub modules: Modules,
    pub scripts: Scripts,
}

/// A per-block code cache for sequential execution. Modules and scripts can
/// be cached and retrieved. Caching the modules as storage has them is up
/// to the caller.
pub struct UnsyncCodeCache {
    /// Script cache, indexed by script hashes.
    script_cache: ScriptMap,
    /// Module cache, indexed by module address-name pair.
    module_cache: ModuleMap,
}

impl View for UnsyncCodeCache {
    type V = UnsyncCodeCacheView;

    closed spec fn view(&self) -> UnsyncCodeCacheView {
        UnsyncCodeCacheView {
            modules: module_map_contents(self.module_cache),
            scripts: script_map_contents(self.script_cache),
        }
    }
}

/// The modules after `init` was asked for one that the cache lacked.
pub open spec fn modules_after_init(
    modules: Modules,
    id: ModuleId,
    loaded: VMResult<Option<ModuleCacheEntry>>,
) -> Modules {
    match loaded {
        Ok(Some(entry)) => modules.insert(id, entry),
        _ => modules,
    }
}

/// The number of modules after one was stored under `id`: one more where
/// the id is new.
pub open spec fn count_after_store(modules: Modules, id: ModuleId) -> nat {
    if modules.contains_key(id) {
        modules.len()
    } else {
        modules.len() + 1
    }
}

impl UnsyncCodeCache {
    /// The cache holds finitely many modules and finitely many scripts.
    pub open spec fn wf(&self) -> bool {
        &&& self@.modules.dom().finite()
        &&& self@.scripts.dom().finite()
    }

    /// Returns an empty code cache.
    pub fn empty() -> (cache: Self)
        ensures
            cache.wf(),
            cache@.modules == Modules::empty(),
            cache@.scripts == Scripts::empty(),
    {
        UnsyncCodeCache { script_cache: script_map_new(), module_cache: module_map_new() }
    }

    /// Returns the number of modules cached in the code cache.
    pub fn num_modules(&self) -> (n: usize)
        requires
            self.wf(),
        ensures
            n == self@.modules.len(),
    {
        module_map_len(&self.module_cache)
    }

    /// Stores the module to the code cache: a later fetch of the id gives
    /// this entry, and the cache holds one module more where the id is new.
    pub fn store_module(&mut self, module_id: ModuleId, entry: ModuleCacheEntry)
        requires
            old(self).wf(),
        ensures
            final(self).wf(),
            final(self)@.modules == old(self)@.modules.insert(module_id, entry),
            final(self)@.modules.len() == count_after_store(old(self)@.modules, module_id),
            final(self)@.scripts == old(self)@.scripts,
    {
        module_map_insert(&mut self.module_cache, module_id, entry);
    }

    /// Fetches the module from the code cache, if it exists there. If not,
    /// uses the provided initialization function to initialize and cache it.
    pub fn fetch_or_initialize_module<F>(&mut self, module_id: &ModuleId, init_func: &F) -> (result:
        VMResult<Option<ModuleCacheEntry>>) where
        F: Fn(&ModuleId) -> VMResult<Option<ModuleCacheEntry>>,

        requires
            old(self).wf(),
            init_func.requires((module_id,)),
        ensures
            final(self).wf(),
            final(self)@.scripts == old(self)@.scripts,
            final(self)@.modules.len() == (if result is Ok && result->Ok_0 is Some {
                count_after_store(old(self)@.modules, *module_id)
            } else {
                old(self)@.modules.len()
            }),
            old(self)@.modules.contains_key(*module_id) ==> result == Ok::<
                Option<ModuleCacheEntry>,
                VMError,
            >(Some(old(self)@.modules[*module_id])) && final(self)@.modules == old(self)@.modules,
            !old(self)@.modules.contains_key(*module_id) ==> init_func.ensures(
                (module_id,),
                result,
            ) && final(self)@.modules == modules_after_init(
                old(self)@.modules,
                *module_id,
                result,
            ),
    {
        match module_map_get(&self.module_cache, *module_id) {
            Some(e) => {
                return Ok(Some(e));
            },
            None => {},
        }
        match init_func(module_id) {
            Ok(Some(v)) => {
                module_map_insert(&mut self.module_cache, *module_id, v);
                Ok(Some(v))
            },
            Ok(None) => Ok(None),
            Err(e) => Err(e),
        }
    }

    /// Stores the script to the code cache.
    pub fn store_script(&mut self, hash: [u8; 32], entry: ScriptCacheEntry)
        requires
            old(self).wf(),
        ensures
            final(self).wf(),
            final(self)@.scripts == old(self)@.scripts.insert(hash@, entry),
            final(self)@.modules == old(self)@.modules,
    {
        script_map_insert(&mut self.script_cache, hash, entry);
    }

    /// Returns the script if it has been cached before, or `None` otherwise.
    pub fn fetch_script(&self, hash: &[u8; 32]) -> (entry: Option<ScriptCacheEntry>)
        ensures
            entry == (if self@.scripts.contains_key(hash@) {
                Some(self@.scripts[hash@])
            } else {
                None
            }),
    {
        script_map_get(&self.script_cache, hash)
    }

    /// Collects the verified modules that were published and loaded during
    /// this block: each goes through `f` into the collector, under its id.
    /// Should only be called at the block end.
    pub fn collect_verified_entries_into<F>(&self, collector: &mut ModuleMap, f: F) where
        F: Fn(&ModuleCacheEntry) -> ModuleCacheEntry,

        requires
            forall|entry: ModuleCacheEntry| f.requires((&entry,)),
        ensures
            forall|id: ModuleId| #[trigger]
                module_map_contents(*final(collector)).contains_key(id) <==> (module_map_contents(
                    *old(collector),
                ).contains_key(id) || (self@.modules.contains_key(id)
                    && self@.modules[id].verified)),
            forall|id: ModuleId| #[trigger]
                module_map_contents(*final(collector)).contains_key(id) ==> (if self@.modules.contains_key(
                    id,
                ) && self@.modules[id].verified {
                    f.ensures((&self@.modules[id],), module_map_contents(*final(collector))[id])
                } else {
                    module_map_contents(*final(collector))[id] == module_map_contents(
                        *old(collector),
                    )[id]
                }),
    {
        let entries = module_map_entries(&self.module_cache);
        let ghost modules = self@.modules;
        let ghost before = module_map_contents(*collector);
        let mut i: usize = 0;
        while i < entries.len()
            invariant
                i <= entries@.len(),
                modules == self@.modules,
                before == module_map_contents(*old(collector)),
                forall|entry: ModuleCacheEntry| f.requires((&entry,)),
                forall|j: int|
                    0 <= j < entries@.len() ==> modules.contains_key((#[trigger] entries@[j]).0)
                        && modules[entries@[j].0] == entries@[j].1,
                forall|a: int, b: int|
                    0 <= a < b < entries@.len() ==> (#[trigger] entries@[a]).0 != (
                    #[trigger] entries@[b]).0,
                forall|id: ModuleId| #[trigger]
                    module_map_contents(*collector).contains_key(id) <==> (before.contains_key(id)
                        || verified_among(entries@, i as int, id)),
                forall|id: ModuleId| #[trigger]
                    module_map_contents(*collector).contains_key(id) ==> (if verified_among(
                        entries@,
                        i as int,
                        id,
                    ) {
                        f.ensures((&modules[id],), module_map_contents(*collector)[id])
                    } else {
                        module_map_contents(*collector)[id] == before[id]
                    }),
            decreases entries@.len() - i,
        {
            let (id, entry) = entries[i];
            proof {
                assert forall|k: ModuleId|
                    verified_among(entries@, i + 1, k) <==> (verified_among(entries@, i as int, k)
                        || (k == id && entry.verified)) by {
                    if verified_among(entries@, i + 1, k) {
                        let j = choose|j: int|
                            0 <= j < i + 1 && entries@[j].0 == k && entries@[j].1.verified;
                        if j < i {
                            assert(verified_among(entries@, i as int, k));
                        }
                    }
                    if verified_among(entries@, i as int, k) {
                        let j = choose|j: int|
                            0 <= j < i && entries@[j].0 == k && entries@[j].1.verified;
                        assert(0 <= j < i + 1 && entries@[j].0 == k && entries@[j].1.verified);
                    }
                    if k == id && entry.verified {
                        assert(entries@[i as int].0 == k && entries@[i as int].1.verified);
                    }
                }
            }
            if entry.is_verified() {
                let v = f(&entry);
                module_map_insert(collector, id, v);
            }
            i = i + 1;
        }
        proof {
            assert forall|id: ModuleId|
                verified_among(entries@, entries@.len() as int, id) <==> (modules.contains_key(id)
                    && modules[id].verified) by {
                if modules.contains_key(id) && modules[id].verified {
                    let j = choose|j: int| 0 <= j < entries@.len() && (#[trigger] entries@[j]).0
                        == id;
                    assert(entries@[j].1.verified);
                }
                if verified_among(entries@, entries@.len() as int, id) {
                    let j = choose|j: int|
                        0 <= j < entries@.len() && entries@[j].0 == id && entries@[j].1.verified;
                    assert(modules.contains_key(entries@[j].0));
                }
            }
        }
    }
}

/// One of the first `n` entries is a verified entry of module `id`.
pub open spec fn verified_among(
    entries: Seq<(ModuleId, ModuleCacheEntry)>,
    n: int,
    id: ModuleId,
) -> bool {
    exists|j: int| 0 <= j < n && j < entries.len() && entries[j].0 == id && entries[j].1.verified
}


/// A module that a transaction of the block published.
#[derive(Clone, Copy, Debug, PartialEq, Eq, Structural)]
pub struct Publication {
    pub id: ModuleId,
    pub publisher: TxnIndex,
    pub entry: ModuleCacheEntry,
}

/// What the publications hold, by module and publisher.
pub type Publications = Map<(ModuleId, TxnIndex), ModuleCacheEntry>;

/// What a code cache for parallel execution holds.
pub struct CodeCacheView {
    /// The base cache: what earlier blocks left. It does not change.
    pub base: Modules,
    /// What the block loaded from storage.
    pub loaded: Modules,
    /// What the block's transactions published.
    pub published: Publications,
    pub scripts: Scripts,
}

/// The publications of module `id`, by publisher.
pub open spec fn publications_of(published: Publications, id: ModuleId) -> Map<
    TxnIndex,
    ModuleCacheEntry,
> {
    Map::new(|i: TxnIndex| published.contains_key((id, i)), |i: TxnIndex| published[(id, i)])
}

/// The entry of `id` that the block's overlay shows to a reader below
/// `bound`: the publication of the highest publisher below `bound`, and what
/// was loaded from storage where there is none.
pub open spec fn overlay_entry(v: CodeCacheView, id: ModuleId, bound: int) -> Option<ModuleCacheEntry> {
    match latest_below(publications_of(v.published, id), bound) {
        Some(p) => Some(v.published[(id, p)]),
        None => if v.loaded.contains_key(id) {
            Some(v.loaded[id])
        } else {
            None
        },
    }
}

/// The entry of `id` that the transaction at `reader` finds: that of the
/// base cache where it has one, else that of the block's overlay.
pub open spec fn spec_fetch_module(v: CodeCacheView, id: ModuleId, reader: TxnIndex) -> Option<
    ModuleCacheEntry,
> {
    if v.base.contains_key(id) {
        Some(v.base[id])
    } else {
        overlay_entry(v, id, reader as int)
    }
}

/// The entry of `id` that the overlay holds at the end of the block.
pub open spec fn final_overlay_entry(v: CodeCacheView, id: ModuleId) -> Option<ModuleCacheEntry> {
    overlay_entry(v, id, u32::MAX + 1)
}

/// No module has two publications of one publisher.
pub open spec fn publications_distinct(list: Seq<Publication>) -> bool {
    forall|a: int, b: int|
        0 <= a < b < list.len() ==> !((#[trigger] list[a]).id == (#[trigger] list[b]).id
            && list[a].publisher == list[b].publisher)
}

/// The position of the publication of `id` by `publisher`, if there is one.
pub open spec fn publication_position(list: Seq<Publication>, id: ModuleId, publisher: TxnIndex) -> Option<
    int,
> {
    if exists|p: int| 0 <= p < list.len() && list[p].id == id && list[p].publisher == publisher {
        Some(choose|p: int| 0 <= p < list.len() && list[p].id == id && list[p].publisher == publisher)
    } else {
        None
    }
}

/// The list of publications as a map.
pub open spec fn publications_view(list: Seq<Publication>) -> Publications {
    Map::new(
        |k: (ModuleId, TxnIndex)| publication_position(list, k.0, k.1) is Some,
        |k: (ModuleId, TxnIndex)| list[publication_position(list, k.0, k.1).unwrap()].entry,
    )
}

proof fn lemma_publication_at(list: Seq<Publication>, p: int)
    requires
        publications_distinct(list),
        0 <= p < list.len(),
    ensures
        publication_position(list, list[p].id, list[p].publisher) == Some(p),
        publications_view(list).contains_key((list[p].id, list[p].publisher)),
        publications_view(list)[(list[p].id, list[p].publisher)] == list[p].entry,
{
    let id = list[p].id;
    let publisher = list[p].publisher;
    let q = choose|q: int| 0 <= q < list.len() && list[q].id == id && list[q].publisher == publisher;
    if q < p {
        assert(!(list[q].id == list[p].id && list[q].publisher == list[p].publisher));
    }
    if p < q {
        assert(!(list[p].id == list[q].id && list[p].publisher == list[q].publisher));
    }
}

/// A module published by transaction `i` is visible to every transaction
/// above `i`, up to the next publisher of the module, and invisible to `i`
/// and to every transaction below it: those find what they found before.
/// This holds of the modules that the base cache lacks: what the base cache
/// has, it shows to every reader.
pub proof fn lemma_published_module_visibility(
    v: CodeCacheView,
    id: ModuleId,
    i: TxnIndex,
    entry: ModuleCacheEntry,
    j: TxnIndex,
)
    requires
        !v.base.contains_key(id),
    ensures
        ({
            let after = CodeCacheView { published: v.published.insert((id, i), entry), ..v };
            &&& j > i && (forall|p: TxnIndex| i < p < j ==> !v.published.contains_key((id, p)))
                ==> spec_fetch_module(after, id, j) == Some(entry)
            &&& j <= i ==> spec_fetch_module(after, id, j) == spec_fetch_module(v, id, j)
        }),
{
    let after = CodeCacheView { published: v.published.insert((id, i), entry), ..v };
    let before_pubs = publications_of(v.published, id);
    let after_pubs = publications_of(after.published, id);
    if j > i && (forall|p: TxnIndex| i < p < j ==> !v.published.contains_key((id, p))) {
        assert(after_pubs.contains_key(i));
        assert forall|p: TxnIndex| i < p && p < j implies !after_pubs.contains_key(p) by {
            assert(!v.published.contains_key((id, p)));
        }
        lemma_latest_below_is(after_pubs, j as int, i);
    }
    if j <= i {
        lemma_latest_below(before_pubs, j as int);
        match latest_below(before_pubs, j as int) {
            Some(w) => {
                assert(after_pubs.contains_key(w));
                assert forall|p: TxnIndex| w < p && p < j implies !after_pubs.contains_key(p) by {
                    assert(!before_pubs.contains_key(p));
                }
                lemma_latest_below_is(after_pubs, j as int, w);
            },
            None => {
                assert forall|p: TxnIndex| p < j implies !after_pubs.contains_key(p) by {
                    assert(!before_pubs.contains_key(p));
                }
                lemma_latest_below_none(after_pubs, j as int);
            },
        }
    }
}

/// The code cache of one block under parallel execution: the base cache,
/// which no transaction of the block changes, and over it what the block
/// loaded from storage and what its transactions published.
pub struct CodeCache {
    base: ModuleMap,
    block: UnsyncCodeCache,
    published: Vec<Publication>,
}

impl View for CodeCache {
    type V = CodeCacheView;

    closed spec fn view(&self) -> CodeCacheView {
        CodeCacheView {
            base: module_map_contents(self.base),
            loaded: self.block@.modules,
            published: publications_view(self.published@),
            scripts: self.block@.scripts,
        }
    }
}

impl CodeCache {
    pub closed spec fn wf(&self) -> bool {
        &&& publications_distinct(self.published@)
        &&& self.block.wf()
    }

    /// The cache of a block that has loaded and published nothing, over
    /// the given base cache.
    pub fn new(base: ModuleMap) -> (cache: Self)
        ensures
            cache.wf(),
            cache@.base == module_map_contents(base),
            cache@.loaded == Modules::empty(),
            cache@.published == Publications::empty(),
            cache@.scripts == Scripts::empty(),
    {
        let cache = CodeCache { base, block: UnsyncCodeCache::empty(), published: Vec::new() };
        assert(cache@.published =~= Publications::empty());
        cache
    }

    /// The publication of `id` with the highest publisher below `bound`.
    fn latest_publication(&self, id: ModuleId, bound: u64) -> (r: Option<Publication>)
        requires
            self.wf(),
            bound <= u32::MAX + 1,
        ensures
            match r {
                Some(p) => latest_below(publications_of(self@.published, id), bound as int)
                    == Some(p.publisher) && self@.published[(id, p.publisher)] == p.entry,
                None => latest_below(publications_of(self@.published, id), bound as int) is None,
            },
    {
        let mut best: Option<Publication> = None;
        let mut i: usize = 0;
        let ghost pubs = publications_of(self@.published, id);
        while i < self.published.len()
            invariant
                self.wf(),
                bound <= u32::MAX + 1,
                pubs == publications_of(self@.published, id),
                i <= self.published@.len(),
                match best {
                    Some(b) => exists|q: int|
                        0 <= q < i && self.published@[q] == b && b.id == id && b.publisher < bound,
                    None => true,
                },
                forall|q: int|
                    0 <= q < i && (#[trigger] self.published@[q]).id == id
                        && self.published@[q].publisher < bound ==> best is Some
                        && self.published@[q].publisher <= best.unwrap().publisher,
            decreases self.published@.len() - i,
        {
            let p = self.published[i];
            if p.id.address == id.address && p.id.name == id.name && (p.publisher as u64) < bound {
                let better = match best {
                    Some(b) => b.publisher < p.publisher,
                    None => true,
                };
                if better {
                    best = Some(p);
                }
            }
            i = i + 1;
        }
        proof {
            match best {
                Some(b) => {
                    let q = choose|q: int|
                        0 <= q < self.published@.len() && self.published@[q] == b && b.id == id
                            && b.publisher < bound;
                    lemma_publication_at(self.published@, q);
                    assert(pubs.contains_key(b.publisher));
                    assert forall|j: TxnIndex| b.publisher < j && j < bound implies !pubs.contains_key(
                        j,
                    ) by {
                        if pubs.contains_key(j) {
                            let r = publication_position(self.published@, id, j).unwrap();
                            assert(self.published@[r].id == id);
                        }
                    }
                    lemma_latest_below_is(pubs, bound as int, b.publisher);
                },
                None => {
                    assert forall|j: TxnIndex| j < bound implies !pubs.contains_key(j) by {
                        if pubs.contains_key(j) {
                            let r = publication_position(self.published@, id, j).unwrap();
                            assert(self.published@[r].id == id);
                        }
                    }
                    lemma_latest_below_none(pubs, bound as int);
                },
            }
        }
        best
    }

    /// The entry of `id` that the overlay shows to a reader below `bound`.
    fn fetch_overlay(&self, id: ModuleId, bound: u64) -> (entry: Option<ModuleCacheEntry>)
        requires
            self.wf(),
            bound <= u32::MAX + 1,
        ensures
            entry == overlay_entry(self@, id, bound as int),
    {
        match self.latest_publication(id, bound) {
            Some(p) => Some(p.entry),
            None => module_map_get(&self.block.module_cache, id),
        }
    }

    /// The module that the transaction at `reader` finds under `id`: the
    /// base cache is asked first, then the block's overlay.
    pub fn fetch_module(&self, id: ModuleId, reader: TxnIndex) -> (entry: Option<ModuleCacheEntry>)
        requires
            self.wf(),
        ensures
            entry == spec_fetch_module(self@, id, reader),
    {
        match module_map_get(&self.base, id) {
            Some(e) => Some(e),
            None => self.fetch_overlay(id, reader as u64),
        }
    }

    /// Fetches the module that the transaction at `reader` finds under `id`
    /// and, where neither the base cache nor the overlay has one, asks
    /// `loader` for it and caches what it hands back as loaded from storage.
    pub fn fetch_or_initialize_module<F>(&mut self, id: &ModuleId, reader: TxnIndex, loader: &F) -> (result:
        VMResult<Option<ModuleCacheEntry>>) where
        F: Fn(&ModuleId) -> VMResult<Option<ModuleCacheEntry>>,

        requires
            old(self).wf(),
            loader.requires((id,)),
        ensures
            final(self).wf(),
            final(self)@.base == old(self)@.base,
            final(self)@.published == old(self)@.published,
            final(self)@.scripts == old(self)@.scripts,
            spec_fetch_module(old(self)@, *id, reader) matches Some(e) ==> result == Ok::<
                Option<ModuleCacheEntry>,
                VMError,
            >(Some(e)) && final(self)@.loaded == old(self)@.loaded,
            spec_fetch_module(old(self)@, *id, reader) is None ==> loader.ensures((id,), result)
                && final(self)@.loaded == modules_after_init(old(self)@.loaded, *id, result),
    {
        match self.fetch_module(*id, reader) {
            Some(e) => {
                return Ok(Some(e));
            },
            None => {},
        }
        self.block.fetch_or_initialize_module(id, loader)
    }

    /// Caches `entry` as the module `id` as storage has it, unless the block
    /// has loaded the module already: an entry, once cached, stays as it is.
    /// Returns whether the entry was cached.
    pub fn store_module(&mut self, id: ModuleId, entry: ModuleCacheEntry) -> (stored: bool)
        requires
            old(self).wf(),
        ensures
            final(self).wf(),
            stored == !old(self)@.loaded.contains_key(id),
            final(self)@ == (if stored {
                CodeCacheView { loaded: old(self)@.loaded.insert(id, entry), ..old(self)@ }
            } else {
                old(self)@
            }),
    {
        if module_map_get(&self.block.module_cache, id).is_some() {
            false
        } else {
            self.block.store_module(id, entry);
            true
        }
    }

    /// Caches the script with the given hash, unless it is cached already:
    /// an entry, once cached, stays as it is. Returns whether the entry was
    /// cached.
    pub fn store_script(&mut self, hash: [u8; 32], entry: ScriptCacheEntry) -> (stored: bool)
        requires
            old(self).wf(),
        ensures
            final(self).wf(),
            stored == !old(self)@.scripts.contains_key(hash@),
            final(self)@ == (if stored {
                CodeCacheView { scripts: old(self)@.scripts.insert(hash@, entry), ..old(self)@ }
            } else {
                old(self)@
            }),
    {
        if self.block.fetch_script(&hash).is_some() {
            false
        } else {
            self.block.store_script(hash, entry);
            true
        }
    }

    /// The script with the given hash, if it is cached.
    pub fn fetch_script(&self, hash: &[u8; 32]) -> (entry: Option<ScriptCacheEntry>)
        ensures
            entry == (if self@.scripts.contains_key(hash@) {
                Some(self@.scripts[hash@])
            } else {
                None
            }),
    {
        self.block.fetch_script(hash)
    }

    /// Records that the transaction at `publisher` published `entry` as the
    /// module `id`, over what it had published as `id` before.
    pub fn publish_module(&mut self, id: ModuleId, publisher: TxnIndex, entry: ModuleCacheEntry)
        requires
            old(self).wf(),
        ensures
            final(self).wf(),
            final(self)@ == (CodeCacheView {
                published: old(self)@.published.insert((id, publisher), entry),
                ..old(self)@
            }),
    {
        let ghost list = self.published@;
        let mut i: usize = 0;
        let mut found = false;
        while i < self.published.len() && !found
            invariant
                self.published@ == list,
                i <= list.len(),
                found ==> i < list.len() && list[i as int].id == id && list[i as int].publisher
                    == publisher,
                forall|q: int|
                    0 <= q < i ==> !((#[trigger] list[q]).id == id && list[q].publisher
                        == publisher),
            decreases list.len() - i + (if found { 0int } else { 1int }),
        {
            let p = self.published[i];
            if p.id.address == id.address && p.id.name == id.name && p.publisher == publisher {
                found = true;
            } else {
                i = i + 1;
            }
        }
        if found {
            self.published.set(i, Publication { id, publisher, entry });
        } else {
            self.published.push(Publication { id, publisher, entry });
        }
        proof {
            let after = self.published@;
            assert(after[i as int] == (Publication { id, publisher, entry }));
            assert forall|q: int| 0 <= q < after.len() && q != i implies after[q] == list[q]
                && !(list[q].id == id && list[q].publisher == publisher) by {
                if found && q > i {
                    assert(!(list[i as int].id == list[q].id && list[i as int].publisher
                        == list[q].publisher));
                }
            }
            assert(publications_distinct(after)) by {
                assert forall|a: int, b: int| 0 <= a < b < after.len() implies !((
                #[trigger] after[a]).id == (#[trigger] after[b]).id && after[a].publisher
                    == after[b].publisher) by {
                    if a != i && b != i {
                        assert(!(list[a].id == list[b].id && list[a].publisher
                            == list[b].publisher));
                    }
                }
            }
            assert forall|k: (ModuleId, TxnIndex)| #[trigger]
                publications_view(after).contains_key(k) == publications_view(list).insert(
                    (id, publisher),
                    entry,
                ).contains_key(k) && (publications_view(after).contains_key(k)
                    ==> publications_view(after)[k] == publications_view(list).insert(
                    (id, publisher),
                    entry,
                )[k]) by {
                lemma_publication_at(after, i as int);
                if publication_position(list, k.0, k.1) is Some {
                    let q = publication_position(list, k.0, k.1).unwrap();
                    lemma_publication_at(list, q);
                    lemma_publication_at(after, q);
                }
                if publication_position(after, k.0, k.1) is Some {
                    let q = publication_position(after, k.0, k.1).unwrap();
                    lemma_publication_at(after, q);
                    if q != i {
                        lemma_publication_at(list, q);
                    }
                }
            }
            assert(publications_view(after) =~= publications_view(list).insert(
                (id, publisher),
                entry,
            ));
        }
    }
}


/// The list holds the module `id`.
pub open spec fn lists_module(list: Seq<(ModuleId, ModuleCacheEntry)>, id: ModuleId) -> bool {
    exists|i: int| 0 <= i < list.len() && (#[trigger] list[i]).0 == id
}

/// The list holds every verified module that the overlay holds at the end
/// of the block among the given candidates, with the entry that the overlay
/// holds for it, and nothing else; and no module twice.
pub open spec fn collects(
    v: CodeCacheView,
    list: Seq<(ModuleId, ModuleCacheEntry)>,
    candidates: Set<ModuleId>,
) -> bool {
    &&& forall|i: int|
        0 <= i < list.len() ==> candidates.contains((#[trigger] list[i]).0)
            && final_overlay_entry(v, list[i].0) == Some(list[i].1) && list[i].1.verified
    &&& forall|i: int, j: int|
        0 <= i < j < list.len() ==> (#[trigger] list[i]).0 != (#[trigger] list[j]).0
    &&& forall|id: ModuleId|
        candidates.contains(id) && (final_overlay_entry(v, id) matches Some(e) && e.verified)
            ==> #[trigger] lists_module(list, id)
}

impl CodeCache {
    /// Adds the module `id` to the list if the overlay holds it verified at
    /// the end of the block and the list does not hold it yet.
    fn collect_one(&self, list: &mut Vec<(ModuleId, ModuleCacheEntry)>, id: ModuleId, Ghost(done): Ghost<
        Set<ModuleId>,
    >)
        requires
            self.wf(),
            collects(self@, old(list)@, done),
        ensures
            collects(self@, final(list)@, done.insert(id)),
    {
        let ghost before = list@;
        let mut i: usize = 0;
        while i < list.len()
            invariant
                list@ == before,
                i <= before.len(),
                collects(self@, before, done),
                forall|q: int| 0 <= q < i ==> (#[trigger] before[q]).0 != id,
            decreases before.len() - i,
        {
            let held = list[i].0;
            if held.address == id.address && held.name == id.name {
                proof {
                    assert(lists_module(before, id)) by {
                        assert(before[i as int].0 == id);
                    }
                    assert forall|k: ModuleId|
                        done.insert(id).contains(k) && (final_overlay_entry(self@, k) matches Some(
                            e,
                        ) && e.verified) implies #[trigger] lists_module(before, k) by {
                        if k != id {
                            assert(done.contains(k));
                        }
                    }
                }
                return ;
            }
            i = i + 1;
        }
        match self.fetch_overlay(id, 0x1_0000_0000) {
            Some(e) => {
                if e.is_verified() {
                    list.push((id, e));
                    proof {
                        let after = list@;
                        assert(after[before.len() as int].0 == id);
                        assert forall|k: ModuleId|
                            done.insert(id).contains(k) && (final_overlay_entry(
                                self@,
                                k,
                            ) matches Some(e) && e.verified) implies #[trigger] lists_module(
                            after,
                            k,
                        ) by {
                            if k == id {
                                assert(after[before.len() as int].0 == k);
                            } else {
                                assert(done.contains(k));
                                assert(lists_module(before, k));
                                let q = choose|q: int|
                                    0 <= q < before.len() && (#[trigger] before[q]).0 == k;
                                assert(after[q].0 == k);
                            }
                        }
                    }
                } else {
                    proof {
                        assert forall|k: ModuleId|
                            done.insert(id).contains(k) && (final_overlay_entry(
                                self@,
                                k,
                            ) matches Some(e) && e.verified) implies #[trigger] lists_module(
                            before,
                            k,
                        ) by {
                            if k != id {
                                assert(done.contains(k));
                            }
                        }
                    }
                }
            },
            None => {
                proof {
                    assert forall|k: ModuleId|
                        done.insert(id).contains(k) && (final_overlay_entry(self@, k) matches Some(
                            e,
                        ) && e.verified) implies #[trigger] lists_module(before, k) by {
                        if k != id {
                            assert(done.contains(k));
                        }
                    }
                }
            },
        }
    }

    /// The verified modules that the block loaded or published, each with
    /// the entry that the overlay holds for it at the end of the block: that
    /// of its last publisher, or what was loaded from storage where no
    /// transaction published it. They are what the block hands on to the
    /// base cache of the next. Should only be called at the block end.
    pub fn collect_verified_entries(&self) -> (entries: Vec<(ModuleId, ModuleCacheEntry)>)
        requires
            self.wf(),
        ensures
            forall|i: int|
                0 <= i < entries@.len() ==> final_overlay_entry(self@, (#[trigger] entries@[i]).0)
                    == Some(entries@[i].1) && entries@[i].1.verified,
            forall|i: int, j: int|
                0 <= i < j < entries@.len() ==> (#[trigger] entries@[i]).0 != (
                #[trigger] entries@[j]).0,
            forall|id: ModuleId|
                (final_overlay_entry(self@, id) matches Some(e) && e.verified)
                    ==> #[trigger] lists_module(entries@, id),
    {
        let loaded = module_map_entries(&self.block.module_cache);
        let mut entries: Vec<(ModuleId, ModuleCacheEntry)> = Vec::new();
        let ghost mut done: Set<ModuleId> = Set::empty();
        let mut i: usize = 0;
        while i < loaded.len()
            invariant
                self.wf(),
                i <= loaded@.len(),
                collects(self@, entries@, done),
                forall|q: int| 0 <= q < i ==> done.contains((#[trigger] loaded@[q]).0),
            decreases loaded@.len() - i,
        {
            self.collect_one(&mut entries, loaded[i].0, Ghost(done));
            proof {
                done = done.insert(loaded@[i as int].0);
            }
            i = i + 1;
        }
        let mut j: usize = 0;
        while j < self.published.len()
            invariant
                self.wf(),
                j <= self.published@.len(),
                collects(self@, entries@, done),
                forall|q: int| 0 <= q < loaded@.len() ==> done.contains((#[trigger] loaded@[q]).0),
                forall|q: int| 0 <= q < j ==> done.contains((#[trigger] self.published@[q]).id),
            decreases self.published@.len() - j,
        {
            self.collect_one(&mut entries, self.published[j].id, Ghost(done));
            proof {
                done = done.insert(self.published@[j as int].id);
            }
            j = j + 1;
        }
        proof {
            assert forall|id: ModuleId|
                (final_overlay_entry(self@, id) matches Some(e) && e.verified) implies #[trigger] lists_module(
                entries@,
                id,
            ) by {
                let pubs = publications_of(self@.published, id);
                lemma_latest_below(pubs, u32::MAX + 1);
                match latest_below(pubs, u32::MAX + 1) {
                    Some(p) => {
                        let q = publication_position(self.published@, id, p).unwrap();
                        assert(self.published@[q].id == id);
                        assert(done.contains(id));
                    },
                    None => {
                        assert(self@.loaded.contains_key(id));
                        let q = choose|q: int|
                            0 <= q < loaded@.len() && (#[trigger] loaded@[q]).0 == id;
                        assert(done.contains(id));
                    },
                }
            }
        }
        entries
    }
}


/// The module that is kept under a key of the state's code: the low 64 bits
/// of the key are its name, the 32 bits above them its address.
pub open spec fn module_of_key(key: StateKey) -> ModuleId {
    ModuleId {
        address: (((key - CODE_KEYS_FROM) / 0x1_0000_0000_0000_0000) % 0x1_0000_0000) as u64,
        name: ((key - CODE_KEYS_FROM) % 0x1_0000_0000_0000_0000) as u64,
    }
}

/// The entry of code that was written to the state: not yet verified.
pub open spec fn published_entry(code: StateValue) -> ModuleCacheEntry {
    ModuleCacheEntry { code, size: 8, verified: false }
}

/// The publications after the first `n` writes of `publisher` were looked
/// at: each write to a key of the state's code publishes the module of the
/// key.
pub open spec fn with_published_code(
    published: Publications,
    publisher: TxnIndex,
    writes: Seq<WriteOp>,
    n: int,
) -> Publications
    decreases n,
{
    if n <= 0 {
        published
    } else {
        let before = with_published_code(published, publisher, writes, n - 1);
        if is_code_key(writes[n - 1].0) {
            before.insert(
                (module_of_key(writes[n - 1].0), publisher),
                published_entry(writes[n - 1].1),
            )
        } else {
            before
        }
    }
}

/// The module that is kept under a key of the state's code.
pub fn module_id_of_key(key: StateKey) -> (id: ModuleId)
    requires
        is_code_key(key),
    ensures
        id == module_of_key(key),
{
    let offset = key - CODE_KEYS_FROM;
    ModuleId {
        address: ((offset / 0x1_0000_0000_0000_0000) % 0x1_0000_0000) as u64,
        name: (offset % 0x1_0000_0000_0000_0000) as u64,
    }
}

impl CodeCache {
    /// Publishes the code that the transaction at `publisher` wrote to the
    /// state: every write to a key of the state's code becomes a publication
    /// of the module of that key, seen by the transactions above `publisher`.
    pub fn publish_written_code(&mut self, publisher: TxnIndex, write_set: &Vec<WriteOp>)
        requires
            old(self).wf(),
        ensures
            final(self).wf(),
            final(self)@ == (CodeCacheView {
                published: with_published_code(
                    old(self)@.published,
                    publisher,
                    write_set@,
                    write_set@.len() as int,
                ),
                ..old(self)@
            }),
    {
        let mut i: usize = 0;
        while i < write_set.len()
            invariant
                self.wf(),
                i <= write_set@.len(),
                self@ == (CodeCacheView {
                    published: with_published_code(
                        old(self)@.published,
                        publisher,
                        write_set@,
                        i as int,
                    ),
                    ..old(self)@
                }),
            decreases write_set@.len() - i,
        {
            let (key, value) = write_set[i];
            if crate::types::code_key(key) {
                self.publish_module(
                    module_id_of_key(key),
                    publisher,
                    ModuleCacheEntry { code: value, size: 8, verified: false },
                );
            }
            i = i + 1;
        }
    }
}

} // verus!
