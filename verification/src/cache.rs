//! The persistent module cache.
//!
//! The cache is a content-addressed store of processed modules together
//! with their analyzed dependencies.  Keys are hexadecimal content hashes;
//! the store itself lives in memory, while the host persists entries under
//! `<cache_dir>/<namespace>/<mode>/modules/<key>` between builds.  The
//! round-trip law is part of the contracts here: after
//! `set_module_cache(k, v)`, `get_module_cache(k)` returns a module
//! structurally equal to `v`.

use vstd::prelude::*;
use crate::module::{module_matches, Mode, Module};
use crate::plugin::{dep_entry_matches, PluginAnalyzeDepsHookResultEntry};

verus! {

/// A finalized module plus its analyzed dependency entries, as stored in
/// the cache.
pub struct CachedModule {
    pub module: Module,
    pub deps: Vec<PluginAnalyzeDepsHookResultEntry>,
}

/// Structural equality of two cached modules.
pub open spec fn cached_module_matches(a: &CachedModule, b: &CachedModule) -> bool {
    &&& module_matches(&a.module, &b.module)
    &&& a.deps@.len() == b.deps@.len()
    &&& forall|i: int|
        0 <= i < a.deps@.len() ==> dep_entry_matches(&a.deps@[i], &b.deps@[i])
}

impl CachedModule {
    /// A structurally equal copy.
    pub fn duplicate(&self) -> (r: CachedModule)
        ensures
            cached_module_matches(&r, self),
    {
        let mut deps: Vec<PluginAnalyzeDepsHookResultEntry> = Vec::new();
        let mut i: usize = 0;
        while i < self.deps.len()
            invariant
                i <= self.deps@.len(),
                deps@.len() == i,
                forall|j: int| 0 <= j < i ==> dep_entry_matches(&deps@[j], &self.deps@[j]),
            decreases self.deps@.len() - i,
        {
            let ghost deps0 = deps@;
            deps.push(self.deps[i].duplicate());
            proof {
                assert forall|j: int| 0 <= j < deps@.len() implies dep_entry_matches(
                    &deps@[j],
                    &self.deps@[j],
                ) by {
                    if j < deps@.len() - 1 {
                        assert(deps@[j] == deps0[j]);
                    }
                }
            }
            i = i + 1;
        }
        CachedModule { module: self.module.duplicate(), deps }
    }
}

/// The store holds an entry equal to `e`.
pub open spec fn store_has_entry(entries: Seq<(String, CachedModule)>, e: (String, CachedModule)) -> bool {
    exists|i: int| 0 <= i < entries.len() && entries[i] == e
}

/// Whether the store holds an entry under `key`.
pub open spec fn store_has_key(entries: Seq<(String, CachedModule)>, key: Seq<char>) -> bool {
    exists|i: int| 0 <= i < entries.len() && entries[i].0@ == key
}

/// Content-addressed store of processed modules keyed by hexadecimal
/// content hash.
pub struct ModuleCacheManager {
    /// Root of the on-disk layout: `<cache_dir>/<namespace>/<mode>/modules/`.
    pub cache_dir: String,
    pub entries: Vec<(String, CachedModule)>,
}

impl ModuleCacheManager {
    /// Keys are pairwise distinct.
    pub open spec fn wf(&self) -> bool {
        forall|i: int, j: int|
            0 <= i < j < self.entries@.len() ==> self.entries@[i].0@ != self.entries@[j].0@
    }

    /// An empty cache rooted at `<cache_dir>/<namespace>/<mode>/modules/`.
    pub fn new(cache_dir: &str, namespace: &str, mode: Mode) -> (r: ModuleCacheManager)
        ensures
            r.wf(),
            r.entries@.len() == 0,
            r.cache_dir@ == cache_dir@ + "/"@ + namespace@ + "/"@ + (if mode == Mode::Development {
                "development"@
            } else {
                "production"@
            }) + "/modules/"@,
    {
        let mode_part = match mode {
            Mode::Development => "development",
            Mode::Production => "production",
        };
        let dir = cache_dir.to_owned().concat("/").concat(namespace).concat("/").concat(
            mode_part,
        ).concat("/modules/");
        ModuleCacheManager { cache_dir: dir, entries: Vec::new() }
    }

    /// Finds the position of `code_hash` in the store.
    fn position_of(&self, code_hash: &str) -> (r: Option<usize>)
        ensures
            match r {
                Some(i) => i < self.entries@.len() && self.entries@[i as int].0@ == code_hash@,
                None => !store_has_key(self.entries@, code_hash@),
            },
    {
        let mut i: usize = 0;
        while i < self.entries.len()
            invariant
                i <= self.entries@.len(),
                forall|j: int| 0 <= j < i ==> self.entries@[j].0@ != code_hash@,
            decreases self.entries@.len() - i,
        {
            if crate::paths::str_eq(self.entries[i].0.as_str(), code_hash) {
                return Some(i);
            }
            i = i + 1;
        }
        None
    }

    /// Whether the cache holds an entry for `code_hash`.
    pub fn has_module_cache(&self, code_hash: &str) -> (r: bool)
        ensures
            r == store_has_key(self.entries@, code_hash@),
    {
        match self.position_of(code_hash) {
            Some(_) => true,
            None => false,
        }
    }

    /// Stores `module` under `code_hash`, replacing any previous entry:
    /// afterwards the key is present and maps to a module structurally
    /// equal to `module`, and every other key maps to what it did before.
    pub fn set_module_cache(&mut self, code_hash: &str, module: &CachedModule)
        requires
            old(self).wf(),
        ensures
            final(self).wf(),
            final(self).cache_dir@ == old(self).cache_dir@,
            store_has_key(final(self).entries@, code_hash@),
            // the stored value under the key is the given module
            forall|i: int|
                0 <= i < final(self).entries@.len() && (#[trigger] final(self).entries@[i]).0@
                    == code_hash@ ==> cached_module_matches(&final(self).entries@[i].1, module),
            // no entry under another key is invented
            forall|i: int|
                0 <= i < final(self).entries@.len() && (#[trigger] final(self).entries@[i]).0@
                    != code_hash@ ==> store_has_entry(old(self).entries@, final(self).entries@[i]),
            // and none is dropped
            forall|j: int|
                0 <= j < old(self).entries@.len() && (#[trigger] old(self).entries@[j]).0@
                    != code_hash@ ==> store_has_entry(final(self).entries@, old(self).entries@[j]),
    {
        let value = module.duplicate();
        let key = code_hash.to_owned();
        let ghost entries0 = self.entries@;
        match self.position_of(code_hash) {
            Some(i) => {
                self.entries[i] = (key, value);
                proof {
                    assert(self.entries@ =~= entries0.update(i as int, self.entries@[i as int]));
                    assert forall|a: int, b: int| 0 <= a < b < self.entries@.len() implies self.entries@[a].0@
                        != self.entries@[b].0@ by {
                        if a != i && b != i {
                            assert(self.entries@[a] == entries0[a] && self.entries@[b] == entries0[b]);
                        }
                    }
                    assert forall|j: int|
                        0 <= j < entries0.len() && (#[trigger] entries0[j]).0@ != code_hash@
                        implies store_has_entry(self.entries@, entries0[j]) by {
                        assert(entries0[i as int].0@ == code_hash@);
                        assert(self.entries@[j] == entries0[j]);
                    }
                }
            },
            None => {
                self.entries.push((key, value));
                proof {
                    assert forall|j: int|
                        0 <= j < entries0.len() && (#[trigger] entries0[j]).0@ != code_hash@
                        implies store_has_entry(self.entries@, entries0[j]) by {
                        assert(self.entries@[j] == entries0[j]);
                    }
                    assert forall|a: int, b: int| 0 <= a < b < self.entries@.len() implies self.entries@[a].0@
                        != self.entries@[b].0@ by {
                        if b < self.entries@.len() - 1 {
                            assert(self.entries@[a] == entries0[a] && self.entries@[b] == entries0[b]);
                        } else if a < self.entries@.len() - 1 {
                            assert(self.entries@[a] == entries0[a]);
                        }
                    }
                    assert(self.entries@.last().0@ == code_hash@);
                }
            },
        }
    }

    /// Reads the entry stored under `code_hash`: a copy of the stored
    /// module when the key is present, nothing otherwise.
    pub fn get_module_cache(&self, code_hash: &str) -> (r: Option<CachedModule>)
        ensures
            match r {
                Some(m) => exists|i: int|
                    0 <= i < self.entries@.len() && (#[trigger] self.entries@[i]).0@ == code_hash@
                        && cached_module_matches(&m, &self.entries@[i].1),
                None => !store_has_key(self.entries@, code_hash@),
            },
    {
        match self.position_of(code_hash) {
            Some(i) => Some(self.entries[i].1.duplicate()),
            None => None,
        }
    }

    /// Drops the entry stored under `code_hash`, if any.
    pub fn invalidate(&mut self, code_hash: &str)
        requires
            old(self).wf(),
        ensures
            final(self).wf(),
            final(self).cache_dir@ == old(self).cache_dir@,
            !store_has_key(final(self).entries@, code_hash@),
    {
        match self.position_of(code_hash) {
            Some(i) => {
                let ghost entries0 = self.entries@;
                self.entries.remove(i);
                proof {
                    assert forall|a: int, b: int| 0 <= a < b < self.entries@.len() implies self.entries@[a].0@
                        != self.entries@[b].0@ by {
                        let a0: int = if a < i { a } else { a + 1 };
                        let b0: int = if b < i { b } else { b + 1 };
                        assert(self.entries@[a] == entries0[a0] && self.entries@[b] == entries0[b0]);
                    }
                    assert forall|j: int| 0 <= j < self.entries@.len() implies self.entries@[j].0@
                        != code_hash@ by {
                        let j0: int = if j < i { j } else { j + 1 };
                        assert(self.entries@[j] == entries0[j0]);
                    }
                }
            },
            None => {},
        }
    }

    /// The on-disk file path of the entry with key `code_hash`, for the
    /// host's persistence layer.
    pub fn cache_file_path(&self, code_hash: &str) -> (r: String)
        ensures
            r@ == self.cache_dir@ + code_hash@,
    {
        self.cache_dir.clone().concat(code_hash)
    }
}

/// All cache-related state, one manager per concern.
pub struct CacheManager {
    pub module_cache: ModuleCacheManager,
}

impl CacheManager {
    /// A cache manager rooted below `cache_dir` for `namespace` and
    /// `mode`.
    pub fn new(cache_dir: &str, namespace: &str, mode: Mode) -> (r: CacheManager)
        ensures
            r.module_cache.wf(),
            r.module_cache.entries@.len() == 0,
            r.module_cache.cache_dir@ == cache_dir@ + "/"@ + namespace@ + "/"@ + (if mode == Mode::Development {
                "development"@
            } else {
                "production"@
            }) + "/modules/"@,
    {
        CacheManager { module_cache: ModuleCacheManager::new(cache_dir, namespace, mode) }
    }
}

} // verus!
