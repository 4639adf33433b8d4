//! Module buckets.
//!
//! A bucket collects the modules that share a group-set: two modules land
//! in the same bucket exactly when the sets of module groups containing
//! them are identical (and their module types are compatible).  A bucket
//! can contribute to several resource units; buckets are processed in an
//! order decided by [`find_best_process_bucket`].

use vstd::prelude::*;
use crate::module::{module_type_matches, ModuleType};

verus! {

/// Identifier of a module bucket, derived from its group-set key.
#[derive(Debug, Hash)]
pub struct ModuleBucketId {
    pub id: String,
}

impl From<String> for ModuleBucketId {
    fn from(id: String) -> (r: ModuleBucketId) {
        ModuleBucketId { id }
    }
}

impl vstd::std_specs::convert::FromSpecImpl<String> for ModuleBucketId {
    open spec fn obeys_from_spec() -> bool {
        true
    }

    open spec fn from_spec(id: String) -> ModuleBucketId {
        ModuleBucketId { id }
    }
}

impl ModuleBucketId {
    /// The identifier as a string.
    pub fn to_string(&self) -> (r: String)
        ensures
            r@ == self.id@,
    {
        self.id.clone()
    }
}

/// One bucketing rule from the partial-bundling configuration.
#[derive(Debug)]
pub struct PartialBundlingModuleBucketsConfig {
    pub name: String,
    /// Higher weight buckets are processed earlier.
    pub weight: u64,
    /// Size cap of one resource pot cut from this bucket; 0 means no cap.
    pub max_size: u64,
}

impl PartialBundlingModuleBucketsConfig {
    /// The default rule: weight 0, no size cap.
    pub fn new_default() -> (r: PartialBundlingModuleBucketsConfig)
        ensures
            r.weight == 0,
            r.max_size == 0,
    {
        PartialBundlingModuleBucketsConfig { name: String::new(), weight: 0, max_size: 0 }
    }
}

/// The size recorded for module type `ty`: the first matching entry's
/// accumulator, zero when no entry matches.
pub open spec fn type_size(s: Seq<(ModuleType, u64)>, ty: &ModuleType) -> u64
    decreases s.len(),
{
    if s.len() == 0 {
        0u64
    } else if module_type_matches(&s[0].0, ty) {
        s[0].1
    } else {
        type_size(s.drop_first(), ty)
    }
}

/// When entry `i` is the first entry matching `ty`, it is the one
/// `type_size` reads.
pub proof fn lemma_type_size_at(s: Seq<(ModuleType, u64)>, i: int, ty: &ModuleType)
    requires
        0 <= i < s.len(),
        forall|j: int| 0 <= j < i ==> !module_type_matches(&(#[trigger] s[j]).0, ty),
        module_type_matches(&s[i].0, ty),
    ensures
        type_size(s, ty) == s[i].1,
    decreases i,
{
    if i > 0 {
        assert(s.drop_first()[i - 1] == s[i]);
        assert forall|j: int| 0 <= j < i - 1 implies !module_type_matches(
            &(#[trigger] s.drop_first()[j]).0,
            ty,
        ) by {
            assert(s.drop_first()[j] == s[j + 1]);
        }
        lemma_type_size_at(s.drop_first(), i - 1, ty);
    }
}

/// When no entry matches `ty`, nothing is recorded for it.
pub proof fn lemma_type_size_absent(s: Seq<(ModuleType, u64)>, ty: &ModuleType)
    requires
        forall|j: int| 0 <= j < s.len() ==> !module_type_matches(&(#[trigger] s[j]).0, ty),
    ensures
        type_size(s, ty) == 0,
    decreases s.len(),
{
    if s.len() > 0 {
        assert forall|j: int| 0 <= j < s.len() - 1 implies !module_type_matches(
            &(#[trigger] s.drop_first()[j]).0,
            ty,
        ) by {
            assert(s.drop_first()[j] == s[j + 1]);
        }
        lemma_type_size_absent(s.drop_first(), ty);
    }
}

/// Updating one entry in place with an entry of the same type leaves the
/// recorded size of every other type unchanged.
pub proof fn lemma_type_size_update_same_type(
    s: Seq<(ModuleType, u64)>,
    i: int,
    e: (ModuleType, u64),
    ty: &ModuleType,
)
    requires
        0 <= i < s.len(),
        module_type_matches(&e.0, &s[i].0),
        !module_type_matches(&s[i].0, ty),
    ensures
        type_size(s.update(i, e), ty) == type_size(s, ty),
    decreases s.len(),
{
    let u = s.update(i, e);
    if i == 0 {
        assert(!module_type_matches(&u[0].0, ty));
        assert(u.drop_first() =~= s.drop_first());
    } else {
        if !module_type_matches(&s[0].0, ty) {
            assert(u.drop_first() =~= s.drop_first().update(i - 1, e));
            lemma_type_size_update_same_type(s.drop_first(), i - 1, e, ty);
        } else {
            assert(u[0] == s[0]);
        }
    }
}

/// Appending an entry for a type that is not `ty` leaves the recorded size
/// of `ty` unchanged.
pub proof fn lemma_type_size_push_other(s: Seq<(ModuleType, u64)>, e: (ModuleType, u64), ty: &ModuleType)
    requires
        !module_type_matches(&e.0, ty),
    ensures
        type_size(s.push(e), ty) == type_size(s, ty),
    decreases s.len(),
{
    let u = s.push(e);
    if s.len() == 0 {
        assert(u[0] == e);
        assert(!module_type_matches(&u[0].0, ty));
        assert(u.drop_first() =~= Seq::<(ModuleType, u64)>::empty());
        assert(type_size(u, ty) == type_size(u.drop_first(), ty));
    } else {
        assert(u[0] == s[0]);
        assert(u.drop_first() =~= s.drop_first().push(e));
        lemma_type_size_push_other(s.drop_first(), e, ty);
        if module_type_matches(&s[0].0, ty) {
            assert(type_size(u, ty) == u[0].1);
        } else {
            assert(type_size(u, ty) == type_size(s.drop_first().push(e), ty));
        }
    }
}

/// Saturating sum of the per-type size accumulators.
pub open spec fn sizes_total(s: Seq<(ModuleType, u64)>) -> u64
    decreases s.len(),
{
    if s.len() == 0 {
        0u64
    } else {
        sizes_total(s.drop_last()).saturating_add(s.last().1)
    }
}

/// The exact (unclamped) sum of the per-type size accumulators.
pub open spec fn sizes_exact(s: Seq<(ModuleType, u64)>) -> int
    decreases s.len(),
{
    if s.len() == 0 {
        0
    } else {
        sizes_exact(s.drop_last()) + s.last().1
    }
}

pub proof fn lemma_sizes_exact_bounds(s: Seq<(ModuleType, u64)>, i: int)
    requires
        0 <= i < s.len(),
    ensures
        sizes_exact(s) >= s[i].1,
        sizes_exact(s) >= 0,
    decreases s.len(),
{
    if s.len() > 0 {
        if i < s.len() - 1 {
            lemma_sizes_exact_bounds(s.drop_last(), i);
        } else if s.len() >= 2 {
            lemma_sizes_exact_bounds(s.drop_last(), 0);
        }
    }
}

/// The saturating total is the exact sum clamped at the type's maximum.
pub proof fn lemma_sizes_total_clamp(s: Seq<(ModuleType, u64)>)
    ensures
        sizes_total(s) as int == if sizes_exact(s) > u64::MAX {
            u64::MAX as int
        } else {
            sizes_exact(s)
        },
        sizes_exact(s) >= 0,
    decreases s.len(),
{
    if s.len() > 0 {
        lemma_sizes_total_clamp(s.drop_last());
    }
}

pub proof fn lemma_sizes_exact_update(s: Seq<(ModuleType, u64)>, i: int, e: (ModuleType, u64))
    requires
        0 <= i < s.len(),
    ensures
        sizes_exact(s.update(i, e)) == sizes_exact(s) - s[i].1 + e.1,
    decreases s.len(),
{
    let u = s.update(i, e);
    if i == s.len() - 1 {
        assert(u.drop_last() =~= s.drop_last());
    } else {
        assert(u.drop_last() =~= s.drop_last().update(i, e));
        assert(u.last() == s.last());
        lemma_sizes_exact_update(s.drop_last(), i, e);
    }
}

/// A collection of modules sharing one group-set, with per-type size
/// accumulators and the resource units the bucket has contributed to.
#[derive(Debug)]
pub struct ModuleBucket {
    pub id: ModuleBucketId,
    /// Module indices into the module graph.
    pub modules: Vec<usize>,
    pub config: PartialBundlingModuleBucketsConfig,
    /// Ids of the resource units this bucket contributed to.
    pub resource_units: Vec<String>,
    /// Per-module-type size accumulators.
    pub size: Vec<(ModuleType, u64)>,
}

impl ModuleBucket {
    /// A bucket over `modules` with empty accumulators.
    pub fn new(id: ModuleBucketId, modules: Vec<usize>, config: PartialBundlingModuleBucketsConfig) -> (r:
        ModuleBucket)
        ensures
            r.id == id,
            r.modules@ == modules@,
            r.config == config,
            r.resource_units@.len() == 0,
            r.size@.len() == 0,
    {
        ModuleBucket { id, modules, config, resource_units: Vec::new(), size: Vec::new() }
    }

    /// The modules collected so far.
    pub fn modules(&self) -> (r: &Vec<usize>)
        ensures
            r@ == self.modules@,
    {
        &self.modules
    }

    /// The resource units this bucket contributed to.
    pub fn resource_units(&self) -> (r: &Vec<String>)
        ensures
            r@ == self.resource_units@,
    {
        &self.resource_units
    }

    fn add_size(&mut self, module_type: &ModuleType, size: u64)
        ensures
            final(self).id == old(self).id,
            final(self).modules@ == old(self).modules@,
            final(self).config == old(self).config,
            final(self).resource_units@ == old(self).resource_units@,
            sizes_total(final(self).size@) == sizes_total(old(self).size@).saturating_add(size),
            type_size(final(self).size@, module_type) == type_size(
                old(self).size@,
                module_type,
            ).saturating_add(size),
            forall|ty2: ModuleType|
                !module_type_matches(&ty2, module_type) ==> type_size(final(self).size@, &ty2)
                    == type_size(old(self).size@, &ty2),
    {
        let ghost size0 = self.size@;
        let mut i: usize = 0;
        while i < self.size.len()
            invariant
                i <= self.size@.len(),
                self.id == old(self).id,
                self.modules@ == old(self).modules@,
                self.config == old(self).config,
                self.resource_units@ == old(self).resource_units@,
                self.size@ == size0,
                size0 == old(self).size@,
                forall|j: int|
                    0 <= j < i ==> !module_type_matches(&(#[trigger] self.size@[j]).0, module_type),
            decreases self.size@.len() - i,
        {
            if self.size[i].0.eq(module_type) {
                let cur = self.size[i].1;
                let ty = self.size[i].0.duplicate();
                self.size[i] = (ty, cur.saturating_add(size));
                proof {
                    assert(self.size@ =~= size0.update(i as int, self.size@[i as int]));
                    lemma_sizes_exact_update(size0, i as int, self.size@[i as int]);
                    lemma_sizes_exact_bounds(size0, i as int);
                    lemma_sizes_total_clamp(size0);
                    lemma_sizes_total_clamp(self.size@);
                    lemma_type_size_at(size0, i as int, module_type);
                    lemma_type_size_at(self.size@, i as int, module_type);
                    assert forall|ty2: ModuleType|
                        !module_type_matches(&ty2, module_type) implies type_size(
                        self.size@,
                        &ty2,
                    ) == type_size(size0, &ty2) by {
                        assert(!module_type_matches(&size0[i as int].0, &ty2));
                        lemma_type_size_update_same_type(
                            size0,
                            i as int,
                            self.size@[i as int],
                            &ty2,
                        );
                    }
                }
                return ;
            }
            i = i + 1;
        }
        self.size.push((module_type.duplicate(), size));
        proof {
            assert(self.size@.drop_last() =~= size0);
            assert(self.size@ =~= size0.push(self.size@.last()));
            lemma_type_size_absent(size0, module_type);
            lemma_type_size_at(self.size@, size0.len() as int, module_type);
            assert forall|ty2: ModuleType| !module_type_matches(&ty2, module_type) implies type_size(
                self.size@,
                &ty2,
            ) == type_size(size0, &ty2) by {
                assert(!module_type_matches(&self.size@.last().0, &ty2));
                lemma_type_size_push_other(size0, self.size@.last(), &ty2);
            }
        }
    }

    fn sub_size(&mut self, module_type: &ModuleType, size: u64)
        ensures
            final(self).id == old(self).id,
            final(self).modules@ == old(self).modules@,
            final(self).config == old(self).config,
            final(self).resource_units@ == old(self).resource_units@,
            type_size(final(self).size@, module_type) == type_size(
                old(self).size@,
                module_type,
            ).saturating_sub(size),
            forall|ty2: ModuleType|
                !module_type_matches(&ty2, module_type) ==> type_size(final(self).size@, &ty2)
                    == type_size(old(self).size@, &ty2),
    {
        let ghost size0 = self.size@;
        let mut i: usize = 0;
        while i < self.size.len()
            invariant
                i <= self.size@.len(),
                self.id == old(self).id,
                self.modules@ == old(self).modules@,
                self.config == old(self).config,
                self.resource_units@ == old(self).resource_units@,
                self.size@ == size0,
                size0 == old(self).size@,
                forall|j: int|
                    0 <= j < i ==> !module_type_matches(&(#[trigger] self.size@[j]).0, module_type),
            decreases self.size@.len() - i,
        {
            if self.size[i].0.eq(module_type) {
                let cur = self.size[i].1;
                let ty = self.size[i].0.duplicate();
                self.size[i] = (ty, cur.saturating_sub(size));
                proof {
                    assert(self.size@ =~= size0.update(i as int, self.size@[i as int]));
                    lemma_type_size_at(size0, i as int, module_type);
                    lemma_type_size_at(self.size@, i as int, module_type);
                    assert forall|ty2: ModuleType|
                        !module_type_matches(&ty2, module_type) implies type_size(
                        self.size@,
                        &ty2,
                    ) == type_size(size0, &ty2) by {
                        assert(!module_type_matches(&size0[i as int].0, &ty2));
                        lemma_type_size_update_same_type(
                            size0,
                            i as int,
                            self.size@[i as int],
                            &ty2,
                        );
                    }
                }
                return ;
            }
            i = i + 1;
        }
        proof {
            lemma_type_size_absent(self.size@, module_type);
        }
    }

    /// The saturating total of all per-type sizes.
    pub fn total_size(&self) -> (r: u64)
        ensures
            r == sizes_total(self.size@),
    {
        let mut acc: u64 = 0;
        let mut i: usize = 0;
        while i < self.size.len()
            invariant
                i <= self.size@.len(),
                acc == sizes_total(self.size@.take(i as int)),
            decreases self.size@.len() - i,
        {
            acc = acc.saturating_add(self.size[i].1);
            proof {
                assert(self.size@.take(i + 1).drop_last() =~= self.size@.take(i as int));
            }
            i = i + 1;
        }
        proof {
            assert(self.size@.take(self.size@.len() as int) =~= self.size@);
        }
        acc
    }

    /// Adds a module and accounts its size under its type: the type's
    /// accumulator and the total both grow by the size, saturating, and
    /// the accumulators of other types are unchanged.
    pub fn add_module(&mut self, module_index: usize, module_type: &ModuleType, size: u64)
        ensures
            final(self).modules@ == old(self).modules@.push(module_index),
            final(self).id == old(self).id,
            final(self).config == old(self).config,
            final(self).resource_units@ == old(self).resource_units@,
            sizes_total(final(self).size@) == sizes_total(old(self).size@).saturating_add(size),
            type_size(final(self).size@, module_type) == type_size(
                old(self).size@,
                module_type,
            ).saturating_add(size),
            forall|ty2: ModuleType|
                !module_type_matches(&ty2, module_type) ==> type_size(final(self).size@, &ty2)
                    == type_size(old(self).size@, &ty2),
    {
        self.modules.push(module_index);
        self.add_size(module_type, size);
    }

    /// Replaces the module set.
    pub fn replace_modules(&mut self, modules: Vec<usize>)
        ensures
            final(self).modules@ == modules@,
            final(self).id == old(self).id,
            final(self).config == old(self).config,
            final(self).resource_units@ == old(self).resource_units@,
            final(self).size@ == old(self).size@,
    {
        self.modules = modules;
    }

    /// Takes the module set out, leaving the bucket empty.
    pub fn take_modules(&mut self) -> (r: Vec<usize>)
        ensures
            r@ == old(self).modules@,
            final(self).modules@.len() == 0,
            final(self).id == old(self).id,
            final(self).config == old(self).config,
            final(self).resource_units@ == old(self).resource_units@,
            final(self).size@ == old(self).size@,
    {
        let mut taken: Vec<usize> = Vec::new();
        core::mem::swap(&mut self.modules, &mut taken);
        taken
    }

    /// Records that this bucket contributed to a resource unit.
    pub fn add_resource_pot(&mut self, resource_pot_id: String)
        ensures
            final(self).resource_units@ == old(self).resource_units@.push(resource_pot_id),
            final(self).modules@ == old(self).modules@,
            final(self).id == old(self).id,
            final(self).config == old(self).config,
            final(self).size@ == old(self).size@,
    {
        self.resource_units.push(resource_pot_id);
    }

    /// Removes a module (by index) and discounts its size: the type's
    /// accumulator shrinks by the size, saturating, and the accumulators
    /// of other types are unchanged.  Returns whether the module was
    /// present; the size is discounted either way, so callers pass the
    /// size they actually accounted.
    pub fn remove_module(&mut self, module_index: usize, module_type: &ModuleType, size: u64) -> (r: bool)
        ensures
            final(self).id == old(self).id,
            final(self).config == old(self).config,
            final(self).resource_units@ == old(self).resource_units@,
            type_size(final(self).size@, module_type) == type_size(
                old(self).size@,
                module_type,
            ).saturating_sub(size),
            forall|ty2: ModuleType|
                !module_type_matches(&ty2, module_type) ==> type_size(final(self).size@, &ty2)
                    == type_size(old(self).size@, &ty2),
            r == old(self).modules@.contains(module_index),
            // the first occurrence of the module leaves the set; absent
            // modules leave it unchanged
            r ==> exists|t: int|
                0 <= t < old(self).modules@.len() && old(self).modules@[t] == module_index
                    && (forall|j: int| 0 <= j < t ==> old(self).modules@[j] != module_index)
                    && final(self).modules@ == old(self).modules@.remove(t),
            !r ==> final(self).modules@ == old(self).modules@,
    {
        self.sub_size(module_type, size);
        let ghost orig_modules = self.modules@;
        let ghost size_after = self.size@;
        proof {
            assert(orig_modules == old(self).modules@);
        }
        let mut i: usize = 0;
        let mut found: Option<usize> = None;
        while i < self.modules.len()
            invariant
                i <= self.modules@.len(),
                self.id == old(self).id,
                self.config == old(self).config,
                self.resource_units@ == old(self).resource_units@,
                self.modules@ == orig_modules,
                self.size@ == size_after,
                type_size(size_after, module_type) == type_size(
                    old(self).size@,
                    module_type,
                ).saturating_sub(size),
                forall|ty2: ModuleType|
                    !module_type_matches(&ty2, module_type) ==> type_size(size_after, &ty2)
                        == type_size(old(self).size@, &ty2),
                match found {
                    Some(t) => t < orig_modules.len() && orig_modules[t as int] == module_index
                        && (forall|j: int| 0 <= j < t ==> orig_modules[j] != module_index),
                    None => forall|j: int| 0 <= j < i ==> orig_modules[j] != module_index,
                },
            decreases self.modules@.len() - i,
        {
            if found.is_none() && self.modules[i] == module_index {
                found = Some(i);
                proof {
                    assert(self.modules@[i as int] == module_index);
                }
            }
            i = i + 1;
        }
        match found {
            Some(t) => {
                proof {
                    assert(orig_modules[t as int] == module_index);
                    assert(orig_modules.contains(module_index));
                }
                self.modules.remove(t);
                proof {
                    assert(0 <= t < orig_modules.len() && orig_modules[t as int] == module_index
                        && (forall|j: int| 0 <= j < t ==> orig_modules[j] != module_index)
                        && self.modules@ == orig_modules.remove(t as int));
                }
                true
            },
            None => {
                proof {
                    assert(forall|j: int| 0 <= j < orig_modules.len() ==> orig_modules[j] != module_index);
                }
                false
            },
        }
    }
}

/// `a` strictly precedes `b` in the processing order: greater weight first,
/// then greater size-times-units product, then greater unit count.
pub open spec fn bucket_better(a: &ModuleBucket, b: &ModuleBucket) -> bool {
    let pa = sizes_total(a.size@) as int * a.resource_units@.len() as int;
    let pb = sizes_total(b.size@) as int * b.resource_units@.len() as int;
    ||| a.config.weight > b.config.weight
    ||| (a.config.weight == b.config.weight && pa > pb)
    ||| (a.config.weight == b.config.weight && pa == pb && a.resource_units@.len()
        > b.resource_units@.len())
}

/// The processing keys of `a` and `b` are fully tied: equal weight, equal
/// size-times-units product, equal unit count.
pub open spec fn bucket_tied(a: &ModuleBucket, b: &ModuleBucket) -> bool {
    &&& a.config.weight == b.config.weight
    &&& sizes_total(a.size@) as int * a.resource_units@.len() as int == sizes_total(b.size@) as int
        * b.resource_units@.len() as int
    &&& a.resource_units@.len() == b.resource_units@.len()
}

/// `a` is processed before `b`: greater key first, and a full tie is
/// broken by the lesser bucket id.
pub open spec fn bucket_precedes(a: &ModuleBucket, b: &ModuleBucket) -> bool {
    bucket_better(a, b) || (bucket_tied(a, b) && crate::paths::str_lt_view(a.id.id@, b.id.id@))
}

/// Picks the bucket to process next among `pending` (indices into
/// `buckets`): a pending bucket that no other pending bucket precedes
/// under the processing order, full ties broken by bucket id.
pub fn find_best_process_bucket(buckets: &Vec<ModuleBucket>, pending: &Vec<usize>) -> (r: usize)
    requires
        pending@.len() > 0,
        forall|j: int| 0 <= j < pending@.len() ==> (#[trigger] pending@[j]) < buckets@.len(),
    ensures
        exists|t: int| 0 <= t < pending@.len() && pending@[t] == r,
        forall|j: int|
            0 <= j < pending@.len() ==> !bucket_precedes(
                &buckets@[(#[trigger] pending@[j]) as int],
                &buckets@[r as int],
            ),
{
    let mut best: usize = pending[0];
    let mut best_weight: u64 = buckets[best].config.weight;
    let best_total0 = buckets[best].total_size();
    let best_units0 = buckets[best].resource_units.len();
    proof {
        assert((best_total0 as u128) * (best_units0 as u128) <= u128::MAX) by (nonlinear_arith)
            requires
                (best_total0 as u128) < 0x10000000000000000u128,
                (best_units0 as u128) < 0x10000000000000000u128,
        ;
    }
    let mut best_product: u128 = (best_total0 as u128) * (best_units0 as u128);
    let mut best_units: usize = best_units0;
    proof {
        crate::paths::lemma_str_lt_irrefl(buckets@[best as int].id.id@);
        assert(pending@[0] == best);
    }
    let mut j: usize = 1;
    while j < pending.len()
        invariant
            1 <= j <= pending@.len(),
            forall|t: int| 0 <= t < pending@.len() ==> (#[trigger] pending@[t]) < buckets@.len(),
            exists|t: int| 0 <= t < pending@.len() && pending@[t] == best,
            best < buckets@.len(),
            best_weight == buckets@[best as int].config.weight,
            best_product == sizes_total(buckets@[best as int].size@) as int * buckets@[best as int].resource_units@.len() as int,
            best_units == buckets@[best as int].resource_units@.len(),
            forall|t: int|
                0 <= t < j ==> !bucket_precedes(
                    &buckets@[(#[trigger] pending@[t]) as int],
                    &buckets@[best as int],
                ),
        decreases pending@.len() - j,
    {
        let cand = pending[j];
        let cand_weight = buckets[cand].config.weight;
        let cand_total = buckets[cand].total_size();
        let cand_units = buckets[cand].resource_units.len();
        proof {
            assert((cand_total as u128) * (cand_units as u128) <= u128::MAX) by (nonlinear_arith)
                requires
                    (cand_total as u128) < 0x10000000000000000u128,
                    (cand_units as u128) < 0x10000000000000000u128,
            ;
        }
        let cand_product: u128 = (cand_total as u128) * (cand_units as u128);
        let replace = if cand_weight != best_weight {
            cand_weight > best_weight
        } else if cand_product != best_product {
            cand_product > best_product
        } else if cand_units != best_units {
            cand_units > best_units
        } else {
            crate::paths::str_lt(buckets[cand].id.id.as_str(), buckets[best].id.id.as_str())
        };
        if replace {
            let ghost old_best = best;
            best = cand;
            proof {
                assert(bucket_precedes(&buckets@[best as int], &buckets@[old_best as int]));
                assert forall|t: int| 0 <= t < j + 1 implies !bucket_precedes(
                    &buckets@[(#[trigger] pending@[t]) as int],
                    &buckets@[best as int],
                ) by {
                    if t < j {
                        let pt = &buckets@[pending@[t] as int];
                        let nb = &buckets@[best as int];
                        let ob = &buckets@[old_best as int];
                        if bucket_precedes(pt, nb) {
                            if bucket_tied(pt, nb) && bucket_tied(nb, ob) {
                                crate::paths::lemma_str_lt_trans(pt.id.id@, nb.id.id@, ob.id.id@);
                            }
                            assert(bucket_precedes(pt, ob));
                        }
                    } else {
                        assert(pending@[t] == best);
                        crate::paths::lemma_str_lt_irrefl(buckets@[best as int].id.id@);
                    }
                }
                assert(pending@[j as int] == best);
            }
            best_weight = cand_weight;
            best_product = cand_product;
            best_units = cand_units;
        } else {
            proof {
                assert(!bucket_precedes(&buckets@[cand as int], &buckets@[best as int]));
            }
        }
        j = j + 1;
    }
    best
}

} // verus!
