//! The partial-bundling engine.
//!
//! Modules are first gathered into buckets keyed by their group-set and
//! module type, buckets are processed best-first, and each bucket is cut
//! into resource pots bounded by the configured size cap, with modules in
//! dependency order.  The accounting proved here is the partitioning
//! coverage law: every eligible module (non-external and in at least one
//! group) lands in exactly one resource pot.

use vstd::prelude::*;
use crate::module_bucket::{find_best_process_bucket, ModuleBucket, ModuleBucketId, PartialBundlingModuleBucketsConfig};
use crate::module::{id_matches, module_type_matches, ModuleId, ResolveKind};
use crate::module_graph::{ModuleEdge, ModuleGraph};
use crate::module_group::ModuleGroupGraph;
use crate::resource_pot::{generate_resource_pot_name, pot_type_of, ResourcePot};

verus! {

/// Occurrences of `x` in a sequence of module indices.
pub open spec fn count_occ(s: Seq<usize>, x: usize) -> nat
    decreases s.len(),
{
    if s.len() == 0 {
        0
    } else {
        count_occ(s.drop_last(), x) + (if s.last() == x {
            1nat
        } else {
            0nat
        })
    }
}

/// Occurrences of `x` across all buckets.
pub open spec fn buckets_occ(bs: Seq<ModuleBucket>, x: usize) -> nat
    decreases bs.len(),
{
    if bs.len() == 0 {
        0
    } else {
        buckets_occ(bs.drop_last(), x) + count_occ(bs.last().modules@, x)
    }
}

/// Occurrences of `x` across the buckets selected by `sel` (indices into
/// `bs`; out-of-range selections count nothing).
pub open spec fn buckets_occ_sel(bs: Seq<ModuleBucket>, sel: Seq<usize>, x: usize) -> nat
    decreases sel.len(),
{
    if sel.len() == 0 {
        0
    } else {
        buckets_occ_sel(bs, sel.drop_last(), x) + (if sel.last() < bs.len() {
            count_occ(bs[sel.last() as int].modules@, x)
        } else {
            0nat
        })
    }
}

/// Occurrences of `x` across all resource pots.
pub open spec fn pots_occ(ps: Seq<ResourcePot>, x: usize) -> nat
    decreases ps.len(),
{
    if ps.len() == 0 {
        0
    } else {
        pots_occ(ps.drop_last(), x) + count_occ(ps.last().modules@, x)
    }
}

pub proof fn lemma_count_occ_push(s: Seq<usize>, y: usize, x: usize)
    ensures
        count_occ(s.push(y), x) == count_occ(s, x) + (if y == x {
            1nat
        } else {
            0nat
        }),
{
    assert(s.push(y).drop_last() =~= s);
}

pub proof fn lemma_count_occ_zero(s: Seq<usize>, x: usize)
    requires
        forall|j: int| 0 <= j < s.len() ==> s[j] != x,
    ensures
        count_occ(s, x) == 0,
    decreases s.len(),
{
    if s.len() > 0 {
        lemma_count_occ_zero(s.drop_last(), x);
    }
}

pub proof fn lemma_count_occ_remove(s: Seq<usize>, t: int, x: usize)
    requires
        0 <= t < s.len(),
    ensures
        count_occ(s.remove(t), x) + (if s[t] == x {
            1nat
        } else {
            0nat
        }) == count_occ(s, x),
    decreases s.len(),
{
    if t == s.len() - 1 {
        assert(s.remove(t) =~= s.drop_last());
    } else {
        assert(s.remove(t).drop_last() =~= s.drop_last().remove(t));
        assert(s.remove(t).last() == s.last());
        lemma_count_occ_remove(s.drop_last(), t, x);
    }
}

pub proof fn lemma_buckets_occ_push(bs: Seq<ModuleBucket>, b: ModuleBucket, x: usize)
    ensures
        buckets_occ(bs.push(b), x) == buckets_occ(bs, x) + count_occ(b.modules@, x),
{
    assert(bs.push(b).drop_last() =~= bs);
}

pub proof fn lemma_buckets_occ_update(bs: Seq<ModuleBucket>, t: int, b: ModuleBucket, x: usize)
    requires
        0 <= t < bs.len(),
    ensures
        buckets_occ(bs.update(t, b), x) + count_occ(bs[t].modules@, x) == buckets_occ(bs, x)
            + count_occ(b.modules@, x),
    decreases bs.len(),
{
    let u = bs.update(t, b);
    if t == bs.len() - 1 {
        assert(u.drop_last() =~= bs.drop_last());
        assert(u.last() == b);
    } else {
        assert(u.drop_last() =~= bs.drop_last().update(t, b));
        assert(u.last() == bs.last());
        lemma_buckets_occ_update(bs.drop_last(), t, b, x);
    }
}

pub proof fn lemma_buckets_occ_zero(bs: Seq<ModuleBucket>, x: usize)
    requires
        forall|t: int| 0 <= t < bs.len() ==> count_occ((#[trigger] bs[t]).modules@, x) == 0,
    ensures
        buckets_occ(bs, x) == 0,
    decreases bs.len(),
{
    if bs.len() > 0 {
        lemma_buckets_occ_zero(bs.drop_last(), x);
    }
}

pub proof fn lemma_pots_occ_push(ps: Seq<ResourcePot>, p: ResourcePot, x: usize)
    ensures
        pots_occ(ps.push(p), x) == pots_occ(ps, x) + count_occ(p.modules@, x),
{
    assert(ps.push(p).drop_last() =~= ps);
}

/// Selecting every bucket index once counts every bucket once.
pub proof fn lemma_buckets_occ_sel_full(bs: Seq<ModuleBucket>, sel: Seq<usize>, x: usize)
    requires
        sel.len() == bs.len(),
        forall|j: int| 0 <= j < sel.len() ==> sel[j] == j,
    ensures
        buckets_occ_sel(bs, sel, x) == buckets_occ(bs, x),
    decreases sel.len(),
{
    if sel.len() > 0 {
        let bs0 = bs.drop_last();
        let sel0 = sel.drop_last();
        lemma_buckets_occ_sel_unaffected(bs0, sel0, bs, x);
        lemma_buckets_occ_sel_full(bs0, sel0, x);
    }
}

/// The selected count only reads the buckets that `sel` names, so any
/// extension of the bucket list leaves it unchanged.
pub proof fn lemma_buckets_occ_sel_unaffected(
    bs1: Seq<ModuleBucket>,
    sel: Seq<usize>,
    bs2: Seq<ModuleBucket>,
    x: usize,
)
    requires
        bs1.len() <= bs2.len(),
        forall|i: int| 0 <= i < bs1.len() ==> bs1[i] == bs2[i],
        forall|j: int| 0 <= j < sel.len() ==> (#[trigger] sel[j]) < bs1.len(),
    ensures
        buckets_occ_sel(bs1, sel, x) == buckets_occ_sel(bs2, sel, x),
    decreases sel.len(),
{
    if sel.len() > 0 {
        lemma_buckets_occ_sel_unaffected(bs1, sel.drop_last(), bs2, x);
    }
}

pub proof fn lemma_buckets_occ_sel_remove(bs: Seq<ModuleBucket>, sel: Seq<usize>, t: int, x: usize)
    requires
        0 <= t < sel.len(),
        forall|j: int| 0 <= j < sel.len() ==> (#[trigger] sel[j]) < bs.len(),
    ensures
        buckets_occ_sel(bs, sel.remove(t), x) + count_occ(bs[sel[t] as int].modules@, x)
            == buckets_occ_sel(bs, sel, x),
    decreases sel.len(),
{
    if t == sel.len() - 1 {
        assert(sel.remove(t) =~= sel.drop_last());
    } else {
        assert(sel.remove(t).drop_last() =~= sel.drop_last().remove(t));
        assert(sel.remove(t).last() == sel.last());
        lemma_buckets_occ_sel_remove(bs, sel.drop_last(), t, x);
    }
}

/// A static edge leads from `m` to a different module held in `s`.
pub open spec fn has_static_dep_in(edges: Seq<ModuleEdge>, m: usize, s: Seq<usize>) -> bool {
    exists|k: int|
        0 <= k < edges.len() && (#[trigger] edges[k]).from == m && !(edges[k].kind is DynamicImport)
            && edges[k].to != m && s.contains(edges[k].to)
}

/// An element occurs in a sequence exactly when its count is positive.
pub proof fn lemma_count_occ_contains(s: Seq<usize>, x: usize)
    ensures
        (count_occ(s, x) > 0) == s.contains(x),
    decreases s.len(),
{
    if s.len() > 0 {
        lemma_count_occ_contains(s.drop_last(), x);
        if s.last() == x {
            assert(s[s.len() - 1] == x);
            assert(s.contains(x));
        } else {
            if s.contains(x) {
                let i = s.lemma_contains_to_index(x);
                assert(s.drop_last()[i] == x);
                assert(s.drop_last().contains(x));
            }
            if s.drop_last().contains(x) {
                let i = choose|i: int| 0 <= i < s.drop_last().len() && s.drop_last()[i] == x;
                assert(s[i] == x);
            }
        }
    }
}

/// A static dependency inside `s1` is one inside any superset `s2`.
pub proof fn lemma_dep_in_superset(edges: Seq<ModuleEdge>, m: usize, s1: Seq<usize>, s2: Seq<usize>)
    requires
        has_static_dep_in(edges, m, s1),
        forall|y: usize| s1.contains(y) ==> s2.contains(y),
    ensures
        has_static_dep_in(edges, m, s2),
{
    let k = choose|k: int|
        0 <= k < edges.len() && (#[trigger] edges[k]).from == m && !(edges[k].kind is DynamicImport)
            && edges[k].to != m && s1.contains(edges[k].to);
    assert(s2.contains(edges[k].to));
}

/// `r[t]` has no unplaced static dependency: no static edge from it into
/// the rest of the sequence after position `t`.
pub open spec fn placed_in_dependency_order_at(edges: Seq<ModuleEdge>, r: Seq<usize>, t: int) -> bool {
    !has_static_dep_in(edges, r[t], r.skip(t + 1))
}

/// From position `t` on, every module keeps a static dependency inside
/// `whole`: a dependency cycle covers the tail.
pub open spec fn tail_blocked(edges: Seq<ModuleEdge>, r: Seq<usize>, whole: Seq<usize>, t: int) -> bool {
    forall|u: int| t <= u < r.len() ==> has_static_dep_in(edges, #[trigger] r[u], whole)
}

/// The two states a placed prefix position can be in while the ordering
/// runs: its module has no static dependency among the later-placed or
/// still-pending ones, or everything from it on is part of a dependency
/// cycle over the input.
pub open spec fn ordering_inv(
    edges: Seq<ModuleEdge>,
    out: Seq<usize>,
    remaining: Seq<usize>,
    whole: Seq<usize>,
    t: int,
) -> bool {
    ||| (!has_static_dep_in(edges, out[t], out.skip(t + 1)) && !has_static_dep_in(
        edges,
        out[t],
        remaining,
    ))
    ||| (tail_blocked(edges, out, whole, t) && (forall|w: int|
        0 <= w < remaining.len() ==> has_static_dep_in(edges, #[trigger] remaining[w], whole)))
}

/// A module is eligible for bundling when it is not external and belongs
/// to at least one module group.
pub open spec fn eligible(graph: &ModuleGraph, groups: &ModuleGroupGraph, m: int) -> bool {
    &&& !graph.modules@[m].external
    &&& exists|g: int| 0 <= g < groups.membership@.len() && groups.in_group(g, m)
}

/// The modules of `ms` agree, pairwise, on group membership and module
/// type: the bucketing key.
pub open spec fn same_bucket_key(graph: &ModuleGraph, groups: &ModuleGroupGraph, ms: Seq<usize>) -> bool {
    &&& forall|j1: int, j2: int, g: int|
        #![trigger groups.in_group(g, ms[j1] as int), groups.in_group(g, ms[j2] as int)]
        0 <= j1 < ms.len() && 0 <= j2 < ms.len() && 0 <= g < groups.membership@.len()
            ==> groups.in_group(g, ms[j1] as int) == groups.in_group(g, ms[j2] as int)
    &&& forall|j1: int, j2: int|
        0 <= j1 < ms.len() && 0 <= j2 < ms.len() ==> module_type_matches(
            &graph.modules@[(#[trigger] ms[j1]) as int].module_type,
            &graph.modules@[(#[trigger] ms[j2]) as int].module_type,
        )
}

/// The representative id a bucket's resource-pot name derives from: the
/// root module of the bucket's group when the group-set is a single group,
/// otherwise the bucket's first module.
pub open spec fn bucket_rep_law(
    graph: &ModuleGraph,
    groups: &ModuleGroupGraph,
    ms: Seq<usize>,
    rep: ModuleId,
) -> bool {
    &&& ms.len() > 0
    &&& forall|g: int, g2: int|
        0 <= g < groups.membership@.len() && 0 <= g2 < groups.membership@.len() && g != g2
            && #[trigger] groups.in_group(g, ms[0] as int) && #[trigger] groups.in_group(
            g2,
            ms[0] as int,
        ) ==> id_matches(&rep, &graph.modules@[ms[0] as int].id)
    &&& forall|g: int|
        0 <= g < groups.membership@.len() && #[trigger] groups.in_group(g, ms[0] as int) && (forall|
            g2: int,
        |
            0 <= g2 < groups.membership@.len() && #[trigger] groups.in_group(g2, ms[0] as int)
                ==> g2 == g) ==> id_matches(&rep, &graph.modules@[groups.roots@[g] as int].id)
}

/// Two pot types carry the same classification (custom tags compared by
/// their characters).
pub open spec fn pot_type_matches(
    a: crate::resource_pot::ResourcePotType,
    b: crate::resource_pot::ResourcePotType,
) -> bool {
    match (a, b) {
        (
            crate::resource_pot::ResourcePotType::Custom(x),
            crate::resource_pot::ResourcePotType::Custom(y),
        ) => x@ == y@,
        (x, y) => x == y,
    }
}

/// Every module of pot `p` is a module of bucket `b`.
pub open spec fn pot_within_bucket(p: ResourcePot, b: ModuleBucket) -> bool {
    forall|j: int| 0 <= j < p.modules@.len() ==> b.modules@.contains(#[trigger] p.modules@[j])
}

/// The pot's classification derives from its first module's type.
pub open spec fn pot_typed_by_first(graph: &ModuleGraph, p: ResourcePot) -> bool {
    p.modules@.len() > 0 && pot_type_matches(
        p.resource_pot_type,
        crate::resource_pot::pot_type_of_spec(&graph.modules@[p.modules@[0] as int].module_type),
    )
}

/// `name` is a base resource-pot name derived from `rep`: the configured
/// entry name when `rep` is an entry of the graph, otherwise `rep`'s path
/// stem uniquified against some set of used names.
pub open spec fn is_base_name_of(graph: &ModuleGraph, rep: ModuleId, name: Seq<char>) -> bool {
    if exists|i: int|
        0 <= i < graph.entries@.len() && id_matches(&(#[trigger] graph.entries@[i]).id, &rep) {
        exists|i: int|
            0 <= i < graph.entries@.len() && id_matches(&(#[trigger] graph.entries@[i]).id, &rep)
                && name == graph.entries@[i].name@
    } else {
        exists|u: Seq<String>| name == crate::resource_pot::pot_name_view(rep.relative_path@, u)
    }
}

/// `id` is the base name `base` of `rep`, or that base with the decimal
/// ordinal `k` appended, as overflow pots past a bucket's size cap are
/// named.
pub open spec fn pot_name_matches(
    graph: &ModuleGraph,
    rep: ModuleId,
    id: Seq<char>,
    base: Seq<char>,
    k: u64,
) -> bool {
    is_base_name_of(graph, rep, base) && (id == base || id == base + "_"@
        + crate::hashing::dec_view(k))
}

/// The pot's id derives from `rep`: it is a base name of `rep`, or such a
/// base name with a decimal overflow ordinal appended, for pots past a
/// bucket's size cap.
pub open spec fn pot_named_from(graph: &ModuleGraph, p: ResourcePot, rep: ModuleId) -> bool {
    exists|base: Seq<char>, k: u64| #[trigger] pot_name_matches(graph, rep, p.id@, base, k)
}

/// The pot was cut from one of the buckets: its modules all come from one
/// bucket, its name derives from that bucket's representative id, and its
/// type from its first module.
pub open spec fn pot_from_buckets(
    graph: &ModuleGraph,
    p: ResourcePot,
    buckets: Seq<ModuleBucket>,
    reps: Seq<ModuleId>,
) -> bool {
    exists|b: int|
        0 <= b < buckets.len() && b < reps.len() && pot_within_bucket(p, #[trigger] buckets[b])
            && pot_named_from(graph, p, reps[b])
}

/// `rep` is the id the pot's name derives from: the root module of the
/// pot's group when the pot's modules lie in a single group, otherwise
/// some module sharing the pot's exact group-set.
pub open spec fn pot_rep_ok(
    graph: &ModuleGraph,
    groups: &ModuleGroupGraph,
    p: ResourcePot,
    rep: ModuleId,
) -> bool {
    ||| (exists|g: int|
        0 <= g < groups.membership@.len() && #[trigger] groups.in_group(g, p.modules@[0] as int) && (
        forall|g2: int|
            0 <= g2 < groups.membership@.len() && #[trigger] groups.in_group(g2, p.modules@[0] as int)
                ==> g2 == g) && id_matches(&rep, &graph.modules@[groups.roots@[g] as int].id))
    ||| (exists|m0: usize|
        (m0 as int) < graph.modules@.len() && id_matches(
            &rep,
            &graph.modules@[m0 as int].id,
        ) && (forall|g: int|
            0 <= g < groups.membership@.len() ==> (#[trigger] groups.in_group(g, m0 as int)
                <==> groups.in_group(g, p.modules@[0] as int))))
}

/// A generated resource pot, characterized on its own: nonempty, typed by
/// its first module, holding modules of one group-set and one type, and
/// named from the representative its group-set determines.
pub open spec fn pot_well_formed(graph: &ModuleGraph, groups: &ModuleGroupGraph, p: ResourcePot) -> bool {
    &&& p.modules@.len() > 0
    &&& pot_typed_by_first(graph, p)
    &&& same_bucket_key(graph, groups, p.modules@)
    &&& exists|rep: ModuleId| #[trigger] pot_named_from(graph, p, rep) && pot_rep_ok(graph, groups, p, rep)
}

/// A bucket's count of `x` is a lower bound of the count across all
/// buckets.
pub proof fn lemma_buckets_occ_at_least(bs: Seq<ModuleBucket>, t: int, x: usize)
    requires
        0 <= t < bs.len(),
    ensures
        buckets_occ(bs, x) >= count_occ(bs[t].modules@, x),
    decreases bs.len(),
{
    if t == bs.len() - 1 {
    } else {
        lemma_buckets_occ_at_least(bs.drop_last(), t, x);
    }
}

/// Every pot cut from buckets that obey the bucketing key, the
/// representative law and the eligibility accounting is well formed on
/// its own terms.
pub proof fn lemma_pots_well_formed(
    graph: &ModuleGraph,
    groups: &ModuleGroupGraph,
    buckets: Seq<ModuleBucket>,
    reps: Seq<ModuleId>,
    pots: Seq<ResourcePot>,
)
    requires
        reps.len() == buckets.len(),
        forall|t: int, j: int|
            0 <= t < buckets.len() && 0 <= j < (#[trigger] buckets[t]).modules@.len()
                ==> (#[trigger] buckets[t].modules@[j]) < graph.modules@.len(),
        forall|t: int|
            0 <= t < buckets.len() ==> same_bucket_key(graph, groups, (#[trigger] buckets[t]).modules@),
        forall|t: int|
            0 <= t < buckets.len() ==> bucket_rep_law(
                graph,
                groups,
                (#[trigger] buckets[t]).modules@,
                reps[t],
            ),
        forall|x: usize|
            (x as int) < graph.modules@.len() ==> buckets_occ(buckets, x) == (if eligible(
                graph,
                groups,
                x as int,
            ) {
                1nat
            } else {
                0nat
            }),
        forall|t: int|
            0 <= t < pots.len() ==> (#[trigger] pots[t]).modules@.len() > 0 && pot_typed_by_first(
                graph,
                pots[t],
            ) && pot_from_buckets(graph, pots[t], buckets, reps),
    ensures
        forall|t: int| 0 <= t < pots.len() ==> pot_well_formed(graph, groups, #[trigger] pots[t]),
{
    assert forall|t: int| 0 <= t < pots.len() implies pot_well_formed(graph, groups, #[trigger] pots[t]) by {
        let p = pots[t];
        let b = choose|b: int|
            0 <= b < buckets.len() && b < reps.len() && pot_within_bucket(p, #[trigger] buckets[b])
                && pot_named_from(graph, p, reps[b]);
        let bm = buckets[b].modules@;
        // the pot's first module sits in the bucket, and shares its key
        // with the bucket's first module
        assert(bm.contains(p.modules@[0]));
        let i0 = choose|i: int| 0 <= i < bm.len() && bm[i] == p.modules@[0];
        // the pot's modules agree pairwise on membership and type through
        // the bucket
        assert forall|j1: int, j2: int, g: int|
            #![trigger groups.in_group(g, p.modules@[j1] as int), groups.in_group(g, p.modules@[j2] as int)]
            0 <= j1 < p.modules@.len() && 0 <= j2 < p.modules@.len() && 0 <= g
                < groups.membership@.len() implies groups.in_group(g, p.modules@[j1] as int)
            == groups.in_group(g, p.modules@[j2] as int) by {
            assert(bm.contains(p.modules@[j1]) && bm.contains(p.modules@[j2]));
            let i1 = choose|i: int| 0 <= i < bm.len() && bm[i] == p.modules@[j1];
            let i2 = choose|i: int| 0 <= i < bm.len() && bm[i] == p.modules@[j2];
            assert(groups.in_group(g, bm[i1] as int) == groups.in_group(g, bm[i2] as int));
        }
        assert forall|j1: int, j2: int|
            0 <= j1 < p.modules@.len() && 0 <= j2 < p.modules@.len() implies module_type_matches(
            &graph.modules@[(p.modules@[j1]) as int].module_type,
            &graph.modules@[(p.modules@[j2]) as int].module_type,
        ) by {
            assert(bm.contains(p.modules@[j1]) && bm.contains(p.modules@[j2]));
            let i1 = choose|i: int| 0 <= i < bm.len() && bm[i] == p.modules@[j1];
            let i2 = choose|i: int| 0 <= i < bm.len() && bm[i] == p.modules@[j2];
            assert(module_type_matches(
                &graph.modules@[bm[i1] as int].module_type,
                &graph.modules@[bm[i2] as int].module_type,
            ));
        }
        // the bucket's first module is eligible, so it has a group
        let m0b = bm[0];
        assert(bm.contains(m0b));
        lemma_count_occ_contains(bm, m0b);
        lemma_buckets_occ_at_least(buckets, b, m0b);
        assert(eligible(graph, groups, m0b as int));
        // the representative matches the pot's group-set
        if exists|g: int, g2: int|
            #![trigger groups.in_group(g, m0b as int), groups.in_group(g2, m0b as int)]
            0 <= g < groups.membership@.len() && 0 <= g2 < groups.membership@.len() && g != g2
                && groups.in_group(g, m0b as int) && groups.in_group(g2, m0b as int) {
            // several groups: the representative is the bucket's first
            // module, which shares the pot's group-set
            assert(id_matches(&reps[b], &graph.modules@[m0b as int].id));
            assert forall|g: int|
                0 <= g < groups.membership@.len() implies (#[trigger] groups.in_group(g, m0b as int)
                <==> groups.in_group(g, p.modules@[0] as int)) by {
                assert(groups.in_group(g, bm[0] as int) == groups.in_group(g, bm[i0] as int));
            }
            assert(pot_rep_ok(graph, groups, p, reps[b]));
        } else {
            // a single group: its root names the pot
            let g = choose|g: int|
                0 <= g < groups.membership@.len() && #[trigger] groups.in_group(g, m0b as int);
            assert forall|g2: int|
                0 <= g2 < groups.membership@.len() && #[trigger] groups.in_group(g2, m0b as int)
                implies g2 == g by {}
            assert(id_matches(&reps[b], &graph.modules@[groups.roots@[g] as int].id));
            assert(groups.in_group(g, bm[0] as int) == groups.in_group(g, bm[i0] as int));
            assert(groups.in_group(g, p.modules@[0] as int));
            assert forall|g2: int|
                0 <= g2 < groups.membership@.len() && #[trigger] groups.in_group(
                    g2,
                    p.modules@[0] as int,
                ) implies g2 == g by {
                assert(groups.in_group(g2, bm[i0] as int) == groups.in_group(g2, bm[0] as int));
            }
            assert(pot_rep_ok(graph, groups, p, reps[b]));
        }
    }
}

/// Copies a vector of indices.
pub fn clone_indices(v: &Vec<usize>) -> (r: Vec<usize>)
    ensures
        r@ == v@,
{
    let mut out: Vec<usize> = Vec::new();
    let mut i: usize = 0;
    while i < v.len()
        invariant
            i <= v@.len(),
            out@ == v@.take(i as int),
        decreases v@.len() - i,
    {
        out.push(v[i]);
        proof {
            assert(v@.take(i + 1) =~= v@.take(i as int).push(v@[i as int]));
        }
        i = i + 1;
    }
    proof {
        assert(v@.take(v@.len() as int) =~= v@);
    }
    out
}

/// Compares two boolean vectors for equality.
pub fn vec_bool_eq(a: &Vec<bool>, b: &Vec<bool>) -> (r: bool)
    ensures
        r == (a@ == b@),
{
    if a.len() != b.len() {
        return false;
    }
    let mut i: usize = 0;
    while i < a.len()
        invariant
            i <= a@.len(),
            a@.len() == b@.len(),
            forall|j: int| 0 <= j < i ==> a@[j] == b@[j],
        decreases a@.len() - i,
    {
        if a[i] != b[i] {
            return false;
        }
        i = i + 1;
    }
    proof {
        assert(a@ =~= b@);
    }
    true
}

/// Gathers the eligible modules of `graph` into buckets keyed by group-set
/// and module type.  Returns the buckets and, for each bucket, the module
/// id its resource-pot name derives from: the group root when the bucket's
/// group-set is a single group, otherwise the bucket's first module.
///
/// Partition accounting: every eligible module is counted exactly once
/// across all buckets, every other module not at all.
pub fn generate_module_buckets(
    graph: &ModuleGraph,
    groups: &ModuleGroupGraph,
    rules: &Vec<PartialBundlingModuleBucketsConfig>,
) -> (r: (
    Vec<ModuleBucket>,
    Vec<ModuleId>,
))
    requires
        graph.wf(),
        groups.wf(graph.modules@.len() as int),
    ensures
        r.0@.len() == r.1@.len(),
        forall|x: usize|
            (x as int) < graph.modules@.len() ==> buckets_occ(r.0@, x) == (if eligible(
                graph,
                groups,
                x as int,
            ) {
                1nat
            } else {
                0nat
            }),
        forall|t: int, j: int|
            0 <= t < r.0@.len() && 0 <= j < (#[trigger] r.0@[t]).modules@.len()
                ==> (#[trigger] r.0@[t].modules@[j]) < graph.modules@.len(),
        graph.modules@.len() == 0 ==> r.0@.len() == 0,
        // the bucketing key: the modules of one bucket agree on group
        // membership and module type
        forall|t: int|
            0 <= t < r.0@.len() ==> same_bucket_key(graph, groups, (#[trigger] r.0@[t]).modules@),
        // the representative id each bucket's pot name derives from
        forall|t: int|
            0 <= t < r.0@.len() ==> bucket_rep_law(
                graph,
                groups,
                (#[trigger] r.0@[t]).modules@,
                r.1@[t],
            ),
{
    let n = graph.modules.len();
    let g_count = groups.membership.len();
    let mut buckets: Vec<ModuleBucket> = Vec::new();
    let mut keys: Vec<Vec<bool>> = Vec::new();
    let mut types: Vec<crate::module::ModuleType> = Vec::new();
    let mut reps: Vec<ModuleId> = Vec::new();
    let mut m: usize = 0;
    while m < n
        invariant
            m <= n,
            graph.wf(),
            groups.wf(n as int),
            n == graph.modules@.len(),
            g_count == groups.membership@.len(),
            buckets@.len() == keys@.len(),
            buckets@.len() == types@.len(),
            buckets@.len() == reps@.len(),
            n == 0 ==> buckets@.len() == 0,
            forall|t: int, j: int|
                0 <= t < buckets@.len() && 0 <= j < (#[trigger] buckets@[t]).modules@.len()
                    ==> (#[trigger] buckets@[t].modules@[j]) < m,
            forall|x: usize|
                (x as int) < m ==> buckets_occ(buckets@, x) == (if eligible(graph, groups, x as int) {
                    1nat
                } else {
                    0nat
                }),
            forall|t: int| 0 <= t < buckets@.len() ==> (#[trigger] buckets@[t]).modules@.len() > 0,
            forall|t: int| 0 <= t < keys@.len() ==> (#[trigger] keys@[t])@.len() == g_count,
            forall|t: int, j: int, g: int|
                #![trigger keys@[t]@[g], buckets@[t].modules@[j]]
                0 <= t < buckets@.len() && 0 <= j < buckets@[t].modules@.len() && 0 <= g < g_count
                    ==> keys@[t]@[g] == groups.in_group(g, buckets@[t].modules@[j] as int),
            forall|t: int, j: int|
                #![trigger types@[t], buckets@[t].modules@[j]]
                0 <= t < buckets@.len() && 0 <= j < buckets@[t].modules@.len()
                    ==> module_type_matches(
                    &types@[t],
                    &graph.modules@[buckets@[t].modules@[j] as int].module_type,
                ),
            forall|t: int|
                0 <= t < buckets@.len() ==> bucket_rep_law(
                    graph,
                    groups,
                    (#[trigger] buckets@[t]).modules@,
                    reps@[t],
                ),
        decreases n - m,
    {
        proof {
            assert forall|x: usize| m <= x implies buckets_occ(buckets@, x) == 0 by {
                assert forall|t: int| 0 <= t < buckets@.len() implies count_occ(
                    (#[trigger] buckets@[t]).modules@,
                    x,
                ) == 0 by {
                    lemma_count_occ_zero(buckets@[t].modules@, x);
                }
                lemma_buckets_occ_zero(buckets@, x);
            }
        }
        let external = graph.modules[m].external;
        let mut col: Vec<bool> = Vec::new();
        let mut g: usize = 0;
        let mut any: bool = false;
        while g < g_count
            invariant
                g <= g_count,
                g_count == groups.membership@.len(),
                groups.wf(n as int),
                m < n,
                n == graph.modules@.len(),
                col@.len() == g,
                forall|t: int| 0 <= t < g ==> col@[t] == groups.in_group(t, m as int),
                any == exists|t: int| 0 <= t < g && groups.in_group(t, m as int),
            decreases g_count - g,
        {
            let b = groups.membership[g][m];
            proof {
                assert(b == groups.in_group(g as int, m as int));
            }
            col.push(b);
            if b {
                any = true;
            }
            g = g + 1;
        }
        if !external && any {
            proof {
                assert(eligible(graph, groups, m as int));
            }
            let ty = graph.modules[m].module_type.duplicate();
            let size: u64 = graph.modules[m].content.as_str().unicode_len() as u64;
            let mut t: usize = 0;
            let mut found: Option<usize> = None;
            while t < buckets.len()
                invariant
                    t <= buckets@.len(),
                    buckets@.len() == keys@.len(),
                    buckets@.len() == types@.len(),
                    match found {
                        Some(f) => f < buckets@.len() && keys@[f as int]@ == col@
                            && module_type_matches(&types@[f as int], &ty),
                        None => true,
                    },
                decreases buckets@.len() - t,
            {
                if found.is_none() && vec_bool_eq(&keys[t], &col) && types[t].eq(&ty) {
                    found = Some(t);
                }
                t = t + 1;
            }
            let ghost buckets0 = buckets@;
            match found {
                Some(f) => {
                    let mut b = ModuleBucket::new(
                        ModuleBucketId::from(String::new()),
                        Vec::new(),
                        PartialBundlingModuleBucketsConfig::new_default(),
                    );
                    core::mem::swap(&mut buckets[f], &mut b);
                    b.add_module(m, &ty, size);
                    buckets[f] = b;
                    proof {
                        assert(buckets@ =~= buckets0.update(f as int, buckets@[f as int]));
                        assert(buckets@[f as int].modules@ == buckets0[f as int].modules@.push(m));
                        assert forall|x: usize| (x as int) < m + 1 implies buckets_occ(buckets@, x)
                            == (if eligible(graph, groups, x as int) {
                            1nat
                        } else {
                            0nat
                        }) by {
                            lemma_buckets_occ_update(buckets0, f as int, buckets@[f as int], x);
                            lemma_count_occ_push(buckets0[f as int].modules@, m, x);
                        }
                        assert forall|t2: int, j: int|
                            0 <= t2 < buckets@.len() && 0 <= j < (#[trigger] buckets@[t2]).modules@.len()
                            implies (#[trigger] buckets@[t2].modules@[j]) < m + 1 by {
                            if t2 != f {
                                assert(buckets@[t2] == buckets0[t2]);
                            } else if j < buckets@[t2].modules@.len() - 1 {
                                assert(buckets@[t2].modules@[j] == buckets0[t2].modules@[j]);
                            }
                        }
                        // the joined module carries the bucket's key
                        assert forall|t2: int, j: int, g: int|
                            #![trigger keys@[t2]@[g], buckets@[t2].modules@[j]]
                            0 <= t2 < buckets@.len() && 0 <= j < buckets@[t2].modules@.len() && 0
                                <= g < g_count implies keys@[t2]@[g] == groups.in_group(
                            g,
                            buckets@[t2].modules@[j] as int,
                        ) by {
                            if t2 != f {
                                assert(buckets@[t2] == buckets0[t2]);
                            } else if j < buckets@[t2].modules@.len() - 1 {
                                assert(buckets@[t2].modules@[j] == buckets0[t2].modules@[j]);
                            } else {
                                assert(buckets@[t2].modules@[j] == m);
                                assert(keys@[f as int]@[g] == col@[g]);
                            }
                        }
                        assert forall|t2: int, j: int|
                            #![trigger types@[t2], buckets@[t2].modules@[j]]
                            0 <= t2 < buckets@.len() && 0 <= j < buckets@[t2].modules@.len()
                            implies module_type_matches(
                            &types@[t2],
                            &graph.modules@[buckets@[t2].modules@[j] as int].module_type,
                        ) by {
                            if t2 != f {
                                assert(buckets@[t2] == buckets0[t2]);
                            } else if j < buckets@[t2].modules@.len() - 1 {
                                assert(buckets@[t2].modules@[j] == buckets0[t2].modules@[j]);
                            } else {
                                assert(buckets@[t2].modules@[j] == m);
                                assert(module_type_matches(&types@[f as int], &ty));
                                assert(ty == graph.modules@[m as int].module_type);
                            }
                        }
                        // the representative law depends only on the first
                        // module, which the push keeps in place
                        assert forall|t2: int|
                            0 <= t2 < buckets@.len() implies bucket_rep_law(
                            graph,
                            groups,
                            (#[trigger] buckets@[t2]).modules@,
                            reps@[t2],
                        ) by {
                            if t2 != f {
                                assert(buckets@[t2] == buckets0[t2]);
                            } else {
                                assert(buckets0[t2].modules@.len() > 0);
                                assert(buckets@[t2].modules@[0] == buckets0[t2].modules@[0]);
                                assert(bucket_rep_law(graph, groups, buckets0[t2].modules@, reps@[t2]));
                            }
                        }
                    }
                },
                None => {
                    // the group-set is this module's membership column; a
                    // single-group bucket is named after that group's root
                    let mut trues: usize = 0;
                    let mut first_true: usize = 0;
                    let mut gg: usize = 0;
                    while gg < g_count
                        invariant
                            gg <= g_count,
                            col@.len() == g_count,
                            trues <= gg,
                            trues > 0 ==> first_true < g_count,
                            (trues == 0) == (forall|t2: int| 0 <= t2 < gg ==> !col@[t2]),
                            trues == 1 ==> first_true < gg && col@[first_true as int] && (forall|
                                t2: int,
                            |
                                0 <= t2 < gg && col@[t2] ==> t2 == first_true),
                            trues >= 2 ==> exists|a: int, b: int|
                                #![trigger col@[a], col@[b]]
                                0 <= a < b < gg && col@[a] && col@[b],
                        decreases g_count - gg,
                    {
                        let ghost trues0 = trues;
                        if col[gg] {
                            if trues == 0 {
                                first_true = gg;
                            }
                            trues = trues + 1;
                        }
                        proof {
                            if trues >= 2 {
                                if trues0 == 1 && col@[gg as int] {
                                    assert(0 <= first_true < gg + 1 && col@[first_true as int]
                                        && col@[gg as int] && first_true < gg);
                                }
                            }
                        }
                        gg = gg + 1;
                    }
                    let rep: ModuleId = if trues == 1 {
                        proof {
                            assert(groups.roots@[first_true as int] < n);
                        }
                        graph.modules[groups.roots[first_true]].id.duplicate()
                    } else {
                        graph.modules[m].id.duplicate()
                    };
                    let mut singleton: Vec<usize> = Vec::new();
                    singleton.push(m);
                    // the bucket id spells out its key: the group-set bits
                    // and the module type
                    let mut key_id = String::new();
                    let mut kg: usize = 0;
                    while kg < col.len()
                        invariant
                            kg <= col@.len(),
                        decreases col@.len() - kg,
                    {
                        if col[kg] {
                            key_id = key_id.concat("1");
                        } else {
                            key_id = key_id.concat("0");
                        }
                        kg = kg + 1;
                    }
                    let key_id = key_id.concat("|").concat(ty.tag().as_str());
                    // the first configured bucket rule applies; the default
                    // rule otherwise
                    let rule = if rules.len() > 0 {
                        PartialBundlingModuleBucketsConfig {
                            name: rules[0].name.clone(),
                            weight: rules[0].weight,
                            max_size: rules[0].max_size,
                        }
                    } else {
                        PartialBundlingModuleBucketsConfig::new_default()
                    };
                    let ghost keys0 = keys@;
                    let ghost types0 = types@;
                    let ghost reps0 = reps@;
                    let ghost colv = col@;
                    let ghost tyv = ty;
                    let ghost repv = rep;
                    let bucket = ModuleBucket::new(ModuleBucketId::from(key_id), singleton, rule);
                    buckets.push(bucket);
                    keys.push(col);
                    types.push(ty);
                    reps.push(rep);
                    proof {
                        assert forall|x: usize| (x as int) < m + 1 implies buckets_occ(buckets@, x)
                            == (if eligible(graph, groups, x as int) {
                            1nat
                        } else {
                            0nat
                        }) by {
                            lemma_buckets_occ_push(buckets0, buckets@.last(), x);
                            lemma_count_occ_push(Seq::<usize>::empty(), m, x);
                            assert(buckets@.last().modules@ =~= Seq::<usize>::empty().push(m));
                        }
                        assert forall|t2: int, j: int|
                            0 <= t2 < buckets@.len() && 0 <= j < (#[trigger] buckets@[t2]).modules@.len()
                            implies (#[trigger] buckets@[t2].modules@[j]) < m + 1 by {
                            if t2 < buckets@.len() - 1 {
                                assert(buckets@[t2] == buckets0[t2]);
                            }
                        }
                        let nt = buckets@.len() - 1;
                        assert(buckets@[nt].modules@ =~= Seq::<usize>::empty().push(m));
                        assert(buckets@[nt].modules@.len() == 1 && buckets@[nt].modules@[0] == m);
                        assert(keys@[nt]@ == colv);
                        assert(types@[nt] == tyv && reps@[nt] == repv);
                        assert forall|t2: int, j: int, g: int|
                            #![trigger keys@[t2]@[g], buckets@[t2].modules@[j]]
                            0 <= t2 < buckets@.len() && 0 <= j < buckets@[t2].modules@.len() && 0
                                <= g < g_count implies keys@[t2]@[g] == groups.in_group(
                            g,
                            buckets@[t2].modules@[j] as int,
                        ) by {
                            if t2 < nt {
                                assert(buckets@[t2] == buckets0[t2] && keys@[t2] == keys0[t2]);
                            } else {
                                assert(keys@[t2]@[g] == colv[g]);
                                assert(buckets@[t2].modules@[j] == m);
                            }
                        }
                        assert forall|t2: int, j: int|
                            #![trigger types@[t2], buckets@[t2].modules@[j]]
                            0 <= t2 < buckets@.len() && 0 <= j < buckets@[t2].modules@.len()
                            implies module_type_matches(
                            &types@[t2],
                            &graph.modules@[buckets@[t2].modules@[j] as int].module_type,
                        ) by {
                            if t2 < nt {
                                assert(buckets@[t2] == buckets0[t2] && types@[t2] == types0[t2]);
                            } else {
                                assert(buckets@[t2].modules@[j] == m);
                                assert(tyv == graph.modules@[m as int].module_type);
                            }
                        }
                        assert forall|t2: int|
                            0 <= t2 < buckets@.len() implies bucket_rep_law(
                            graph,
                            groups,
                            (#[trigger] buckets@[t2]).modules@,
                            reps@[t2],
                        ) by {
                            if t2 < nt {
                                assert(buckets@[t2] == buckets0[t2] && reps@[t2] == reps0[t2]);
                            } else {
                                let ms = buckets@[t2].modules@;
                                assert(ms.len() == 1 && ms[0] == m);
                                if trues == 1 {
                                    // a single-group bucket: the unique
                                    // group is first_true, and the
                                    // representative is its root
                                    assert forall|g: int, g2: int|
                                        0 <= g < groups.membership@.len() && 0 <= g2
                                            < groups.membership@.len() && g != g2
                                            && #[trigger] groups.in_group(g, ms[0] as int)
                                            && #[trigger] groups.in_group(g2, ms[0] as int)
                                        implies id_matches(
                                        &reps@[t2],
                                        &graph.modules@[ms[0] as int].id,
                                    ) by {
                                        assert(colv[g] && colv[g2]);
                                        assert(g == first_true && g2 == first_true);
                                    }
                                    assert forall|g: int|
                                        0 <= g < groups.membership@.len()
                                            && #[trigger] groups.in_group(g, ms[0] as int) && (
                                        forall|g2: int|
                                            0 <= g2 < groups.membership@.len()
                                                && #[trigger] groups.in_group(g2, ms[0] as int)
                                                ==> g2 == g) implies id_matches(
                                        &reps@[t2],
                                        &graph.modules@[groups.roots@[g] as int].id,
                                    ) by {
                                        assert(colv[g]);
                                        assert(g == first_true);
                                        assert(repv
                                            == graph.modules@[groups.roots@[first_true as int] as int].id);
                                    }
                                } else {
                                    // several groups share the bucket: the
                                    // representative is the first module
                                    assert(trues >= 2);
                                    let (ga, gb) = choose|a: int, b: int|
                                        #![trigger colv[a], colv[b]]
                                        0 <= a < b < g_count && colv[a] && colv[b];
                                    assert(groups.in_group(ga, m as int) && groups.in_group(
                                        gb,
                                        m as int,
                                    ));
                                    assert(repv == graph.modules@[m as int].id);
                                    assert forall|g: int|
                                        0 <= g < groups.membership@.len()
                                            && #[trigger] groups.in_group(g, ms[0] as int) && (
                                        forall|g2: int|
                                            0 <= g2 < groups.membership@.len()
                                                && #[trigger] groups.in_group(g2, ms[0] as int)
                                                ==> g2 == g) implies id_matches(
                                        &reps@[t2],
                                        &graph.modules@[groups.roots@[g] as int].id,
                                    ) by {
                                        assert(groups.in_group(ga, ms[0] as int));
                                        assert(groups.in_group(gb, ms[0] as int));
                                        assert(ga == g && gb == g);
                                    }
                                }
                            }
                        }
                    }
                },
            }
        } else {
            proof {
                assert(!eligible(graph, groups, m as int));
            }
        }
        m = m + 1;
    }
    proof {
        assert forall|t: int|
            0 <= t < buckets@.len() implies same_bucket_key(
            graph,
            groups,
            (#[trigger] buckets@[t]).modules@,
        ) by {
            let ms = buckets@[t].modules@;
            assert forall|j1: int, j2: int, g: int|
                #![trigger groups.in_group(g, ms[j1] as int), groups.in_group(g, ms[j2] as int)]
                0 <= j1 < ms.len() && 0 <= j2 < ms.len() && 0 <= g < groups.membership@.len()
                implies groups.in_group(g, ms[j1] as int) == groups.in_group(g, ms[j2] as int) by {
                assert(keys@[t]@[g] == groups.in_group(g, buckets@[t].modules@[j1] as int));
                assert(keys@[t]@[g] == groups.in_group(g, buckets@[t].modules@[j2] as int));
            }
            assert forall|j1: int, j2: int|
                0 <= j1 < ms.len() && 0 <= j2 < ms.len() implies module_type_matches(
                &graph.modules@[(#[trigger] ms[j1]) as int].module_type,
                &graph.modules@[(#[trigger] ms[j2]) as int].module_type,
            ) by {
                assert(module_type_matches(
                    &types@[t],
                    &graph.modules@[buckets@[t].modules@[j1] as int].module_type,
                ));
                assert(module_type_matches(
                    &types@[t],
                    &graph.modules@[buckets@[t].modules@[j2] as int].module_type,
                ));
            }
        }
    }
    (buckets, reps)
}

/// Whether every static dependency of `m` inside `remaining` has already
/// been placed: a module is ready when no static edge leads from it to
/// another remaining module.
fn is_ready(graph: &ModuleGraph, remaining: &Vec<usize>, m: usize) -> (r: bool)
    requires
        graph.wf(),
    ensures
        r == !has_static_dep_in(graph.edges@, m, remaining@),
{
    let mut k: usize = 0;
    while k < graph.edges.len()
        invariant
            k <= graph.edges@.len(),
            graph.wf(),
            forall|kk: int|
                0 <= kk < k ==> !((#[trigger] graph.edges@[kk]).from == m && !(graph.edges@[kk].kind
                    is DynamicImport) && graph.edges@[kk].to != m && remaining@.contains(
                    graph.edges@[kk].to,
                )),
        decreases graph.edges@.len() - k,
    {
        let e_from = graph.edges[k].from;
        let e_to = graph.edges[k].to;
        let dynamic_edge = matches!(graph.edges[k].kind, ResolveKind::DynamicImport);
        if e_from == m && !dynamic_edge && e_to != m && crate::module_group::vec_contains_usize(
            remaining,
            e_to,
        ) {
            proof {
                assert(has_static_dep_in(graph.edges@, m, remaining@));
            }
            return false;
        }
        k = k + 1;
    }

    true
}

/// Orders the modules of one pot: dependencies before importers along
/// static edges, ties and cycles broken by module-id order.  The result is
/// a permutation of the input, and each placed module has no static
/// dependency among the modules placed after it, unless everything from it
/// on keeps a static dependency inside the pot (a dependency cycle).
pub fn toposort_modules(graph: &ModuleGraph, input: Vec<usize>) -> (r: Vec<usize>)
    requires
        graph.wf(),
        forall|j: int| 0 <= j < input@.len() ==> (#[trigger] input@[j]) < graph.modules@.len(),
    ensures
        r@.len() == input@.len(),
        forall|x: usize| count_occ(r@, x) == count_occ(input@, x),
        forall|j: int| 0 <= j < r@.len() ==> (#[trigger] r@[j]) < graph.modules@.len(),
        forall|t: int|
            0 <= t < r@.len() ==> placed_in_dependency_order_at(graph.edges@, r@, t) || tail_blocked(
                graph.edges@,
                r@,
                input@,
                t,
            ),
{
    let mut remaining = input;
    let ghost input0 = remaining@;
    let mut out: Vec<usize> = Vec::new();
    proof {
        assert forall|x: usize| count_occ(out@, x) + count_occ(remaining@, x) == count_occ(
            input0,
            x,
        ) by {
            lemma_count_occ_zero(out@, x);
        }
    }
    while remaining.len() > 0
        invariant
            graph.wf(),
            forall|j: int| 0 <= j < remaining@.len() ==> (#[trigger] remaining@[j]) < graph.modules@.len(),
            forall|j: int| 0 <= j < out@.len() ==> (#[trigger] out@[j]) < graph.modules@.len(),
            forall|x: usize|
                count_occ(out@, x) + count_occ(remaining@, x) == count_occ(input0, x),
            out@.len() + remaining@.len() == input0.len(),
            forall|t: int|
                0 <= t < out@.len() ==> ordering_inv(graph.edges@, out@, remaining@, input0, t),
        decreases remaining@.len(),
    {
        let mut best_pos: usize = 0;
        let mut best_ready: bool = is_ready(graph, &remaining, remaining[0]);
        let mut p: usize = 1;
        while p < remaining.len()
            invariant
                graph.wf(),
                remaining@.len() > 0,
                p <= remaining@.len(),
                best_pos < remaining@.len(),
                forall|j: int|
                    0 <= j < remaining@.len() ==> (#[trigger] remaining@[j]) < graph.modules@.len(),
                best_ready == !has_static_dep_in(
                    graph.edges@,
                    remaining@[best_pos as int],
                    remaining@,
                ),
                !best_ready ==> forall|q: int|
                    0 <= q < p ==> has_static_dep_in(graph.edges@, #[trigger] remaining@[q], remaining@),
            decreases remaining@.len() - p,
        {
            let cand = remaining[p];
            let cand_ready = is_ready(graph, &remaining, cand);
            let replace = if cand_ready != best_ready {
                cand_ready
            } else {
                crate::paths::str_lt(
                    graph.modules[cand].id.relative_path.as_str(),
                    graph.modules[remaining[best_pos]].id.relative_path.as_str(),
                )
            };
            if replace {
                best_pos = p;
                best_ready = cand_ready;
            }
            p = p + 1;
        }
        let chosen = remaining[best_pos];
        let ghost rem0 = remaining@;
        let ghost out0 = out@;
        remaining.remove(best_pos);
        out.push(chosen);
        proof {
            broadcast use vstd::seq_lib::lemma_seq_contains_after_push;

            let edges = graph.edges@;
            assert forall|x: usize| count_occ(out@, x) + count_occ(remaining@, x) == count_occ(
                input0,
                x,
            ) by {
                lemma_count_occ_remove(rem0, best_pos as int, x);
                lemma_count_occ_push(out0, chosen, x);
            }
            assert forall|j: int| 0 <= j < out@.len() implies (#[trigger] out@[j])
                < graph.modules@.len() by {
                if j < out@.len() - 1 {
                    assert(out@[j] == out0[j]);
                }
            }
            // membership transport: the shrunken pending set sits inside
            // the old one, and the old one inside the input
            assert forall|y: usize| remaining@.contains(y) implies rem0.contains(y) by {
                lemma_count_occ_contains(remaining@, y);
                lemma_count_occ_contains(rem0, y);
                lemma_count_occ_remove(rem0, best_pos as int, y);
            }
            assert forall|y: usize| rem0.contains(y) implies input0.contains(y) by {
                lemma_count_occ_contains(rem0, y);
                lemma_count_occ_contains(input0, y);
                lemma_count_occ_zero(Seq::<usize>::empty(), y);
            }
            assert(rem0.contains(chosen));
            // index correspondence between the shrunken and old pending
            assert forall|w: int| 0 <= w < remaining@.len() implies (#[trigger] remaining@[w])
                == rem0[if w < best_pos { w } else { w + 1 }] by {}
            assert forall|t: int| 0 <= t < out@.len() implies ordering_inv(
                edges,
                out@,
                remaining@,
                input0,
                t,
            ) by {
                if t < out@.len() - 1 {
                    assert(out@[t] == out0[t]);
                    assert(ordering_inv(edges, out0, rem0, input0, t));
                    if !has_static_dep_in(edges, out0[t], out0.skip(t + 1)) && !has_static_dep_in(
                        edges,
                        out0[t],
                        rem0,
                    ) {
                        // the placed module stays dependency-clean
                        if has_static_dep_in(edges, out@[t], out@.skip(t + 1)) {
                            let k = choose|k: int|
                                0 <= k < edges.len() && (#[trigger] edges[k]).from == out@[t]
                                    && !(edges[k].kind is DynamicImport) && edges[k].to != out@[t]
                                    && out@.skip(t + 1).contains(edges[k].to);
                            assert(out@.skip(t + 1) =~= out0.skip(t + 1).push(chosen));
                            if edges[k].to == chosen {
                                assert(has_static_dep_in(edges, out0[t], rem0));
                            } else {
                                assert(out0.skip(t + 1).contains(edges[k].to));
                                assert(has_static_dep_in(edges, out0[t], out0.skip(t + 1)));
                            }
                        }
                        if has_static_dep_in(edges, out@[t], remaining@) {
                            lemma_dep_in_superset(edges, out0[t], remaining@, rem0);
                        }
                    } else {
                        // the blocked tail stays blocked
                        assert(tail_blocked(edges, out0, input0, t));
                        assert forall|u: int| t <= u < out@.len() implies has_static_dep_in(
                            edges,
                            #[trigger] out@[u],
                            input0,
                        ) by {
                            if u < out@.len() - 1 {
                                assert(out@[u] == out0[u]);
                            } else {
                                let wb = rem0.lemma_contains_to_index(chosen);
                                assert(has_static_dep_in(edges, rem0[wb], input0));
                            }
                        }
                        assert forall|w: int| 0 <= w < remaining@.len() implies has_static_dep_in(
                            edges,
                            #[trigger] remaining@[w],
                            input0,
                        ) by {
                            let w0: int = if w < best_pos { w } else { w + 1 };
                            assert(has_static_dep_in(edges, rem0[w0], input0));
                        }
                    }
                } else {
                    // the freshly placed module
                    assert(out@[t] == chosen);
                    assert(out@.skip(t + 1) =~= Seq::<usize>::empty());
                    if best_ready {
                        assert(!has_static_dep_in(edges, chosen, rem0));
                        if has_static_dep_in(edges, chosen, remaining@) {
                            lemma_dep_in_superset(edges, chosen, remaining@, rem0);
                        }
                        if has_static_dep_in(edges, chosen, out@.skip(t + 1)) {
                            let k = choose|k: int|
                                0 <= k < edges.len() && (#[trigger] edges[k]).from == chosen
                                    && !(edges[k].kind is DynamicImport) && edges[k].to != chosen
                                    && out@.skip(t + 1).contains(edges[k].to);
                        }
                    } else {
                        // a cycle: everything still pending, the chosen
                        // module included, keeps a dependency in the input
                        assert forall|u: int| t <= u < out@.len() implies has_static_dep_in(
                            edges,
                            #[trigger] out@[u],
                            input0,
                        ) by {
                            assert(has_static_dep_in(edges, rem0[best_pos as int], rem0));
                            lemma_dep_in_superset(edges, chosen, rem0, input0);
                        }
                        assert forall|w: int| 0 <= w < remaining@.len() implies has_static_dep_in(
                            edges,
                            #[trigger] remaining@[w],
                            input0,
                        ) by {
                            let w0: int = if w < best_pos { w } else { w + 1 };
                            assert(has_static_dep_in(edges, rem0[w0], rem0));
                            lemma_dep_in_superset(edges, rem0[w0], rem0, input0);
                        }
                    }
                }
            }
        }
    }
    proof {
        assert forall|t: int| 0 <= t < out@.len() implies placed_in_dependency_order_at(
            graph.edges@,
            out@,
            t,
        ) || tail_blocked(graph.edges@, out@, input0, t) by {
            assert(ordering_inv(graph.edges@, out@, remaining@, input0, t));
        }
    }
    out
}

/// Cuts resource pots from the buckets: buckets are processed best-first,
/// each bucket's modules are ordered and split into pots bounded by the
/// bucket's size cap, and pots are named from the bucket's representative
/// group id, uniquified against the names already used.
///
/// Partition accounting: every module occurrence held by the buckets lands
/// in exactly one resource pot.
pub fn generate_resource_pots(graph: &ModuleGraph, buckets: &Vec<ModuleBucket>, reps: &Vec<ModuleId>) -> (r:
    Vec<ResourcePot>)
    requires
        graph.wf(),
        reps@.len() == buckets@.len(),
        forall|t: int, j: int|
            0 <= t < buckets@.len() && 0 <= j < (#[trigger] buckets@[t]).modules@.len()
                ==> (#[trigger] buckets@[t].modules@[j]) < graph.modules@.len(),
    ensures
        forall|x: usize| pots_occ(r@, x) == buckets_occ(buckets@, x),
        forall|t: int, j: int|
            0 <= t < r@.len() && 0 <= j < (#[trigger] r@[t]).modules@.len()
                ==> (#[trigger] r@[t].modules@[j]) < graph.modules@.len(),
        buckets@.len() == 0 ==> r@.len() == 0,
        // every pot is a nonempty cut of one bucket, named from that
        // bucket's representative id and typed by its first module
        forall|t: int|
            0 <= t < r@.len() ==> (#[trigger] r@[t]).modules@.len() > 0 && pot_typed_by_first(
                graph,
                r@[t],
            ) && pot_from_buckets(graph, r@[t], buckets@, reps@),
{
    let nb = buckets.len();
    let mut pending: Vec<usize> = Vec::new();
    let mut i: usize = 0;
    while i < nb
        invariant
            i <= nb,
            pending@.len() == i,
            forall|j: int| 0 <= j < i ==> (#[trigger] pending@[j]) == j,
        decreases nb - i,
    {
        pending.push(i);
        i = i + 1;
    }
    let mut pots: Vec<ResourcePot> = Vec::new();
    let mut used_names: Vec<String> = Vec::new();
    proof {
        assert forall|x: usize| pots_occ(pots@, x) + buckets_occ_sel(buckets@, pending@, x)
            == buckets_occ(buckets@, x) by {
            lemma_buckets_occ_sel_full(buckets@, pending@, x);
        }
    }
    while pending.len() > 0
        invariant
            graph.wf(),
            nb == buckets@.len(),
            reps@.len() == buckets@.len(),
            forall|t: int, j: int|
                0 <= t < buckets@.len() && 0 <= j < (#[trigger] buckets@[t]).modules@.len()
                    ==> (#[trigger] buckets@[t].modules@[j]) < graph.modules@.len(),
            forall|j: int| 0 <= j < pending@.len() ==> (#[trigger] pending@[j]) < nb,
            nb == 0 ==> pots@.len() == 0,
            forall|x: usize|
                pots_occ(pots@, x) + buckets_occ_sel(buckets@, pending@, x) == buckets_occ(
                    buckets@,
                    x,
                ),
            forall|t: int, j: int|
                0 <= t < pots@.len() && 0 <= j < (#[trigger] pots@[t]).modules@.len()
                    ==> (#[trigger] pots@[t].modules@[j]) < graph.modules@.len(),
            forall|t: int|
                0 <= t < pots@.len() ==> (#[trigger] pots@[t]).modules@.len() > 0
                    && pot_typed_by_first(graph, pots@[t]) && pot_from_buckets(
                    graph,
                    pots@[t],
                    buckets@,
                    reps@,
                ),
        decreases pending@.len(),
    {
        let bi = find_best_process_bucket(buckets, &pending);
        let mut pos: usize = 0;
        while pos < pending.len() && pending[pos] != bi
            invariant
                pos <= pending@.len(),
                exists|t: int| 0 <= t < pending@.len() && pending@[t] == bi,
                forall|t: int| 0 <= t < pos ==> pending@[t] != bi,
            decreases pending@.len() - pos,
        {
            pos = pos + 1;
        }
        proof {
            if pos >= pending@.len() {
                let t = choose|t: int| 0 <= t < pending@.len() && pending@[t] == bi;
                assert(false);
            }
        }
        let ghost pend0 = pending@;
        pending.remove(pos);
        proof {
            assert(pend0[pos as int] == bi);
            assert forall|x: usize| pots_occ(pots@, x) + buckets_occ_sel(buckets@, pending@, x)
                + count_occ(buckets@[bi as int].modules@, x) == buckets_occ(buckets@, x) by {
                lemma_buckets_occ_sel_remove(buckets@, pend0, pos as int, x);
            }
        }

        let ordered = toposort_modules(graph, clone_indices(buckets[bi].modules()));
        let ghost used0 = used_names@;
        let base = generate_resource_pot_name(&reps[bi], &used_names, graph);
        used_names.push(base.clone());
        proof {
            // the ordered sequence is a permutation of the bucket's modules
            assert forall|j: int| 0 <= j < ordered@.len() implies buckets@[bi as int].modules@.contains(
                #[trigger] ordered@[j],
            ) by {
                assert(ordered@.contains(ordered@[j]));
                lemma_count_occ_contains(ordered@, ordered@[j]);
                lemma_count_occ_contains(buckets@[bi as int].modules@, ordered@[j]);
            }
            // the generated name is a base name of the representative
            if exists|i: int|
                0 <= i < graph.entries@.len() && id_matches(
                    &(#[trigger] graph.entries@[i]).id,
                    &reps@[bi as int],
                ) {
                assert(is_base_name_of(graph, reps@[bi as int], base@));
            } else {
                assert(base@ == crate::resource_pot::pot_name_view(
                    reps@[bi as int].relative_path@,
                    used0,
                ));
                assert(is_base_name_of(graph, reps@[bi as int], base@));
            }
        }

        if ordered.len() == 0 {
            proof {
                assert forall|x: usize| count_occ(ordered@, x) == 0 by {
                    lemma_count_occ_zero(ordered@, x);
                }
                assert forall|x: usize| count_occ(buckets@[bi as int].modules@, x) == 0 by {
                    lemma_count_occ_zero(buckets@[bi as int].modules@, x);
                }
            }
        } else {
            let cap = buckets[bi].config.max_size;
            let pot_ty = pot_type_of(&graph.modules[ordered[0]].module_type);
            let mut current = ResourcePot::new(base.clone(), pot_ty);
            let mut acc: u64 = 0;
            let mut pot_index: usize = 0;
            let ghost pots0 = pots@;
            let mut t: usize = 0;
            while t < ordered.len()
                invariant
                    graph.wf(),
                    t <= ordered@.len(),
                    nb == buckets@.len(),
                    reps@.len() == buckets@.len(),
                    bi < nb,
                    forall|j: int| 0 <= j < ordered@.len() ==> (#[trigger] ordered@[j]) < graph.modules@.len(),
                    forall|x: usize|
                        pots_occ(pots@, x) + count_occ(current.modules@, x) == pots_occ(pots0, x)
                            + count_occ(ordered@.take(t as int), x),
                    forall|tt: int, j: int|
                        0 <= tt < pots@.len() && 0 <= j < (#[trigger] pots@[tt]).modules@.len()
                            ==> (#[trigger] pots@[tt].modules@[j]) < graph.modules@.len(),
                    forall|j: int|
                        0 <= j < current.modules@.len() ==> (#[trigger] current.modules@[j])
                            < graph.modules@.len(),
                    pot_index < usize::MAX,
                    is_base_name_of(graph, reps@[bi as int], base@),
                    forall|j: int|
                        0 <= j < ordered@.len() ==> buckets@[bi as int].modules@.contains(
                            #[trigger] ordered@[j],
                        ),
                    forall|j: int|
                        0 <= j < current.modules@.len() ==> buckets@[bi as int].modules@.contains(
                            #[trigger] current.modules@[j],
                        ),
                    current.id@ == base@ || exists|k: u64|
                        current.id@ == base@ + "_"@ + #[trigger] crate::hashing::dec_view(k),
                    current.modules@.len() == 0 ==> t < ordered@.len() && pot_type_matches(
                        current.resource_pot_type,
                        crate::resource_pot::pot_type_of_spec(
                            &graph.modules@[ordered@[t as int] as int].module_type,
                        ),
                    ),
                    current.modules@.len() > 0 ==> pot_typed_by_first(graph, current),
                    forall|tt: int|
                        0 <= tt < pots@.len() ==> (#[trigger] pots@[tt]).modules@.len() > 0
                            && pot_typed_by_first(graph, pots@[tt]) && pot_from_buckets(
                            graph,
                            pots@[tt],
                            buckets@,
                            reps@,
                        ),
                decreases ordered@.len() - t,
            {
                let mi = ordered[t];
                let sz: u64 = graph.modules[mi].content.as_str().unicode_len() as u64;
                if cap > 0 && current.modules.len() > 0 && acc.saturating_add(sz) > cap {
                    let ghost potsa = pots@;
                    let ghost cur0 = current;
                    let next_index = if pot_index < usize::MAX - 1 {
                        pot_index + 1
                    } else {
                        pot_index
                    };
                    let next_id = base.clone().concat("_").concat(
                        crate::hashing::to_dec(next_index as u64).as_str(),
                    );
                    let mut closed = ResourcePot::new(next_id, pot_type_of(&graph.modules[mi].module_type));
                    core::mem::swap(&mut current, &mut closed);
                    pots.push(closed);
                    pot_index = next_index;
                    acc = 0;
                    proof {
                        assert forall|x: usize| pots_occ(pots@, x) + count_occ(current.modules@, x)
                            == pots_occ(pots0, x) + count_occ(ordered@.take(t as int), x) by {
                            lemma_pots_occ_push(potsa, pots@.last(), x);
                            lemma_count_occ_zero(current.modules@, x);
                        }
                        assert forall|tt: int, j: int|
                            0 <= tt < pots@.len() && 0 <= j < (#[trigger] pots@[tt]).modules@.len()
                            implies (#[trigger] pots@[tt].modules@[j]) < graph.modules@.len() by {
                            if tt < pots@.len() - 1 {
                                assert(pots@[tt] == potsa[tt]);
                            } else {
                                assert(pots@[tt].modules@[j] == cur0.modules@[j]);
                            }
                        }
                        // the closed pot is a nonempty, typed, named cut of
                        // bucket bi
                        assert(pots@.last() == cur0);
                        if cur0.id@ == base@ {
                            assert(pot_name_matches(graph, reps@[bi as int], cur0.id@, base@, 0u64));
                            assert(pot_named_from(graph, cur0, reps@[bi as int]));
                        } else {
                            let k0 = choose|k: u64|
                                cur0.id@ == base@ + "_"@ + #[trigger] crate::hashing::dec_view(k);
                            assert(pot_name_matches(graph, reps@[bi as int], cur0.id@, base@, k0));
                            assert(pot_named_from(graph, cur0, reps@[bi as int]));
                        }
                        assert(pot_within_bucket(cur0, buckets@[bi as int]));
                        assert(pot_from_buckets(graph, cur0, buckets@, reps@));
                        assert forall|tt: int|
                            0 <= tt < pots@.len() implies (#[trigger] pots@[tt]).modules@.len() > 0
                            && pot_typed_by_first(graph, pots@[tt]) && pot_from_buckets(
                            graph,
                            pots@[tt],
                            buckets@,
                            reps@,
                        ) by {
                            if tt < pots@.len() - 1 {
                                assert(pots@[tt] == potsa[tt]);
                            }
                        }
                        // the fresh pot carries the next ordinal and the
                        // type of the module that opens it
                        assert(current.id@ == base@ + "_"@ + crate::hashing::dec_view(
                            next_index as u64,
                        ));
                    }
                }
                let ghost cur1 = current.modules@;
                let ghost curpre = current;
                current.add_module(mi);
                acc = acc.saturating_add(sz);
                proof {
                    assert forall|x: usize| pots_occ(pots@, x) + count_occ(current.modules@, x)
                        == pots_occ(pots0, x) + count_occ(ordered@.take(t + 1), x) by {
                        lemma_count_occ_push(cur1, mi, x);
                        assert(ordered@.take(t + 1) =~= ordered@.take(t as int).push(ordered@[t as int]));
                        lemma_count_occ_push(ordered@.take(t as int), ordered@[t as int], x);
                    }
                    // the pot keeps its first module, so its typing stands
                    assert(current.modules@ == cur1.push(mi));
                    if cur1.len() == 0 {
                        assert(current.modules@[0] == mi && mi == ordered@[t as int]);
                        assert(pot_typed_by_first(graph, current));
                    } else {
                        assert(current.modules@[0] == cur1[0]);
                        assert(pot_typed_by_first(graph, curpre));
                        assert(pot_typed_by_first(graph, current));
                    }
                    assert forall|j: int|
                        0 <= j < current.modules@.len() implies buckets@[bi as int].modules@.contains(
                        #[trigger] current.modules@[j],
                    ) by {
                        if j < current.modules@.len() - 1 {
                            assert(current.modules@[j] == cur1[j]);
                        } else {
                            assert(current.modules@[j] == ordered@[t as int]);
                        }
                    }
                }
                t = t + 1;
            }
            let ghost potsb = pots@;
            let ghost curf = current.modules@;
            let ghost curw = current;
            pots.push(current);
            proof {
                assert(ordered@.take(ordered@.len() as int) =~= ordered@);
                assert forall|x: usize| pots_occ(pots@, x) == pots_occ(pots0, x) + count_occ(
                    ordered@,
                    x,
                ) by {
                    lemma_pots_occ_push(potsb, pots@.last(), x);
                }
                assert forall|tt: int, j: int|
                    0 <= tt < pots@.len() && 0 <= j < (#[trigger] pots@[tt]).modules@.len()
                    implies (#[trigger] pots@[tt].modules@[j]) < graph.modules@.len() by {
                    if tt < pots@.len() - 1 {
                        assert(pots@[tt] == potsb[tt]);
                    } else {
                        assert(pots@[tt].modules@[j] == curf[j]);
                    }
                }
                // the last pot of the bucket is a nonempty, typed, named
                // cut of bucket bi
                assert(pots@.last() == curw);
                assert(curw.modules@.len() > 0);
                if curw.id@ == base@ {
                    assert(pot_name_matches(graph, reps@[bi as int], curw.id@, base@, 0u64));
                    assert(pot_named_from(graph, curw, reps@[bi as int]));
                } else {
                    let k0 = choose|k: u64|
                        curw.id@ == base@ + "_"@ + #[trigger] crate::hashing::dec_view(k);
                    assert(pot_name_matches(graph, reps@[bi as int], curw.id@, base@, k0));
                    assert(pot_named_from(graph, curw, reps@[bi as int]));
                }
                assert(pot_within_bucket(curw, buckets@[bi as int]));
                assert(pot_from_buckets(graph, curw, buckets@, reps@));
                assert forall|tt: int|
                    0 <= tt < pots@.len() implies (#[trigger] pots@[tt]).modules@.len() > 0
                    && pot_typed_by_first(graph, pots@[tt]) && pot_from_buckets(
                    graph,
                    pots@[tt],
                    buckets@,
                    reps@,
                ) by {
                    if tt < pots@.len() - 1 {
                        assert(pots@[tt] == potsb[tt]);
                    }
                }
            }
        }
    }
    proof {
        assert forall|x: usize| pots_occ(pots@, x) == buckets_occ(buckets@, x) by {
            assert(buckets_occ_sel(buckets@, pending@, x) == 0);
        }
    }
    pots
}

/// Partitioning coverage law: after bucket generation and pot generation,
/// every non-external module that belongs to at least one module group
/// appears in exactly one resource pot, and every other module in none.
pub proof fn lemma_partition_coverage(
    graph: &ModuleGraph,
    groups: &ModuleGroupGraph,
    buckets: Seq<ModuleBucket>,
    pots: Seq<ResourcePot>,
)
    requires
        forall|x: usize|
            (x as int) < graph.modules@.len() ==> buckets_occ(buckets, x) == (if eligible(
                graph,
                groups,
                x as int,
            ) {
                1nat
            } else {
                0nat
            }),
        forall|x: usize| pots_occ(pots, x) == buckets_occ(buckets, x),
    ensures
        forall|x: usize|
            (x as int) < graph.modules@.len() ==> pots_occ(pots, x) == (if eligible(
                graph,
                groups,
                x as int,
            ) {
                1nat
            } else {
                0nat
            }),
{
}

} // verus!
