//! Module-group derivation.
//!
//! A group is the set of modules statically reachable from a single root,
//! where the roots are the entry modules together with every target of a
//! dynamic-import edge whose importer is itself reachable from an entry.
//! Traversal out of a root follows static edges only: a dynamic import
//! starts a new group instead of extending the current one.
//!
//! The contract of [`derive_module_groups`] is the group-membership law:
//! the derived group-set of a module equals the set of entries and dynamic
//! roots from which the module is statically reachable.

use vstd::prelude::*;
use crate::module_graph::{ModuleEdge, ModuleGraph};
use crate::reach::{edges_wf, reachable_set, reaches, reaches_any};

verus! {

/// The module groups derived from a graph: one root per group, and for
/// each group a membership row over all module indices.
pub struct ModuleGroupGraph {
    /// Module index of each group root; entries first, then dynamic roots,
    /// each root listed once.
    pub roots: Vec<usize>,
    /// `membership[g][m]` holds when module `m` belongs to the group rooted
    /// at `roots[g]`.
    pub membership: Vec<Vec<bool>>,
}

/// `t` roots a dynamic group: some dynamic-import edge reaches `t` from an
/// importer that is live (reachable from an entry along any edges).
pub open spec fn is_dynamic_root(edges: Seq<ModuleEdge>, entries: Seq<usize>, t: usize) -> bool {
    exists|k: int|
        0 <= k < edges.len() && (#[trigger] edges[k]).kind is DynamicImport && edges[k].to == t
            && reaches_any(edges, entries, edges[k].from as int, true)
}

/// `x` roots a group: it is an entry or a live dynamic-import target.
pub open spec fn is_group_root(edges: Seq<ModuleEdge>, entries: Seq<usize>, x: usize) -> bool {
    entries.contains(x) || is_dynamic_root(edges, entries, x)
}

impl ModuleGroupGraph {
    /// Shape invariant relative to a graph of `n` modules.
    pub open spec fn wf(&self, n: int) -> bool {
        &&& self.roots@.len() == self.membership@.len()
        &&& forall|g: int| 0 <= g < self.roots@.len() ==> (#[trigger] self.roots@[g]) < n
        &&& forall|g: int|
            0 <= g < self.membership@.len() ==> (#[trigger] self.membership@[g])@.len() == n
        &&& forall|i: int, j: int| 0 <= i < j < self.roots@.len() ==> self.roots@[i] != self.roots@[j]
    }

    /// Module `m` belongs to the group rooted at `roots[g]`.
    pub open spec fn in_group(&self, g: int, m: int) -> bool {
        self.membership@[g]@[m]
    }

    /// The number of groups that module `m` belongs to.
    pub fn group_count_of(&self, m: usize) -> (r: usize)
        requires
            forall|g: int|
                0 <= g < self.membership@.len() ==> m < (#[trigger] self.membership@[g])@.len(),
        ensures
            r <= self.membership@.len(),
            (r == 0) == (forall|g: int| 0 <= g < self.membership@.len() ==> !self.in_group(g, m as int)),
    {
        let mut count: usize = 0;
        let mut g: usize = 0;
        while g < self.membership.len()
            invariant
                g <= self.membership@.len(),
                count <= g,
                forall|gg: int|
                    0 <= gg < self.membership@.len() ==> m < (#[trigger] self.membership@[gg])@.len(),
                (count == 0) == (forall|gg: int| 0 <= gg < g ==> !self.in_group(gg, m as int)),
            decreases self.membership@.len() - g,
        {
            let b = self.membership[g][m];
            proof {
                assert(self.in_group(g as int, m as int) == b);
            }
            if b {
                count = count + 1;
            }
            g = g + 1;
        }
        count
    }
}

/// The membership law of a derived group graph: membership is static
/// reachability from the group's root.
pub open spec fn group_graph_law(gg: &ModuleGroupGraph, edges: Seq<ModuleEdge>, n: int) -> bool {
    forall|g: int, m: int|
        0 <= g < gg.roots@.len() && 0 <= m < n ==> (gg.in_group(g, m) <==> reaches(
            edges,
            gg.roots@[g] as int,
            m,
            false,
        ))
}

/// The roots law of a derived group graph: the roots are exactly the
/// entries and the live dynamic-import targets.
pub open spec fn group_roots_law(gg: &ModuleGroupGraph, edges: Seq<ModuleEdge>, entries: Seq<usize>) -> bool {
    forall|x: usize| gg.roots@.contains(x) <==> is_group_root(edges, entries, x)
}

/// Module `m` lies in the group rooted at module `x` of `gg`.
pub open spec fn in_group_of_root(gg: &ModuleGroupGraph, x: usize, m: int) -> bool {
    exists|g: int| 0 <= g < gg.roots@.len() && gg.roots@[g] == x && gg.in_group(g, m)
}

/// Determinism of group derivation: any two group graphs that satisfy the
/// characterization of [`derive_module_groups`] over the same module graph
/// and entry set relate every root and module identically, so two runs on
/// identical inputs produce identical group membership.
pub proof fn lemma_group_derivation_deterministic(
    a: &ModuleGroupGraph,
    b: &ModuleGroupGraph,
    edges: Seq<ModuleEdge>,
    entries: Seq<usize>,
    n: int,
)
    requires
        a.wf(n),
        b.wf(n),
        forall|x: usize| #[trigger] a.roots@.contains(x) <==> is_group_root(edges, entries, x),
        forall|x: usize| #[trigger] b.roots@.contains(x) <==> is_group_root(edges, entries, x),
        forall|g: int, m: int|
            0 <= g < a.roots@.len() && 0 <= m < n ==> (a.in_group(g, m) <==> reaches(
                edges,
                a.roots@[g] as int,
                m,
                false,
            )),
        forall|g: int, m: int|
            0 <= g < b.roots@.len() && 0 <= m < n ==> (b.in_group(g, m) <==> reaches(
                edges,
                b.roots@[g] as int,
                m,
                false,
            )),
    ensures
        forall|x: usize, m: int|
            0 <= m < n ==> (in_group_of_root(a, x, m) <==> #[trigger] in_group_of_root(b, x, m)),
{
    assert forall|x: usize, m: int|
        0 <= m < n implies (in_group_of_root(a, x, m) <==> #[trigger] in_group_of_root(b, x, m)) by {
        if exists|g: int| 0 <= g < a.roots@.len() && a.roots@[g] == x && a.in_group(g, m) {
            let g = choose|g: int| 0 <= g < a.roots@.len() && a.roots@[g] == x && a.in_group(g, m);
            assert(a.roots@[g] == x);
            assert(a.roots@.contains(x));
            assert(reaches(edges, x as int, m, false));
            assert(is_group_root(edges, entries, x));
            assert(b.roots@.contains(x));
            let h = b.roots@.index_of(x);
            assert(b.roots@[h] == x);
            assert(b.in_group(h, m));
        }
        if exists|g: int| 0 <= g < b.roots@.len() && b.roots@[g] == x && b.in_group(g, m) {
            let g = choose|g: int| 0 <= g < b.roots@.len() && b.roots@[g] == x && b.in_group(g, m);
            assert(b.roots@[g] == x);
            assert(b.roots@.contains(x));
            assert(reaches(edges, x as int, m, false));
            assert(is_group_root(edges, entries, x));
            assert(a.roots@.contains(x));
            let h = a.roots@.index_of(x);
            assert(a.roots@[h] == x);
            assert(a.in_group(h, m));
        }
    }
}

/// Whether `v` holds `x`.
pub fn vec_contains_usize(v: &Vec<usize>, x: usize) -> (r: bool)
    ensures
        r == v@.contains(x),
{
    let mut i: usize = 0;
    while i < v.len()
        invariant
            i <= v@.len(),
            forall|j: int| 0 <= j < i ==> v@[j] != x,
        decreases v@.len() - i,
    {
        if v[i] == x {
            proof {
                assert(v@[i as int] == x);
            }
            return true;
        }
        i = i + 1;
    }
    false
}

/// Derives the module groups of `graph` from the entry modules at
/// `entry_indices`.
///
/// Group-membership law: for every group `g` and module `m`, membership
/// says exactly that `m` is statically reachable from the group's root;
/// and the roots are exactly the entries together with the live
/// dynamic-import targets, each listed once.
pub fn derive_module_groups(graph: &ModuleGraph, entry_indices: &Vec<usize>) -> (r: ModuleGroupGraph)
    requires
        graph.wf(),
        forall|i: int| 0 <= i < entry_indices@.len() ==> (#[trigger] entry_indices@[i]) < graph.modules@.len(),
    ensures
        r.wf(graph.modules@.len() as int),
        // exactly the group roots, each once
        forall|x: usize| r.roots@.contains(x) <==> is_group_root(graph.edges@, entry_indices@, x),
        // membership is static reachability from the root
        forall|g: int, m: int|
            0 <= g < r.roots@.len() && 0 <= m < graph.modules@.len() ==> (r.in_group(g, m) <==> reaches(
                graph.edges@,
                r.roots@[g] as int,
                m,
                false,
            )),
{
    let n = graph.modules.len();
    let live = reachable_set(&graph.edges, n, entry_indices, true);

    let mut roots: Vec<usize> = Vec::new();
    let mut i: usize = 0;
    while i < entry_indices.len()
        invariant
            i <= entry_indices@.len(),
            forall|j: int| 0 <= j < entry_indices@.len() ==> (#[trigger] entry_indices@[j]) < n,
            forall|t: int| 0 <= t < roots@.len() ==> (#[trigger] roots@[t]) < n,
            forall|a: int, b: int| 0 <= a < b < roots@.len() ==> roots@[a] != roots@[b],
            forall|x: usize|
                roots@.contains(x) <==> entry_indices@.take(i as int).contains(x),
        decreases entry_indices@.len() - i,
    {
        let e = entry_indices[i];
        let ghost roots0 = roots@;
        if !vec_contains_usize(&roots, e) {
            roots.push(e);
        }
        proof {
            broadcast use vstd::seq_lib::lemma_seq_contains_after_push;
            assert(entry_indices@.take(i + 1) =~= entry_indices@.take(i as int).push(
                entry_indices@[i as int],
            ));
            assert forall|a: int, b: int| 0 <= a < b < roots@.len() implies roots@[a] != roots@[b] by {
                if b == roots@.len() - 1 && roots@.len() > roots0.len() {
                    assert(roots@[a] == roots0[a]);
                    assert(roots0.contains(roots0[a]));
                }
            }
        }
        i = i + 1;
    }
    proof {
        assert(entry_indices@.take(entry_indices@.len() as int) =~= entry_indices@);
    }

    let mut k: usize = 0;
    while k < graph.edges.len()
        invariant
            k <= graph.edges@.len(),
            graph.wf(),
            n == graph.modules@.len(),
            live@.len() == n,
            forall|v: int|
                0 <= v < n ==> ((#[trigger] live@[v]) <==> reaches_any(
                    graph.edges@,
                    entry_indices@,
                    v,
                    true,
                )),
            forall|t: int| 0 <= t < roots@.len() ==> (#[trigger] roots@[t]) < n,
            forall|a: int, b: int| 0 <= a < b < roots@.len() ==> roots@[a] != roots@[b],
            forall|x: usize|
                roots@.contains(x) <==> (entry_indices@.contains(x) || exists|kk: int|
                    0 <= kk < k && (#[trigger] graph.edges@[kk]).kind is DynamicImport
                        && graph.edges@[kk].to == x && reaches_any(
                        graph.edges@,
                        entry_indices@,
                        graph.edges@[kk].from as int,
                        true,
                    )),
        decreases graph.edges@.len() - k,
    {
        let e_to = graph.edges[k].to;
        let e_from = graph.edges[k].from;
        let dynamic_edge = matches!(graph.edges[k].kind, crate::module::ResolveKind::DynamicImport);
        let ghost roots0 = roots@;
        if dynamic_edge && live[e_from] && !vec_contains_usize(&roots, e_to) {
            roots.push(e_to);
        }
        proof {
            broadcast use vstd::seq_lib::lemma_seq_contains_after_push;
            assert forall|a: int, b: int| 0 <= a < b < roots@.len() implies roots@[a] != roots@[b] by {
                if b == roots@.len() - 1 && roots@.len() > roots0.len() {
                    assert(roots@[a] == roots0[a]);
                    assert(roots0.contains(roots0[a]));
                }
            }
        }
        k = k + 1;
    }

    let mut membership: Vec<Vec<bool>> = Vec::new();
    let mut g: usize = 0;
    while g < roots.len()
        invariant
            g <= roots@.len(),
            graph.wf(),
            n == graph.modules@.len(),
            forall|t: int| 0 <= t < roots@.len() ==> (#[trigger] roots@[t]) < n,
            membership@.len() == g,
            forall|gg: int| 0 <= gg < g ==> (#[trigger] membership@[gg])@.len() == n,
            forall|gg: int, m: int|
                0 <= gg < g && 0 <= m < n ==> ((#[trigger] membership@[gg]@[m]) <==> reaches(
                    graph.edges@,
                    roots@[gg] as int,
                    m,
                    false,
                )),
        decreases roots@.len() - g,
    {
        let mut single: Vec<usize> = Vec::new();
        single.push(roots[g]);
        let row = reachable_set(&graph.edges, n, &single, false);
        proof {
            assert forall|m: int| 0 <= m < n implies ((#[trigger] row@[m]) <==> reaches(
                graph.edges@,
                roots@[g as int] as int,
                m,
                false,
            )) by {
                assert(single@[0] == roots@[g as int]);
                if reaches(graph.edges@, roots@[g as int] as int, m, false) {
                    assert(reaches_any(graph.edges@, single@, m, false));
                }
            }
        }
        membership.push(row);
        g = g + 1;
    }

    ModuleGroupGraph { roots, membership }
}

} // verus!
