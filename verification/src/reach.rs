//! Verified reachability over dependency edges.
//!
//! Group derivation and the update engine both need the set of modules
//! reachable from given roots, either along every edge or along static
//! edges only (stopping at dynamic-import boundaries).  This module defines
//! reachability as the existence of an edge path and provides a worklist
//! search whose result is proved equal to that definition, in both
//! directions.

use vstd::prelude::*;
use crate::module::ResolveKind;
use crate::module_graph::ModuleEdge;

verus! {

/// Whether a traversal may follow edge `e`: every edge when
/// `include_dynamic` holds, otherwise only non-dynamic edges.
pub open spec fn edge_enabled(e: ModuleEdge, include_dynamic: bool) -> bool {
    include_dynamic || !(e.kind is DynamicImport)
}

/// All edge endpoints name nodes below `n`.
pub open spec fn edges_wf(edges: Seq<ModuleEdge>, n: int) -> bool {
    forall|k: int|
        0 <= k < edges.len() ==> 0 <= (#[trigger] edges[k]).from < n && 0 <= edges[k].to < n
}

/// One enabled edge leads from `u` to `v`.
pub open spec fn step(edges: Seq<ModuleEdge>, u: int, v: int, include_dynamic: bool) -> bool {
    exists|k: int|
        0 <= k < edges.len() && (#[trigger] edges[k]).from == u && edges[k].to == v && edge_enabled(
            edges[k],
            include_dynamic,
        )
}

/// `p` is a non-empty node sequence whose consecutive elements are joined
/// by enabled edges.
pub open spec fn is_path(edges: Seq<ModuleEdge>, p: Seq<int>, include_dynamic: bool) -> bool {
    &&& p.len() >= 1
    &&& forall|t: int| 0 <= t < p.len() - 1 ==> step(edges, #[trigger] p[t], p[t + 1], include_dynamic)
}

/// `to` is reachable from `from` along enabled edges (in zero or more
/// steps).
pub open spec fn reaches(edges: Seq<ModuleEdge>, from: int, to: int, include_dynamic: bool) -> bool {
    exists|p: Seq<int>|
        #[trigger] is_path(edges, p, include_dynamic) && p[0] == from && p.last() == to
}

/// `to` is reachable from some root in `roots`.
pub open spec fn reaches_any(
    edges: Seq<ModuleEdge>,
    roots: Seq<usize>,
    to: int,
    include_dynamic: bool,
) -> bool {
    exists|i: int| 0 <= i < roots.len() && reaches(edges, #[trigger] roots[i] as int, to, include_dynamic)
}

/// Every node is reachable from itself.
pub proof fn lemma_reaches_refl(edges: Seq<ModuleEdge>, x: int, include_dynamic: bool)
    ensures
        reaches(edges, x, x, include_dynamic),
{
    let p = seq![x];
    assert(is_path(edges, p, include_dynamic));
    assert(p[0] == x && p.last() == x);
}

/// Reachability extends along one more enabled edge.
pub proof fn lemma_reaches_step(edges: Seq<ModuleEdge>, a: int, b: int, c: int, include_dynamic: bool)
    requires
        reaches(edges, a, b, include_dynamic),
        step(edges, b, c, include_dynamic),
    ensures
        reaches(edges, a, c, include_dynamic),
{
    let p = choose|p: Seq<int>|
        #[trigger] is_path(edges, p, include_dynamic) && p[0] == a && p.last() == b;
    let q = p.push(c);
    assert forall|t: int| 0 <= t < q.len() - 1 implies step(
        edges,
        #[trigger] q[t],
        q[t + 1],
        include_dynamic,
    ) by {
        if t < p.len() - 1 {
            assert(q[t] == p[t] && q[t + 1] == p[t + 1]);
            assert(step(edges, p[t], p[t + 1], include_dynamic));
        } else {
            assert(q[t] == p.last() && q[t + 1] == c);
        }
    }
    assert(is_path(edges, q, include_dynamic));
    assert(q[0] == a && q.last() == c);
}

/// Two edge sequences with the same enabled steps reach the same pairs.
pub proof fn lemma_reaches_equiv(
    e1: Seq<ModuleEdge>,
    e2: Seq<ModuleEdge>,
    from: int,
    to: int,
    i1: bool,
    i2: bool,
)
    requires
        forall|u: int, v: int|
            #![trigger step(e1, u, v, i1)]
            #![trigger step(e2, u, v, i2)]
            step(e1, u, v, i1) <==> step(e2, u, v, i2),
    ensures
        reaches(e1, from, to, i1) <==> reaches(e2, from, to, i2),
{
    if reaches(e1, from, to, i1) {
        let p = choose|p: Seq<int>|
            #[trigger] is_path(e1, p, i1) && p[0] == from && p.last() == to;
        assert forall|t: int| 0 <= t < p.len() - 1 implies step(e2, #[trigger] p[t], p[t + 1], i2) by {
            assert(step(e1, p[t], p[t + 1], i1));
        }
        assert(is_path(e2, p, i2));
    }
    if reaches(e2, from, to, i2) {
        let p = choose|p: Seq<int>|
            #[trigger] is_path(e2, p, i2) && p[0] == from && p.last() == to;
        assert forall|t: int| 0 <= t < p.len() - 1 implies step(e1, #[trigger] p[t], p[t + 1], i1) by {
            assert(step(e2, p[t], p[t + 1], i2));
        }
        assert(is_path(e1, p, i1));
    }
}

/// A visited vector is closed when no enabled edge leaves it.
pub open spec fn closed(edges: Seq<ModuleEdge>, vis: Seq<bool>, include_dynamic: bool) -> bool {
    forall|k: int|
        0 <= k < edges.len() && edge_enabled(#[trigger] edges[k], include_dynamic) && 0 <= edges[k].from
            < vis.len() && vis[edges[k].from as int] ==> 0 <= edges[k].to < vis.len()
            && vis[edges[k].to as int]
}

/// Any path starting inside a closed visited vector ends inside it.
pub proof fn lemma_closed_path(
    edges: Seq<ModuleEdge>,
    vis: Seq<bool>,
    p: Seq<int>,
    include_dynamic: bool,
)
    requires
        is_path(edges, p, include_dynamic),
        0 <= p[0] < vis.len(),
        vis[p[0]],
        closed(edges, vis, include_dynamic),
    ensures
        0 <= p.last() < vis.len(),
        vis[p.last()],
    decreases p.len(),
{
    if p.len() > 1 {
        assert(step(edges, p[0], p[1], include_dynamic));
        let k = choose|k: int|
            0 <= k < edges.len() && (#[trigger] edges[k]).from == p[0] && edges[k].to == p[1]
                && edge_enabled(edges[k], include_dynamic);
        assert(0 <= p[1] < vis.len() && vis[p[1]]);
        let q = p.subrange(1, p.len() as int);
        assert forall|t: int| 0 <= t < q.len() - 1 implies step(
            edges,
            #[trigger] q[t],
            q[t + 1],
            include_dynamic,
        ) by {
            assert(q[t] == p[t + 1] && q[t + 1] == p[t + 2]);
            assert(step(edges, p[t + 1], p[t + 1 + 1], include_dynamic));
        }
        assert(is_path(edges, q, include_dynamic));
        lemma_closed_path(edges, vis, q, include_dynamic);
        assert(q.last() == p.last());
    }
}

/// Number of `true` entries.
pub open spec fn count_true(s: Seq<bool>) -> nat
    decreases s.len(),
{
    if s.len() == 0 {
        0
    } else {
        count_true(s.drop_last()) + (if s.last() {
            1nat
        } else {
            0nat
        })
    }
}

pub proof fn lemma_count_true_le(s: Seq<bool>)
    ensures
        count_true(s) <= s.len(),
    decreases s.len(),
{
    if s.len() > 0 {
        lemma_count_true_le(s.drop_last());
    }
}

pub proof fn lemma_count_true_update(s: Seq<bool>, i: int)
    requires
        0 <= i < s.len(),
        !s[i],
    ensures
        count_true(s.update(i, true)) == count_true(s) + 1,
    decreases s.len(),
{
    let u = s.update(i, true);
    if i == s.len() - 1 {
        assert(u.drop_last() =~= s.drop_last());
    } else {
        assert(u.drop_last() =~= s.drop_last().update(i, true));
        lemma_count_true_update(s.drop_last(), i);
        assert(u.last() == s.last());
    }
}

/// The pending stack and visited vector stand in the worklist relation:
/// stacked nodes are visited and in range, and any visited node that is no
/// longer stacked has all its enabled successors visited.
pub open spec fn worklist_inv(
    edges: Seq<ModuleEdge>,
    vis: Seq<bool>,
    stack: Seq<usize>,
    include_dynamic: bool,
) -> bool {
    &&& forall|t: int| 0 <= t < stack.len() ==> (#[trigger] stack[t]) < vis.len() && vis[stack[t] as int]
    &&& forall|k: int|
        0 <= k < edges.len() && edge_enabled(#[trigger] edges[k], include_dynamic) && 0 <= edges[k].from
            < vis.len() && vis[edges[k].from as int] && !stack.contains(edges[k].from)
            ==> 0 <= edges[k].to < vis.len() && vis[edges[k].to as int]
}

proof fn lemma_contains_drop_last<A>(s: Seq<A>, x: A)
    requires
        s.len() > 0,
        s.contains(x),
        x != s.last(),
    ensures
        s.drop_last().contains(x),
{
    let i = s.lemma_contains_to_index(x);
    assert(s.drop_last()[i] == x);
}

/// Computes the set of nodes reachable from `roots`: entry `v` of the
/// result is true exactly when some root reaches `v` along enabled edges.
pub fn reachable_set(edges: &Vec<ModuleEdge>, n: usize, roots: &Vec<usize>, include_dynamic: bool) -> (r:
    Vec<bool>)
    requires
        edges_wf(edges@, n as int),
        forall|i: int| 0 <= i < roots@.len() ==> (#[trigger] roots@[i]) < n,
    ensures
        r@.len() == n,
        forall|v: int|
            0 <= v < n ==> ((#[trigger] r@[v]) <==> reaches_any(edges@, roots@, v, include_dynamic)),
{
    broadcast use vstd::seq_lib::lemma_seq_contains_after_push;

    let mut visited: Vec<bool> = Vec::new();
    let mut i: usize = 0;
    while i < n
        invariant
            i <= n,
            visited@.len() == i,
            forall|v: int| 0 <= v < i ==> !(#[trigger] visited@[v]),
        decreases n - i,
    {
        visited.push(false);
        i = i + 1;
    }

    let mut stack: Vec<usize> = Vec::new();
    let mut j: usize = 0;
    while j < roots.len()
        invariant
            j <= roots@.len(),
            visited@.len() == n,
            edges_wf(edges@, n as int),
            forall|i: int| 0 <= i < roots@.len() ==> (#[trigger] roots@[i]) < n,
            worklist_inv(edges@, visited@, stack@, include_dynamic),
            forall|v: int|
                0 <= v < n && (#[trigger] visited@[v]) ==> reaches_any(
                    edges@,
                    roots@,
                    v,
                    include_dynamic,
                ),
            forall|t: int| 0 <= t < j ==> visited@[(#[trigger] roots@[t]) as int],
        decreases roots@.len() - j,
    {
        let root = roots[j];
        if !visited[root] {
            let ghost vis0 = visited@;
            let ghost stack0 = stack@;
            visited[root] = true;
            stack.push(root);
            proof {
                lemma_reaches_refl(edges@, root as int, include_dynamic);
                assert(reaches_any(edges@, roots@, root as int, include_dynamic));
                assert(stack@[stack@.len() - 1] == root);
                assert(stack@.contains(root));
                assert forall|k: int|
                    0 <= k < edges@.len() && edge_enabled(#[trigger] edges@[k], include_dynamic)
                        && 0 <= edges@[k].from < n && visited@[edges@[k].from as int]
                        && !stack@.contains(edges@[k].from) implies visited@[edges@[k].to as int] by {
                    assert(edges@[k].from != root);
                    if stack0.contains(edges@[k].from) {
                        let t = stack0.lemma_contains_to_index(edges@[k].from);
                        assert(stack@[t] == edges@[k].from);
                        assert(stack@.contains(edges@[k].from));
                    }
                    assert(vis0[edges@[k].from as int]);
                }
            }
        }
        j = j + 1;
    }

    while stack.len() > 0
        invariant
            visited@.len() == n,
            edges_wf(edges@, n as int),
            forall|i: int| 0 <= i < roots@.len() ==> (#[trigger] roots@[i]) < n,
            worklist_inv(edges@, visited@, stack@, include_dynamic),
            forall|v: int|
                0 <= v < n && (#[trigger] visited@[v]) ==> reaches_any(
                    edges@,
                    roots@,
                    v,
                    include_dynamic,
                ),
            forall|t: int| 0 <= t < roots@.len() ==> visited@[(#[trigger] roots@[t]) as int],
        decreases (n - count_true(visited@)), stack@.len(),
    {
        proof {
            lemma_count_true_le(visited@);
        }
        let ghost cnt0 = count_true(visited@);
        let ghost prev_stack = stack@;
        let u = stack.pop().unwrap();
        let ghost stack0 = stack@;
        proof {
            assert forall|k: int|
                0 <= k < edges@.len() && edge_enabled(#[trigger] edges@[k], include_dynamic)
                    && 0 <= edges@[k].from < n && visited@[edges@[k].from as int]
                    && !stack@.contains(edges@[k].from) && edges@[k].from != u implies visited@[edges@[k].to as int] by {
                if prev_stack.contains(edges@[k].from) {
                    lemma_contains_drop_last(prev_stack, edges@[k].from);
                }
            }
        }
        let mut k: usize = 0;
        while k < edges.len()
            invariant
                visited@.len() == n,
                edges_wf(edges@, n as int),
                forall|i: int| 0 <= i < roots@.len() ==> (#[trigger] roots@[i]) < n,
                u < n,
                visited@[u as int],
                k <= edges@.len(),
                forall|t: int|
                    0 <= t < stack@.len() ==> (#[trigger] stack@[t]) < n && visited@[stack@[t] as int],
                forall|v: int|
                    0 <= v < n && (#[trigger] visited@[v]) ==> reaches_any(
                        edges@,
                        roots@,
                        v,
                        include_dynamic,
                    ),
                forall|t: int| 0 <= t < roots@.len() ==> visited@[(#[trigger] roots@[t]) as int],
                // the worklist relation, weakened at `u` to the edges
                // already handled
                forall|kk: int|
                    0 <= kk < edges@.len() && edge_enabled(#[trigger] edges@[kk], include_dynamic)
                        && 0 <= edges@[kk].from < n && visited@[edges@[kk].from as int]
                        && !stack@.contains(edges@[kk].from) && edges@[kk].from != u
                        ==> visited@[edges@[kk].to as int],
                forall|kk: int|
                    0 <= kk < k && edges@[kk].from == u && edge_enabled(
                        #[trigger] edges@[kk],
                        include_dynamic,
                    ) ==> visited@[edges@[kk].to as int],
                // progress accounting for the outer termination measure
                count_true(visited@) >= cnt0,
                count_true(visited@) == cnt0 ==> stack@ == stack0,
            decreases edges@.len() - k,
        {
            let e_from = edges[k].from;
            let e_to = edges[k].to;
            let dynamic_edge = matches!(edges[k].kind, ResolveKind::DynamicImport);
            if e_from == u && (include_dynamic || !dynamic_edge) && !visited[e_to] {
                let ghost vis0 = visited@;
                let ghost stack1 = stack@;
                proof {
                    lemma_count_true_update(visited@, e_to as int);
                    assert(reaches_any(edges@, roots@, u as int, include_dynamic));
                    let i0 = choose|i: int|
                        0 <= i < roots@.len() && reaches(
                            edges@,
                            #[trigger] roots@[i] as int,
                            u as int,
                            include_dynamic,
                        );
                    assert(edge_enabled(edges@[k as int], include_dynamic));
                    assert(step(edges@, u as int, e_to as int, include_dynamic));
                    lemma_reaches_step(
                        edges@,
                        roots@[i0] as int,
                        u as int,
                        e_to as int,
                        include_dynamic,
                    );
                    assert(reaches_any(edges@, roots@, e_to as int, include_dynamic));
                }
                visited[e_to] = true;
                stack.push(e_to);
                proof {
                    assert(stack@[stack@.len() - 1] == e_to);
                    assert(stack@.contains(e_to));
                    assert forall|kk: int|
                        0 <= kk < edges@.len() && edge_enabled(#[trigger] edges@[kk], include_dynamic)
                            && 0 <= edges@[kk].from < n && visited@[edges@[kk].from as int]
                            && !stack@.contains(edges@[kk].from) && edges@[kk].from != u
                            implies visited@[edges@[kk].to as int] by {
                        assert(edges@[kk].from != e_to);
                        if stack1.contains(edges@[kk].from) {
                            let t = stack1.lemma_contains_to_index(edges@[kk].from);
                            assert(stack@[t] == edges@[kk].from);
                            assert(stack@.contains(edges@[kk].from));
                        }
                        assert(vis0[edges@[kk].from as int]);
                    }
                    assert forall|t: int| 0 <= t < roots@.len() implies visited@[roots@[t] as int] by {
                        if roots@[t] != e_to {
                            assert(vis0[roots@[t] as int]);
                        }
                    }
                }
            }
            k = k + 1;
        }
        proof {
            lemma_count_true_le(visited@);
            // restore the full worklist relation: every edge of `u` has
            // been handled
            assert forall|kk: int|
                0 <= kk < edges@.len() && edge_enabled(#[trigger] edges@[kk], include_dynamic)
                    && 0 <= edges@[kk].from < n && visited@[edges@[kk].from as int]
                    && !stack@.contains(edges@[kk].from) implies visited@[edges@[kk].to as int] by {
            }
        }
    }

    proof {
        assert forall|v: int| 0 <= v < n implies ((#[trigger] visited@[v]) <==> reaches_any(
            edges@,
            roots@,
            v,
            include_dynamic,
        )) by {
            if reaches_any(edges@, roots@, v, include_dynamic) {
                let i = choose|i: int|
                    0 <= i < roots@.len() && reaches(
                        edges@,
                        #[trigger] roots@[i] as int,
                        v,
                        include_dynamic,
                    );
                let p = choose|p: Seq<int>|
                    #[trigger] is_path(edges@, p, include_dynamic) && p[0] == roots@[i] as int
                        && p.last() == v;
                assert(p[0] == roots@[i] as int && 0 <= p[0] < n && visited@[p[0]]);
                lemma_closed_path(edges@, visited@, p, include_dynamic);
            }
        }
    }
    visited
}

} // verus!
