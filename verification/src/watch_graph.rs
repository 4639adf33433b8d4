//! The watch graph.
//!
//! Nodes are plain file paths, not constrained by module resolution; an
//! edge from `a` to `b` records that file `b` was consulted while producing
//! `a` (a preprocessor import, for example).  The update engine uses the
//! graph to invalidate modules whose inputs are not themselves modules.

use vstd::prelude::*;
use crate::module::ResolveKind;
use crate::module_graph::ModuleEdge;
use crate::reach::{lemma_reaches_equiv, reachable_set, reaches, reaches_any, step};

verus! {

/// Secondary graph of ancillary files observed during builds.
pub struct WatchGraph {
    pub nodes: Vec<String>,
    /// Directed edges by node index: `(from, to)` says `from` consulted
    /// `to`.
    pub edges: Vec<(usize, usize)>,
}

/// Some edge records that the file at path `q` consulted the file at
/// path `p`.
pub open spec fn is_direct_dependent(g: &WatchGraph, q: Seq<char>, p: Seq<char>) -> bool {
    exists|k: int|
        0 <= k < g.edges@.len() && g.nodes@[(#[trigger] g.edges@[k]).0 as int]@ == q
            && g.nodes@[g.edges@[k].1 as int]@ == p
}

/// A consulted-by fact survives any extension of the graph that keeps the
/// existing nodes and edges in place.
pub proof fn lemma_dependent_preserved(g1: &WatchGraph, g2: &WatchGraph, q: Seq<char>, p: Seq<char>)
    requires
        g1.wf(),
        g1.edges@.len() <= g2.edges@.len(),
        forall|k: int| 0 <= k < g1.edges@.len() ==> (#[trigger] g2.edges@[k]) == g1.edges@[k],
        g1.nodes@.len() <= g2.nodes@.len(),
        forall|k: int| 0 <= k < g1.nodes@.len() ==> (#[trigger] g2.nodes@[k])@ == g1.nodes@[k]@,
        is_direct_dependent(g1, q, p),
    ensures
        is_direct_dependent(g2, q, p),
{
    let k = choose|k: int|
        0 <= k < g1.edges@.len() && g1.nodes@[(#[trigger] g1.edges@[k]).0 as int]@ == q
            && g1.nodes@[g1.edges@[k].1 as int]@ == p;
    assert(g2.edges@[k] == g1.edges@[k]);
    assert(g2.nodes@[g2.edges@[k].0 as int]@ == q && g2.nodes@[g2.edges@[k].1 as int]@ == p);
}

/// Whether the node list holds a path equal to `p`.
pub open spec fn contains_path(nodes: Seq<String>, p: Seq<char>) -> bool {
    exists|i: int| 0 <= i < nodes.len() && nodes[i]@ == p
}

impl WatchGraph {
    /// Invariant: node paths are distinct and edges stay in range.
    pub open spec fn wf(&self) -> bool {
        &&& forall|i: int, j: int| 0 <= i < j < self.nodes@.len() ==> self.nodes@[i]@ != self.nodes@[j]@
        &&& forall|k: int|
            0 <= k < self.edges@.len() ==> (#[trigger] self.edges@[k]).0 < self.nodes@.len()
                && self.edges@[k].1 < self.nodes@.len()
    }

    /// An empty watch graph.
    pub fn new() -> (r: WatchGraph)
        ensures
            r.wf(),
            r.nodes@.len() == 0,
            r.edges@.len() == 0,
    {
        WatchGraph { nodes: Vec::new(), edges: Vec::new() }
    }

    /// Finds the index of the node with path `p`.
    pub fn index_of(&self, p: &str) -> (r: Option<usize>)
        ensures
            match r {
                Some(i) => i < self.nodes@.len() && self.nodes@[i as int]@ == p@,
                None => !contains_path(self.nodes@, p@),
            },
    {
        let mut i: usize = 0;
        while i < self.nodes.len()
            invariant
                i <= self.nodes@.len(),
                forall|j: int| 0 <= j < i ==> self.nodes@[j]@ != p@,
            decreases self.nodes@.len() - i,
        {
            if crate::paths::str_eq(self.nodes[i].as_str(), p) {
                return Some(i);
            }
            i = i + 1;
        }
        None
    }

    /// Whether the path is watched.
    pub fn has_module(&self, p: &str) -> (r: bool)
        ensures
            r == contains_path(self.nodes@, p@),
    {
        match self.index_of(p) {
            Some(_) => true,
            None => false,
        }
    }

    /// The watched paths.
    pub fn modules(&self) -> (r: &Vec<String>)
        ensures
            r@ == self.nodes@,
    {
        &self.nodes
    }

    /// Adds a node unless the path is already watched; returns its index.
    pub fn add_node(&mut self, p: String) -> (r: usize)
        requires
            old(self).wf(),
        ensures
            final(self).wf(),
            final(self).edges@ == old(self).edges@,
            r < final(self).nodes@.len(),
            final(self).nodes@[r as int]@ == p@,
            contains_path(old(self).nodes@, p@) ==> final(self).nodes@ == old(self).nodes@,
            !contains_path(old(self).nodes@, p@) ==> final(self).nodes@ == old(self).nodes@.push(p),
    {
        match self.index_of(p.as_str()) {
            Some(i) => i,
            None => {
                let r = self.nodes.len();
                self.nodes.push(p);
                proof {
                    assert forall|i: int, j: int| 0 <= i < j < self.nodes@.len() implies self.nodes@[i]@
                        != self.nodes@[j]@ by {
                        if j < self.nodes@.len() - 1 {
                            assert(old(self).nodes@[i]@ != old(self).nodes@[j]@);
                        } else {
                            assert(self.nodes@[i]@ == old(self).nodes@[i]@);
                        }
                    }
                }
                r
            },
        }
    }

    /// Records that `from` consulted `to`; both paths must already be
    /// watched, otherwise nothing changes and `false` is returned.
    pub fn add_edge(&mut self, from: &str, to: &str) -> (r: bool)
        requires
            old(self).wf(),
        ensures
            final(self).wf(),
            final(self).nodes@ == old(self).nodes@,
            r == (contains_path(old(self).nodes@, from@) && contains_path(old(self).nodes@, to@)),
            !r ==> final(self).edges@ == old(self).edges@,
            r ==> final(self).edges@.len() == old(self).edges@.len() + 1
                && final(self).edges@ == old(self).edges@.push(final(self).edges@.last())
                && old(self).nodes@[final(self).edges@.last().0 as int]@ == from@
                && old(self).nodes@[final(self).edges@.last().1 as int]@ == to@,
    {
        let fi = match self.index_of(from) {
            Some(i) => i,
            None => {
                return false;
            },
        };
        let ti = match self.index_of(to) {
            Some(i) => i,
            None => {
                return false;
            },
        };
        self.edges.push((fi, ti));
        true
    }

    /// The paths of the direct dependents of `p`: every watched file that
    /// consulted `p`.
    pub fn relation_roots(&self, p: &str) -> (r: Vec<String>)
        requires
            self.wf(),
        ensures
            forall|t: int|
                0 <= t < r@.len() ==> is_direct_dependent(self, (#[trigger] r@[t])@, p@),
            // and completely: every recorded dependent of `p` is returned
            forall|k: int|
                0 <= k < self.edges@.len() && self.nodes@[(#[trigger] self.edges@[k]).1 as int]@
                    == p@ ==> crate::paths::holds_string(r@, self.nodes@[self.edges@[k].0 as int]@),
    {
        let mut out: Vec<String> = Vec::new();
        let target = match self.index_of(p) {
            Some(i) => i,
            None => {
                proof {
                    assert forall|k: int|
                        0 <= k < self.edges@.len() && self.nodes@[(#[trigger] self.edges@[k]).1 as int]@
                            == p@ implies crate::paths::holds_string(
                        out@,
                        self.nodes@[self.edges@[k].0 as int]@,
                    ) by {
                        assert(contains_path(self.nodes@, p@));
                    }
                }
                return out;
            },
        };
        let mut k: usize = 0;
        while k < self.edges.len()
            invariant
                self.wf(),
                k <= self.edges@.len(),
                target < self.nodes@.len(),
                self.nodes@[target as int]@ == p@,
                forall|t: int|
                    0 <= t < out@.len() ==> is_direct_dependent(self, (#[trigger] out@[t])@, p@),
                forall|kk: int|
                    0 <= kk < k && (#[trigger] self.edges@[kk]).1 == target
                        ==> crate::paths::holds_string(out@, self.nodes@[self.edges@[kk].0 as int]@),
            decreases self.edges@.len() - k,
        {
            let ghost out_before = out@;
            if self.edges[k].1 == target {
                let ghost kw = k as int;
                out.push(self.nodes[self.edges[k].0].clone());
                proof {
                    assert forall|t: int| 0 <= t < out@.len() implies is_direct_dependent(
                        self,
                        (#[trigger] out@[t])@,
                        p@,
                    ) by {
                        if t == out@.len() - 1 {
                            assert(self.nodes@[self.edges@[kw].0 as int]@ == out@[t]@
                                && self.nodes@[self.edges@[kw].1 as int]@ == p@);
                        } else {
                            assert(out@[t] == out@.drop_last()[t]);
                            assert(is_direct_dependent(self, out@.drop_last()[t]@, p@));
                        }
                    }
                }
            }
            proof {
                assert forall|kk: int|
                    0 <= kk < k + 1 && (#[trigger] self.edges@[kk]).1 == target
                    implies crate::paths::holds_string(out@, self.nodes@[self.edges@[kk].0 as int]@) by {
                    if kk < k && crate::paths::holds_string(
                        out_before,
                        self.nodes@[self.edges@[kk].0 as int]@,
                    ) {
                        let w = choose|w: int|
                            0 <= w < out_before.len() && out_before[w]@
                                == self.nodes@[self.edges@[kk].0 as int]@;
                        assert(out@[w]@ == self.nodes@[self.edges@[kk].0 as int]@);
                    }
                    if kk == k {
                        assert(out@[out@.len() - 1]@ == self.nodes@[self.edges@[kk].0 as int]@);
                    }
                }
            }
            k = k + 1;
        }
        proof {
            assert forall|k: int|
                0 <= k < self.edges@.len() && self.nodes@[(#[trigger] self.edges@[k]).1 as int]@
                    == p@ implies crate::paths::holds_string(
                out@,
                self.nodes@[self.edges@[k].0 as int]@,
            ) by {
                // distinct node paths force the edge to end at the found
                // index
                assert(self.edges@[k].1 == target);
            }
        }
        out
    }

    /// The watch graph's edges reversed: along them, every file that
    /// consulted `p` is reachable from `p`.
    pub open spec fn rev_view(&self) -> Seq<ModuleEdge> {
        Seq::new(
            self.edges@.len(),
            |k: int|
                ModuleEdge {
                    from: self.edges@[k].1,
                    to: self.edges@[k].0,
                    source: vstd::pervasive::arbitrary(),
                    kind: ResolveKind::Import,
                    order: 0,
                },
        )
    }

    /// Indices of every watched file that consulted `p`, directly or
    /// transitively: the invalidation set of `p` within the watch graph.
    /// A watched file is in the set exactly when it is reachable from `p`
    /// along reversed consulted-by edges.
    pub fn dependents_closure(&self, p: &str) -> (r: Vec<bool>)
        requires
            self.wf(),
        ensures
            r@.len() == self.nodes@.len(),
            forall|v: int, i: int|
                #![trigger r@[v], self.nodes@[i]]
                0 <= v < self.nodes@.len() && 0 <= i < self.nodes@.len() && self.nodes@[i]@ == p@
                    ==> (r@[v] <==> reaches(self.rev_view(), i, v, true)),
            !contains_path(self.nodes@, p@) ==> forall|v: int|
                0 <= v < self.nodes@.len() ==> !(#[trigger] r@[v]),
    {
        let n = self.nodes.len();
        let mut rev: Vec<ModuleEdge> = Vec::new();
        let mut k: usize = 0;
        while k < self.edges.len()
            invariant
                self.wf(),
                k <= self.edges@.len(),
                n == self.nodes@.len(),
                rev@.len() == k,
                forall|t: int|
                    0 <= t < rev@.len() ==> (#[trigger] rev@[t]).from < n && rev@[t].to < n
                        && rev@[t].from == self.edges@[t].1 && rev@[t].to == self.edges@[t].0
                        && !(rev@[t].kind is DynamicImport),
            decreases self.edges@.len() - k,
        {
            rev.push(
                ModuleEdge {
                    from: self.edges[k].1,
                    to: self.edges[k].0,
                    source: String::new(),
                    kind: ResolveKind::Import,
                    order: 0,
                },
            );
            proof {
                assert forall|t: int| 0 <= t < rev@.len() implies (#[trigger] rev@[t]).from < n
                    && rev@[t].to < n && rev@[t].from == self.edges@[t].1 && rev@[t].to
                    == self.edges@[t].0 && !(rev@[t].kind is DynamicImport) by {
                    if t < rev@.len() - 1 {
                        assert(rev@[t] == rev@.drop_last()[t]);
                    }
                }
            }
            k = k + 1;
        }
        proof {
            // the built edges step exactly like the spec-level reversal
            assert forall|u: int, v: int|
                #![trigger step(rev@, u, v, true)]
                #![trigger step(self.rev_view(), u, v, true)]
                step(rev@, u, v, true) <==> step(self.rev_view(), u, v, true) by {
                if step(rev@, u, v, true) {
                    let kk = choose|kk: int|
                        0 <= kk < rev@.len() && (#[trigger] rev@[kk]).from == u && rev@[kk].to == v
                            && crate::reach::edge_enabled(rev@[kk], true);
                    assert(self.rev_view()[kk].from == u && self.rev_view()[kk].to == v);
                }
                if step(self.rev_view(), u, v, true) {
                    let kk = choose|kk: int|
                        0 <= kk < self.rev_view().len() && (#[trigger] self.rev_view()[kk]).from == u
                            && self.rev_view()[kk].to == v && crate::reach::edge_enabled(
                            self.rev_view()[kk],
                            true,
                        );
                    assert(rev@[kk].from == u && rev@[kk].to == v);
                }
            }
        }
        let mut roots: Vec<usize> = Vec::new();
        match self.index_of(p) {
            Some(i) => {
                roots.push(i);
            },
            None => {},
        }
        let out = reachable_set(&rev, n, &roots, true);
        proof {
            if roots@.len() == 1 {
                let i0 = roots@[0] as int;
                assert forall|v: int, i: int|
                    #![trigger out@[v], self.nodes@[i]]
                    0 <= v < n && 0 <= i < n && self.nodes@[i]@ == p@ implies (out@[v] <==> reaches(
                    self.rev_view(),
                    i,
                    v,
                    true,
                )) by {
                    // node paths are distinct, so `i` is the index found
                    assert(i == i0);
                    lemma_reaches_equiv(rev@, self.rev_view(), i0, v, true, true);
                    if out@[v] {
                        assert(reaches_any(rev@, roots@, v, true));
                        let w = choose|w: int|
                            0 <= w < roots@.len() && reaches(rev@, #[trigger] roots@[w] as int, v, true);
                        assert(w == 0);
                    }
                    if reaches(self.rev_view(), i, v, true) {
                        assert(reaches(rev@, i0, v, true));
                        assert(reaches_any(rev@, roots@, v, true));
                    }
                }
            } else {
                assert(!contains_path(self.nodes@, p@));
                assert forall|v: int| 0 <= v < n implies !(#[trigger] out@[v]) by {
                    if out@[v] {
                        let w = choose|w: int|
                            0 <= w < roots@.len() && reaches(rev@, #[trigger] roots@[w] as int, v, true);
                    }
                }
            }
        }
        out
    }
}

} // verus!
