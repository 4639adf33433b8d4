//! The incremental update engine.
//!
//! On a batch of changed paths, the engine computes the affected module
//! set — the module whose resolved path matches each changed path, plus
//! every module that transitively consulted the path through the watch
//! graph — invalidates their cache entries, re-runs the per-module work
//! unit on them, re-resolves their dependencies, and recomputes groups and
//! resource pots.  Modules left unreachable from the entries are reported
//! as removed.

use vstd::prelude::*;
use crate::compiler::{ctx_wf, Compiler, MAX_BUILD_STEPS};
use crate::context::CompilationContext;
use crate::error::CompilationError;
use crate::module::{id_matches, Mode, Module, ModuleId};
use crate::bundling::{eligible, pot_well_formed, pots_occ};
use crate::module_group::{group_graph_law, vec_contains_usize};
use crate::plugin::Plugin;
use crate::reach::{reaches, reachable_set};
use crate::resource_pot::ResourcePotType;

verus! {

/// Module `i`'s identity is the bare id of `path` under the project root:
/// the normalized path made relative to the root, with an empty query.
pub open spec fn bare_id_matches<P>(c: &CompilationContext<P>, path: Seq<char>, i: int) -> bool {
    &&& c.module_graph.modules@[i].id.relative_path@ == crate::paths::relative_view(
        crate::paths::normalized_view(path),
        crate::paths::normalized_view(c.config.root@),
    )
    &&& c.module_graph.modules@[i].id.query@.len() == 0
}

/// A change to `path` affects module `i`: the module's identity is the
/// bare id of the path itself, or of a watched file that consulted the
/// path, directly or transitively.
pub open spec fn module_affected_by<P>(c: &CompilationContext<P>, path: Seq<char>, i: int) -> bool {
    ||| bare_id_matches(c, path, i)
    ||| exists|s: int, w: int|
        #![trigger c.watch_graph.nodes@[s], c.watch_graph.nodes@[w]]
        0 <= s < c.watch_graph.nodes@.len() && 0 <= w < c.watch_graph.nodes@.len()
            && c.watch_graph.nodes@[s]@ == path && reaches(c.watch_graph.rev_view(), s, w, true)
            && bare_id_matches(c, c.watch_graph.nodes@[w]@, i)
}

/// `af` enumerates, without duplicates, exactly the modules of `c`
/// affected by some updated or removed path of the batch; a path
/// classified as added does not invalidate anything.
pub open spec fn affected_set_of<P>(
    c: &CompilationContext<P>,
    paths: Seq<(String, UpdateType)>,
    af: Seq<usize>,
) -> bool {
    &&& forall|j: int| 0 <= j < af.len() ==> (#[trigger] af[j]) < c.module_graph.modules@.len()
    &&& forall|j1: int, j2: int| 0 <= j1 < j2 < af.len() ==> af[j1] != af[j2]
    &&& forall|i: usize|
        (i as int) < c.module_graph.modules@.len() ==> (af.contains(i) <==> exists|p: int|
            0 <= p < paths.len() && !((#[trigger] paths[p]).1 is Added) && module_affected_by(
                c,
                paths[p].0@,
                i as int,
            ))
}

/// Module `ci` accepts a hot update: it is an entry module, or it carries
/// the self-accept flag.
pub open spec fn accepts_update(graph: &crate::module_graph::ModuleGraph, ci: int) -> bool {
    graph.modules@[ci].hmr_self_accepted || exists|e: int|
        0 <= e < graph.entries@.len() && id_matches(
            &(#[trigger] graph.entries@[e]).id,
            &graph.modules@[ci].id,
        )
}

/// The accept chain holds exactly one module, present in the graph and
/// accepting hot updates.
pub open spec fn chain_is_accepting(graph: &crate::module_graph::ModuleGraph, chain: Seq<ModuleId>) -> bool {
    chain.len() == 1 && exists|ci: int|
        0 <= ci < graph.modules@.len() && id_matches(
            &chain[0],
            &(#[trigger] graph.modules@[ci]).id,
        ) && accepts_update(graph, ci)
}

/// The (resource name, tag) row names a stored resource pot, with the tag
/// kind its type calls for.
pub open spec fn row_names_pot(
    pots: Seq<crate::resource_pot::ResourcePot>,
    row: (String, String),
) -> bool {
    exists|t: int|
        0 <= t < pots.len() && (#[trigger] pots[t]).id@ == row.0@ && row.1@ == html_tag_view(
            &pots[t].resource_pot_type,
        )
}

/// How a changed path changed.
#[derive(Clone, Copy, PartialEq, Eq, Structural, Debug)]
pub enum UpdateType {
    Added,
    Updated,
    Removed,
}

/// Watch-list changes produced by an update.
#[derive(Debug)]
pub struct WatchDiffResult {
    pub add: Vec<String>,
    pub remove: Vec<String>,
}

/// What one update did: the touched module ids, the regenerated resources,
/// the hot-update boundaries and the dynamic-resource table.
pub struct UpdateResult {
    pub added_module_ids: Vec<ModuleId>,
    pub updated_module_ids: Vec<ModuleId>,
    pub removed_module_ids: Vec<ModuleId>,
    /// The names of the regenerated resources, as one bracketed,
    /// comma-separated list.
    pub resources: String,
    /// For each updated module, the accept chains that cover it; each
    /// chain ends at a module that accepts the update (an entry, or a
    /// module with self-accept semantics).
    pub boundaries: Vec<(ModuleId, Vec<Vec<ModuleId>>)>,
    /// For each entry, the resources of its dynamic-import groups with
    /// their html tag kind.
    pub dynamic_resources_map: Option<Vec<(ModuleId, Vec<(String, String)>)>>,
    pub extra_watch_result: WatchDiffResult,
}

/// An update result with module ids rendered for the host.
pub struct JsUpdateResult {
    pub added: Vec<String>,
    pub changed: Vec<String>,
    pub removed: Vec<String>,
    pub modules: String,
    pub boundaries: Vec<(String, Vec<Vec<String>>)>,
    pub dynamic_resources_map: Option<Vec<(String, Vec<Vec<String>>)>>,
    pub extra_watch_result: WatchDiffResult,
}

/// The tag kind the host uses to load a resource of type `ty`.
pub open spec fn html_tag_view(ty: &ResourcePotType) -> Seq<char> {
    match ty {
        ResourcePotType::Js => "script"@,
        ResourcePotType::Css => "link"@,
        ResourcePotType::Html => "html"@,
        ResourcePotType::Asset => "link"@,
        ResourcePotType::Custom(_) => "script"@,
    }
}

/// The html tag that loads a resource of the given type.
pub fn to_html_tag(ty: &ResourcePotType) -> (r: String)
    ensures
        r@ == html_tag_view(ty),
{
    match ty {
        ResourcePotType::Js => "script".to_owned(),
        ResourcePotType::Css => "link".to_owned(),
        ResourcePotType::Html => "html".to_owned(),
        ResourcePotType::Asset => "link".to_owned(),
        ResourcePotType::Custom(_) => "script".to_owned(),
    }
}

/// Renders a list of module ids for the host, in development form.
fn ids_to_dev_strings(ids: &Vec<ModuleId>) -> (r: Vec<String>)
    ensures
        r@.len() == ids@.len(),
        forall|j: int| 0 <= j < r@.len() ==> (#[trigger] r@[j])@ == ids@[j].dev_id_view(),
{
    let mut out: Vec<String> = Vec::new();
    let mut i: usize = 0;
    while i < ids.len()
        invariant
            i <= ids@.len(),
            out@.len() == i,
            forall|j: int| 0 <= j < i ==> (#[trigger] out@[j])@ == ids@[j].dev_id_view(),
        decreases ids@.len() - i,
    {
        let ghost out0 = out@;
        out.push(ids[i].id(Mode::Development));
        proof {
            assert forall|j: int| 0 <= j < out@.len() implies (#[trigger] out@[j])@
                == ids@[j].dev_id_view() by {
                if j < out@.len() - 1 {
                    assert(out@[j] == out0[j]);
                }
            }
        }
        i = i + 1;
    }
    out
}

/// A string's characters with json string escaping applied: a backslash
/// before every quote and backslash.
pub open spec fn json_escaped_view(s: Seq<char>) -> Seq<char>
    decreases s.len(),
{
    if s.len() == 0 {
        Seq::empty()
    } else {
        (if s.first() == '"' || s.first() == '\\' {
            seq!['\\', s.first()]
        } else {
            seq![s.first()]
        }) + json_escaped_view(s.drop_first())
    }
}

/// Escaping commutes with appending one character.
pub proof fn lemma_json_escaped_push(s: Seq<char>, c: char)
    ensures
        json_escaped_view(s.push(c)) == json_escaped_view(s) + (if c == '"' || c == '\\' {
            seq!['\\', c]
        } else {
            seq![c]
        }),
    decreases s.len(),
{
    if s.len() == 0 {
        let u = s.push(c);
        let tail: Seq<char> = if c == '"' || c == '\\' {
            seq!['\\', c]
        } else {
            seq![c]
        };
        assert(u.first() == c);
        assert(u.drop_first() =~= Seq::<char>::empty());
        assert(json_escaped_view(u) == tail + json_escaped_view(u.drop_first()));
        assert(tail + Seq::<char>::empty() =~= tail);
        assert(json_escaped_view(s) + tail =~= tail);
    } else {
        let head: Seq<char> = if s.first() == '"' || s.first() == '\\' {
            seq!['\\', s.first()]
        } else {
            seq![s.first()]
        };
        let tail: Seq<char> = if c == '"' || c == '\\' {
            seq!['\\', c]
        } else {
            seq![c]
        };
        assert(s.push(c).first() == s.first());
        assert(s.push(c).drop_first() =~= s.drop_first().push(c));
        lemma_json_escaped_push(s.drop_first(), c);
        assert(json_escaped_view(s.push(c)) == head + json_escaped_view(s.drop_first().push(c)));
        assert(json_escaped_view(s.drop_first().push(c)) == json_escaped_view(s.drop_first())
            + tail);
        assert(head + (json_escaped_view(s.drop_first()) + tail) =~= (head + json_escaped_view(
            s.drop_first(),
        )) + tail);
        assert(json_escaped_view(s) == head + json_escaped_view(s.drop_first()));
    }
}

/// Applies json string escaping to `s`.
fn json_escape(s: &str) -> (r: String)
    ensures
        r@ == json_escaped_view(s@),
{
    let n: usize = s.unicode_len();
    let mut out = String::new();
    proof {
        assert(out@ =~= json_escaped_view(s@.take(0)));
    }
    let mut i: usize = 0;
    while i < n
        invariant
            i <= n,
            n == s@.len(),
            out@ == json_escaped_view(s@.take(i as int)),
        decreases n - i,
    {
        let c = s.get_char(i);
        if c == '"' || c == '\\' {
            out.append("\\");
            proof {
                reveal_strlit("\\");
            }
        }
        let piece = s.substring_char(i, i + 1);
        out.append(piece);
        proof {
            assert(s@.take(i + 1) =~= s@.take(i as int).push(s@[i as int]));
            lemma_json_escaped_push(s@.take(i as int), s@[i as int]);
            assert(out@ =~= json_escaped_view(s@.take(i + 1)));
        }
        i = i + 1;
    }
    proof {
        assert(s@.take(n as int) =~= s@);
    }
    out
}

/// The serialized names of the first `i` resources, quoted, escaped and
/// comma separated.
pub open spec fn names_list_prefix(s: Seq<(String, crate::resource_pot::Resource)>, i: int) -> Seq<
    char,
>
    decreases i,
{
    if i <= 0 {
        Seq::empty()
    } else {
        names_list_prefix(s, i - 1) + (if i - 1 > 0 {
            ","@
        } else {
            Seq::<char>::empty()
        }) + "\""@ + json_escaped_view(s[i - 1].0@) + "\""@
    }
}

/// The rendered chain spells each module id of the source chain in
/// development form, in order.
pub open spec fn chain_rendered(a: Seq<String>, b: Seq<ModuleId>) -> bool {
    a.len() == b.len() && forall|k: int| 0 <= k < a.len() ==> (#[trigger] a[k])@ == b[k].dev_id_view()
}

/// The rendered dynamic-resource rows spell each (name, tag) pair as a
/// two-element list, in order.
pub open spec fn dyn_rows_rendered(a: Seq<Vec<String>>, b: Seq<(String, String)>) -> bool {
    a.len() == b.len() && forall|j: int|
        0 <= j < a.len() ==> (#[trigger] a[j])@.len() == 2 && a[j]@[0]@ == b[j].0@ && a[j]@[1]@
            == b[j].1@
}

/// Renders an update result for the host: the touched module ids and the
/// extra watched paths take their development-mode string form under
/// `root`, while the dynamic-resource keys take the form for `mode`.
pub fn update_result_to_js(res: &UpdateResult, mode: Mode, root: &str) -> (r: JsUpdateResult)
    ensures
        r.added@.len() == res.added_module_ids@.len(),
        forall|j: int|
            0 <= j < r.added@.len() ==> (#[trigger] r.added@[j])@
                == res.added_module_ids@[j].dev_id_view(),
        r.changed@.len() == res.updated_module_ids@.len(),
        forall|j: int|
            0 <= j < r.changed@.len() ==> (#[trigger] r.changed@[j])@
                == res.updated_module_ids@[j].dev_id_view(),
        r.removed@.len() == res.removed_module_ids@.len(),
        forall|j: int|
            0 <= j < r.removed@.len() ==> (#[trigger] r.removed@[j])@
                == res.removed_module_ids@[j].dev_id_view(),
        r.modules@ == res.resources@,
        // each boundary row keeps its key, in development form, and every
        // chain is rendered pointwise
        r.boundaries@.len() == res.boundaries@.len(),
        forall|b: int|
            0 <= b < r.boundaries@.len() ==> (#[trigger] r.boundaries@[b]).0@
                == res.boundaries@[b].0.dev_id_view() && r.boundaries@[b].1@.len()
                == res.boundaries@[b].1@.len() && (forall|c: int|
                0 <= c < r.boundaries@[b].1@.len() ==> chain_rendered(
                    (#[trigger] r.boundaries@[b].1@[c])@,
                    res.boundaries@[b].1@[c]@,
                )),
        // the dynamic-resource table keeps its keys, in the form for
        // `mode`, and its rows pointwise
        res.dynamic_resources_map is Some <==> r.dynamic_resources_map is Some,
        res.dynamic_resources_map matches Some(map) ==> (r.dynamic_resources_map matches Some(out)
            && out@.len() == map@.len() && (forall|i: int|
            0 <= i < out@.len() ==> (#[trigger] out@[i]).0@ == map@[i].0.mode_id_view(mode)
                && dyn_rows_rendered(out@[i].1@, map@[i].1@))),
        // extra watched paths are rendered as development-mode ids under
        // the project root
        r.extra_watch_result.add@.len() == res.extra_watch_result.add@.len(),
        forall|j: int|
            0 <= j < r.extra_watch_result.add@.len() ==> (#[trigger] r.extra_watch_result.add@[j])@
                == crate::paths::relative_view(
                crate::paths::normalized_view(res.extra_watch_result.add@[j]@),
                crate::paths::normalized_view(root@),
            ),
        r.extra_watch_result.remove@.len() == res.extra_watch_result.remove@.len(),
        forall|j: int|
            0 <= j < r.extra_watch_result.remove@.len()
                ==> (#[trigger] r.extra_watch_result.remove@[j])@ == crate::paths::relative_view(
                crate::paths::normalized_view(res.extra_watch_result.remove@[j]@),
                crate::paths::normalized_view(root@),
            ),
{
    let mut boundaries: Vec<(String, Vec<Vec<String>>)> = Vec::new();
    let mut b: usize = 0;
    while b < res.boundaries.len()
        invariant
            b <= res.boundaries@.len(),
            boundaries@.len() == b,
            forall|b2: int|
                0 <= b2 < b ==> (#[trigger] boundaries@[b2]).0@
                    == res.boundaries@[b2].0.dev_id_view() && boundaries@[b2].1@.len()
                    == res.boundaries@[b2].1@.len() && (forall|c: int|
                    0 <= c < boundaries@[b2].1@.len() ==> chain_rendered(
                        (#[trigger] boundaries@[b2].1@[c])@,
                        res.boundaries@[b2].1@[c]@,
                    )),
        decreases res.boundaries@.len() - b,
    {
        let mut chains: Vec<Vec<String>> = Vec::new();
        let mut c: usize = 0;
        while c < res.boundaries[b].1.len()
            invariant
                b < res.boundaries@.len(),
                c <= res.boundaries@[b as int].1@.len(),
                chains@.len() == c,
                forall|c2: int|
                    0 <= c2 < c ==> chain_rendered(
                        (#[trigger] chains@[c2])@,
                        res.boundaries@[b as int].1@[c2]@,
                    ),
            decreases res.boundaries@[b as int].1@.len() - c,
        {
            let ghost chains0 = chains@;
            chains.push(ids_to_dev_strings(&res.boundaries[b].1[c]));
            proof {
                assert forall|c2: int|
                    0 <= c2 < chains@.len() implies chain_rendered(
                    (#[trigger] chains@[c2])@,
                    res.boundaries@[b as int].1@[c2]@,
                ) by {
                    if c2 < chains@.len() - 1 {
                        assert(chains@[c2] == chains0[c2]);
                    }
                }
            }
            c = c + 1;
        }
        let ghost bounds0 = boundaries@;
        boundaries.push((res.boundaries[b].0.id(Mode::Development), chains));
        proof {
            assert forall|b2: int|
                0 <= b2 < boundaries@.len() implies (#[trigger] boundaries@[b2]).0@
                == res.boundaries@[b2].0.dev_id_view() && boundaries@[b2].1@.len()
                == res.boundaries@[b2].1@.len() && (forall|c2: int|
                0 <= c2 < boundaries@[b2].1@.len() ==> chain_rendered(
                    (#[trigger] boundaries@[b2].1@[c2])@,
                    res.boundaries@[b2].1@[c2]@,
                )) by {
                if b2 < boundaries@.len() - 1 {
                    assert(boundaries@[b2] == bounds0[b2]);
                }
            }
        }
        b = b + 1;
    }
    let dynamic_resources_map: Option<Vec<(String, Vec<Vec<String>>)>> = match
    &res.dynamic_resources_map {
        Some(map) => {
            let mut out: Vec<(String, Vec<Vec<String>>)> = Vec::new();
            let mut i: usize = 0;
            while i < map.len()
                invariant
                    i <= map@.len(),
                    out@.len() == i,
                    res.dynamic_resources_map matches Some(m2) && m2@ == map@,
                    forall|i2: int|
                        0 <= i2 < i ==> (#[trigger] out@[i2]).0@ == map@[i2].0.mode_id_view(mode)
                            && dyn_rows_rendered(out@[i2].1@, map@[i2].1@),
                decreases map@.len() - i,
            {
                let mut entries: Vec<Vec<String>> = Vec::new();
                let mut j: usize = 0;
                while j < map[i].1.len()
                    invariant
                        i < map@.len(),
                        j <= map@[i as int].1@.len(),
                        entries@.len() == j,
                        forall|j2: int|
                            0 <= j2 < j ==> (#[trigger] entries@[j2])@.len() == 2
                                && entries@[j2]@[0]@ == map@[i as int].1@[j2].0@
                                && entries@[j2]@[1]@ == map@[i as int].1@[j2].1@,
                    decreases map@[i as int].1@.len() - j,
                {
                    let mut pair: Vec<String> = Vec::new();
                    pair.push(map[i].1[j].0.clone());
                    pair.push(map[i].1[j].1.clone());
                    let ghost entries0 = entries@;
                    entries.push(pair);
                    proof {
                        assert forall|j2: int|
                            0 <= j2 < entries@.len() implies (#[trigger] entries@[j2])@.len() == 2
                            && entries@[j2]@[0]@ == map@[i as int].1@[j2].0@ && entries@[j2]@[1]@
                            == map@[i as int].1@[j2].1@ by {
                            if j2 < entries@.len() - 1 {
                                assert(entries@[j2] == entries0[j2]);
                            }
                        }
                    }
                    j = j + 1;
                }
                let ghost out0 = out@;
                out.push((map[i].0.id(mode), entries));
                proof {
                    assert forall|i2: int|
                        0 <= i2 < out@.len() implies (#[trigger] out@[i2]).0@
                        == map@[i2].0.mode_id_view(mode) && dyn_rows_rendered(
                        out@[i2].1@,
                        map@[i2].1@,
                    ) by {
                        if i2 < out@.len() - 1 {
                            assert(out@[i2] == out0[i2]);
                        }
                    }
                }
                i = i + 1;
            }
            Some(out)
        },
        None => None,
    };
    JsUpdateResult {
        added: ids_to_dev_strings(&res.added_module_ids),
        changed: ids_to_dev_strings(&res.updated_module_ids),
        removed: ids_to_dev_strings(&res.removed_module_ids),
        modules: res.resources.clone(),
        boundaries,
        dynamic_resources_map,
        extra_watch_result: WatchDiffResult {
            add: paths_to_dev_ids(&res.extra_watch_result.add, root),
            remove: paths_to_dev_ids(&res.extra_watch_result.remove, root),
        },
    }
}

/// Renders raw watched paths as development-mode module ids under `root`.
fn paths_to_dev_ids(paths: &Vec<String>, root: &str) -> (r: Vec<String>)
    ensures
        r@.len() == paths@.len(),
        forall|j: int|
            0 <= j < r@.len() ==> (#[trigger] r@[j])@ == crate::paths::relative_view(
                crate::paths::normalized_view(paths@[j]@),
                crate::paths::normalized_view(root@),
            ),
{
    let mut out: Vec<String> = Vec::new();
    let mut i: usize = 0;
    while i < paths.len()
        invariant
            i <= paths@.len(),
            out@.len() == i,
            forall|j: int|
                0 <= j < i ==> (#[trigger] out@[j])@ == crate::paths::relative_view(
                    crate::paths::normalized_view(paths@[j]@),
                    crate::paths::normalized_view(root@),
                ),
        decreases paths@.len() - i,
    {
        let id = ModuleId::new(paths[i].as_str(), "", root);
        proof {
            reveal_strlit("");
            assert(id.query@.len() == 0);
        }
        let ghost out0 = out@;
        out.push(id.id(Mode::Development));
        proof {
            assert forall|j: int|
                0 <= j < out@.len() implies (#[trigger] out@[j])@ == crate::paths::relative_view(
                crate::paths::normalized_view(paths@[j]@),
                crate::paths::normalized_view(root@),
            ) by {
                if j < out@.len() - 1 {
                    assert(out@[j] == out0[j]);
                }
            }
        }
        i = i + 1;
    }
    out
}

impl<P: Plugin> Compiler<P> {
    /// The indices of the modules affected by a change to `path`: the
    /// module whose resolved path matches, plus every module whose watch
    /// ancestry includes the path.
    fn affected_modules(&self, path: &str) -> (r: Vec<usize>)
        requires
            ctx_wf(&self.context),
        ensures
            forall|j: int|
                0 <= j < r@.len() ==> (#[trigger] r@[j]) < self.context.module_graph.modules@.len()
                    && module_affected_by(&self.context, path@, r@[j] as int),
            forall|i: usize|
                (i as int) < self.context.module_graph.modules@.len() && module_affected_by(
                    &self.context,
                    path@,
                    i as int,
                ) ==> r@.contains(i),
            forall|j1: int, j2: int| 0 <= j1 < j2 < r@.len() ==> r@[j1] != r@[j2],
    {
        let mut out: Vec<usize> = Vec::new();
        let id = ModuleId::new(path, "", self.context.config.root.as_str());
        proof {
            reveal_strlit("");
            assert(id.query@.len() == 0);
        }
        match self.context.module_graph.get_index_of(&id) {
            Some(i) => {
                out.push(i);
                proof {
                    assert(bare_id_matches(&self.context, path@, i as int));
                }
            },
            None => {},
        }
        proof {
            assert forall|i: usize|
                (i as int) < self.context.module_graph.modules@.len() && bare_id_matches(
                    &self.context,
                    path@,
                    i as int,
                ) implies out@.contains(i) by {
                let ms = self.context.module_graph.modules@;
                assert(ms[i as int].id.query@ =~= id.query@);
                assert(id_matches(&ms[i as int].id, &id));
                assert(crate::module_graph::contains_id(ms, &id));
                assert(out@.len() > 0);
                assert(id_matches(&ms[out@[0] as int].id, &id));
                if out@[0] != i {
                    let a: int = if out@[0] < i { out@[0] as int } else { i as int };
                    let b: int = if out@[0] < i { i as int } else { out@[0] as int };
                    assert(id_matches(&ms[a].id, &ms[b].id));
                    assert(false);
                }
                assert(out@.contains(i));
            }
        }
        // watch-graph ancestry: every watched file that consulted `path`,
        // transitively, invalidates its module when it has one
        let dependents = self.context.watch_graph.dependents_closure(path);
        let mut w: usize = 0;
        while w < dependents.len()
            invariant
                ctx_wf(&self.context),
                dependents@.len() == self.context.watch_graph.nodes@.len(),
                w <= dependents@.len(),
                forall|v: int, s: int|
                    #![trigger dependents@[v], self.context.watch_graph.nodes@[s]]
                    0 <= v < dependents@.len() && 0 <= s < dependents@.len()
                        && self.context.watch_graph.nodes@[s]@ == path@ ==> (dependents@[v]
                        <==> reaches(self.context.watch_graph.rev_view(), s, v, true)),
                !crate::watch_graph::contains_path(self.context.watch_graph.nodes@, path@)
                    ==> forall|v: int| 0 <= v < dependents@.len() ==> !(#[trigger] dependents@[v]),
                forall|j: int|
                    0 <= j < out@.len() ==> (#[trigger] out@[j])
                        < self.context.module_graph.modules@.len() && module_affected_by(
                        &self.context,
                        path@,
                        out@[j] as int,
                    ),
                forall|j1: int, j2: int| 0 <= j1 < j2 < out@.len() ==> out@[j1] != out@[j2],
                forall|i: usize|
                    (i as int) < self.context.module_graph.modules@.len() && bare_id_matches(
                        &self.context,
                        path@,
                        i as int,
                    ) ==> out@.contains(i),
                forall|i: usize, w2: int|
                    #![trigger dependents@[w2], out@.contains(i)]
                    (i as int) < self.context.module_graph.modules@.len() && 0 <= w2 < w
                        && dependents@[w2] && bare_id_matches(
                        &self.context,
                        self.context.watch_graph.nodes@[w2]@,
                        i as int,
                    ) ==> out@.contains(i),
            decreases dependents@.len() - w,
        {
            if dependents[w] {
                let dep_path = self.context.watch_graph.nodes[w].clone();
                let dep_id = ModuleId::new(
                    dep_path.as_str(),
                    "",
                    self.context.config.root.as_str(),
                );
                proof {
                    reveal_strlit("");
                    assert(dep_id.query@.len() == 0);
                    assert(dep_path@ == self.context.watch_graph.nodes@[w as int]@);
                }
                match self.context.module_graph.get_index_of(&dep_id) {
                    Some(i) => {
                        let ghost out0 = out@;
                        if !vec_contains_usize(&out, i) {
                            out.push(i);
                        }
                        proof {
                            broadcast use vstd::seq_lib::lemma_seq_contains_after_push;
                            assert(bare_id_matches(
                                &self.context,
                                self.context.watch_graph.nodes@[w as int]@,
                                i as int,
                            ));
                            let nodes = self.context.watch_graph.nodes@;
                            assert(crate::watch_graph::contains_path(nodes, path@));
                            let s0 = choose|s: int| 0 <= s < nodes.len() && nodes[s]@ == path@;
                            assert(reaches(
                                self.context.watch_graph.rev_view(),
                                s0,
                                w as int,
                                true,
                            ));
                            assert(module_affected_by(&self.context, path@, i as int));
                            assert forall|j1: int, j2: int|
                                0 <= j1 < j2 < out@.len() implies out@[j1] != out@[j2] by {
                                if j2 == out@.len() - 1 && out@.len() > out0.len() {
                                    assert(out@[j1] == out0[j1]);
                                    assert(out0.contains(out0[j1]));
                                }
                            }
                            assert(out@.contains(i));
                            assert forall|i2: usize, w2: int|
                                (i2 as int) < self.context.module_graph.modules@.len() && 0 <= w2
                                    < w + 1 && dependents@[w2] && bare_id_matches(
                                    &self.context,
                                    self.context.watch_graph.nodes@[w2]@,
                                    i2 as int,
                                ) implies out@.contains(i2) by {
                                if w2 < w {
                                    assert(out0.contains(i2));
                                } else {
                                    let ms = self.context.module_graph.modules@;
                                    assert(ms[i2 as int].id.query@ =~= dep_id.query@);
                                    assert(id_matches(&ms[i2 as int].id, &dep_id));
                                    assert(ms[i as int].id.query@ =~= dep_id.query@);
                                    assert(id_matches(&ms[i as int].id, &dep_id));
                                    if i2 != i {
                                        let pa: int = if i2 < i { i2 as int } else { i as int };
                                        let pb: int = if i2 < i { i as int } else { i2 as int };
                                        assert(id_matches(&ms[pa].id, &ms[pb].id));
                                        assert(false);
                                    }
                                }
                            }
                        }
                    },
                    None => {
                        proof {
                            assert forall|i2: usize, w2: int|
                                (i2 as int) < self.context.module_graph.modules@.len() && 0 <= w2
                                    < w + 1 && dependents@[w2] && bare_id_matches(
                                    &self.context,
                                    self.context.watch_graph.nodes@[w2]@,
                                    i2 as int,
                                ) implies out@.contains(i2) by {
                                if w2 == w {
                                    let ms = self.context.module_graph.modules@;
                                    assert(ms[i2 as int].id.query@ =~= dep_id.query@);
                                    assert(id_matches(&ms[i2 as int].id, &dep_id));
                                    assert(crate::module_graph::contains_id(ms, &dep_id));
                                }
                            }
                        }
                    },
                }
            }
            w = w + 1;
        }
        proof {
            assert forall|i: usize|
                (i as int) < self.context.module_graph.modules@.len() && module_affected_by(
                    &self.context,
                    path@,
                    i as int,
                ) implies out@.contains(i) by {
                if !bare_id_matches(&self.context, path@, i as int) {
                    let (s, w0) = choose|s: int, w0: int|
                        #![trigger self.context.watch_graph.nodes@[s], self.context.watch_graph.nodes@[w0]]
                        0 <= s < self.context.watch_graph.nodes@.len() && 0 <= w0
                            < self.context.watch_graph.nodes@.len()
                            && self.context.watch_graph.nodes@[s]@ == path@ && reaches(
                            self.context.watch_graph.rev_view(),
                            s,
                            w0,
                            true,
                        ) && bare_id_matches(
                            &self.context,
                            self.context.watch_graph.nodes@[w0]@,
                            i as int,
                        );
                    assert(dependents@[w0]);
                }
            }
        }
        out
    }

    /// Applies a batch of file changes: re-runs the per-module work unit
    /// on every affected module, re-resolves their dependencies, and
    /// recomputes groups, pots and resources.  `sync` only selects the
    /// host's scheduling and does not change what is computed.
    pub fn update(&mut self, paths: Vec<(String, UpdateType)>, sync: bool) -> (r: Result<
        UpdateResult,
        CompilationError,
    >)
        requires
            ctx_wf(&old(self).context),
        ensures
            ctx_wf(&final(self).context),
            // an update of an empty graph has nothing to rebuild and
            // succeeds
            old(self).context.module_graph.modules@.len() == 0 ==> r is Ok,
            // on success the recomputed group graph and pots satisfy the
            // same laws a full build establishes
            r is Ok ==> final(self).context.module_group_graph.wf(
                final(self).context.module_graph.modules@.len() as int,
            ),
            r is Ok ==> group_graph_law(
                &final(self).context.module_group_graph,
                final(self).context.module_graph.edges@,
                final(self).context.module_graph.modules@.len() as int,
            ),
            r is Ok ==> forall|x: usize|
                (x as int) < final(self).context.module_graph.modules@.len() ==> pots_occ(
                    final(self).context.resource_pot_map@,
                    x,
                ) == (if eligible(
                    &final(self).context.module_graph,
                    &final(self).context.module_group_graph,
                    x as int,
                ) {
                    1nat
                } else {
                    0nat
                }),
            r is Ok ==> forall|t: int|
                0 <= t < final(self).context.resource_pot_map@.len() ==> pot_well_formed(
                    &final(self).context.module_graph,
                    &final(self).context.module_group_graph,
                    #[trigger] final(self).context.resource_pot_map@[t],
                ),
            // the reported updated modules are exactly those the batch
            // affects: the module of each changed path, plus every module
            // whose watch ancestry includes a changed path
            r matches Ok(res) ==> exists|af: Seq<usize>|
                #[trigger] affected_set_of(&old(self).context, paths@, af)
                    && res.updated_module_ids@.len() == af.len() && (forall|j: int|
                    0 <= j < af.len() ==> id_matches(
                        &res.updated_module_ids@[j],
                        &old(self).context.module_graph.modules@[af[j] as int].id,
                    )),
            // one boundary row per updated module, in order; every chain is
            // one accepting module of the rebuilt graph
            r matches Ok(res) ==> res.boundaries@.len() == res.updated_module_ids@.len() && (forall|
                u: int,
            |
                0 <= u < res.boundaries@.len() ==> id_matches(
                    &(#[trigger] res.boundaries@[u]).0,
                    &res.updated_module_ids@[u],
                )) && (forall|u: int, c2: int|
                0 <= u < res.boundaries@.len() && 0 <= c2 < (#[trigger] res.boundaries@[u]).1@.len()
                    ==> chain_is_accepting(
                    &final(self).context.module_graph,
                    (#[trigger] res.boundaries@[u].1@[c2])@,
                )),
            // one dynamic-resources row per entry, in order; every row
            // names a stored pot with its tag kind
            r matches Ok(res) ==> res.dynamic_resources_map matches Some(map) && map@.len()
                == final(self).context.module_graph.entries@.len() && (forall|e: int|
                0 <= e < map@.len() ==> id_matches(
                    &(#[trigger] map@[e]).0,
                    &final(self).context.module_graph.entries@[e].id,
                )) && (forall|e: int, j: int|
                0 <= e < map@.len() && 0 <= j < (#[trigger] map@[e]).1@.len() ==> row_names_pot(
                    final(self).context.resource_pot_map@,
                    #[trigger] map@[e].1@[j],
                )),
    {
        let mut affected: Vec<usize> = Vec::new();
        let mut p: usize = 0;
        while p < paths.len()
            invariant
                ctx_wf(&self.context),
                p <= paths@.len(),
                self.context == old(self).context,
                forall|j: int|
                    0 <= j < affected@.len() ==> (#[trigger] affected@[j])
                        < self.context.module_graph.modules@.len(),
                forall|j1: int, j2: int|
                    0 <= j1 < j2 < affected@.len() ==> affected@[j1] != affected@[j2],
                forall|i: usize|
                    (i as int) < self.context.module_graph.modules@.len() ==> (affected@.contains(i)
                        <==> exists|p2: int|
                        0 <= p2 < p && !((#[trigger] paths@[p2]).1 is Added) && module_affected_by(
                            &self.context,
                            paths@[p2].0@,
                            i as int,
                        )),
                self.context.config == old(self).context.config,
                self.context.module_graph.modules@.len() == old(
                    self,
                ).context.module_graph.modules@.len(),
            decreases paths@.len() - p,
        {
            // an added path introduces nothing to rebuild; updated and
            // removed paths invalidate their module and its watchers
            if matches!(paths[p].1, UpdateType::Added) {
                proof {
                    assert forall|i: usize|
                        (i as int) < self.context.module_graph.modules@.len() implies (
                        affected@.contains(i) <==> exists|p2: int|
                            0 <= p2 < p + 1 && !((#[trigger] paths@[p2]).1 is Added)
                                && module_affected_by(&self.context, paths@[p2].0@, i as int)) by {
                        if !affected@.contains(i) {
                            if exists|p2: int|
                                0 <= p2 < p + 1 && !((#[trigger] paths@[p2]).1 is Added)
                                    && module_affected_by(&self.context, paths@[p2].0@, i as int) {
                                let p2 = choose|p2: int|
                                    0 <= p2 < p + 1 && !((#[trigger] paths@[p2]).1 is Added)
                                        && module_affected_by(
                                        &self.context,
                                        paths@[p2].0@,
                                        i as int,
                                    );
                                assert(p2 < p);
                            }
                        }
                    }
                }
                p = p + 1;
                continue ;
            }
            let found = self.affected_modules(paths[p].0.as_str());
            let mut f: usize = 0;
            while f < found.len()
                invariant
                    f <= found@.len(),
                    p < paths@.len(),
                    ctx_wf(&self.context),
                    self.context == old(self).context,
                    !(paths@[p as int].1 is Added),
                    forall|j: int|
                        0 <= j < found@.len() ==> (#[trigger] found@[j])
                            < self.context.module_graph.modules@.len() && module_affected_by(
                            &self.context,
                            paths@[p as int].0@,
                            found@[j] as int,
                        ),
                    forall|i: usize|
                        (i as int) < self.context.module_graph.modules@.len()
                            && module_affected_by(&self.context, paths@[p as int].0@, i as int)
                            ==> found@.contains(i),
                    forall|j: int|
                        0 <= j < affected@.len() ==> (#[trigger] affected@[j])
                            < self.context.module_graph.modules@.len(),
                    forall|j1: int, j2: int|
                        0 <= j1 < j2 < affected@.len() ==> affected@[j1] != affected@[j2],
                    forall|i: usize|
                        (i as int) < self.context.module_graph.modules@.len() ==> (
                        affected@.contains(i) <==> (exists|p2: int|
                            0 <= p2 < p && !((#[trigger] paths@[p2]).1 is Added)
                                && module_affected_by(
                                &self.context,
                                paths@[p2].0@,
                                i as int,
                            )) || (exists|f2: int|
                            0 <= f2 < f && (#[trigger] found@[f2]) == i)),
                decreases found@.len() - f,
            {
                let ghost aff0 = affected@;
                if !vec_contains_usize(&affected, found[f]) {
                    affected.push(found[f]);
                }
                proof {
                    broadcast use vstd::seq_lib::lemma_seq_contains_after_push;
                    assert forall|j1: int, j2: int|
                        0 <= j1 < j2 < affected@.len() implies affected@[j1] != affected@[j2] by {
                        if j2 == affected@.len() - 1 && affected@.len() > aff0.len() {
                            assert(affected@[j1] == aff0[j1]);
                            assert(aff0.contains(aff0[j1]));
                        }
                    }
                    assert(affected@.contains(found@[f as int]));
                }
                f = f + 1;
            }
            proof {
                assert forall|i: usize|
                    (i as int) < self.context.module_graph.modules@.len() implies (
                    affected@.contains(i) <==> exists|p2: int|
                        0 <= p2 < p + 1 && !((#[trigger] paths@[p2]).1 is Added)
                            && module_affected_by(&self.context, paths@[p2].0@, i as int)) by {
                    if affected@.contains(i) {
                        if exists|f2: int|
                            0 <= f2 < found@.len() && (#[trigger] found@[f2]) == i {
                            let f2 = choose|f2: int|
                                0 <= f2 < found@.len() && (#[trigger] found@[f2]) == i;
                            assert(module_affected_by(
                                &self.context,
                                paths@[p as int].0@,
                                found@[f2] as int,
                            ));
                            assert(!((paths@[p as int]).1 is Added) && module_affected_by(
                                &self.context,
                                paths@[p as int].0@,
                                i as int,
                            ));
                        }
                    } else {
                        if exists|p2: int|
                            0 <= p2 < p + 1 && !((#[trigger] paths@[p2]).1 is Added)
                                && module_affected_by(&self.context, paths@[p2].0@, i as int) {
                            let p2 = choose|p2: int|
                                0 <= p2 < p + 1 && !((#[trigger] paths@[p2]).1 is Added)
                                    && module_affected_by(&self.context, paths@[p2].0@, i as int);
                            if p2 == p {
                                assert(found@.contains(i));
                                let f2 = choose|f2: int|
                                    0 <= f2 < found@.len() && found@[f2] == i;
                                assert(false);
                            }
                        }
                    }
                }
            }
            p = p + 1;
        }
        let ghost afv = affected@;
        proof {
            assert(affected_set_of(&old(self).context, paths@, afv));
            if old(self).context.module_graph.modules@.len() == 0 && affected@.len() > 0 {
                assert(affected@[0] < old(self).context.module_graph.modules@.len());
                assert(false);
            }
        }

        // re-run the work unit on each affected module and requeue its
        // dependencies
        let mut updated_module_ids: Vec<ModuleId> = Vec::new();
        let mut added_module_ids: Vec<ModuleId> = Vec::new();
        let mut queue: Vec<usize> = Vec::new();
        let mut a: usize = 0;
        while a < affected.len()
            invariant
                ctx_wf(&self.context),
                a <= affected@.len(),
                affected@ == afv,
                forall|j: int|
                    0 <= j < affected@.len() ==> (#[trigger] affected@[j]) < old(
                        self,
                    ).context.module_graph.modules@.len(),
                forall|j: int|
                    0 <= j < queue@.len() ==> (#[trigger] queue@[j])
                        < self.context.module_graph.modules@.len(),
                updated_module_ids@.len() == a,
                forall|j: int|
                    0 <= j < a ==> id_matches(
                        &(#[trigger] updated_module_ids@[j]),
                        &old(self).context.module_graph.modules@[affected@[j] as int].id,
                    ),
                forall|i: int|
                    0 <= i < old(self).context.module_graph.modules@.len() ==> id_matches(
                        &(#[trigger] self.context.module_graph.modules@[i]).id,
                        &old(self).context.module_graph.modules@[i].id,
                    ),
                old(self).context.module_graph.modules@.len() == 0 ==> affected@.len() == 0
                    && self.context.module_graph.modules@.len() == 0 && queue@.len() == 0,
                self.context.config == old(self).context.config,
                self.context.module_graph.modules@.len() >= old(
                    self,
                ).context.module_graph.modules@.len(),
            decreases affected@.len() - a,
        {
            let idx = affected[a];
            // the old cache entry no longer describes this module
            if self.context.config.persistent_cache {
                let old_hash = crate::hashing::to_hex(
                    self.context.module_graph.modules[idx].content_hash,
                );
                self.context.cache_manager.module_cache.invalidate(old_hash.as_str());
            }
            let ghost mspre = self.context.module_graph.modules@;
            let deps = match self.build_module_unit(idx) {
                Ok(d) => d,
                Err(err) => {
                    return Err(err);
                },
            };
            proof {
                assert forall|i: int|
                    0 <= i < old(self).context.module_graph.modules@.len() implies id_matches(
                    &(#[trigger] self.context.module_graph.modules@[i]).id,
                    &old(self).context.module_graph.modules@[i].id,
                ) by {
                    assert(id_matches(&self.context.module_graph.modules@[i].id, &mspre[i].id));
                    assert(id_matches(&mspre[i].id, &old(self).context.module_graph.modules@[i].id));
                }
            }
            updated_module_ids.push(self.context.module_graph.modules[idx].id.duplicate());
            // replace the module's outgoing edges with the fresh analysis
            self.context.module_graph.remove_edges_of(idx);
            let importer_id = self.context.module_graph.modules[idx].id.duplicate();
            let mut d: usize = 0;
            while d < deps.len()
                invariant
                    ctx_wf(&self.context),
                    d <= deps@.len(),
                    a < affected@.len(),
                    affected@ == afv,
                    idx < self.context.module_graph.modules@.len(),
                    forall|j: int|
                        0 <= j < affected@.len() ==> (#[trigger] affected@[j]) < old(
                            self,
                        ).context.module_graph.modules@.len(),
                    forall|j: int|
                        0 <= j < queue@.len() ==> (#[trigger] queue@[j])
                            < self.context.module_graph.modules@.len(),
                    updated_module_ids@.len() == a + 1,
                    forall|j: int|
                        0 <= j < a + 1 ==> id_matches(
                            &(#[trigger] updated_module_ids@[j]),
                            &old(self).context.module_graph.modules@[affected@[j] as int].id,
                        ),
                    forall|i: int|
                        0 <= i < old(self).context.module_graph.modules@.len() ==> id_matches(
                            &(#[trigger] self.context.module_graph.modules@[i]).id,
                            &old(self).context.module_graph.modules@[i].id,
                        ),
                    old(self).context.module_graph.modules@.len() > 0,
                    self.context.config == old(self).context.config,
                    self.context.module_graph.modules@.len() >= old(
                        self,
                    ).context.module_graph.modules@.len(),
                decreases deps@.len() - d,
            {
                let (dep_id, dep_external, dep_side_effects) = match self.resolve_source(
                    deps[d].source.as_str(),
                    Some(&importer_id),
                    deps[d].kind,
                ) {
                    Ok(t) => t,
                    Err(err) => {
                        return Err(err);
                    },
                };
                let target = match self.context.module_graph.get_index_of(&dep_id) {
                    Some(t) => t,
                    None => {
                        let m = if dep_external {
                            Module::new_external(dep_id)
                        } else {
                            let mut m = Module::new(dep_id);
                            m.side_effects = dep_side_effects;
                            m
                        };
                        let t = self.context.module_graph.add_module(m);
                        added_module_ids.push(
                            self.context.module_graph.modules[t].id.duplicate(),
                        );
                        if !dep_external {
                            queue.push(t);
                        }
                        t
                    },
                };
                self.context.module_graph.add_edge(
                    idx,
                    target,
                    deps[d].source.clone(),
                    deps[d].kind,
                    d,
                );
                d = d + 1;
            }
            a = a + 1;
        }

        // build any newly discovered modules, as a scoped re-execution of
        // the pipeline
        let mut fuel: usize = MAX_BUILD_STEPS;
        while queue.len() > 0
            invariant
                ctx_wf(&self.context),
                forall|j: int|
                    0 <= j < queue@.len() ==> (#[trigger] queue@[j])
                        < self.context.module_graph.modules@.len(),
                old(self).context.module_graph.modules@.len() == 0 ==> queue@.len() == 0
                    && self.context.module_graph.modules@.len() == 0,
                self.context.config == old(self).context.config,
            decreases fuel,
        {
            if fuel == 0 {
                return Err(CompilationError::Generic { detail: "build step cap exceeded".to_owned() });
            }
            fuel = fuel - 1;
            let idx = queue.pop().unwrap();
            let deps = match self.build_module_unit(idx) {
                Ok(d) => d,
                Err(err) => {
                    return Err(err);
                },
            };
            let importer_id = self.context.module_graph.modules[idx].id.duplicate();
            let mut d: usize = 0;
            while d < deps.len()
                invariant
                    ctx_wf(&self.context),
                    d <= deps@.len(),
                    idx < self.context.module_graph.modules@.len(),
                    old(self).context.module_graph.modules@.len() > 0,
                    forall|j: int|
                        0 <= j < queue@.len() ==> (#[trigger] queue@[j])
                            < self.context.module_graph.modules@.len(),
                    self.context.config == old(self).context.config,
                decreases deps@.len() - d,
            {
                let (dep_id, dep_external, dep_side_effects) = match self.resolve_source(
                    deps[d].source.as_str(),
                    Some(&importer_id),
                    deps[d].kind,
                ) {
                    Ok(t) => t,
                    Err(err) => {
                        return Err(err);
                    },
                };
                let target = match self.context.module_graph.get_index_of(&dep_id) {
                    Some(t) => t,
                    None => {
                        let m = if dep_external {
                            Module::new_external(dep_id)
                        } else {
                            let mut m = Module::new(dep_id);
                            m.side_effects = dep_side_effects;
                            m
                        };
                        let t = self.context.module_graph.add_module(m);
                        added_module_ids.push(
                            self.context.module_graph.modules[t].id.duplicate(),
                        );
                        if !dep_external {
                            queue.push(t);
                        }
                        t
                    },
                };
                self.context.module_graph.add_edge(
                    idx,
                    target,
                    deps[d].source.clone(),
                    deps[d].kind,
                    d,
                );
                d = d + 1;
            }
        }

        // entries, as indices into the (possibly grown) graph
        let mut entry_indices: Vec<usize> = Vec::new();
        let mut e: usize = 0;
        let entry_count = self.context.module_graph.entries.len();
        while e < entry_count
            invariant
                ctx_wf(&self.context),
                e <= entry_count,
                entry_count == self.context.module_graph.entries@.len(),
                forall|j: int|
                    0 <= j < entry_indices@.len() ==> (#[trigger] entry_indices@[j])
                        < self.context.module_graph.modules@.len(),
                self.context.config == old(self).context.config,
            decreases entry_count - e,
        {
            let id = self.context.module_graph.entries[e].id.duplicate();
            match self.context.module_graph.get_index_of(&id) {
                Some(i) => {
                    if !vec_contains_usize(&entry_indices, i) {
                        entry_indices.push(i);
                    }
                },
                None => {},
            }
            e = e + 1;
        }

        // orphan report: modules no longer reachable from any entry
        let n = self.context.module_graph.modules.len();
        let live = reachable_set(
            &self.context.module_graph.edges,
            n,
            &entry_indices,
            true,
        );
        let mut removed_module_ids: Vec<ModuleId> = Vec::new();
        let mut m: usize = 0;
        while m < n
            invariant
                ctx_wf(&self.context),
                m <= n,
                n == self.context.module_graph.modules@.len(),
                live@.len() == n,
                self.context.config == old(self).context.config,
                forall|j: int|
                    0 <= j < entry_indices@.len() ==> (#[trigger] entry_indices@[j]) < n,
            decreases n - m,
        {
            if !live[m] {
                removed_module_ids.push(self.context.module_graph.modules[m].id.duplicate());
            }
            m = m + 1;
        }

        // recompute groups, pots and resources
        match self.finish_build(entry_indices) {
            Ok(()) => {},
            Err(err) => {
                return Err(err);
            },
        }

        let boundaries = self.hmr_boundaries(&updated_module_ids);
        let dynamic_resources_map = Some(self.dynamic_resources());
        let resources = self.resource_name_list();

        Ok(
            UpdateResult {
                added_module_ids,
                updated_module_ids,
                removed_module_ids,
                resources,
                boundaries,
                dynamic_resources_map,
                extra_watch_result: WatchDiffResult { add: Vec::new(), remove: Vec::new() },
            },
        )
    }

    /// The names of all current resources as a serialized json array of
    /// strings.
    fn resource_name_list(&self) -> (r: String)
        ensures
            r@ == "["@ + names_list_prefix(
                self.context.resources_map@,
                self.context.resources_map@.len() as int,
            ) + "]"@,
    {
        let mut out = String::from_str("[");
        proof {
            assert(out@ =~= "["@ + names_list_prefix(self.context.resources_map@, 0));
        }
        let mut i: usize = 0;
        while i < self.context.resources_map.len()
            invariant
                i <= self.context.resources_map@.len(),
                out@ == "["@ + names_list_prefix(self.context.resources_map@, i as int),
            decreases self.context.resources_map@.len() - i,
        {
            if i > 0 {
                out = out.concat(",");
            }
            out = out.concat("\"").concat(
                json_escape(self.context.resources_map[i].0.as_str()).as_str(),
            ).concat("\"");
            proof {
                assert(out@ =~= "["@ + names_list_prefix(
                    self.context.resources_map@,
                    i + 1,
                ));
            }
            i = i + 1;
        }
        out.concat("]")
    }

    /// The hot-update boundaries of each updated module: every importer
    /// (transitively) that accepts the update, as one single-step accept
    /// chain per boundary.  A module accepts when it is an entry or it
    /// carries the self-accept flag.
    fn hmr_boundaries(&self, updated: &Vec<ModuleId>) -> (r: Vec<(ModuleId, Vec<Vec<ModuleId>>)>)
        requires
            ctx_wf(&self.context),
        ensures
            r@.len() == updated@.len(),
            forall|u: int| 0 <= u < r@.len() ==> id_matches(&(#[trigger] r@[u]).0, &updated@[u]),
            // every reported chain is one accepting module of the graph
            forall|u: int, c2: int|
                0 <= u < r@.len() && 0 <= c2 < (#[trigger] r@[u]).1@.len() ==> chain_is_accepting(
                    &self.context.module_graph,
                    (#[trigger] r@[u].1@[c2])@,
                ),
    {
        let mut out: Vec<(ModuleId, Vec<Vec<ModuleId>>)> = Vec::new();
        let n = self.context.module_graph.modules.len();
        // reversed edges: walk importers upward
        let mut rev: Vec<crate::module_graph::ModuleEdge> = Vec::new();
        let mut k: usize = 0;
        while k < self.context.module_graph.edges.len()
            invariant
                ctx_wf(&self.context),
                k <= self.context.module_graph.edges@.len(),
                n == self.context.module_graph.modules@.len(),
                forall|t: int| 0 <= t < rev@.len() ==> (#[trigger] rev@[t]).from < n && rev@[t].to < n,
            decreases self.context.module_graph.edges@.len() - k,
        {
            let e = &self.context.module_graph.edges[k];
            let ghost rev0 = rev@;
            rev.push(
                crate::module_graph::ModuleEdge {
                    from: e.to,
                    to: e.from,
                    source: String::new(),
                    kind: e.kind,
                    order: e.order,
                },
            );
            proof {
                assert forall|t: int| 0 <= t < rev@.len() implies (#[trigger] rev@[t]).from < n
                    && rev@[t].to < n by {
                    if t < rev@.len() - 1 {
                        assert(rev@[t] == rev0[t]);
                    }
                }
            }
            k = k + 1;
        }
        let mut u: usize = 0;
        while u < updated.len()
            invariant
                ctx_wf(&self.context),
                u <= updated@.len(),
                n == self.context.module_graph.modules@.len(),
                forall|t: int| 0 <= t < rev@.len() ==> (#[trigger] rev@[t]).from < n && rev@[t].to < n,
                out@.len() == u,
                forall|u2: int| 0 <= u2 < u ==> id_matches(&(#[trigger] out@[u2]).0, &updated@[u2]),
                forall|u2: int, c2: int|
                    0 <= u2 < u && 0 <= c2 < (#[trigger] out@[u2]).1@.len() ==> chain_is_accepting(
                        &self.context.module_graph,
                        (#[trigger] out@[u2].1@[c2])@,
                    ),
            decreases updated@.len() - u,
        {
            let mut chains: Vec<Vec<ModuleId>> = Vec::new();
            match self.context.module_graph.get_index_of(&updated[u]) {
                Some(idx) => {
                    let mut roots: Vec<usize> = Vec::new();
                    roots.push(idx);
                    let ancestors = reachable_set(&rev, n, &roots, true);
                    let mut c: usize = 0;
                    while c < n
                        invariant
                            ctx_wf(&self.context),
                            c <= n,
                            n == self.context.module_graph.modules@.len(),
                            ancestors@.len() == n,
                            forall|c2: int|
                                0 <= c2 < chains@.len() ==> chain_is_accepting(
                                    &self.context.module_graph,
                                    (#[trigger] chains@[c2])@,
                                ),
                        decreases n - c,
                    {
                        if ancestors[c] {
                            let accepts = self.context.module_graph.modules[c].hmr_self_accepted
                                || match self.context.module_graph.entry_name(
                                &self.context.module_graph.modules[c].id,
                            ) {
                                Some(_) => true,
                                None => false,
                            };
                            if accepts {
                                let mut chain: Vec<ModuleId> = Vec::new();
                                chain.push(self.context.module_graph.modules[c].id.duplicate());
                                let ghost chains0 = chains@;
                                let ghost chv = chain@;
                                chains.push(chain);
                                proof {
                                    assert(accepts_update(&self.context.module_graph, c as int));
                                    assert(chv[0] == self.context.module_graph.modules@[c as int].id);
                                    assert(chain_is_accepting(&self.context.module_graph, chv));
                                    assert forall|c2: int|
                                        0 <= c2 < chains@.len() implies chain_is_accepting(
                                        &self.context.module_graph,
                                        (#[trigger] chains@[c2])@,
                                    ) by {
                                        if c2 < chains@.len() - 1 {
                                            assert(chains@[c2] == chains0[c2]);
                                        } else {
                                            assert(chains@[c2]@ == chv);
                                        }
                                    }
                                }
                            }
                        }
                        c = c + 1;
                    }
                },
                None => {},
            }
            let ghost out0 = out@;
            out.push((updated[u].duplicate(), chains));
            proof {
                assert forall|u2: int, c2: int|
                    0 <= u2 < u + 1 && 0 <= c2 < (#[trigger] out@[u2]).1@.len()
                    implies chain_is_accepting(
                    &self.context.module_graph,
                    (#[trigger] out@[u2].1@[c2])@,
                ) by {
                    if u2 < u {
                        assert(out@[u2] == out0[u2]);
                    }
                }
            }
            u = u + 1;
        }
        out
    }

    /// For each entry, the resources of its dynamic-import groups: the
    /// pots holding a dynamic root reachable from the entry, with the html
    /// tag kind of each.
    fn dynamic_resources(&self) -> (r: Vec<(ModuleId, Vec<(String, String)>)>)
        requires
            ctx_wf(&self.context),
        ensures
            r@.len() == self.context.module_graph.entries@.len(),
            forall|e: int|
                0 <= e < r@.len() ==> id_matches(
                    &(#[trigger] r@[e]).0,
                    &self.context.module_graph.entries@[e].id,
                ),
            // every reported row names a stored pot with its tag kind
            forall|e: int, j: int|
                0 <= e < r@.len() && 0 <= j < (#[trigger] r@[e]).1@.len() ==> row_names_pot(
                    self.context.resource_pot_map@,
                    #[trigger] r@[e].1@[j],
                ),
    {
        let mut out: Vec<(ModuleId, Vec<(String, String)>)> = Vec::new();
        let n = self.context.module_graph.modules.len();
        let mut e: usize = 0;
        while e < self.context.module_graph.entries.len()
            invariant
                ctx_wf(&self.context),
                e <= self.context.module_graph.entries@.len(),
                n == self.context.module_graph.modules@.len(),
                out@.len() == e,
                forall|e2: int|
                    0 <= e2 < e ==> id_matches(
                        &(#[trigger] out@[e2]).0,
                        &self.context.module_graph.entries@[e2].id,
                    ),
                forall|e2: int, j: int|
                    0 <= e2 < e && 0 <= j < (#[trigger] out@[e2]).1@.len() ==> row_names_pot(
                        self.context.resource_pot_map@,
                        #[trigger] out@[e2].1@[j],
                    ),
            decreases self.context.module_graph.entries@.len() - e,
        {
            let entry_id = self.context.module_graph.entries[e].id.duplicate();
            let mut list: Vec<(String, String)> = Vec::new();
            match self.context.module_graph.get_index_of(&entry_id) {
                Some(idx) => {
                    let mut roots: Vec<usize> = Vec::new();
                    roots.push(idx);
                    let live = reachable_set(&self.context.module_graph.edges, n, &roots, true);
                    // dynamic roots below this entry
                    let mut k: usize = 0;
                    while k < self.context.module_graph.edges.len()
                        invariant
                            ctx_wf(&self.context),
                            k <= self.context.module_graph.edges@.len(),
                            n == self.context.module_graph.modules@.len(),
                            live@.len() == n,
                            forall|j: int|
                                0 <= j < list@.len() ==> row_names_pot(
                                    self.context.resource_pot_map@,
                                    #[trigger] list@[j],
                                ),
                        decreases self.context.module_graph.edges@.len() - k,
                    {
                        let dynamic_edge = matches!(
                            self.context.module_graph.edges[k].kind,
                            crate::module::ResolveKind::DynamicImport
                        );
                        let e_from = self.context.module_graph.edges[k].from;
                        let e_to = self.context.module_graph.edges[k].to;
                        if dynamic_edge && live[e_from] {
                            // every pot holding the dynamic root
                            let mut t: usize = 0;
                            while t < self.context.resource_pot_map.len()
                                invariant
                                    ctx_wf(&self.context),
                                    t <= self.context.resource_pot_map@.len(),
                                    forall|j: int|
                                        0 <= j < list@.len() ==> row_names_pot(
                                            self.context.resource_pot_map@,
                                            #[trigger] list@[j],
                                        ),
                                decreases self.context.resource_pot_map@.len() - t,
                            {
                                if vec_contains_usize(
                                    &self.context.resource_pot_map[t].modules,
                                    e_to,
                                ) {
                                    let ghost list0 = list@;
                                    list.push(
                                        (
                                            self.context.resource_pot_map[t].id.clone(),
                                            to_html_tag(
                                                &self.context.resource_pot_map[t].resource_pot_type,
                                            ),
                                        ),
                                    );
                                    proof {
                                        assert forall|j: int|
                                            0 <= j < list@.len() implies row_names_pot(
                                            self.context.resource_pot_map@,
                                            #[trigger] list@[j],
                                        ) by {
                                            if j < list@.len() - 1 {
                                                assert(list@[j] == list0[j]);
                                            } else {
                                                assert(self.context.resource_pot_map@[t as int].id@
                                                    == list@[j].0@ && list@[j].1@ == html_tag_view(
                                                    &self.context.resource_pot_map@[t as int].resource_pot_type,
                                                ));
                                            }
                                        }
                                    }
                                }
                                t = t + 1;
                            }
                        }
                        k = k + 1;
                    }
                },
                None => {},
            }
            let ghost out0 = out@;
            let ghost listv = list@;
            out.push((entry_id, list));
            proof {
                assert forall|e2: int, j: int|
                    0 <= e2 < e + 1 && 0 <= j < (#[trigger] out@[e2]).1@.len()
                    implies row_names_pot(
                    self.context.resource_pot_map@,
                    #[trigger] out@[e2].1@[j],
                ) by {
                    if e2 < e {
                        assert(out@[e2] == out0[e2]);
                    } else {
                        assert(out@[e2].1@[j] == listv[j]);
                    }
                }
                assert forall|e2: int|
                    0 <= e2 < e + 1 implies id_matches(
                    &(#[trigger] out@[e2]).0,
                    &self.context.module_graph.entries@[e2].id,
                ) by {
                    if e2 < e {
                        assert(out@[e2] == out0[e2]);
                    }
                }
            }
            e = e + 1;
        }
        out
    }
}

} // verus!
