//! Resource pots and emitted resources.
//!
//! A resource pot is the output unit cut from a module bucket: an ordered
//! list of modules that will render into one artifact.  Pot names derive
//! from the originating module group: the configured entry name for an
//! entry group, otherwise the group path's stem, prefixed with parent path
//! segments until the name is unused.

use vstd::prelude::*;
use crate::module::{id_matches, ModuleId, ModuleType};
use crate::module_graph::ModuleGraph;
use crate::paths::{file_name_view, last_index_of, lemma_last_index_of, rfind_char, stem_of, stem_view};

verus! {

/// Classification of a resource pot, derived from the module type of its
/// contents.
#[derive(Clone, Debug)]
pub enum ResourcePotType {
    Js,
    Css,
    Html,
    Asset,
    Custom(String),
}

/// The pot type carrying modules of type `ty`.
pub open spec fn pot_type_of_spec(ty: &ModuleType) -> ResourcePotType {
    match ty {
        ModuleType::Script => ResourcePotType::Js,
        ModuleType::Css => ResourcePotType::Css,
        ModuleType::Html => ResourcePotType::Html,
        ModuleType::Asset => ResourcePotType::Asset,
        ModuleType::Custom(s) => ResourcePotType::Custom(*s),
    }
}

/// Maps a module type to the resource-pot type of its output.
pub fn pot_type_of(ty: &ModuleType) -> (r: ResourcePotType)
    ensures
        match (pot_type_of_spec(ty), r) {
            (ResourcePotType::Custom(a), ResourcePotType::Custom(b)) => a@ == b@,
            (a, b) => a == b,
        },
{
    match ty {
        ModuleType::Script => ResourcePotType::Js,
        ModuleType::Css => ResourcePotType::Css,
        ModuleType::Html => ResourcePotType::Html,
        ModuleType::Asset => ResourcePotType::Asset,
        ModuleType::Custom(s) => ResourcePotType::Custom(s.clone()),
    }
}

/// An output unit: modules in render order, with content filled in by the
/// render stage.
#[derive(Debug)]
pub struct ResourcePot {
    pub id: String,
    pub resource_pot_type: ResourcePotType,
    /// Module indices into the module graph, in render order.
    pub modules: Vec<usize>,
    pub rendered_content: Option<String>,
    pub source_map: Option<String>,
}

impl ResourcePot {
    /// An empty pot.
    pub fn new(id: String, resource_pot_type: ResourcePotType) -> (r: ResourcePot)
        ensures
            r.id@ == id@,
            r.resource_pot_type == resource_pot_type,
            r.modules@.len() == 0,
            r.rendered_content is None,
    {
        ResourcePot { id, resource_pot_type, modules: Vec::new(), rendered_content: None, source_map: None }
    }

    /// Appends a module.
    pub fn add_module(&mut self, module_index: usize)
        ensures
            final(self).modules@ == old(self).modules@.push(module_index),
            final(self).id == old(self).id,
            final(self).resource_pot_type == old(self).resource_pot_type,
            final(self).rendered_content == old(self).rendered_content,
            final(self).source_map == old(self).source_map,
    {
        self.modules.push(module_index);
    }
}

/// A final emitted artifact.
#[derive(Debug)]
pub struct Resource {
    pub name: String,
    pub bytes: Vec<u8>,
    /// True once the artifact was handed to an external writer.
    pub emitted: bool,
    pub resource_type: ResourcePotType,
}

/// Whether `used` holds a string whose characters are `x`.
pub open spec fn seq_contains_string(used: Seq<String>, x: Seq<char>) -> bool {
    exists|i: int| 0 <= i < used.len() && used[i]@ == x
}

/// Whether `used` holds `x`.
pub fn contains_string(used: &Vec<String>, x: &str) -> (r: bool)
    ensures
        r == seq_contains_string(used@, x@),
{
    let mut i: usize = 0;
    while i < used.len()
        invariant
            i <= used@.len(),
            forall|j: int| 0 <= j < i ==> used@[j]@ != x@,
        decreases used@.len() - i,
    {
        if crate::paths::str_eq(used[i].as_str(), x) {
            proof {
                assert(used@[i as int]@ == x@);
            }
            return true;
        }
        i = i + 1;
    }
    false
}

/// Prefixes `name` with parent path segments of `path`, innermost first,
/// until the name is not in `used`; when the path runs out the last
/// candidate is returned even if used.
pub open spec fn uniquify_name(path: Seq<char>, name: Seq<char>, used: Seq<String>) -> Seq<char>
    decreases path.len(),
    via uniquify_name_decreases
{
    let sep = last_index_of(path, '/');
    if sep <= 0 {
        name
    } else {
        let parent = path.subrange(0, sep);
        let candidate = file_name_view(parent) + "_"@ + name;
        if !seq_contains_string(used, candidate) {
            candidate
        } else {
            uniquify_name(parent, candidate, used)
        }
    }
}

#[via_fn]
proof fn uniquify_name_decreases(path: Seq<char>, name: Seq<char>, used: Seq<String>) {
    lemma_last_index_of(path, '/');
}

/// The name of a resource pot for the non-entry group rooted at `path`:
/// the stem of `path`, made unique against `used` by prefixing parent
/// segments.
pub open spec fn pot_name_view(path: Seq<char>, used: Seq<String>) -> Seq<char> {
    let base = stem_view(path);
    if !seq_contains_string(used, base) {
        base
    } else {
        uniquify_name(path, base, used)
    }
}

/// Derives the base resource-pot name of the module group rooted at
/// `group_id`: the configured entry name when the group is an entry,
/// otherwise the group path's stem made unique against `used`.
pub fn generate_resource_pot_name(group_id: &ModuleId, used: &Vec<String>, graph: &ModuleGraph) -> (r:
    String)
    ensures
        (exists|i: int|
            0 <= i < graph.entries@.len() && id_matches(&(#[trigger] graph.entries@[i]).id, group_id))
            ==> exists|i: int|
            0 <= i < graph.entries@.len() && id_matches(&(#[trigger] graph.entries@[i]).id, group_id)
                && r@ == graph.entries@[i].name@,
        (forall|i: int|
            0 <= i < graph.entries@.len() ==> !id_matches(&(#[trigger] graph.entries@[i]).id, group_id))
            ==> r@ == pot_name_view(group_id.relative_path@, used@),
{
    match graph.entry_name(group_id) {
        Some(name) => name,
        None => {
            let mut name = stem_of(group_id.relative_path.as_str());
            if !contains_string(used, name.as_str()) {
                return name;
            }
            let mut path = group_id.relative_path.clone();
            let ghost goal = pot_name_view(group_id.relative_path@, used@);
            proof {
                assert(goal == uniquify_name(path@, name@, used@));
            }
            loop
                invariant
                    goal == pot_name_view(group_id.relative_path@, used@),
                    goal == uniquify_name(path@, name@, used@),
                    forall|i: int|
                        0 <= i < graph.entries@.len() ==> !id_matches(
                            &(#[trigger] graph.entries@[i]).id,
                            group_id,
                        ),
                decreases path@.len(),
            {
                let sep = match rfind_char(path.as_str(), '/') {
                    Some(i) => i,
                    None => {
                        proof {
                            assert(uniquify_name(path@, name@, used@) == name@);
                        }
                        return name;
                    },
                };
                if sep == 0 {
                    proof {
                        assert(uniquify_name(path@, name@, used@) == name@);
                    }
                    return name;
                }
                let parent = crate::paths::substring_owned(path.as_str(), 0, sep);
                let seg = crate::paths::file_name_of(parent.as_str());
                let candidate = seg.concat("_").concat(name.as_str());
                proof {
                    lemma_last_index_of(path@, '/');
                    reveal_strlit("_");
                    assert(candidate@ == file_name_view(parent@) + "_"@ + name@);
                }
                if !contains_string(used, candidate.as_str()) {
                    proof {
                        assert(uniquify_name(path@, name@, used@) == candidate@);
                    }
                    return candidate;
                }
                proof {
                    assert(uniquify_name(path@, name@, used@) == uniquify_name(
                        parent@,
                        candidate@,
                        used@,
                    ));
                    lemma_last_index_of(path@, '/');
                }
                name = candidate;
                path = parent;
            }
        },
    }
}

} // verus!
