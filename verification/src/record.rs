//! Diagnostic records.
//!
//! The record manager keeps, per module id, what each hook round did:
//! resolutions, transforms, module processing, analyzed dependencies and
//! resource-pot work.  The host reads them through plain record values
//! whose ids are already rendered as strings.

use vstd::prelude::*;
use crate::module::{ModuleId, ResolveKind};

verus! {

/// A transform record as handed to the host.
#[derive(Debug)]
pub struct JsTransformRecord {
    pub name: String,
    pub result: String,
    pub source_maps: Option<String>,
}

/// A module-processing record as handed to the host.
#[derive(Debug)]
pub struct JsModuleRecord {
    pub name: String,
}

/// One analyzed dependency as handed to the host.
#[derive(Debug)]
pub struct JsAnalyzeDep {
    pub source: String,
    pub kind: String,
}

/// An analyze-deps record as handed to the host.
#[derive(Debug)]
pub struct JsAnalyzeDepsRecord {
    pub name: String,
    pub deps: Vec<JsAnalyzeDep>,
}

/// A module id as handed to the host.
#[derive(Debug)]
pub struct JsModuleId {
    pub relative_path: String,
    pub query: String,
}

impl JsModuleId {
    /// The host form of `id`.
    pub fn from_module_id(id: &ModuleId) -> (r: JsModuleId)
        ensures
            r.relative_path@ == id.relative_path@,
            r.query@ == id.query@,
    {
        JsModuleId { relative_path: id.relative_path.clone(), query: id.query.clone() }
    }
}

/// A resource-pot record as handed to the host.
#[derive(Debug)]
pub struct JsResourcePotRecord {
    pub name: String,
    pub hook: String,
    pub modules: Vec<String>,
    pub resources: Vec<String>,
}

/// The tag of a resolve kind, as records render it.
pub open spec fn kind_tag_view(kind: ResolveKind) -> Seq<char> {
    match kind {
        ResolveKind::Entry => "entry"@,
        ResolveKind::Import => "import"@,
        ResolveKind::DynamicImport => "dynamic-import"@,
        ResolveKind::Require => "require"@,
        ResolveKind::UrlReference => "url"@,
    }
}

/// Renders a resolve kind for records.
pub fn kind_tag(kind: ResolveKind) -> (r: String)
    ensures
        r@ == kind_tag_view(kind),
{
    match kind {
        ResolveKind::Entry => "entry".to_owned(),
        ResolveKind::Import => "import".to_owned(),
        ResolveKind::DynamicImport => "dynamic-import".to_owned(),
        ResolveKind::Require => "require".to_owned(),
        ResolveKind::UrlReference => "url".to_owned(),
    }
}

/// Some stored transform record belongs to module `id` and carries plugin
/// `name` and result `result`.
pub open spec fn has_transform_record(
    rs: Seq<TransformRecord>,
    id: Seq<char>,
    name: Seq<char>,
    result: Seq<char>,
) -> bool {
    exists|k: int|
        0 <= k < rs.len() && (#[trigger] rs[k]).module_id@ == id && rs[k].plugin@ == name
            && rs[k].result@ == result
}

/// Some stored processing record belongs to module `id` and names plugin
/// `name`.
pub open spec fn has_process_record(rs: Seq<(String, String)>, id: Seq<char>, name: Seq<char>) -> bool {
    exists|k: int| 0 <= k < rs.len() && (#[trigger] rs[k]).0@ == id && rs[k].1@ == name
}

/// Some stored analyze-deps record belongs to module `id` and names plugin
/// `name`.
pub open spec fn has_analyze_deps_record(
    rs: Seq<AnalyzeDepsRecord>,
    id: Seq<char>,
    name: Seq<char>,
) -> bool {
    exists|k: int| 0 <= k < rs.len() && (#[trigger] rs[k]).module_id@ == id && rs[k].plugin@ == name
}

/// Some stored resource-pot record belongs to pot `id` and carries name
/// `name`.
pub open spec fn has_resource_pot_record(
    rs: Seq<ResourcePotRecord>,
    id: Seq<char>,
    name: Seq<char>,
) -> bool {
    exists|k: int| 0 <= k < rs.len() && (#[trigger] rs[k]).pot_id@ == id && rs[k].name@ == name
}

/// One stored transform record: the module id it belongs to, the plugin
/// name, the result and its source map.
pub struct TransformRecord {
    pub module_id: String,
    pub plugin: String,
    pub result: String,
    pub source_maps: Option<String>,
}

/// One stored analyze-deps record.
pub struct AnalyzeDepsRecord {
    pub module_id: String,
    pub plugin: String,
    pub deps: Vec<(String, ResolveKind)>,
}

/// One stored resource-pot record.
pub struct ResourcePotRecord {
    pub pot_id: String,
    pub name: String,
    pub hook: String,
    pub modules: Vec<String>,
    pub resources: Vec<String>,
}

/// Diagnostic buffers keyed by module id.
pub struct RecordManager {
    pub resolve_records: Vec<String>,
    pub transform_records: Vec<TransformRecord>,
    pub process_records: Vec<(String, String)>,
    pub analyze_deps_records: Vec<AnalyzeDepsRecord>,
    pub resource_pot_records: Vec<ResourcePotRecord>,
}

impl RecordManager {
    /// Empty buffers.
    pub fn new() -> (r: RecordManager)
        ensures
            r.resolve_records@.len() == 0,
            r.transform_records@.len() == 0,
            r.process_records@.len() == 0,
            r.analyze_deps_records@.len() == 0,
            r.resource_pot_records@.len() == 0,
    {
        RecordManager {
            resolve_records: Vec::new(),
            transform_records: Vec::new(),
            process_records: Vec::new(),
            analyze_deps_records: Vec::new(),
            resource_pot_records: Vec::new(),
        }
    }

    /// Appends a resolve record.
    pub fn add_resolve_record(&mut self, line: String)
        ensures
            final(self).resolve_records@ == old(self).resolve_records@.push(line),
            final(self).transform_records@ == old(self).transform_records@,
            final(self).process_records@ == old(self).process_records@,
            final(self).analyze_deps_records@ == old(self).analyze_deps_records@,
            final(self).resource_pot_records@ == old(self).resource_pot_records@,
    {
        self.resolve_records.push(line);
    }

    /// The resolve records, oldest first.
    pub fn get_resolve_records(&self) -> (r: Vec<String>)
        ensures
            r@.len() == self.resolve_records@.len(),
            forall|j: int| 0 <= j < r@.len() ==> r@[j]@ == self.resolve_records@[j]@,
    {
        let mut out: Vec<String> = Vec::new();
        let mut i: usize = 0;
        while i < self.resolve_records.len()
            invariant
                i <= self.resolve_records@.len(),
                out@.len() == i,
                forall|j: int| 0 <= j < i ==> out@[j]@ == self.resolve_records@[j]@,
            decreases self.resolve_records@.len() - i,
        {
            let ghost out0 = out@;
            out.push(self.resolve_records[i].clone());
            proof {
                assert forall|j: int| 0 <= j < out@.len() implies out@[j]@
                    == self.resolve_records@[j]@ by {
                    if j < out@.len() - 1 {
                        assert(out@[j] == out0[j]);
                    }
                }
            }
            i = i + 1;
        }
        out
    }

    /// The transform records of module `id`, as host records; every
    /// returned record stems from a stored record with that id.
    pub fn get_transform_records_by_id(&self, id: &str) -> (r: Vec<JsTransformRecord>)
        ensures
            forall|j: int|
                0 <= j < r@.len() ==> has_transform_record(
                    self.transform_records@,
                    id@,
                    (#[trigger] r@[j]).name@,
                    r@[j].result@,
                ),
    {
        let mut out: Vec<JsTransformRecord> = Vec::new();
        let mut i: usize = 0;
        while i < self.transform_records.len()
            invariant
                i <= self.transform_records@.len(),
                forall|j: int|
                    0 <= j < out@.len() ==> has_transform_record(
                        self.transform_records@,
                        id@,
                        (#[trigger] out@[j]).name@,
                        out@[j].result@,
                    ),
            decreases self.transform_records@.len() - i,
        {
            if crate::paths::str_eq(self.transform_records[i].module_id.as_str(), id) {
                let ghost out0 = out@;
                let rec = JsTransformRecord {
                    name: self.transform_records[i].plugin.clone(),
                    result: self.transform_records[i].result.clone(),
                    source_maps: match &self.transform_records[i].source_maps {
                        Some(s) => Some(s.clone()),
                        None => None,
                    },
                };
                let ghost kw = i as int;
                out.push(rec);
                proof {
                    assert forall|j: int| 0 <= j < out@.len() implies has_transform_record(
                        self.transform_records@,
                        id@,
                        (#[trigger] out@[j]).name@,
                        out@[j].result@,
                    ) by {
                        if j < out@.len() - 1 {
                            assert(out@[j] == out0[j]);
                        } else {
                            assert((#[trigger] self.transform_records@[kw]).module_id@ == id@
                                && self.transform_records@[kw].plugin@ == out@[j].name@
                                && self.transform_records@[kw].result@ == out@[j].result@);
                        }
                    }
                }
            }
            i = i + 1;
        }
        out
    }

    /// The processing records of module `id`, as host records.
    pub fn get_process_records_by_id(&self, id: &str) -> (r: Vec<JsModuleRecord>)
        ensures
            forall|j: int|
                0 <= j < r@.len() ==> has_process_record(
                    self.process_records@,
                    id@,
                    (#[trigger] r@[j]).name@,
                ),
    {
        let mut out: Vec<JsModuleRecord> = Vec::new();
        let mut i: usize = 0;
        while i < self.process_records.len()
            invariant
                i <= self.process_records@.len(),
                forall|j: int|
                    0 <= j < out@.len() ==> has_process_record(
                        self.process_records@,
                        id@,
                        (#[trigger] out@[j]).name@,
                    ),
            decreases self.process_records@.len() - i,
        {
            if crate::paths::str_eq(self.process_records[i].0.as_str(), id) {
                let ghost out0 = out@;
                let ghost kw = i as int;
                out.push(JsModuleRecord { name: self.process_records[i].1.clone() });
                proof {
                    assert forall|j: int| 0 <= j < out@.len() implies has_process_record(
                        self.process_records@,
                        id@,
                        (#[trigger] out@[j]).name@,
                    ) by {
                        if j < out@.len() - 1 {
                            assert(out@[j] == out0[j]);
                        } else {
                            assert((#[trigger] self.process_records@[kw]).0@ == id@
                                && self.process_records@[kw].1@ == out@[j].name@);
                        }
                    }
                }
            }
            i = i + 1;
        }
        out
    }

    /// The analyze-deps records of module `id`, as host records.
    pub fn get_analyze_deps_records_by_id(&self, id: &str) -> (r: Vec<JsAnalyzeDepsRecord>)
        ensures
            forall|j: int|
                0 <= j < r@.len() ==> has_analyze_deps_record(
                    self.analyze_deps_records@,
                    id@,
                    (#[trigger] r@[j]).name@,
                ),
    {
        let mut out: Vec<JsAnalyzeDepsRecord> = Vec::new();
        let mut i: usize = 0;
        while i < self.analyze_deps_records.len()
            invariant
                i <= self.analyze_deps_records@.len(),
                forall|j: int|
                    0 <= j < out@.len() ==> has_analyze_deps_record(
                        self.analyze_deps_records@,
                        id@,
                        (#[trigger] out@[j]).name@,
                    ),
            decreases self.analyze_deps_records@.len() - i,
        {
            if crate::paths::str_eq(self.analyze_deps_records[i].module_id.as_str(), id) {
                let mut deps: Vec<JsAnalyzeDep> = Vec::new();
                let mut d: usize = 0;
                while d < self.analyze_deps_records[i].deps.len()
                    invariant
                        i < self.analyze_deps_records@.len(),
                        d <= self.analyze_deps_records@[i as int].deps@.len(),
                    decreases self.analyze_deps_records@[i as int].deps@.len() - d,
                {
                    deps.push(
                        JsAnalyzeDep {
                            source: self.analyze_deps_records[i].deps[d].0.clone(),
                            kind: kind_tag(self.analyze_deps_records[i].deps[d].1),
                        },
                    );
                    d = d + 1;
                }
                let ghost out0 = out@;
                let ghost kw = i as int;
                out.push(
                    JsAnalyzeDepsRecord { name: self.analyze_deps_records[i].plugin.clone(), deps },
                );
                proof {
                    assert forall|j: int| 0 <= j < out@.len() implies has_analyze_deps_record(
                        self.analyze_deps_records@,
                        id@,
                        (#[trigger] out@[j]).name@,
                    ) by {
                        if j < out@.len() - 1 {
                            assert(out@[j] == out0[j]);
                        } else {
                            assert((#[trigger] self.analyze_deps_records@[kw]).module_id@ == id@
                                && self.analyze_deps_records@[kw].plugin@ == out@[j].name@);
                        }
                    }
                }
            }
            i = i + 1;
        }
        out
    }

    /// The resource-pot records of pot `id`, as host records.
    pub fn get_resource_pot_records_by_id(&self, id: &str) -> (r: Vec<JsResourcePotRecord>)
        ensures
            forall|j: int|
                0 <= j < r@.len() ==> has_resource_pot_record(
                    self.resource_pot_records@,
                    id@,
                    (#[trigger] r@[j]).name@,
                ),
    {
        let mut out: Vec<JsResourcePotRecord> = Vec::new();
        let mut i: usize = 0;
        while i < self.resource_pot_records.len()
            invariant
                i <= self.resource_pot_records@.len(),
                forall|j: int|
                    0 <= j < out@.len() ==> has_resource_pot_record(
                        self.resource_pot_records@,
                        id@,
                        (#[trigger] out@[j]).name@,
                    ),
            decreases self.resource_pot_records@.len() - i,
        {
            if crate::paths::str_eq(self.resource_pot_records[i].pot_id.as_str(), id) {
                let rec = &self.resource_pot_records[i];
                let mut modules: Vec<String> = Vec::new();
                let mut d: usize = 0;
                while d < rec.modules.len()
                    invariant
                        d <= rec.modules@.len(),
                    decreases rec.modules@.len() - d,
                {
                    modules.push(rec.modules[d].clone());
                    d = d + 1;
                }
                let mut resources: Vec<String> = Vec::new();
                let mut e: usize = 0;
                while e < rec.resources.len()
                    invariant
                        e <= rec.resources@.len(),
                    decreases rec.resources@.len() - e,
                {
                    resources.push(rec.resources[e].clone());
                    e = e + 1;
                }
                let ghost out0 = out@;
                let ghost kw = i as int;
                out.push(
                    JsResourcePotRecord {
                        name: rec.name.clone(),
                        hook: rec.hook.clone(),
                        modules,
                        resources,
                    },
                );
                proof {
                    assert forall|j: int| 0 <= j < out@.len() implies has_resource_pot_record(
                        self.resource_pot_records@,
                        id@,
                        (#[trigger] out@[j]).name@,
                    ) by {
                        if j < out@.len() - 1 {
                            assert(out@[j] == out0[j]);
                        } else {
                            assert((#[trigger] self.resource_pot_records@[kw]).pot_id@ == id@
                                && self.resource_pot_records@[kw].name@ == out@[j].name@);
                        }
                    }
                }
            }
            i = i + 1;
        }
        out
    }
}

} // verus!
