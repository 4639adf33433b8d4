//! Module identity and module records.
//!
//! A module is one source file (plus an optional query string).  Its
//! identity is the resolved path made relative to the project root with
//! separators normalized to forward slashes, paired with the query.  Two
//! modules with the same identity are the same module.

use vstd::prelude::*;
use crate::hashing::{fnv_offset_basis, fnv_step, hex_view, to_hex};
use crate::paths::{normalize_slashes, normalized_view, relative_view, starts_with_str};

verus! {

/// Compilation mode; it selects the string form of module ids and the cache
/// namespace.
#[derive(Clone, Copy, PartialEq, Eq, Structural, Debug)]
pub enum Mode {
    Development,
    Production,
}

/// Classification of a module, driving which front-end plugin handles it and
/// which resource-pot family it lands in.
#[derive(Clone, Debug)]
pub enum ModuleType {
    Script,
    Css,
    Html,
    Asset,
    Custom(String),
}

/// View-level equality of module types: same variant, and for custom types
/// the same name.
pub open spec fn module_type_matches(a: &ModuleType, b: &ModuleType) -> bool {
    match (a, b) {
        (ModuleType::Script, ModuleType::Script) => true,
        (ModuleType::Css, ModuleType::Css) => true,
        (ModuleType::Html, ModuleType::Html) => true,
        (ModuleType::Asset, ModuleType::Asset) => true,
        (ModuleType::Custom(x), ModuleType::Custom(y)) => x@ == y@,
        _ => false,
    }
}

impl PartialEq for ModuleType {
    fn eq(&self, other: &ModuleType) -> (r: bool) {
        match (self, other) {
            (ModuleType::Script, ModuleType::Script) => true,
            (ModuleType::Css, ModuleType::Css) => true,
            (ModuleType::Html, ModuleType::Html) => true,
            (ModuleType::Asset, ModuleType::Asset) => true,
            (ModuleType::Custom(x), ModuleType::Custom(y)) => x.eq(y),
            _ => false,
        }
    }
}

impl vstd::std_specs::cmp::PartialEqSpecImpl for ModuleType {
    open spec fn obeys_eq_spec() -> bool {
        true
    }

    open spec fn eq_spec(&self, other: &ModuleType) -> bool {
        module_type_matches(self, other)
    }
}

impl ModuleType {
    /// An exact copy.
    pub fn duplicate(&self) -> (r: ModuleType)
        ensures
            r == *self,
    {
        match self {
            ModuleType::Script => ModuleType::Script,
            ModuleType::Css => ModuleType::Css,
            ModuleType::Html => ModuleType::Html,
            ModuleType::Asset => ModuleType::Asset,
            ModuleType::Custom(s) => ModuleType::Custom(s.clone()),
        }
    }

    /// A short tag naming the type, mixed into content hashes.
    pub open spec fn tag_view(&self) -> Seq<char> {
        match self {
            ModuleType::Script => "script"@,
            ModuleType::Css => "css"@,
            ModuleType::Html => "html"@,
            ModuleType::Asset => "asset"@,
            ModuleType::Custom(s) => "custom:"@ + s@,
        }
    }

    /// Renders the tag of this type.
    pub fn tag(&self) -> (r: String)
        ensures
            r@ == self.tag_view(),
    {
        match self {
            ModuleType::Script => "script".to_owned(),
            ModuleType::Css => "css".to_owned(),
            ModuleType::Html => "html".to_owned(),
            ModuleType::Asset => "asset".to_owned(),
            ModuleType::Custom(s) => "custom:".to_owned().concat(s.as_str()),
        }
    }
}

/// Canonical identity of a module: project-root-relative path with forward
/// slashes, plus the query string of the import that introduced it.
#[derive(Clone, Debug)]
pub struct ModuleId {
    pub relative_path: String,
    pub query: String,
}

/// View-level equality of module ids: equal paths and equal queries.
pub open spec fn id_matches(a: &ModuleId, b: &ModuleId) -> bool {
    a.relative_path@ == b.relative_path@ && a.query@ == b.query@
}

impl PartialEq for ModuleId {
    fn eq(&self, other: &ModuleId) -> (r: bool) {
        self.relative_path == other.relative_path && self.query == other.query
    }
}

impl vstd::std_specs::cmp::PartialEqSpecImpl for ModuleId {
    open spec fn obeys_eq_spec() -> bool {
        true
    }

    open spec fn eq_spec(&self, other: &ModuleId) -> bool {
        id_matches(self, other)
    }
}

/// Folds a character sequence into a 64-bit FNV-1a hash, one character per
/// step.
pub open spec fn fnv_chars(s: Seq<char>) -> u64
    decreases s.len(),
{
    if s.len() == 0 {
        fnv_offset_basis()
    } else {
        fnv_step(fnv_chars(s.drop_last()), (s.last() as u8))
    }
}

/// Computes the FNV-1a hash of the characters of `s`.
pub fn fnv_str(s: &str) -> (r: u64)
    ensures
        r == fnv_chars(s@),
{
    let n: usize = s.unicode_len();
    let mut h: u64 = 0xcbf29ce484222325;
    let mut i: usize = 0;
    while i < n
        invariant
            i <= n,
            n == s@.len(),
            h == fnv_chars(s@.take(i as int)),
        decreases n - i,
    {
        let c = s.get_char(i);
        h = (h ^ ((c as u8) as u64)).wrapping_mul(0x100000001b3);
        proof {
            let t = s@.take(i + 1);
            assert(t.drop_last() =~= s@.take(i as int));
            assert(t.last() == s@[i as int]);
        }
        i = i + 1;
    }
    proof {
        assert(s@.take(n as int) =~= s@);
    }
    h
}

impl ModuleId {
    /// The development-mode string form: the relative path, with the query
    /// appended after `?` when one is present.
    pub open spec fn dev_id_view(&self) -> Seq<char> {
        if self.query@.len() == 0 {
            self.relative_path@
        } else {
            self.relative_path@ + "?"@ + self.query@
        }
    }

    /// Builds the identity for `path` resolved under `root`: separators are
    /// normalized to forward slashes and the root prefix is stripped.
    pub fn new(path: &str, query: &str, root: &str) -> (r: ModuleId)
        ensures
            r.relative_path@ == relative_view(normalized_view(path@), normalized_view(root@)),
            r.query@ == query@,
    {
        let np = normalize_slashes(path);
        let nr = normalize_slashes(root);
        let np_len: usize = np.as_str().unicode_len();
        let nr_len: usize = nr.as_str().unicode_len();
        let relative_path: String = if nr_len > 0 && np_len > nr_len && starts_with_str(
            np.as_str(),
            nr.as_str(),
        ) && np.as_str().get_char(nr_len) == '/' {
            crate::paths::substring_owned(np.as_str(), nr_len + 1, np_len)
        } else {
            proof {
                assert(relative_view(np@, nr@) == np@);
            }
            np
        };
        ModuleId { relative_path, query: query.to_owned() }
    }

    /// An exact copy.
    pub fn duplicate(&self) -> (r: ModuleId)
        ensures
            r == *self,
    {
        ModuleId { relative_path: self.relative_path.clone(), query: self.query.clone() }
    }

    /// The string form of the id for `mode`: the development form as is,
    /// the production form hashed.
    pub open spec fn mode_id_view(&self, mode: Mode) -> Seq<char> {
        if mode == Mode::Development {
            self.dev_id_view()
        } else {
            hex_view(fnv_chars(self.dev_id_view()))
        }
    }

    /// The string form of the id for `mode`: in development the relative
    /// path plus query, in production a stable hexadecimal hash of it.
    pub fn id(&self, mode: Mode) -> (r: String)
        ensures
            mode == Mode::Development ==> r@ == self.dev_id_view(),
            mode == Mode::Production ==> r@ == hex_view(fnv_chars(self.dev_id_view())),
            r@ == self.mode_id_view(mode),
    {
        let dev: String = if self.query.as_str().unicode_len() == 0 {
            self.relative_path.clone()
        } else {
            self.relative_path.clone().concat("?").concat(self.query.as_str())
        };
        match mode {
            Mode::Development => dev,
            Mode::Production => to_hex(fnv_str(dev.as_str())),
        }
    }
}

/// One import site recorded on a dependency edge.
#[derive(Clone, Copy, PartialEq, Eq, Structural, Debug)]
pub enum ResolveKind {
    Entry,
    Import,
    DynamicImport,
    Require,
    UrlReference,
}

/// A module record owned by the module graph.
#[derive(Clone, Debug)]
pub struct Module {
    pub id: ModuleId,
    pub module_type: ModuleType,
    /// Post-load, pre-transform content, retained for diagnostics.
    pub content: String,
    /// Content after the transform chain; what the render stage emits.
    pub transformed_content: String,
    pub content_hash: u64,
    /// Opaque per-type payload set by a front-end plugin.
    pub meta: Vec<u8>,
    pub side_effects: bool,
    pub external: bool,
    /// Third-party code eligible for long-term caching.
    pub immutable: bool,
    /// Set by a plugin when the module accepts hot updates itself.
    pub hmr_self_accepted: bool,
    pub source_map: Option<String>,
}

/// Structural equality of two module records: every field agrees at the
/// view level.
pub open spec fn module_matches(a: &Module, b: &Module) -> bool {
    &&& id_matches(&a.id, &b.id)
    &&& module_type_matches(&a.module_type, &b.module_type)
    &&& a.content@ == b.content@
    &&& a.transformed_content@ == b.transformed_content@
    &&& a.content_hash == b.content_hash
    &&& a.meta@ == b.meta@
    &&& a.side_effects == b.side_effects
    &&& a.external == b.external
    &&& a.immutable == b.immutable
    &&& a.hmr_self_accepted == b.hmr_self_accepted
    &&& match (&a.source_map, &b.source_map) {
        (Some(x), Some(y)) => x@ == y@,
        (None, None) => true,
        _ => false,
    }
}

impl Module {
    /// A fresh non-external script module with empty content.
    pub fn new(id: ModuleId) -> (r: Module)
        ensures
            r.id == id,
            r.external == false,
            r.module_type is Script,
            r.content@.len() == 0,
    {
        Module {
            id,
            module_type: ModuleType::Script,
            content: String::new(),
            transformed_content: String::new(),
            content_hash: 0,
            meta: Vec::new(),
            side_effects: true,
            external: false,
            immutable: false,
            hmr_self_accepted: false,
            source_map: None,
        }
    }

    /// A placeholder for an external module: nothing is loaded for it and it
    /// joins no resource pot.
    pub fn new_external(id: ModuleId) -> (r: Module)
        ensures
            r.id == id,
            r.external == true,
    {
        Module {
            id,
            module_type: ModuleType::Script,
            content: String::new(),
            transformed_content: String::new(),
            content_hash: 0,
            meta: Vec::new(),
            side_effects: false,
            external: true,
            immutable: false,
            hmr_self_accepted: false,
            source_map: None,
        }
    }

    /// A structurally equal copy.
    pub fn duplicate(&self) -> (r: Module)
        ensures
            module_matches(&r, self),
    {
        let meta = clone_bytes(&self.meta);
        Module {
            id: self.id.duplicate(),
            module_type: self.module_type.duplicate(),
            content: self.content.clone(),
            transformed_content: self.transformed_content.clone(),
            content_hash: self.content_hash,
            meta,
            side_effects: self.side_effects,
            external: self.external,
            immutable: self.immutable,
            hmr_self_accepted: self.hmr_self_accepted,
            source_map: match &self.source_map {
                Some(s) => Some(s.clone()),
                None => None,
            },
        }
    }
}

/// Copies a byte vector.
pub fn clone_bytes(v: &Vec<u8>) -> (r: Vec<u8>)
    ensures
        r@ == v@,
{
    let mut out: Vec<u8> = Vec::new();
    let mut i: usize = 0;
    while i < v.len()
        invariant
            i <= v@.len(),
            out@ == v@.take(i as int),
        decreases v@.len() - i,
    {
        out.push(v[i]);
        proof {
            assert(v@.take(i + 1) =~= v@.take(i as int).push(v@[i as int]));
        }
        i = i + 1;
    }
    proof {
        assert(v@.take(v@.len() as int) =~= v@);
    }
    out
}

/// The character stream hashed for a module's content hash: the loaded
/// content, the module-type tag, and the mode tag.
pub open spec fn content_hash_input(content: Seq<char>, ty: &ModuleType, mode: Mode) -> Seq<char> {
    content + ty.tag_view() + (if mode == Mode::Development {
        "dev"@
    } else {
        "prod"@
    })
}

/// Computes the content hash of a loaded module: a pure function of the
/// content, the module type and the mode.
pub fn content_hash(content: &str, ty: &ModuleType, mode: Mode) -> (r: u64)
    ensures
        r == fnv_chars(content_hash_input(content@, ty, mode)),
{
    let mut s = content.to_owned().concat(ty.tag().as_str());
    match mode {
        Mode::Development => {
            s = s.concat("dev");
        },
        Mode::Production => {
            s = s.concat("prod");
        },
    }
    fnv_str(s.as_str())
}

} // verus!
