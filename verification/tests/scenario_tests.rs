use bundler_core::compiler::Compiler;
use bundler_core::config::Config;
use bundler_core::memory::{MemoryDeps, MemoryFile, MemoryPlugin};
use bundler_core::module::{ModuleType, ResolveKind};
use bundler_core::plugin::PluginAnalyzeDepsHookResultEntry;
use bundler_core::update::UpdateType;

fn file(path: &str, content: &str) -> MemoryFile {
    MemoryFile {
        relative_path: path.to_string(),
        content: content.to_string(),
        module_type: ModuleType::Script,
    }
}

fn dep(source: &str, kind: ResolveKind) -> PluginAnalyzeDepsHookResultEntry {
    PluginAnalyzeDepsHookResultEntry { source: source.to_string(), kind }
}

fn config(entries: &[(&str, &str)]) -> Config {
    let mut c = Config::new_default();
    c.root = "/proj".to_string();
    for (name, source) in entries {
        c.entries.push((name.to_string(), source.to_string()));
    }
    c
}

/// Entry `a.ts` imports `b.ts`: one pot named `a` holding both modules in
/// dependency order.
fn scenario_one_plugin() -> MemoryPlugin {
    let mut p = MemoryPlugin::new();
    p.resolves.push(("./a.ts".to_string(), "/proj/a.ts".to_string(), false));
    p.resolves.push(("./b.ts".to_string(), "/proj/b.ts".to_string(), false));
    p.files.push(file("a.ts", "import './b.ts';"));
    p.files.push(file("b.ts", "export const b = 1;"));
    p.deps.push(MemoryDeps {
        importer: "a.ts".to_string(),
        deps: vec![dep("./b.ts", ResolveKind::Import)],
    });
    p
}

fn pot_module_paths(c: &Compiler<MemoryPlugin>, pot_id: &str) -> Vec<String> {
    for pot in c.context().resource_pot_map.iter() {
        if pot.id == pot_id {
            return pot
                .modules
                .iter()
                .map(|&m| c.context().module_graph.modules[m].id.relative_path.clone())
                .collect();
        }
    }
    panic!("no pot named {}", pot_id);
}

#[test]
fn single_entry_one_pot_in_dependency_order() {
    let mut compiler =
        Compiler::new(config(&[("a", "./a.ts")]), vec![scenario_one_plugin()]).unwrap();
    compiler.compile().unwrap();
    assert_eq!(compiler.context().resource_pot_map.len(), 1);
    assert_eq!(
        pot_module_paths(&compiler, "a"),
        vec!["b.ts".to_string(), "a.ts".to_string()]
    );
}

#[test]
fn shared_module_gets_its_own_pot() {
    let mut p = MemoryPlugin::new();
    p.resolves.push(("./a.ts".to_string(), "/proj/a.ts".to_string(), false));
    p.resolves.push(("./b.ts".to_string(), "/proj/b.ts".to_string(), false));
    p.resolves.push(("./shared.ts".to_string(), "/proj/shared.ts".to_string(), false));
    p.files.push(file("a.ts", "import './shared.ts';"));
    p.files.push(file("b.ts", "import './shared.ts';"));
    p.files.push(file("shared.ts", "export const s = 1;"));
    p.deps.push(MemoryDeps {
        importer: "a.ts".to_string(),
        deps: vec![dep("./shared.ts", ResolveKind::Import)],
    });
    p.deps.push(MemoryDeps {
        importer: "b.ts".to_string(),
        deps: vec![dep("./shared.ts", ResolveKind::Import)],
    });
    let mut compiler =
        Compiler::new(config(&[("a", "./a.ts"), ("b", "./b.ts")]), vec![p]).unwrap();
    compiler.compile().unwrap();
    assert_eq!(compiler.context().resource_pot_map.len(), 3);
    assert_eq!(pot_module_paths(&compiler, "a"), vec!["a.ts".to_string()]);
    assert_eq!(pot_module_paths(&compiler, "b"), vec!["b.ts".to_string()]);
    assert_eq!(pot_module_paths(&compiler, "shared"), vec!["shared.ts".to_string()]);
}

fn dynamic_plugin() -> MemoryPlugin {
    let mut p = MemoryPlugin::new();
    p.resolves.push(("./a.ts".to_string(), "/proj/a.ts".to_string(), false));
    p.resolves.push(("./lazy.ts".to_string(), "/proj/lazy.ts".to_string(), false));
    p.files.push(file("a.ts", "import('./lazy.ts');"));
    p.files.push(file("lazy.ts", "export const l = 1;"));
    p.deps.push(MemoryDeps {
        importer: "a.ts".to_string(),
        deps: vec![dep("./lazy.ts", ResolveKind::DynamicImport)],
    });
    p
}

#[test]
fn dynamic_import_starts_its_own_group_and_pot() {
    let mut compiler = Compiler::new(config(&[("a", "./a.ts")]), vec![dynamic_plugin()]).unwrap();
    compiler.compile().unwrap();

    // groups: {a} and {lazy}
    let groups = &compiler.context().module_group_graph;
    let mut root_paths: Vec<String> = groups
        .roots
        .iter()
        .map(|&r| compiler.context().module_graph.modules[r].id.relative_path.clone())
        .collect();
    root_paths.sort();
    assert_eq!(root_paths, vec!["a.ts".to_string(), "lazy.ts".to_string()]);

    assert_eq!(pot_module_paths(&compiler, "a"), vec!["a.ts".to_string()]);
    assert_eq!(pot_module_paths(&compiler, "lazy"), vec!["lazy.ts".to_string()]);

    // the dynamic resources of entry a list the lazy pot
    let result = compiler.update(vec![], false).unwrap();
    let map = result.dynamic_resources_map.unwrap();
    let entry = map
        .iter()
        .find(|(id, _)| id.relative_path == "a.ts")
        .expect("entry a.ts present");
    assert_eq!(entry.1, vec![("lazy".to_string(), "script".to_string())]);
}

#[test]
fn update_rebuilds_and_reports_boundaries() {
    let mut compiler =
        Compiler::new(config(&[("a", "./a.ts")]), vec![scenario_one_plugin()]).unwrap();
    compiler.compile().unwrap();

    let result = compiler
        .update(vec![("/proj/b.ts".to_string(), UpdateType::Updated)], true)
        .unwrap();
    let updated: Vec<String> = result
        .updated_module_ids
        .iter()
        .map(|id| id.relative_path.clone())
        .collect();
    assert_eq!(updated, vec!["b.ts".to_string()]);

    // the pot named a was re-rendered into a resource
    assert!(compiler.resource("a").is_some());

    // the only accept chain of b.ts ends at the entry a.ts
    let (_, chains) = result
        .boundaries
        .iter()
        .find(|(id, _)| id.relative_path == "b.ts")
        .expect("boundary entry for b.ts");
    let chain_paths: Vec<Vec<String>> = chains
        .iter()
        .map(|c| c.iter().map(|id| id.relative_path.clone()).collect())
        .collect();
    assert_eq!(chain_paths, vec![vec!["a.ts".to_string()]]);
}

#[test]
fn cache_hit_skips_work_beyond_load_and_hash() {
    fn cached_config() -> Config {
        let mut cfg = config(&[("a", "./a.ts")]);
        cfg.persistent_cache = true;
        cfg.cache_dir = "/cache".to_string();
        cfg.namespace = "ns".to_string();
        cfg
    }

    let mut first = Compiler::new(cached_config(), vec![scenario_one_plugin()]).unwrap();
    first.compile().unwrap();
    let first_paths = first.relative_module_paths();
    let first_pot = pot_module_paths(&first, "a");

    // a second compiler with the persisted cache and a transform that would
    // change b.ts: the cached module wins, so the transform is skipped
    let mut plugin = scenario_one_plugin();
    plugin
        .transforms
        .push(("b.ts".to_string(), "export const b = 2;".to_string()));
    let mut second = Compiler::new(cached_config(), vec![plugin]).unwrap();
    second.context.cache_manager.module_cache.entries =
        std::mem::take(&mut first.context.cache_manager.module_cache.entries);
    second.compile().unwrap();

    assert_eq!(second.relative_module_paths(), first_paths);
    assert_eq!(pot_module_paths(&second, "a"), first_pot);
    let b = second
        .context()
        .module_graph
        .modules
        .iter()
        .find(|m| m.id.relative_path == "b.ts")
        .unwrap();
    // the transformed content is the first build's, not the new transform
    assert_eq!(b.transformed_content, "export const b = 1;");
}

#[test]
fn compile_twice_is_deterministic() {
    let mut one = Compiler::new(config(&[("a", "./a.ts")]), vec![scenario_one_plugin()]).unwrap();
    one.compile().unwrap();
    let mut two = Compiler::new(config(&[("a", "./a.ts")]), vec![scenario_one_plugin()]).unwrap();
    two.compile().unwrap();

    assert_eq!(one.relative_module_paths(), two.relative_module_paths());
    assert_eq!(pot_module_paths(&one, "a"), pot_module_paths(&two, "a"));
    assert_eq!(one.resource("a"), two.resource("a"));
}

#[test]
fn resolve_and_load_errors_are_reported() {
    // an entry no plugin resolves
    let mut c1 = Compiler::new(config(&[("a", "./a.ts")]), vec![MemoryPlugin::new()]).unwrap();
    let err = c1.compile().unwrap_err();
    assert_eq!(err.kind_tag(), "resolve");

    // a resolved path no plugin loads
    let mut p = MemoryPlugin::new();
    p.resolves.push(("./a.ts".to_string(), "/proj/a.ts".to_string(), false));
    let mut c2 = Compiler::new(config(&[("a", "./a.ts")]), vec![p]).unwrap();
    let err = c2.compile().unwrap_err();
    assert_eq!(err.kind_tag(), "load");
    assert_eq!(err.describe(), "load: a.ts");
}

#[test]
fn external_dependency_stays_a_placeholder() {
    let mut p = scenario_one_plugin();
    p.resolves.push(("react".to_string(), "react".to_string(), true));
    p.deps.push(MemoryDeps {
        importer: "b.ts".to_string(),
        deps: vec![dep("react", ResolveKind::Import)],
    });
    let mut compiler = Compiler::new(config(&[("a", "./a.ts")]), vec![p]).unwrap();
    compiler.compile().unwrap();
    let graph = &compiler.context().module_graph;
    let react = graph.modules.iter().find(|m| m.id.relative_path == "react").unwrap();
    assert!(react.external);
    // the external placeholder joins no pot
    assert_eq!(pot_module_paths(&compiler, "a"), vec!["b.ts".to_string(), "a.ts".to_string()]);
    assert_eq!(compiler.context().resource_pot_map.len(), 1);
}

#[test]
fn added_paths_do_not_invalidate_modules() {
    let mut compiler =
        Compiler::new(config(&[("a", "./a.ts")]), vec![scenario_one_plugin()]).unwrap();
    compiler.compile().unwrap();

    let result = compiler
        .update(vec![("/proj/b.ts".to_string(), UpdateType::Added)], true)
        .unwrap();
    assert!(result.updated_module_ids.is_empty());

    let result = compiler
        .update(vec![("/proj/b.ts".to_string(), UpdateType::Removed)], true)
        .unwrap();
    let updated: Vec<String> = result
        .updated_module_ids
        .iter()
        .map(|id| id.relative_path.clone())
        .collect();
    assert_eq!(updated, vec!["b.ts".to_string()]);
}
