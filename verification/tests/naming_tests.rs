use bundler_core::module::{Module, ModuleId};
use bundler_core::module_graph::ModuleGraph;
use bundler_core::resource_pot::generate_resource_pot_name;

fn mid(p: &str) -> ModuleId {
    ModuleId { relative_path: p.to_string(), query: String::new() }
}

#[test]
fn test_generate_resource_pot_name() {
    let mut module_graph = ModuleGraph::new();
    let module_a = Module::new(mid("test/src/a.html"));
    module_graph.add_entry(module_a.id.duplicate(), "a".to_string());
    module_graph.add_module(module_a);

    let mut used_resource_pot_names: Vec<String> = Vec::new();
    assert_eq!(
        generate_resource_pot_name(&mid("test/src/a.html"), &used_resource_pot_names, &module_graph),
        "a"
    );

    let group_id = mid("test/src/api.ts");
    assert_eq!(
        generate_resource_pot_name(&group_id, &used_resource_pot_names, &module_graph),
        "api"
    );

    used_resource_pot_names.push("api".to_string());
    assert_eq!(
        generate_resource_pot_name(&group_id, &used_resource_pot_names, &module_graph),
        "src_api"
    );

    used_resource_pot_names.push("src_api".to_string());
    used_resource_pot_names.push("test_src_api".to_string());
    assert_eq!(
        generate_resource_pot_name(&group_id, &used_resource_pot_names, &module_graph),
        "test_src_api"
    );
}

#[test]
fn pot_name_collisions_prefix_parents() {
    let module_graph = ModuleGraph::new();
    let mut used: Vec<String> = Vec::new();
    assert_eq!(generate_resource_pot_name(&mid("src/a.html"), &used, &module_graph), "a");
    used.push("a".to_string());
    assert_eq!(generate_resource_pot_name(&mid("test/a.html"), &used, &module_graph), "test_a");
    used.push("test_a".to_string());
    assert_eq!(generate_resource_pot_name(&mid("x/test/a"), &used, &module_graph), "x_test_a");
}
