use bundler_core::cache::{CachedModule, ModuleCacheManager};
use bundler_core::hashing::{fnv64, to_dec, to_hex};
use bundler_core::module::{content_hash, Mode, Module, ModuleId, ModuleType};
use bundler_core::module_bucket::{
    find_best_process_bucket, ModuleBucket, ModuleBucketId, PartialBundlingModuleBucketsConfig,
};
use bundler_core::paths::{file_name_of, normalize_slashes, stem_of, str_eq, str_lt};
use bundler_core::plugin::{NoopPlugin, PluginDriver};
use bundler_core::record::{JsModuleId, RecordManager, TransformRecord};
use bundler_core::watcher::{
    common_watch_prefix, covered_by_watched, should_forward, HostPlatform, WatchEventKind,
};

#[test]
fn fnv_and_renderings() {
    // FNV-1a offset basis for empty input
    assert_eq!(fnv64(&[]), 0xcbf29ce484222325);
    assert_eq!(to_hex(0), "0000000000000000");
    assert_eq!(to_hex(0xdeadbeef), "00000000deadbeef");
    assert_eq!(to_dec(0), "0");
    assert_eq!(to_dec(1234), "1234");
}

#[test]
fn path_helpers() {
    assert_eq!(normalize_slashes("a\\b\\c.ts"), "a/b/c.ts");
    assert_eq!(file_name_of("test/src/a.html"), "a.html");
    assert_eq!(stem_of("test/src/a.html"), "a");
    assert_eq!(stem_of("no_ext"), "no_ext");
    assert!(str_eq("abc", "abc"));
    assert!(!str_eq("abc", "abd"));
    assert!(str_lt("a", "b"));
    assert!(str_lt("a", "ab"));
    assert!(!str_lt("b", "ab"));
}

#[test]
fn module_id_forms() {
    let id = ModuleId::new("C:\\proj\\src\\a.ts", "", "C:\\proj");
    assert_eq!(id.relative_path, "src/a.ts");
    assert_eq!(id.id(Mode::Development), "src/a.ts");

    let with_query = ModuleId::new("/proj/a.ts", "raw", "/proj");
    assert_eq!(with_query.id(Mode::Development), "a.ts?raw");

    let prod = with_query.id(Mode::Production);
    assert_eq!(prod.len(), 16);
    // stable across calls
    assert_eq!(prod, with_query.id(Mode::Production));

    // outside the root the path stays as resolved
    let outside = ModuleId::new("/other/b.ts", "", "/proj");
    assert_eq!(outside.relative_path, "/other/b.ts");
}

#[test]
fn content_hash_depends_on_type_and_mode() {
    let script = content_hash("body", &ModuleType::Script, Mode::Development);
    let css = content_hash("body", &ModuleType::Css, Mode::Development);
    let prod = content_hash("body", &ModuleType::Script, Mode::Production);
    assert_ne!(script, css);
    assert_ne!(script, prod);
    assert_eq!(script, content_hash("body", &ModuleType::Script, Mode::Development));
}

#[test]
fn cache_round_trip() {
    let mut cache = ModuleCacheManager::new("/cache", "ns", Mode::Development);
    assert_eq!(cache.cache_dir, "/cache/ns/development/modules/");
    assert_eq!(cache.cache_file_path("abcd"), "/cache/ns/development/modules/abcd");
    assert!(!cache.has_module_cache("abcd"));
    assert!(cache.get_module_cache("abcd").is_none());

    let mut module = Module::new(ModuleId {
        relative_path: "a.ts".to_string(),
        query: String::new(),
    });
    module.content = "const a = 1;".to_string();
    module.content_hash = 42;
    let entry = CachedModule { module, deps: Vec::new() };
    cache.set_module_cache("abcd", &entry);

    assert!(cache.has_module_cache("abcd"));
    let out = cache.get_module_cache("abcd").unwrap();
    assert_eq!(out.module.id.relative_path, "a.ts");
    assert_eq!(out.module.content, "const a = 1;");
    assert_eq!(out.module.content_hash, 42);
    assert_eq!(out.deps.len(), 0);

    cache.invalidate("abcd");
    assert!(!cache.has_module_cache("abcd"));
}

fn bucket(weight: u64, size: u64, units: usize) -> ModuleBucket {
    let mut config = PartialBundlingModuleBucketsConfig::new_default();
    config.weight = weight;
    let mut b = ModuleBucket::new(ModuleBucketId::from("b".to_string()), Vec::new(), config);
    b.add_module(0, &ModuleType::Script, size);
    let mut u = 0;
    while u < units {
        b.add_resource_pot(format!("u{}", u));
        u += 1;
    }
    b
}

#[test]
fn best_bucket_order() {
    let buckets = vec![
        bucket(0, 10, 1), // index 0
        bucket(5, 1, 0),  // index 1: highest weight wins
        bucket(5, 9, 2),  // index 2: same weight, larger size*units
        bucket(5, 18, 1), // index 3: same weight, same product, fewer units
    ];
    let pending = vec![0, 1, 2, 3];
    assert_eq!(find_best_process_bucket(&buckets, &pending), 2);

    // a full tie is broken by the lesser bucket id, whatever the pending
    // order
    let mut z = bucket(1, 4, 1);
    z.id = ModuleBucketId::from("z".to_string());
    let mut a = bucket(1, 4, 1);
    a.id = ModuleBucketId::from("a".to_string());
    let buckets2 = vec![z, a];
    assert_eq!(find_best_process_bucket(&buckets2, &vec![0, 1]), 1);
    // equal ids keep the first pending bucket
    let buckets3 = vec![bucket(1, 4, 1), bucket(1, 4, 1)];
    assert_eq!(find_best_process_bucket(&buckets3, &vec![0, 1]), 0);
}

#[test]
fn bucket_bookkeeping() {
    let mut b = bucket(0, 10, 0);
    assert_eq!(b.total_size(), 10);
    b.add_module(7, &ModuleType::Css, 5);
    assert_eq!(b.total_size(), 15);
    assert!(b.remove_module(7, &ModuleType::Css, 5));
    assert!(!b.remove_module(7, &ModuleType::Css, 5));
    assert_eq!(b.total_size(), 10);
    assert_eq!(b.modules(), &vec![0usize]);
    let taken = b.take_modules();
    assert_eq!(taken, vec![0usize]);
    assert!(b.modules().is_empty());
    assert_eq!(ModuleBucketId::from("k".to_string()).to_string(), "k");
}

#[test]
fn watcher_policy() {
    assert!(should_forward(HostPlatform::MacOs, WatchEventKind::ModifyData));
    assert!(!should_forward(HostPlatform::MacOs, WatchEventKind::AccessClose));
    assert!(should_forward(HostPlatform::Linux, WatchEventKind::AccessClose));
    assert!(!should_forward(HostPlatform::Linux, WatchEventKind::ModifyData));
    assert!(should_forward(HostPlatform::Other, WatchEventKind::OtherModify));
    assert!(!should_forward(HostPlatform::Other, WatchEventKind::Other));
}

#[test]
fn watcher_prefixes() {
    let paths = vec![
        "/proj/src/a.ts".to_string(),
        "/proj/src/pages/b.ts".to_string(),
        "/proj/style.css".to_string(),
    ];
    let prefix = common_watch_prefix(&paths).unwrap();
    assert_eq!(prefix, "/proj/");
    assert!(common_watch_prefix(&Vec::new()).is_none());

    let single = common_watch_prefix(&vec!["/proj/a.ts".to_string()]).unwrap();
    assert_eq!(single, "/proj/a.ts");

    let watched = vec!["/proj/".to_string()];
    assert!(covered_by_watched(&watched, "/proj/src/a.ts"));
    assert!(!covered_by_watched(&watched, "/other/a.ts"));
}

#[test]
fn driver_sorts_by_priority() {
    let driver = PluginDriver::new(vec![NoopPlugin, NoopPlugin]);
    assert_eq!(driver.len(), 2);
    assert!(driver.entries[0].priority >= driver.entries[1].priority);
}

#[test]
fn record_manager_filters_by_id() {
    let mut rm = RecordManager::new();
    rm.add_resolve_record("resolved ./a.ts".to_string());
    assert_eq!(rm.get_resolve_records(), vec!["resolved ./a.ts".to_string()]);

    rm.transform_records.push(TransformRecord {
        module_id: "a.ts".to_string(),
        plugin: "memory".to_string(),
        result: "out".to_string(),
        source_maps: None,
    });
    let records = rm.get_transform_records_by_id("a.ts");
    assert_eq!(records.len(), 1);
    assert_eq!(records[0].name, "memory");
    assert_eq!(records[0].result, "out");
    assert!(rm.get_transform_records_by_id("b.ts").is_empty());
    assert!(rm.get_process_records_by_id("a.ts").is_empty());
    assert!(rm.get_analyze_deps_records_by_id("a.ts").is_empty());
    assert!(rm.get_resource_pot_records_by_id("a").is_empty());

    let js_id = JsModuleId::from_module_id(&ModuleId {
        relative_path: "a.ts".to_string(),
        query: "raw".to_string(),
    });
    assert_eq!(js_id.relative_path, "a.ts");
    assert_eq!(js_id.query, "raw");
}

#[test]
fn extra_watch_paths_render_as_dev_ids() {
    let res = bundler_core::update::UpdateResult {
        added_module_ids: Vec::new(),
        updated_module_ids: vec![ModuleId::new("/proj/b.ts", "", "/proj")],
        removed_module_ids: Vec::new(),
        resources: String::from("[]"),
        boundaries: Vec::new(),
        dynamic_resources_map: None,
        extra_watch_result: bundler_core::update::WatchDiffResult {
            add: vec![String::from("/proj/extra.scss")],
            remove: vec![String::from("C:\\proj\\gone.scss")],
        },
    };
    let js = bundler_core::update::update_result_to_js(&res, Mode::Development, "/proj");
    assert_eq!(js.changed, vec![String::from("b.ts")]);
    assert_eq!(js.extra_watch_result.add, vec![String::from("extra.scss")]);
    assert_eq!(js.extra_watch_result.remove, vec![String::from("C:/proj/gone.scss")]);
    assert!(js.dynamic_resources_map.is_none());
}
