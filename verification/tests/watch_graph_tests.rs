use bundler_core::context::CompilationContext;
use bundler_core::plugin::NoopPlugin;

#[test]
fn file_as_root_and_dep() {
    let mut context: CompilationContext<NoopPlugin> = CompilationContext::default();
    let vc = "./v_c".to_string();
    let vd = "./v_d".to_string();
    let a = "./a".to_string();

    context
        .add_watch_files(a.clone(), vec![vc.clone(), vd.clone()])
        .unwrap();
    context.add_watch_files(vc.clone(), vec![vd.clone()]).unwrap();

    let watch_graph = &context.watch_graph;

    assert_eq!(watch_graph.relation_roots(&vc), vec![a.clone()]);
    let mut r = watch_graph.relation_roots(&vd);
    r.sort();
    assert_eq!(r, vec![a.clone(), vc.clone()]);
}

#[test]
fn watch_edge_requires_known_nodes() {
    let mut context: CompilationContext<NoopPlugin> = CompilationContext::default();
    assert!(!context.watch_graph.has_module("/style/vars.scss"));
    context
        .add_watch_files("/style/main.scss".to_string(), vec!["/style/vars.scss".to_string()])
        .unwrap();
    assert!(context.watch_graph.has_module("/style/vars.scss"));
    assert!(context.watch_graph.has_module("/style/main.scss"));
    assert_eq!(
        context.watch_graph.relation_roots("/style/vars.scss"),
        vec!["/style/main.scss".to_string()]
    );
}
