use package_graph::builder::{Error, PackageGraphBuilder};
use package_graph::graph::PackageManager;
use package_graph::manifest::{Package, PackageInfo, PackageJson};
use package_graph::name::{PackageName, PackageNode};

fn b(s: &str) -> Vec<u8> {
    s.as_bytes().to_vec()
}

fn comps(s: &str) -> Vec<Vec<u8>> {
    s.split('/').filter(|c| !c.is_empty()).map(|c| c.as_bytes().to_vec()).collect()
}

fn json(name: Option<&str>, version: Option<&str>, deps: &[(&str, &str)]) -> PackageJson {
    PackageJson {
        name: name.map(b),
        version: version.map(b),
        dependencies: deps.iter().map(|(n, v)| (b(n), b(v))).collect(),
    }
}

#[test]
fn test_duplicate_package_names() {
    let builder = PackageGraphBuilder::<()>::new(comps("/repo"), json(Some("root"), None, &[]))
        .with_package_jsons(Some(vec![
            (comps("a"), json(Some("foo"), None, &[])),
            (comps("b"), json(Some("foo"), None, &[])),
        ]));
    let result = builder.parse_package_jsons(vec![]);
    assert!(matches!(result, Err(Error::DuplicateWorkspace { .. })));
    match result {
        Err(Error::DuplicateWorkspace { name, path, existing_path }) => {
            assert_eq!(name, b("foo"));
            assert_eq!(path, b("b"));
            assert_eq!(existing_path, b("a"));
        }
        _ => unreachable!(),
    }
}

#[test]
fn two_workspaces_with_internal_edge() {
    let builder = PackageGraphBuilder::<()>::new(comps("/repo"), json(Some("root"), None, &[]))
        .with_package_jsons(Some(vec![
            (comps("a/package.json"), json(Some("foo"), None, &[("bar", "workspace:*")])),
            (comps("b/package.json"), json(Some("bar"), None, &[])),
        ]));
    let ingested = builder.parse_package_jsons(vec![]).unwrap();
    let resolved = ingested.resolve_lockfile(None);
    let graph = resolved.populate_transitive_dependencies(None).build_inner(PackageManager::Npm);

    let root_anchor = graph.node_index(&PackageNode::Root).unwrap();
    let root_ws =
        graph.node_index(&PackageNode::Workspace(PackageName::Root)).unwrap();
    let foo =
        graph.node_index(&PackageNode::Workspace(PackageName::Other(b("foo")))).unwrap();
    let bar =
        graph.node_index(&PackageNode::Workspace(PackageName::Other(b("bar")))).unwrap();

    assert_eq!(graph.node_count(), 4);
    assert!(graph.contains_edge(foo, bar));
    assert!(graph.contains_edge(bar, root_anchor));
    assert!(graph.contains_edge(root_ws, root_anchor));
    assert!(!graph.contains_edge(foo, root_anchor));
    assert!(!graph.contains_edge(bar, foo));

    let info = graph.package_info(&PackageName::Other(b("foo"))).unwrap();
    assert_eq!(info.unresolved_external_dependencies, Some(vec![]));
    let info = graph.package_info(&PackageName::Other(b("bar"))).unwrap();
    assert_eq!(info.unresolved_external_dependencies, Some(vec![]));
}

#[test]
fn external_dependencies_are_recorded() {
    let builder = PackageGraphBuilder::<()>::new(comps("/repo"), json(Some("root"), None, &[]))
        .with_package_jsons(Some(vec![(
            comps("a/package.json"),
            json(Some("foo"), None, &[("lodash", "^4.17.0"), ("bar", "workspace:*")]),
        )]));
    let resolved = builder.parse_package_jsons(vec![]).unwrap().resolve_lockfile(None);
    let requests = resolved.all_external_dependencies();
    assert_eq!(requests.len(), 2);
    assert_eq!(requests[0].0, b(""));
    assert_eq!(requests[1].0, b("a"));
    // `bar` names no workspace, so it stays external despite the protocol.
    assert_eq!(
        requests[1].1,
        vec![(b("lodash"), b("^4.17.0")), (b("bar"), b("workspace:*"))]
    );
}

#[test]
fn nameless_manifest_is_skipped_not_fatal() {
    let builder = PackageGraphBuilder::<()>::new(comps("/repo"), json(Some("root"), None, &[]))
        .with_package_jsons(Some(vec![
            (comps("a/package.json"), json(None, Some("1.0.0"), &[])),
            (comps("b/package.json"), json(Some("bar"), None, &[])),
        ]));
    let graph = builder
        .parse_package_jsons(vec![])
        .unwrap()
        .resolve_lockfile(None)
        .populate_transitive_dependencies(None)
        .build_inner(PackageManager::Npm);
    // Root anchor, root workspace and `bar`: the nameless manifest is gone.
    assert_eq!(graph.node_count(), 3);
    assert!(graph.package_info(&PackageName::Other(b("bar"))).is_some());
}

#[test]
fn discovered_manifests_are_used_when_none_supplied() {
    let builder = PackageGraphBuilder::<()>::new(comps("/repo"), json(Some("root"), None, &[]));
    let graph = builder
        .parse_package_jsons(vec![(comps("a/package.json"), json(Some("foo"), None, &[]))])
        .unwrap()
        .resolve_lockfile(None)
        .populate_transitive_dependencies(None)
        .build_inner(PackageManager::Pnpm);
    assert!(graph.package_info(&PackageName::Other(b("foo"))).is_some());
    assert!(matches!(graph.package_manager, PackageManager::Pnpm));
}

#[test]
fn lockfile_failure_degrades_to_none() {
    let builder = PackageGraphBuilder::<i32>::new(comps("/repo"), json(Some("root"), None, &[]))
        .with_package_jsons(Some(vec![(
            comps("a/package.json"),
            json(Some("foo"), Some("1.0.0"), &[("lodash", "^4.0.0")]),
        )]));
    // The loader failed: the caller hands in no lockfile and no closures.
    let graph = builder
        .parse_package_jsons(vec![])
        .unwrap()
        .resolve_lockfile(None)
        .populate_transitive_dependencies(None)
        .build_inner(PackageManager::Npm);
    assert!(graph.lockfile.is_none());
    for (_, info) in &graph.packages.entries {
        assert!(info.transitive_dependencies.is_none());
    }
    assert_eq!(graph.node_count(), 3);
}

#[test]
fn supplied_lockfile_wins_over_loaded() {
    let builder = PackageGraphBuilder::<i32>::new(comps("/repo"), json(Some("root"), None, &[]))
        .with_package_jsons(Some(vec![]))
        .with_lockfile(Some(7));
    let resolved = builder.parse_package_jsons(vec![]).unwrap().resolve_lockfile(Some(9));
    assert_eq!(resolved.lockfile, Some(7));
}

#[test]
fn closures_are_assigned_by_directory() {
    let builder = PackageGraphBuilder::<i32>::new(comps("/repo"), json(Some("root"), None, &[]))
        .with_package_jsons(Some(vec![
            (comps("a/package.json"), json(Some("foo"), None, &[("lodash", "^4.0.0")])),
            (comps("b/package.json"), json(Some("bar"), None, &[])),
        ]))
        .with_lockfile(Some(1));
    let resolved = builder.parse_package_jsons(vec![]).unwrap().resolve_lockfile(None);
    let closures = vec![(
        b("a"),
        vec![Package { key: b("lodash@4.17.21"), version: b("4.17.21") }],
    )];
    let graph = resolved
        .populate_transitive_dependencies(Some(closures))
        .build_inner(PackageManager::Berry);
    let foo = graph.package_info(&PackageName::Other(b("foo"))).unwrap();
    let closure = foo.transitive_dependencies.as_ref().unwrap();
    assert_eq!(closure.len(), 1);
    assert_eq!(closure[0].key, b("lodash@4.17.21"));
    assert_eq!(closure[0].version, b("4.17.21"));
    // No closure was reported for `bar` or the root workspace.
    let bar = graph.package_info(&PackageName::Other(b("bar"))).unwrap();
    assert!(bar.transitive_dependencies.is_none());
    let root = graph.package_info(&PackageName::Root).unwrap();
    assert!(root.transitive_dependencies.is_none());
    assert_eq!(graph.lockfile, Some(1));
}

#[test]
fn single_package_mode_builds_trivial_graph() {
    let builder = PackageGraphBuilder::<()>::new(comps("/repo"), json(Some("root"), None, &[]))
        .with_single_package_mode(true);
    let graph = builder.build_single_package_graph(PackageManager::Yarn);
    assert_eq!(graph.node_count(), 2);
    let root_anchor = graph.node_index(&PackageNode::Root).unwrap();
    let root_ws = graph.node_index(&PackageNode::Workspace(PackageName::Root)).unwrap();
    assert!(graph.contains_edge(root_ws, root_anchor));
    assert!(graph.package_info(&PackageName::Root).is_some());
}

#[test]
fn node_payload_equality() {
    assert!(PackageNode::Root.node_eq(&PackageNode::Root));
    let foo = PackageNode::Workspace(PackageName::Other(b("foo")));
    let bar = PackageNode::Workspace(PackageName::Other(b("bar")));
    assert!(foo.node_eq(&PackageNode::Workspace(PackageName::Other(b("foo")))));
    assert!(!foo.node_eq(&bar));
    assert!(!foo.node_eq(&PackageNode::Root));
    assert!(!PackageNode::Workspace(PackageName::Root).node_eq(&PackageNode::Root));
}

#[test]
fn unix_dir_str_renders_directories() {
    let info = PackageInfo {
        package_json: PackageJson::empty(),
        package_json_path: comps("a/b/package.json"),
        unresolved_external_dependencies: None,
        transitive_dependencies: None,
    };
    assert_eq!(info.unix_dir_str(), b("a/b"));
    let root_info = PackageInfo {
        package_json: PackageJson::empty(),
        package_json_path: comps("package.json"),
        unresolved_external_dependencies: None,
        transitive_dependencies: None,
    };
    assert_eq!(root_info.unix_dir_str(), b(""));
}
