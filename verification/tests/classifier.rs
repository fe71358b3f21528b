use package_graph::classify::{Dependencies, DependencySplitter, DependencyVersion};
use package_graph::manifest::{PackageInfo, PackageJson};
use package_graph::name::PackageName;
use package_graph::table::WorkspaceTable;

fn b(s: &str) -> Vec<u8> {
    s.as_bytes().to_vec()
}

fn comps(s: &str) -> Vec<Vec<u8>> {
    s.split('/').filter(|c| !c.is_empty()).map(|c| c.as_bytes().to_vec()).collect()
}

fn scope_foo_table(package_version: &str) -> WorkspaceTable {
    let mut table = WorkspaceTable::new();
    table.entries.push((
        PackageName::Other(b("@scope/foo")),
        PackageInfo {
            package_json: PackageJson {
                name: Some(b("@scope/foo")),
                version: Some(b(package_version)),
                dependencies: vec![],
            },
            package_json_path: comps("unused"),
            unresolved_external_dependencies: None,
            transitive_dependencies: None,
        },
    ));
    table
}

fn check(package_version: &str, dependency_name: Option<&str>, range: &str, expected: Option<&str>) {
    let root = comps("/some/repo");
    let pkg_dir = comps("/some/repo/packages/libA");
    let workspaces = scope_foo_table(package_version);
    let splitter =
        DependencySplitter { repo_root: &root, workspace_dir: &pkg_dir, workspaces: &workspaces };
    let got = splitter.is_internal(
        dependency_name.unwrap_or("@scope/foo").as_bytes(),
        range.as_bytes(),
    );
    match (got, expected) {
        (Some(PackageName::Other(n)), Some(e)) => assert_eq!(n, b(e)),
        (Some(PackageName::Root), _) => panic!("resolved to the root package"),
        (None, None) => {}
        (Some(_), None) => panic!("expected external, got internal"),
        (None, Some(_)) => panic!("expected internal, got external"),
    }
}

#[test]
fn handles_exact_match() {
    check("1.2.3", None, "1.2.3", Some("@scope/foo"));
}

#[test]
fn handles_semver_range_satisfied() {
    check("1.2.3", None, "^1.0.0", Some("@scope/foo"));
}

#[test]
fn handles_semver_range_not_satisfied() {
    check("2.3.4", None, "^1.0.0", None);
}

#[test]
fn handles_workspace_protocol_with_version() {
    check("1.2.3", None, "workspace:1.2.3", Some("@scope/foo"));
}

#[test]
fn handles_workspace_protocol_with_no_version() {
    check("1.2.3", None, "workspace:*", Some("@scope/foo"));
}

#[test]
fn handles_workspace_protocol_with_relative_path() {
    check("1.2.3", None, "workspace:../other-packages/", Some("@scope/foo"));
}

#[test]
fn handles_workspace_protocol_with_scoped_relative_path() {
    check("1.2.3", None, "workspace:../@scope/foo", Some("@scope/foo"));
}

#[test]
fn handles_npm_protocol_with_satisfied_semver_range() {
    check("1.2.3", None, "npm:^1.2.3", Some("@scope/foo"));
}

#[test]
fn handles_npm_protocol_with_not_satisfied_semver_range() {
    check("2.3.4", None, "npm:^1.2.3", None);
}

#[test]
fn handles_pre_release_versions() {
    check("1.2.3", None, "1.2.2-alpha-123abcd.0", None);
}

#[test]
fn handles_non_semver_package_version() {
    check("sometag", None, "1.2.3", Some("@scope/foo"));
}

#[test]
fn handles_non_semver_dependency_version() {
    check("1.2.3", None, "sometag", Some("@scope/foo"));
}

#[test]
fn handles_file_inside_repo() {
    check("1.2.3", None, "file:../libB", Some("@scope/foo"));
}

#[test]
fn handles_file_outside_repo() {
    check("1.2.3", None, "file:../../../otherproject", None);
}

#[test]
fn handles_link_inside_repo() {
    check("1.2.3", None, "link:../libB", Some("@scope/foo"));
}

#[test]
fn handles_link_outside_repo() {
    check("1.2.3", None, "link:../../../otherproject", None);
}

#[test]
fn handles_development_versions() {
    check("0.0.0-development", None, "*", Some("@scope/foo"));
}

#[test]
fn handles_pnpm_alias_star() {
    check("1.2.3", Some("foo"), "workspace:@scope/foo@*", Some("@scope/foo"));
}

#[test]
fn handles_pnpm_alias_tilda() {
    check("1.2.3", Some("foo"), "workspace:@scope/foo@~", Some("@scope/foo"));
}

#[test]
fn handles_pnpm_alias_caret() {
    check("1.2.3", Some("foo"), "workspace:@scope/foo@^", Some("@scope/foo"));
}

#[test]
fn foreign_protocol_is_external() {
    check("1.2.3", None, "git:github.com/x/y", None);
    check("1.2.3", None, "github:x/y", None);
}

#[test]
fn unknown_workspace_name_is_external() {
    check("1.2.3", Some("@scope/bar"), "workspace:*", None);
}

#[test]
fn splits_protocol_at_first_colon() {
    let dv = DependencyVersion::new(b"workspace:1.2.3");
    assert_eq!(dv.protocol, Some(b("workspace")));
    assert_eq!(dv.version, b("1.2.3"));
    let dv = DependencyVersion::new(b"1.2.3");
    assert_eq!(dv.protocol, None);
    assert_eq!(dv.version, b("1.2.3"));
    let dv = DependencyVersion::new(b"file:a:b");
    assert_eq!(dv.protocol, Some(b("file")));
    assert_eq!(dv.version, b("a:b"));
}

#[test]
fn protocols_mark_externality() {
    assert!(DependencyVersion::new(b"git:x").is_external());
    assert!(DependencyVersion::new(b"workspace:*").is_external());
    assert!(!DependencyVersion::new(b"npm:^1.0.0").is_external());
    assert!(!DependencyVersion::new(b"^1.0.0").is_external());
}

#[test]
fn splits_dependency_lists() {
    let root = comps("/some/repo");
    let workspaces = scope_foo_table("1.2.3");
    let deps = vec![
        (b("@scope/foo"), b("workspace:*")),
        (b("lodash"), b("^4.0.0")),
        (b("@scope/foo"), b("1.2.3")),
    ];
    let json_path = comps("packages/libA/package.json");
    let split = Dependencies::new(&root, &json_path, &workspaces, &deps);
    assert_eq!(split.internal.len(), 1);
    assert!(split.internal[0].key_eq(&PackageName::Other(b("@scope/foo"))));
    assert_eq!(split.external, vec![(b("lodash"), b("^4.0.0"))]);
}
