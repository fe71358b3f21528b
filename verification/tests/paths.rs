use package_graph::bytes::{bytes_eq, find_byte, rfind_byte, sub_bytes};
use package_graph::paths::{join_components, path_within, resolve_rel, split_components};

fn b(s: &str) -> Vec<u8> {
    s.as_bytes().to_vec()
}

fn comps(s: &str) -> Vec<Vec<u8>> {
    s.split('/').filter(|c| !c.is_empty()).map(|c| c.as_bytes().to_vec()).collect()
}

#[test]
fn byte_helpers() {
    assert!(bytes_eq(b"abc", b"abc"));
    assert!(!bytes_eq(b"abc", b"abd"));
    assert!(!bytes_eq(b"abc", b"ab"));
    assert_eq!(find_byte(b"a:b:c", b':'), Some(1));
    assert_eq!(rfind_byte(b"a:b:c", b':'), Some(3));
    assert_eq!(find_byte(b"abc", b':'), None);
    assert_eq!(sub_bytes(b"workspace:*", 0, 9), b("workspace"));
}

#[test]
fn splitting_and_joining() {
    let parts = split_components(b"a/b/c");
    assert_eq!(parts, vec![b("a"), b("b"), b("c")]);
    assert_eq!(split_components(b""), vec![b("")]);
    assert_eq!(join_components(&comps("a/b/c")), b("a/b/c"));
    assert_eq!(join_components(&Vec::new()), b(""));
}

#[test]
fn relative_resolution() {
    let base = comps("/some/repo/packages/libA");
    let inside = resolve_rel(&base, b"../libB").unwrap();
    assert_eq!(join_components(&inside), b("some/repo/packages/libB"));
    let outside = resolve_rel(&base, b"../../../otherproject").unwrap();
    assert_eq!(join_components(&outside), b("some/otherproject"));
    assert!(resolve_rel(&base, b"/absolute").is_none());
    let dotted = resolve_rel(&base, b"./x/./y").unwrap();
    assert_eq!(join_components(&dotted), b("some/repo/packages/libA/x/y"));
}

#[test]
fn containment() {
    let root = comps("/some/repo");
    assert!(path_within(&root, &comps("/some/repo/packages/libB")));
    assert!(path_within(&root, &comps("/some/repo")));
    assert!(!path_within(&root, &comps("/some/otherproject")));
    assert!(!path_within(&root, &comps("/some")));
}

#[test]
fn escaping_and_returning_stays_inside() {
    let base = comps("/some/repo/packages/libA");
    let root = comps("/some/repo");
    let back_in = resolve_rel(&base, b"../../../repo/libB").unwrap();
    assert!(path_within(&root, &back_in));
}
