use kresolve::classify::unsupported;
use kresolve::paths::join;
use kresolve::paths::parent_dir;
use kresolve::paths::set_yaml_ext;
use kresolve::reduce::reduce;
use kresolve::reduce::str_le;

#[test]
fn remote_prefixes_are_unsupported() {
    assert!(unsupported("git://example.com/repo"));
    assert!(unsupported("http://example.com/base"));
    assert!(unsupported("https://example.com/base"));
    assert!(unsupported("github.com/org/repo"));
}

#[test]
fn local_paths_are_supported() {
    assert!(!unsupported("base/kustomization.yml"));
    assert!(!unsupported("../sibling"));
    assert!(!unsupported(""));
    assert!(!unsupported("gith"));
    assert!(!unsupported("httpdocs/a.yaml"));
}

#[test]
fn join_relative() {
    assert_eq!(join("/app", "patch.yaml"), "/app/patch.yaml");
    assert_eq!(join("/app", "base/kustomization.yml"), "/app/base/kustomization.yml");
}

#[test]
fn join_absolute_reference_stands_alone() {
    assert_eq!(join("/app", "/etc/config.yaml"), "/etc/config.yaml");
}

#[test]
fn join_at_root_adds_no_second_separator() {
    assert_eq!(join("/", "a.yaml"), "/a.yaml");
}

#[test]
fn parent_of_nested_path() {
    assert_eq!(parent_dir("/app/base/kustomization.yml"), "/app/base");
}

#[test]
fn parent_at_root() {
    assert_eq!(parent_dir("/kustomization.yml"), "/");
}

#[test]
fn parent_without_separator_is_empty() {
    assert_eq!(parent_dir("kustomization.yml"), "");
}

#[test]
fn extension_is_replaced() {
    assert_eq!(set_yaml_ext("/d/kustomization.yml"), "/d/kustomization.yaml");
    assert_eq!(set_yaml_ext("/d/config.tar.gz"), "/d/config.tar.yaml");
}

#[test]
fn missing_extension_is_appended() {
    assert_eq!(set_yaml_ext("/d/README"), "/d/README.yaml");
    assert_eq!(set_yaml_ext("/d/.hidden"), "/d/.hidden.yaml");
}

#[test]
fn lexicographic_comparison() {
    assert!(str_le("/a", "/b"));
    assert!(!str_le("/b", "/a"));
    assert!(str_le("/a", "/a"));
    assert!(str_le("/a", "/a/b"));
    assert!(!str_le("/a/b", "/a"));
}

#[test]
fn reduce_sorts_and_dedups() {
    let raw = vec![
        "/b".to_string(),
        "/a".to_string(),
        "/c".to_string(),
        "/a".to_string(),
        "/b".to_string(),
    ];
    let out = reduce(raw);
    assert_eq!(out, vec!["/a".to_string(), "/b".to_string(), "/c".to_string()]);
}

#[test]
fn reduce_of_empty_is_empty() {
    let out = reduce(Vec::new());
    assert!(out.is_empty());
}

#[test]
fn reduce_is_order_blind() {
    let raw1 = vec!["/x".to_string(), "/y".to_string(), "/z".to_string()];
    let raw2 = vec!["/z".to_string(), "/x".to_string(), "/y".to_string(), "/x".to_string()];
    assert_eq!(reduce(raw1), reduce(raw2));
}
