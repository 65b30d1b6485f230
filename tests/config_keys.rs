use unpinned_uses::pattern::{describe, RepositoryUsesPattern};
use unpinned_uses::policy::UsesPolicy;

fn shown(s: &str) -> Option<String> {
    RepositoryUsesPattern::parse(s).map(|p| describe(&Some(p)))
}

#[test]
fn parses_each_pattern_shape() {
    assert!(matches!(RepositoryUsesPattern::parse("*"), Some(RepositoryUsesPattern::Any)));
    assert!(matches!(RepositoryUsesPattern::parse("actions/*"), Some(RepositoryUsesPattern::InOwner(o)) if o == "actions"));
    assert!(matches!(
        RepositoryUsesPattern::parse("foo/bar/*"),
        Some(RepositoryUsesPattern::InRepo { owner, repo }) if owner == "foo" && repo == "bar"
    ));
    assert!(matches!(
        RepositoryUsesPattern::parse("foo/bar"),
        Some(RepositoryUsesPattern::ExactRepo { owner, repo }) if owner == "foo" && repo == "bar"
    ));
    assert!(matches!(
        RepositoryUsesPattern::parse("foo/bar/baz/qux"),
        Some(RepositoryUsesPattern::ExactPath { owner, repo, subpath })
            if owner == "foo" && repo == "bar" && subpath == "baz/qux"
    ));
    assert!(matches!(
        RepositoryUsesPattern::parse("foo/bar@v1"),
        Some(RepositoryUsesPattern::ExactWithRef { owner, repo, subpath: None, git_ref })
            if owner == "foo" && repo == "bar" && git_ref == "v1"
    ));
    assert!(matches!(
        RepositoryUsesPattern::parse("foo/bar/sub@v1"),
        Some(RepositoryUsesPattern::ExactWithRef { subpath: Some(sp), .. }) if sp == "sub"
    ));
    assert_eq!(shown("foo/bar/sub@v1").as_deref(), Some("foo/bar/sub@v1"));
}

#[test]
fn rejects_malformed_keys() {
    for bad in ["", "foo", "/bar", "foo/", "*/bar", "foo/*/baz", "foo/bar/", "foo/bar@", "foo/bar@a@b", "foo/*@v1", "**", "foo/bar/*x"] {
        assert!(RepositoryUsesPattern::parse(bad).is_none(), "{bad}");
    }
}

#[test]
fn parses_policy_names() {
    assert_eq!(UsesPolicy::parse("any"), Some(UsesPolicy::Any));
    assert_eq!(UsesPolicy::parse("ref-pin"), Some(UsesPolicy::RefPin));
    assert_eq!(UsesPolicy::parse("hash-pin"), Some(UsesPolicy::HashPin));
    assert_eq!(UsesPolicy::parse("Hash-Pin"), None);
    assert_eq!(UsesPolicy::parse(""), None);
}
