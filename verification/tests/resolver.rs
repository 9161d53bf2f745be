use slurmy::resolve::{resolve, ParseError, TargetKind};

#[test]
fn resolves_tree_url() {
    let r = resolve("https://github.com/acme/widgets/tree/main/docs/readme.md").unwrap();
    assert_eq!(r.host, "github.com");
    assert_eq!(r.owner_slug, "acme");
    assert_eq!(r.repo_slug, "widgets");
    assert!(matches!(r.kind, TargetKind::Tree));
    assert_eq!(r.remainder_segments, vec!["main", "docs", "readme.md"]);
}

#[test]
fn resolves_blob_url() {
    let r = resolve("https://github.com/acme/widgets/blob/main/README.md").unwrap();
    assert!(matches!(r.kind, TargetKind::Blob));
    assert_eq!(r.remainder_segments, vec!["main", "README.md"]);
}

#[test]
fn clone_url_is_https_host_owner_repo() {
    let r = resolve("https://github.com/acme/widgets/tree/main/docs").unwrap();
    assert_eq!(r.clone_url(), "https://github.com/acme/widgets");
}

#[test]
fn query_string_is_not_part_of_the_path() {
    let r = resolve("https://github.com/acme/widgets/tree/main/docs?plain=1").unwrap();
    assert_eq!(r.remainder_segments, vec!["main", "docs"]);
}

#[test]
fn exactly_three_segments_leaves_empty_remainder() {
    let r = resolve("https://github.com/acme/widgets/tree").unwrap();
    assert!(r.remainder_segments.is_empty());
}

#[test]
fn rejects_unparseable_input() {
    let e = resolve("not a url at all").unwrap_err();
    assert_eq!(e, ParseError::Malformed);
}

#[test]
fn rejects_uri_without_host() {
    let e = resolve("unix:/run/foo.socket").unwrap_err();
    assert_eq!(e, ParseError::MissingHost);
    let e = resolve("data:text/plain,stuff").unwrap_err();
    assert_eq!(e, ParseError::MissingHost);
}

#[test]
fn rejects_wrong_host_distinctly_from_missing_host() {
    let e = resolve("https://gitlab.com/acme/widgets/tree/main/docs").unwrap_err();
    assert_eq!(e, ParseError::UnsupportedHost);
    assert_ne!(e, ParseError::MissingHost);
}

#[test]
fn rejects_third_segment_that_is_neither_tree_nor_blob() {
    let e = resolve("https://github.com/acme/widgets/commits/main/docs").unwrap_err();
    assert_eq!(e, ParseError::MalformedPath);
}

#[test]
fn rejects_too_few_path_segments() {
    let e = resolve("https://github.com/acme/widgets").unwrap_err();
    assert_eq!(e, ParseError::MalformedPath);
    let e = resolve("https://github.com/").unwrap_err();
    assert_eq!(e, ParseError::MalformedPath);
}
