use slurmy::disambiguate::{disambiguate, ResolutionError};
use slurmy::resolve::resolve;

fn strings(items: &[&str]) -> Vec<String> {
    items.iter().map(|s| s.to_string()).collect()
}

#[test]
fn longest_matching_branch_wins() {
    let remainder = strings(&["release", "1.0", "src", "app.go"]);
    let branches = strings(&["main", "release/1.0"]);
    let loc = disambiguate(&remainder, &branches).unwrap();
    assert_eq!(loc.branch_name, "release/1.0");
    assert_eq!(loc.relative_path, "src/app.go");
}

#[test]
fn branch_consuming_whole_remainder_is_empty_path() {
    let remainder = strings(&["main"]);
    let branches = strings(&["main"]);
    let e = disambiguate(&remainder, &branches).unwrap_err();
    assert_eq!(e, ResolutionError::EmptyPath);
}

#[test]
fn match_respects_segment_boundaries() {
    let remainder = strings(&["feature-x", "readme.md"]);
    let branches = strings(&["feature", "feature-x"]);
    let loc = disambiguate(&remainder, &branches).unwrap();
    assert_eq!(loc.branch_name, "feature-x");
    assert_eq!(loc.relative_path, "readme.md");
}

#[test]
fn shorter_name_alone_does_not_match_inside_a_segment() {
    let remainder = strings(&["feature-x", "readme.md"]);
    let branches = strings(&["feature"]);
    let e = disambiguate(&remainder, &branches).unwrap_err();
    assert_eq!(e, ResolutionError::NoBranchMatch);
}

#[test]
fn no_candidate_prefix_is_no_branch_match() {
    let remainder = strings(&["docs", "readme.md"]);
    let branches = strings(&["main", "dev"]);
    let e = disambiguate(&remainder, &branches).unwrap_err();
    assert_eq!(e, ResolutionError::NoBranchMatch);
}

#[test]
fn empty_candidate_list_is_no_branch_match() {
    let remainder = strings(&["docs"]);
    let branches = strings(&[]);
    let e = disambiguate(&remainder, &branches).unwrap_err();
    assert_eq!(e, ResolutionError::NoBranchMatch);
}

#[test]
fn nested_branch_beats_its_own_prefix_branch() {
    let remainder = strings(&["release", "1.0", "notes.txt"]);
    let branches = strings(&["release", "release/1.0"]);
    let loc = disambiguate(&remainder, &branches).unwrap();
    assert_eq!(loc.branch_name, "release/1.0");
    assert_eq!(loc.relative_path, "notes.txt");
}

#[test]
fn resolve_then_disambiguate_names_branch_and_path() {
    let r = resolve("https://github.com/acme/widgets/tree/main/docs/readme.md").unwrap();
    let branches = strings(&["main"]);
    let loc = disambiguate(&r.remainder_segments, &branches).unwrap();
    assert_eq!(loc.branch_name, "main");
    assert_eq!(loc.relative_path, "docs/readme.md");
    assert_eq!(slurmy::strings::basename(&loc.relative_path), "readme.md");
}
