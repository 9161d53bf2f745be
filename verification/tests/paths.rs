use slurmy::cli::identity_path;
use slurmy::strings::{basename, join_path, split_path, str_eq, str_starts_with};

#[test]
fn split_path_on_separators() {
    assert_eq!(split_path("a/b/c"), vec!["a", "b", "c"]);
    assert_eq!(split_path("main"), vec!["main"]);
    assert_eq!(split_path(""), vec![""]);
    assert_eq!(split_path("a//b"), vec!["a", "", "b"]);
    assert_eq!(split_path("/a"), vec!["", "a"]);
}

#[test]
fn join_path_with_separators() {
    assert_eq!(join_path(&vec!["a".to_string(), "b".to_string()]), "a/b");
    assert_eq!(join_path(&vec!["main".to_string()]), "main");
    assert_eq!(join_path(&Vec::new()), "");
}

#[test]
fn join_undoes_split() {
    let text = "release/1.0/src/app.go";
    assert_eq!(join_path(&split_path(text)), text);
}

#[test]
fn basename_is_the_last_piece() {
    assert_eq!(basename("docs/readme.md"), "readme.md");
    assert_eq!(basename("readme.md"), "readme.md");
    assert_eq!(basename("a/b/"), "");
}

#[test]
fn str_eq_compares_characters() {
    assert!(str_eq("github.com", "github.com"));
    assert!(!str_eq("github.com", "gitlab.com"));
    assert!(!str_eq("git", "github"));
}

#[test]
fn str_starts_with_compares_leading_characters() {
    assert!(str_starts_with("release/1.0/src", "release"));
    assert!(str_starts_with("release", "release"));
    assert!(!str_starts_with("release", "release/1.0"));
    assert!(!str_starts_with("feature-x", "feat/"));
}

#[test]
fn identity_defaults_to_home_ssh_key() {
    assert_eq!(identity_path("/home/u", None), "/home/u/.ssh/id_ed25519");
    assert_eq!(
        identity_path("/home/u", Some("/tmp/key".to_string())),
        "/tmp/key"
    );
}
