use rustle::paths::{child_path, is_excluded, parent_dirs, temp_dir_of, trim_end_slashes};

fn excluded(rel: &str, excludes: &[&str], include_hidden: bool) -> bool {
    let excludes: Vec<String> = excludes.iter().map(|s| s.to_string()).collect();
    is_excluded(rel, &excludes, include_hidden)
}

#[test]
fn temp_dir_is_the_build_dir_parent() {
    assert_eq!(temp_dir_of("~/remote-builds/12345/"), "~/remote-builds");
    assert_eq!(temp_dir_of("/abs/rust/9/"), "/abs/rust");
}

#[test]
fn temp_dir_of_odd_paths() {
    assert_eq!(temp_dir_of("builds"), "builds");
    assert_eq!(temp_dir_of("builds///"), "builds");
    assert_eq!(temp_dir_of("/9"), "");
    assert_eq!(temp_dir_of(""), "");
    assert_eq!(temp_dir_of("a//b"), "a/");
    assert_eq!(temp_dir_of("~/remote-builds/12345///"), "~/remote-builds");
}

#[test]
fn listed_path_excludes_itself_and_what_is_below() {
    assert!(excluded("target", &["target"], true));
    assert!(excluded("target/debug/x", &["target"], true));
    assert!(!excluded("crates/target.rs", &["target"], true));
    assert!(!excluded("targets", &["target"], true));
    assert!(!excluded("crates/target", &["target"], true));
    assert!(excluded("crates/target/x", &["a", "crates/target"], true));
}

#[test]
fn hidden_parts_are_excluded_at_any_depth() {
    assert!(excluded(".git", &[], false));
    assert!(excluded("src/.cache/x", &[], false));
    assert!(!excluded("src/.cache/x", &[], true));
    assert!(!excluded("src/a.b", &[], false));
}

#[test]
fn sentinel_is_no_path() {
    assert!(!excluded(".*", &[".*"], true));
    assert!(!excluded(".*/x", &[".*"], true));
    assert!(excluded(".*", &[".*"], false));
}

#[test]
fn exclusion_compares_whole_characters() {
    assert!(excluded("zürich/x", &["zürich"], true));
    assert!(!excluded("zürich", &["zürichs"], true));
    assert!(!excluded("éa", &["é"], true));
}

#[test]
fn parents_are_listed_outermost_first() {
    assert_eq!(parent_dirs("top.rs"), Vec::<String>::new());
    assert_eq!(parent_dirs("a/b/c.rs"), vec!["a".to_string(), "a/b".to_string()]);
    assert_eq!(parent_dirs("/a//b/c.rs"), vec!["a".to_string(), "a/b".to_string()]);
    assert_eq!(parent_dirs("a/"), vec!["a".to_string()]);
}

#[test]
fn children_and_trimming() {
    assert_eq!(child_path("", "a"), "a");
    assert_eq!(child_path("a/b", "c"), "a/b/c");
    assert_eq!(trim_end_slashes("~/b/1//"), "~/b/1");
    assert_eq!(trim_end_slashes("///"), "");
}
