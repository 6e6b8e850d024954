use cargo_stitch::staging::{
    copy_dir_recursive, find_workspace_root, manifest_above, manifest_in, patched_dir, skips,
    CopyStep, Entry,
};

fn entry(name: &str, is_dir: bool) -> Entry {
    Entry { name: name.to_string(), is_dir }
}

#[test]
fn staged_copy_lies_below_the_build_output() {
    assert_eq!(patched_dir("crate-a", "/ws"), "/ws/target/cargo-stitch/crate-a");
    assert_eq!(patched_dir("crate-a", "/ws/"), "/ws/target/cargo-stitch/crate-a");
    assert_eq!(patched_dir("config", "/"), "/target/cargo-stitch/config");
    assert_eq!(patched_dir("config", ""), "target/cargo-stitch/config");
}

#[test]
fn build_output_and_version_control_are_left_out() {
    assert!(skips("target"));
    assert!(skips(".git"));
    assert!(!skips("src"));
    assert!(!skips("targets"));
    assert!(!skips(".gitignore"));
    assert!(!skips("Target"));
    assert!(!skips(""));
}

#[test]
fn the_copy_keeps_the_listing_order() {
    let entries = vec![
        entry("src", true),
        entry("target", true),
        entry("Cargo.toml", false),
        entry(".git", true),
        entry("target", false),
        entry(".gitignore", false),
        entry("tests", true),
    ];
    assert_eq!(
        copy_dir_recursive("/ws/crate-a", "/ws/target/cargo-stitch/crate-a", &entries),
        vec![
            CopyStep::Dir {
                from: "/ws/crate-a/src".to_string(),
                to: "/ws/target/cargo-stitch/crate-a/src".to_string(),
            },
            CopyStep::File {
                from: "/ws/crate-a/Cargo.toml".to_string(),
                to: "/ws/target/cargo-stitch/crate-a/Cargo.toml".to_string(),
            },
            CopyStep::File {
                from: "/ws/crate-a/.gitignore".to_string(),
                to: "/ws/target/cargo-stitch/crate-a/.gitignore".to_string(),
            },
            CopyStep::Dir {
                from: "/ws/crate-a/tests".to_string(),
                to: "/ws/target/cargo-stitch/crate-a/tests".to_string(),
            },
        ]
    );
    assert_eq!(copy_dir_recursive("a", "b", &Vec::new()), Vec::<CopyStep>::new());
}

#[test]
fn staging_twice_plans_the_same_copies() {
    let entries = vec![entry("src", true), entry("lib.rs", false), entry("target", true)];
    let first = copy_dir_recursive("/ws/a", "/ws/target/cargo-stitch/a", &entries);
    let second = copy_dir_recursive("/ws/a", "/ws/target/cargo-stitch/a", &entries);
    assert_eq!(first, second);
}

fn root(dir: &str, here: bool, enclosing: &[bool]) -> Option<String> {
    find_workspace_root(dir, here, &enclosing.to_vec())
}

#[test]
fn workspace_root_is_the_outermost_enclosing_project() {
    assert_eq!(root("/ws/crate-a", true, &[true, false]), Some("/ws".to_string()));
    assert_eq!(root("/ws/crate-a", true, &[false, false]), Some("/ws/crate-a".to_string()));
    assert_eq!(root("/ws/crate-a", true, &[]), Some("/ws/crate-a".to_string()));
    assert_eq!(root("/ws", true, &[false]), Some("/ws".to_string()));
    assert_eq!(root("/ws/nested/crate-a", true, &[true, true, false]), Some("/ws".to_string()));
    assert_eq!(root("/ws/crate-a", true, &[true, true]), Some("/".to_string()));
    assert_eq!(root("crate-a", true, &[true]), Some("".to_string()));
}

#[test]
fn a_level_without_a_project_does_not_end_the_walk() {
    assert_eq!(root("/ws/crates/foo", true, &[false, true, false]), Some("/ws".to_string()));
    assert_eq!(root("/ws/crates/foo", false, &[false, true, false]), Some("/ws".to_string()));
    assert_eq!(root("/ws/crate-a/src", false, &[true, false, false]), Some("/ws/crate-a".to_string()));
    assert_eq!(root("/ws/crate-a/src/deep", false, &[false, true, true, false]), Some("/ws".to_string()));
    assert_eq!(root("/a/b/c", true, &[false, false, true]), Some("/".to_string()));
}

#[test]
fn outside_any_project_there_is_no_workspace_root() {
    assert_eq!(root("/tmp/scratch", false, &[false, false]), None);
    assert_eq!(root("/tmp/scratch", false, &[]), None);
    assert_eq!(root("/", false, &[]), None);
    assert_eq!(root("", false, &[]), None);
    assert_eq!(root("/", true, &[]), Some("/".to_string()));
}

#[test]
fn levels_that_the_path_does_not_have_hold_nothing() {
    assert_eq!(root("/ws", false, &[false, true, true]), None);
    assert_eq!(root("/ws", true, &[false, true]), Some("/ws".to_string()));
    assert_eq!(root("/ws/crate-a", true, &[true, true, true, true]), Some("/".to_string()));
    assert_eq!(root("crate-a", false, &[false, true]), None);
}

#[test]
fn project_manifest_is_looked_for_one_level_up() {
    assert_eq!(manifest_above("/ws/crate-a"), Some("/ws/Cargo.toml".to_string()));
    assert_eq!(manifest_above("/ws"), Some("/Cargo.toml".to_string()));
    assert_eq!(manifest_above("/"), None);
    assert_eq!(manifest_above("crate-a"), Some("Cargo.toml".to_string()));
    assert_eq!(manifest_above(""), None);
    assert_eq!(manifest_in("/ws/crate-a"), "/ws/crate-a/Cargo.toml");
    assert_eq!(manifest_in("/"), "/Cargo.toml");
}
