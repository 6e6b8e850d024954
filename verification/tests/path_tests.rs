use std::path::Path;

use cargo_stitch::path::{extension, file_name, join, parent, relative_to};

fn std_file_name(path: &str) -> Option<String> {
    Path::new(path).file_name().and_then(|n| n.to_str()).map(|n| n.to_string())
}

fn std_extension(path: &str) -> Option<String> {
    Path::new(path).extension().and_then(|e| e.to_str()).map(|e| e.to_string())
}

fn std_parent(path: &str) -> Option<String> {
    Path::new(path).parent().and_then(|p| p.to_str()).map(|p| p.to_string())
}

fn std_join(base: &str, name: &str) -> String {
    Path::new(base).join(name).to_str().unwrap().to_string()
}

const PATHS: [&str; 40] = [
    "",
    "/",
    "//",
    ".",
    "..",
    "./",
    "/.",
    "a",
    "a/",
    "a//",
    "a/.",
    "a/./",
    "a/..",
    "a/b",
    "/a",
    "/a/b",
    "/a/b/",
    "/ws/stitches/crate-a/001-fix.patch",
    "/ws/stitches/crate-a/002-rename.yaml",
    "/ws/stitches/crate-a/003-more.yml",
    "/ws/stitches/crate-a/notes.txt",
    "/ws/stitches/crate-a/README",
    "/ws/stitches/crate-a/.patch",
    "/ws/stitches/crate-a/.hidden.patch",
    "/ws/stitches/crate-a/archive.tar.gz",
    "/ws/stitches/crate-a/trailing.",
    "/ws/stitches/crate-a/x.patch/",
    "/ws/stitches/crate-a/x.patch/.",
    "/ws/stitches/crate-a/x.patch/..",
    "foo.txt/.//",
    "...",
    "a/...",
    "..patch",
    "a.b/c",
    "a.b/.c",
    "a.b/c.",
    "./a.patch",
    "../a.yaml",
    "/a.yml",
    "a/b.PATCH",
];

#[test]
fn file_name_agrees_with_the_platform() {
    for path in PATHS {
        assert_eq!(file_name(path), std_file_name(path), "file name of {:?}", path);
    }
}

#[test]
fn extension_agrees_with_the_platform() {
    for path in PATHS {
        assert_eq!(extension(path), std_extension(path), "extension of {:?}", path);
    }
}

#[test]
fn parent_agrees_with_the_platform() {
    let paths = [
        "", "/", ".", "..", "a", "a/", "a/b", "a/b/", "/a", "/a/b", "/a/b/c", "./a", "../a",
        "a/./b", "a/b/.", "/ws/crate-a", "/ws/nested/crate-a", "/.", "a/..",
    ];
    for path in paths {
        assert_eq!(parent(path), std_parent(path), "parent of {:?}", path);
    }
}

#[test]
fn join_agrees_with_the_platform() {
    let bases = ["", "/", "/ws", "/ws/", "ws", "ws/", "a/b", "."];
    let names = ["", "target", "/abs", "cargo-stitch", "a/b", "x.patch", "."];
    for base in bases {
        for name in names {
            assert_eq!(join(base, name), std_join(base, name), "join {:?} {:?}", base, name);
        }
    }
}

#[test]
fn join_puts_one_separator_between() {
    assert_eq!(join("/ws", "target"), "/ws/target");
    assert_eq!(join("/ws/", "target"), "/ws/target");
    assert_eq!(join("", "target"), "target");
    assert_eq!(join("/ws", "/abs"), "/abs");
    assert_eq!(join("/ws", ""), "/ws/");
}

#[test]
fn extension_follows_the_last_dot() {
    assert_eq!(extension("a/001-fix.patch"), Some("patch".to_string()));
    assert_eq!(extension("a/.hidden"), None);
    assert_eq!(extension("a/b.tar.gz"), Some("gz".to_string()));
    assert_eq!(extension("a/b."), Some("".to_string()));
    assert_eq!(extension("a/b"), None);
    assert_eq!(extension(""), None);
    assert_eq!(file_name("a/b/"), Some("b".to_string()));
    assert_eq!(file_name("a/.."), None);
}

#[test]
fn relative_to_cuts_at_component_boundaries() {
    assert_eq!(relative_to("/ws/crate-a", "/ws"), Some("crate-a".to_string()));
    assert_eq!(relative_to("/ws/crate-a", "/ws/"), Some("crate-a".to_string()));
    assert_eq!(relative_to("/ws/nested/crate-a", "/ws"), Some("nested/crate-a".to_string()));
    assert_eq!(relative_to("/ws", "/ws"), Some("".to_string()));
    assert_eq!(relative_to("/ws/", "/ws"), Some("".to_string()));
    assert_eq!(relative_to("/ws", "/ws/"), Some("".to_string()));
    assert_eq!(relative_to("/wsx/crate-a", "/ws"), None);
    assert_eq!(relative_to("/ws/foobar", "/ws/foo"), None);
    assert_eq!(relative_to("/other/crate-a", "/ws"), None);
    assert_eq!(relative_to("/ws/crate-a", "/"), Some("ws/crate-a".to_string()));
    assert_eq!(relative_to("ws/crate-a", "/"), None);
    assert_eq!(relative_to("/ws/crate-a", ""), Some("/ws/crate-a".to_string()));
    assert_eq!(relative_to("/ws//crate-a/", "/ws"), Some("crate-a".to_string()));
}

#[test]
fn relative_to_agrees_with_the_platform_on_plain_paths() {
    let cases = [
        ("/ws/crate-a", "/ws"),
        ("/ws/nested/crate-a", "/ws"),
        ("/ws", "/ws"),
        ("/wsx/crate-a", "/ws"),
        ("/ws/foobar", "/ws/foo"),
        ("/ws/crate-a", "/"),
        ("/ws/crate-a", ""),
        ("a/b/c", "a"),
        ("a/b/c", "a/b"),
        ("a/b/c", "b"),
    ];
    for (path, base) in cases {
        let expected = Path::new(path)
            .strip_prefix(base)
            .ok()
            .and_then(|p| p.to_str())
            .map(|p| p.to_string());
        assert_eq!(relative_to(path, base), expected, "{:?} relative to {:?}", path, base);
    }
}

fn words(alphabet: &[char], max_len: usize) -> Vec<String> {
    let mut all = vec![String::new()];
    let mut last = vec![String::new()];
    for _ in 0..max_len {
        let mut next = Vec::new();
        for word in &last {
            for c in alphabet {
                let mut longer = word.clone();
                longer.push(*c);
                next.push(longer);
            }
        }
        all.extend(next.iter().cloned());
        last = next;
    }
    all
}

#[test]
fn names_extensions_and_parents_agree_on_every_short_path() {
    for path in words(&['/', '.', 'a', 'b'], 6) {
        assert_eq!(file_name(&path), std_file_name(&path), "file name of {:?}", path);
        assert_eq!(extension(&path), std_extension(&path), "extension of {:?}", path);
        assert_eq!(parent(&path), std_parent(&path), "parent of {:?}", path);
    }
}

#[test]
fn joins_agree_on_every_pair_of_short_paths() {
    let all = words(&['/', '.', 'a'], 4);
    for base in &all {
        for name in &all {
            assert_eq!(join(base, name), std_join(base, name), "join {:?} {:?}", base, name);
        }
    }
}

#[test]
fn relative_paths_agree_on_every_pair_of_short_paths() {
    let all = words(&['/', '.', 'a', 'b'], 5);
    for path in &all {
        for base in &all {
            let expected = Path::new(path)
                .strip_prefix(base)
                .ok()
                .and_then(|p| p.to_str())
                .map(|p| p.to_string());
            assert_eq!(relative_to(path, base), expected, "{:?} relative to {:?}", path, base);
        }
    }
}
