use cargo_stitch::rewrite::{replace_all, rewrite, rewrite_arg, rewrite_args};

fn strings(items: &[&str]) -> Vec<String> {
    items.iter().map(|s| s.to_string()).collect()
}

#[test]
fn replace_all_agrees_with_the_platform() {
    let texts = ["", "a", "aaa", "abcabc", "/ws/foo/src/lib.rs", "xx/ws/foo:/ws/foo", "ababab", "é/é"];
    let patterns = ["", "a", "aa", "abc", "/ws/foo", "ab", "aba", "é", "zzz"];
    let replacements = ["", "X", "a", "aa", "/ws/target/cargo-stitch/foo"];
    for text in texts {
        for from in patterns {
            for to in replacements {
                assert_eq!(
                    replace_all(text, from, to),
                    text.replace(from, to),
                    "replace {:?} by {:?} in {:?}",
                    from,
                    to,
                    text
                );
            }
        }
    }
}

#[test]
fn absolute_occurrences_are_replaced_everywhere() {
    let out = rewrite_arg(
        "--remap=/ws/crate-a/src:/ws/crate-a/gen",
        "/ws/crate-a",
        "/ws/target/cargo-stitch/crate-a",
        Some("crate-a"),
    );
    assert_eq!(
        out,
        "--remap=/ws/target/cargo-stitch/crate-a/src:/ws/target/cargo-stitch/crate-a/gen"
    );
}

#[test]
fn relative_path_needs_the_separator() {
    let staged = "/ws/target/cargo-stitch/config";
    assert_eq!(
        rewrite_arg("config/src/lib.rs", "/ws/config", staged, Some("config")),
        "/ws/target/cargo-stitch/config/src/lib.rs"
    );
    assert_eq!(rewrite_arg("config", "/ws/config", staged, Some("config")), "config");
    assert_eq!(
        rewrite_arg("configure/src/lib.rs", "/ws/config", staged, Some("config")),
        "configure/src/lib.rs"
    );
    assert_eq!(
        rewrite_arg("src/config/lib.rs", "/ws/config", staged, Some("config")),
        "src/config/lib.rs"
    );
    assert_eq!(rewrite_arg("config/src/lib.rs", "/ws/config", staged, None), "config/src/lib.rs");
    assert_eq!(rewrite_arg("--edition=2021", "/ws/config", staged, Some("config")), "--edition=2021");
}

#[test]
fn prefix_safety_between_foo_and_foobar() {
    let foo_staged = "/ws/target/cargo-stitch/foo";
    let foobar_staged = "/ws/target/cargo-stitch/foobar";
    assert_eq!(
        rewrite_arg("foobar/src/lib.rs", "/ws/foo", foo_staged, Some("foo")),
        "foobar/src/lib.rs"
    );
    assert_eq!(
        rewrite_arg("foo/src/lib.rs", "/ws/foobar", foobar_staged, Some("foobar")),
        "foo/src/lib.rs"
    );
    assert_eq!(
        rewrite_arg("/ws/foo/src/lib.rs", "/ws/foobar", foobar_staged, Some("foobar")),
        "/ws/foo/src/lib.rs"
    );
    assert_eq!(
        rewrite_arg("foo/src/lib.rs", "/ws/foo", foo_staged, Some("foo")),
        "/ws/target/cargo-stitch/foo/src/lib.rs"
    );
}

#[test]
fn absolute_rule_replaces_any_occurrence() {
    let foo_staged = "/ws/target/cargo-stitch/foo";
    assert_eq!(
        rewrite_arg("/ws/foobar/src/lib.rs", "/ws/foo", foo_staged, Some("foo")),
        "/ws/target/cargo-stitch/foobar/src/lib.rs"
    );
}

#[test]
fn relative_directory_is_replaced_without_its_trailing_separators() {
    let staged = "/s";
    assert_eq!(rewrite_arg("a//b/c.rs", "/ws/a", staged, Some("a/")), "/s//b/c.rs");
    assert_eq!(rewrite_arg("/usr/lib", "/ws", staged, Some("")), "/s/usr/lib");
}

#[test]
fn arguments_are_rewritten_one_by_one() {
    let args = strings(&[
        "--crate-name",
        "crate_a",
        "crate-a/src/lib.rs",
        "--out-dir",
        "/ws/target/debug/deps",
        "-L",
        "dependency=/ws/crate-a/vendor",
    ]);
    let out = rewrite_args(&args, "/ws/crate-a", "/ws/target/cargo-stitch/crate-a", Some("crate-a"));
    assert_eq!(
        out,
        strings(&[
            "--crate-name",
            "crate_a",
            "/ws/target/cargo-stitch/crate-a/src/lib.rs",
            "--out-dir",
            "/ws/target/debug/deps",
            "-L",
            "dependency=/ws/target/cargo-stitch/crate-a/vendor",
        ])
    );
    let mut reversed = args.clone();
    reversed.reverse();
    let mut out_reversed =
        rewrite_args(&reversed, "/ws/crate-a", "/ws/target/cargo-stitch/crate-a", Some("crate-a"));
    out_reversed.reverse();
    assert_eq!(out_reversed, out);
    assert_eq!(
        rewrite_args(&Vec::new(), "/ws/crate-a", "/s", Some("crate-a")),
        Vec::<String>::new()
    );
}

#[test]
fn rewrite_finds_the_relative_directory_itself() {
    let args = strings(&["crate-a/src/lib.rs", "/ws/crate-a/build.rs", "crate-b/src/lib.rs"]);
    assert_eq!(
        rewrite("/ws/crate-a", "/ws/target/cargo-stitch/crate-a", "/ws", &args),
        strings(&[
            "/ws/target/cargo-stitch/crate-a/src/lib.rs",
            "/ws/target/cargo-stitch/crate-a/build.rs",
            "crate-b/src/lib.rs",
        ])
    );
    assert_eq!(
        rewrite("/elsewhere/crate-a", "/ws/target/cargo-stitch/crate-a", "/ws", &args),
        strings(&["crate-a/src/lib.rs", "/ws/crate-a/build.rs", "crate-b/src/lib.rs"])
    );
}

fn words(alphabet: &[char], max_len: usize) -> Vec<String> {
    let mut all = vec![String::new()];
    let mut last = vec![String::new()];
    for _ in 0..max_len {
        let mut next = Vec::new();
        for word in &last {
            for c in alphabet {
                let mut longer = word.clone();
                longer.push(*c);
                next.push(longer);
            }
        }
        all.extend(next.iter().cloned());
        last = next;
    }
    all
}

fn by_text_functions(arg: &str, source: &str, staged: &str, rel: Option<&str>) -> String {
    let result = arg.replace(source, staged);
    if result != arg {
        return result;
    }
    if let Some(rel) = rel {
        let prefix = format!("{}/", rel);
        if arg.starts_with(prefix.as_str()) {
            return arg.replacen(prefix.trim_end_matches('/'), staged, 1);
        }
    }
    arg.to_string()
}

#[test]
fn replace_all_agrees_on_every_short_text() {
    let texts = words(&['a', 'b'], 7);
    let patterns = words(&['a', 'b'], 3);
    for text in &texts {
        for from in &patterns {
            for to in ["", "x", "ab", "ba"] {
                assert_eq!(
                    replace_all(text, from, to),
                    text.replace(from.as_str(), to),
                    "replace {:?} by {:?} in {:?}",
                    from,
                    to,
                    text
                );
            }
        }
    }
}

#[test]
fn rewriting_agrees_with_the_text_functions_on_every_short_argument() {
    let args = words(&['/', 'a', 'b'], 6);
    let mut rels: Vec<Option<String>> = words(&['/', 'a', 'b'], 3).into_iter().map(Some).collect();
    rels.push(None);
    for arg in &args {
        for source in ["/a", "/a/b", "ab", "/", ""] {
            for rel in &rels {
                let rel = rel.as_deref();
                assert_eq!(
                    rewrite_arg(arg, source, "/s/t", rel),
                    by_text_functions(arg, source, "/s/t", rel),
                    "argument {:?}, source {:?}, relative {:?}",
                    arg,
                    source,
                    rel
                );
            }
        }
    }
}

#[test]
fn rewrite_agrees_with_the_platform_on_every_short_workspace() {
    let dirs = words(&['/', 'a', 'b'], 4);
    let args: Vec<String> = words(&['/', 'a', 'b'], 4);
    for source in &dirs {
        for root in ["", "/", "/a", "a", "/a/", "/b", "/a/b"] {
            let rel = std::path::Path::new(source)
                .strip_prefix(root)
                .ok()
                .map(|p| p.to_string_lossy().into_owned());
            let expected: Vec<String> = args
                .iter()
                .map(|arg| by_text_functions(arg, source, "/s/t", rel.as_deref()))
                .collect();
            assert_eq!(
                rewrite(source, "/s/t", root, &args),
                expected,
                "source {:?}, root {:?}",
                source,
                root
            );
        }
    }
}
