//! Staging.
//!
//! A package that has modifications is built from a staged copy of its source
//! tree, so that the package's own tree is never touched. The copy is made
//! from scratch each time. This module says where the copy goes and,
//! directory by directory, what is copied into it; reading and writing the
//! file system is the caller's part.

use vstd::prelude::*;
use crate::path::{join, joined, parent, parent_of};
use crate::text::same_str;

verus! {

/// The directory of the staged copy of `package`, in the workspace rooted at
/// `root`: below the build output directory, in a directory of its own.
pub open spec fn staged_dir(package: Seq<char>, root: Seq<char>) -> Seq<char> {
    joined(joined(joined(root, "target"@), "cargo-stitch"@), package)
}

/// The directory of the staged copy of the package `pkg_name`.
pub fn patched_dir(pkg_name: &str, workspace_root: &str) -> (dir: String)
    ensures
        dir@ == staged_dir(pkg_name@, workspace_root@),
{
    let output = join(workspace_root, "target");
    let area = join(output.as_str(), "cargo-stitch");
    join(area.as_str(), pkg_name)
}

/// A directory entry that staging leaves out: build output and version
/// control data, whatever the entry's kind.
pub open spec fn is_skipped(name: Seq<char>) -> bool {
    name == "target"@ || name == ".git"@
}

/// Tests whether staging leaves out an entry of this name.
pub fn skips(name: &str) -> (skipped: bool)
    ensures
        skipped == is_skipped(name@),
{
    same_str(name, "target") || same_str(name, ".git")
}

/// A directory entry, as contracts speak of it.
pub struct Node {
    pub name: Seq<char>,
    pub is_dir: bool,
}

/// An entry of a directory that is being staged: its name, and whether it is
/// a directory.
#[derive(Debug, PartialEq, Eq)]
pub struct Entry {
    pub name: String,
    pub is_dir: bool,
}

impl DeepView for Entry {
    type V = Node;

    open spec fn deep_view(&self) -> Node {
        Node { name: self.name@, is_dir: self.is_dir }
    }
}

/// One copy, as contracts speak of it.
pub struct Transfer {
    pub is_dir: bool,
    pub from: Seq<char>,
    pub to: Seq<char>,
}

/// One copy to make while a directory is staged.
#[derive(Debug, PartialEq, Eq)]
pub enum CopyStep {
    /// Stage the directory `from` as `to`, in the same way.
    Dir { from: String, to: String },
    /// Copy the file `from` to `to`.
    File { from: String, to: String },
}

impl DeepView for CopyStep {
    type V = Transfer;

    open spec fn deep_view(&self) -> Transfer {
        match self {
            CopyStep::Dir { from, to } => Transfer { is_dir: true, from: from@, to: to@ },
            CopyStep::File { from, to } => Transfer { is_dir: false, from: from@, to: to@ },
        }
    }
}

/// The copy that an entry of the directory `src` calls for when `src` is
/// staged as `dst`; none for an entry that is left out.
pub open spec fn transfer_of(src: Seq<char>, dst: Seq<char>) -> spec_fn(Node) -> Option<Transfer> {
    |entry: Node|
        if is_skipped(entry.name) {
            None
        } else {
            Some(
                Transfer {
                    is_dir: entry.is_dir,
                    from: joined(src, entry.name),
                    to: joined(dst, entry.name),
                },
            )
        }
}

/// The copies to make, in order, when the directory `src` with the entries
/// `entries` is staged as `dst`.
pub open spec fn transfers(src: Seq<char>, dst: Seq<char>, entries: Seq<Node>) -> Seq<Transfer> {
    entries.filter_map(transfer_of(src, dst))
}

/// Plans the recursive copy of the directory `src`, which holds `entries`,
/// to `dst`, one level at a time. The caller creates `dst` and makes the
/// copies in order; for a directory among them it lists that directory and
/// asks again.
pub fn copy_dir_recursive(src: &str, dst: &str, entries: &Vec<Entry>) -> (steps: Vec<CopyStep>)
    ensures
        steps.deep_view() == transfers(src@, dst@, entries.deep_view()),
{
    let mut steps: Vec<CopyStep> = Vec::new();
    let mut i: usize = 0;
    assert(entries.deep_view().take(0).filter_map(transfer_of(src@, dst@)) =~= steps.deep_view());
    while i < entries.len()
        invariant
            i <= entries.len(),
            steps.deep_view() == transfers(src@, dst@, entries.deep_view().take(i as int)),
        decreases entries.len() - i,
    {
        let ghost before = steps.deep_view();
        let entry = &entries[i];
        proof {
            let next = entries.deep_view().take(i + 1);
            assert(next.drop_last() =~= entries.deep_view().take(i as int));
            assert(next.last() == entry.deep_view());
        }
        if !skips(entry.name.as_str()) {
            let from = join(src, entry.name.as_str());
            let to = join(dst, entry.name.as_str());
            let step = if entry.is_dir {
                CopyStep::Dir { from, to }
            } else {
                CopyStep::File { from, to }
            };
            steps.push(step);
            assert(steps.deep_view() =~= before + seq![step.deep_view()]);
        }
        i += 1;
    }
    assert(entries.deep_view().take(i as int) =~= entries.deep_view());
    steps
}

/// The name of the file that marks a project's directory.
pub open spec fn project_manifest() -> Seq<char> {
    "Cargo.toml"@
}

/// The workspace root of `dir`: the outermost directory, among `dir` and the
/// directories above it, that holds a project manifest. `here` says whether
/// `dir` itself holds one, and `enclosing[i]` whether the directory `i + 1`
/// levels above `dir` does; a level of which nothing is said holds none, and
/// so does a level that the path does not have. A level that holds none does
/// not end the walk: what is found further up counts. There is no root where
/// no level holds a project manifest.
pub open spec fn workspace_root_of(dir: Seq<char>, here: bool, enclosing: Seq<bool>) -> Option<
    Seq<char>,
>
    decreases enclosing.len(),
{
    let further = if enclosing.len() == 0 {
        None
    } else {
        match parent_of(dir) {
            Some(above) => workspace_root_of(above, enclosing[0], enclosing.skip(1)),
            None => None,
        }
    };
    if further is Some {
        further
    } else if here {
        Some(dir)
    } else {
        None
    }
}

/// The path at which to look for the project manifest of `dir` itself.
pub fn manifest_in(dir: &str) -> (probe: String)
    ensures
        probe@ == joined(dir@, project_manifest()),
{
    join(dir, "Cargo.toml")
}

/// The path at which to look for the project manifest of the directory above
/// `dir`; `None` where there is no directory above.
pub fn manifest_above(dir: &str) -> (probe: Option<String>)
    ensures
        probe.deep_view() == match parent_of(dir@) {
            Some(above) => Some(joined(above, project_manifest())),
            None => None,
        },
{
    match parent(dir) {
        Some(above) => Some(join(above.as_str(), "Cargo.toml")),
        None => None,
    }
}

/// Finds the workspace root of `manifest_dir`, given whether it holds a
/// project manifest itself, and the same for each level above it, nearest
/// first. The root is the outermost level that holds one; `None` where none
/// does.
pub fn find_workspace_root(manifest_dir: &str, here: bool, enclosing: &Vec<bool>) -> (root: Option<
    String,
>)
    ensures
        root.deep_view() == workspace_root_of(manifest_dir@, here, enclosing@),
{
    let mut found: Option<String> = None;
    let mut current = String::from_str(manifest_dir);
    let mut holds = here;
    let mut level: usize = 0;
    assert(enclosing@.skip(0) =~= enclosing@);
    loop
        invariant
            level <= enclosing.len(),
            workspace_root_of(manifest_dir@, here, enclosing@) == (match workspace_root_of(
                current@,
                holds,
                enclosing@.skip(level as int),
            ) {
                Some(root) => Some(root),
                None => found.deep_view(),
            }),
        decreases enclosing.len() - level,
    {
        let ghost rest = enclosing@.skip(level as int);
        if level >= enclosing.len() {
            return if holds {
                Some(current)
            } else {
                found
            };
        }
        let above = match parent(current.as_str()) {
            Some(above) => above,
            None => {
                return if holds {
                    Some(current)
                } else {
                    found
                };
            },
        };
        proof {
            assert(rest[0] == enclosing@[level as int]);
            assert(rest.skip(1) =~= enclosing@.skip(level + 1));
        }
        if holds {
            found = Some(current);
        }
        current = above;
        holds = enclosing[level];
        level += 1;
    }
}

/// The directory `n` levels above `dir`; `None` where the path does not have
/// that many levels.
pub open spec fn level_above(dir: Seq<char>, n: nat) -> Option<Seq<char>>
    decreases n,
{
    if n == 0 {
        Some(dir)
    } else {
        match parent_of(dir) {
            Some(above) => level_above(above, (n - 1) as nat),
            None => None,
        }
    }
}

/// The directory `n` levels above the starting directory holds a project
/// manifest, as far as `here` and `enclosing` say.
pub open spec fn is_boundary(here: bool, enclosing: Seq<bool>, n: nat) -> bool {
    if n == 0 {
        here
    } else {
        n <= enclosing.len() && enclosing[n - 1]
    }
}

/// Level `n` is the outermost project boundary of `dir`: the directory there
/// holds a project manifest, and no directory further up does.
pub open spec fn outermost_at(dir: Seq<char>, here: bool, enclosing: Seq<bool>, n: nat) -> bool {
    &&& level_above(dir, n) is Some
    &&& is_boundary(here, enclosing, n)
    &&& forall|m: nat|
        m > n && level_above(dir, m) is Some ==> !#[trigger] is_boundary(here, enclosing, m)
}

/// The workspace root is the outermost enclosing project boundary: where
/// there is a root, it is the directory at the outermost level that holds a
/// project manifest, which is `dir` itself or a directory above it; and
/// there is no root exactly when no level holds one.
pub proof fn lemma_workspace_root_is_outermost(dir: Seq<char>, here: bool, enclosing: Seq<bool>)
    ensures
        match workspace_root_of(dir, here, enclosing) {
            Some(root) => exists|n: nat|
                #[trigger] outermost_at(dir, here, enclosing, n) && level_above(dir, n) == Some(
                    root,
                ),
            None => forall|n: nat|
                level_above(dir, n) is Some ==> !#[trigger] is_boundary(here, enclosing, n),
        },
    decreases enclosing.len(),
{
    let up = parent_of(dir);
    if enclosing.len() == 0 || up is None {
        assert forall|m: nat| m > 0 && level_above(dir, m) is Some implies !#[trigger] is_boundary(
            here,
            enclosing,
            m,
        ) by {}
        if here {
            assert(outermost_at(dir, here, enclosing, 0));
        }
    } else {
        let above = up->0;
        let rest = enclosing.skip(1);
        lemma_workspace_root_is_outermost(above, enclosing[0], rest);
        assert forall|m: nat| m > 0 implies level_above(dir, m) == level_above(
            above,
            (m - 1) as nat,
        ) && is_boundary(here, enclosing, m) == is_boundary(enclosing[0], rest, (m - 1) as nat) by {
            if m - 1 > 0 && m - 1 <= rest.len() {
                assert(rest[m - 2] == enclosing[m - 1]);
            }
        }
        match workspace_root_of(above, enclosing[0], rest) {
            Some(root) => {
                let k = choose|k: nat|
                    #[trigger] outermost_at(above, enclosing[0], rest, k) && level_above(above, k)
                        == Some(root);
                let n = (k + 1) as nat;
                assert forall|m: nat| m > n && level_above(dir, m) is Some implies !#[trigger] is_boundary(
                    here,
                    enclosing,
                    m,
                ) by {
                    assert(!is_boundary(enclosing[0], rest, (m - 1) as nat));
                }
                assert(outermost_at(dir, here, enclosing, n));
            },
            None => {
                assert forall|m: nat| m > 0 && level_above(dir, m) is Some implies !#[trigger] is_boundary(
                    here,
                    enclosing,
                    m,
                ) by {
                    assert(!is_boundary(enclosing[0], rest, (m - 1) as nat));
                }
                if here {
                    assert(outermost_at(dir, here, enclosing, 0));
                }
            },
        }
    }
}

} // verus!
