//! Discovery.
//!
//! The modifications of a workspace lie in one directory, in one
//! subdirectory for each package that has any. Discovery turns a listing of
//! that directory into the manifest: for each package the files that hold a
//! modification, in the order of their names.

use vstd::prelude::*;
use vstd::relations::sorted_by;
use crate::manifest::Manifest;
use crate::path::{join, joined};
use crate::stitch::{
    classified, engine_call, first_failure, lemma_first_failure_bounds, next_step, Modification,
    Next, Report, Stitch, StitchSet,
};
use crate::text::{by_name, lemma_by_name_total_ordering, lex_le, sort_names};

verus! {

/// One entry of the modifications directory, as contracts speak of it.
pub struct Listing {
    pub name: Seq<char>,
    pub is_dir: bool,
    pub files: Seq<Seq<char>>,
}

/// One entry of the modifications directory: its name, whether it is a
/// directory, and the names of the entries found inside it. A directory's
/// name is the name of the package that its files modify.
#[derive(Debug, PartialEq, Eq)]
pub struct PackageDir {
    pub name: String,
    pub is_dir: bool,
    pub files: Vec<String>,
}

impl DeepView for PackageDir {
    type V = Listing;

    open spec fn deep_view(&self) -> Listing {
        Listing { name: self.name@, is_dir: self.is_dir, files: self.files.deep_view() }
    }
}

/// Classifies a file of the directory `dir` by its name.
pub open spec fn classifier(dir: Seq<char>) -> spec_fn(Seq<char>) -> Option<Modification> {
    |name: Seq<char>| classified(joined(dir, name))
}

/// The ordered set of the package whose directory `dir` holds `files`: the
/// files in the order of their names, each classified, those that hold no
/// modification left out.
pub open spec fn set_of(dir: Seq<char>, files: Seq<Seq<char>>) -> Seq<Modification> {
    files.sort_by(by_name()).filter_map(classifier(dir))
}

/// The entry is a directory with at least one modification in it.
pub open spec fn records(root: Seq<char>, entry: Listing) -> bool {
    entry.is_dir && set_of(joined(root, entry.name), entry.files).len() > 0
}

/// The manifest of a workspace whose modifications directory `root` holds
/// `entries`: each directory with at least one modification is recorded under
/// its name, and nothing else is.
pub open spec fn discovered(root: Seq<char>, entries: Seq<Listing>) -> Map<
    Seq<char>,
    Seq<Modification>,
>
    decreases entries.len(),
{
    if entries.len() == 0 {
        Map::empty()
    } else {
        let earlier = discovered(root, entries.drop_last());
        let entry = entries.last();
        if records(root, entry) {
            earlier.insert(entry.name, set_of(joined(root, entry.name), entry.files))
        } else {
            earlier
        }
    }
}

impl StitchSet {
    /// The set of the package whose directory `dir` holds the entries named
    /// `files`.
    pub fn discover(dir: &str, files: &Vec<String>) -> (set: StitchSet)
        ensures
            set@ == set_of(dir@, files.deep_view()),
    {
        let sorted = sort_names(files);
        let mut stitches: Vec<Stitch> = Vec::new();
        let mut i: usize = 0;
        assert(sorted.deep_view().take(0).filter_map(classifier(dir@)) =~= stitches.deep_view());
        while i < sorted.len()
            invariant
                i <= sorted.len(),
                stitches.deep_view() == sorted.deep_view().take(i as int).filter_map(
                    classifier(dir@),
                ),
            decreases sorted.len() - i,
        {
            let ghost seen = sorted.deep_view().take(i as int);
            let ghost before = stitches.deep_view();
            let path = join(dir, sorted[i].as_str());
            proof {
                let next = sorted.deep_view().take(i + 1);
                assert(next.drop_last() =~= seen);
                assert(next.last() == sorted[i as int]@);
            }
            match Stitch::from_path(path) {
                Some(stitch) => {
                    stitches.push(stitch);
                    assert(stitches.deep_view() =~= before + seq![stitch@]);
                },
                None => {},
            }
            i += 1;
        }
        assert(sorted.deep_view().take(i as int) =~= sorted.deep_view());
        StitchSet::new(stitches)
    }

    /// Scans the modifications directory `stitches_dir`, whose entries are
    /// `entries`, and records the set of each package that has one.
    pub fn discover_all(stitches_dir: &str, entries: &Vec<PackageDir>) -> (manifest: Manifest)
        ensures
            manifest.wf(),
            manifest@ == discovered(stitches_dir@, entries.deep_view()),
    {
        let mut manifest = Manifest::new();
        let mut i: usize = 0;
        assert(entries.deep_view().take(0) =~= Seq::<Listing>::empty());
        while i < entries.len()
            invariant
                i <= entries.len(),
                manifest.wf(),
                manifest@ == discovered(stitches_dir@, entries.deep_view().take(i as int)),
            decreases entries.len() - i,
        {
            let entry = &entries[i];
            proof {
                let next = entries.deep_view().take(i + 1);
                assert(next.drop_last() =~= entries.deep_view().take(i as int));
                assert(next.last() == entry.deep_view());
            }
            if entry.is_dir {
                let dir = join(stitches_dir, entry.name.as_str());
                let set = StitchSet::discover(dir.as_str(), &entry.files);
                manifest.record(entry.name.clone(), set);
            }
            i += 1;
        }
        assert(entries.deep_view().take(i as int) =~= entries.deep_view());
        manifest
    }
}

/// A name of `names` is the file name of `m` in the directory `dir`.
pub open spec fn names_file_of(names: Seq<Seq<char>>, dir: Seq<char>, m: Modification) -> bool {
    exists|a: int| 0 <= a < names.len() && m.file() == joined(dir, #[trigger] names[a])
}

/// `first` and `second` are files of the directory `dir`, named in `names`,
/// and the name of `first` comes first or they are named alike.
pub open spec fn in_name_order(
    names: Seq<Seq<char>>,
    dir: Seq<char>,
    first: Modification,
    second: Modification,
) -> bool {
    exists|a: int, b: int|
        0 <= a < names.len() && 0 <= b < names.len() && first.file() == joined(
            dir,
            #[trigger] names[a],
        ) && second.file() == joined(dir, #[trigger] names[b]) && lex_le(names[a], names[b])
}

proof fn lemma_classified_in_order(dir: Seq<char>, names: Seq<Seq<char>>)
    requires
        sorted_by(names, by_name()),
    ensures
        forall|i: int|
            0 <= i < names.filter_map(classifier(dir)).len() ==> names_file_of(
                names,
                dir,
                #[trigger] names.filter_map(classifier(dir))[i],
            ),
        forall|i: int, j: int|
            0 <= i < j < names.filter_map(classifier(dir)).len() ==> in_name_order(
                names,
                dir,
                #[trigger] names.filter_map(classifier(dir))[i],
                #[trigger] names.filter_map(classifier(dir))[j],
            ),
    decreases names.len(),
{
    let f = classifier(dir);
    let out = names.filter_map(f);
    if names.len() > 0 {
        let rest = names.drop_last();
        let last = names.last();
        let end = names.len() - 1;
        let r = by_name();
        assert forall|i: int, j: int| 0 <= i < j < rest.len() implies #[trigger] r(
            rest[i],
            rest[j],
        ) by {
            assert(r(names[i], names[j]));
        }
        lemma_classified_in_order(dir, rest);
        let kept = rest.filter_map(f);
        assert forall|i: int| 0 <= i < kept.len() implies names_file_of(
            names,
            dir,
            #[trigger] kept[i],
        ) by {
            assert(names_file_of(rest, dir, kept[i]));
            let a = choose|a: int|
                0 <= a < rest.len() && kept[i].file() == joined(dir, #[trigger] rest[a]);
            assert(names[a] == rest[a]);
        }
        assert forall|i: int, j: int| 0 <= i < j < kept.len() implies in_name_order(
            names,
            dir,
            #[trigger] kept[i],
            #[trigger] kept[j],
        ) by {
            assert(in_name_order(rest, dir, kept[i], kept[j]));
            let (a, b) = choose|a: int, b: int|
                0 <= a < rest.len() && 0 <= b < rest.len() && kept[i].file() == joined(
                    dir,
                    #[trigger] rest[a],
                ) && kept[j].file() == joined(dir, #[trigger] rest[b]) && lex_le(rest[a], rest[b]);
            assert(names[a] == rest[a] && names[b] == rest[b]);
        }
        match f(last) {
            Some(m) => {
                assert(out == kept + seq![m]);
                assert(m.file() == joined(dir, names[end]));
                assert forall|i: int| 0 <= i < out.len() implies names_file_of(
                    names,
                    dir,
                    #[trigger] out[i],
                ) by {
                    if i < kept.len() {
                        assert(out[i] == kept[i]);
                    }
                }
                assert forall|i: int, j: int| 0 <= i < j < out.len() implies in_name_order(
                    names,
                    dir,
                    #[trigger] out[i],
                    #[trigger] out[j],
                ) by {
                    assert(out[i] == kept[i]);
                    if j < kept.len() {
                        assert(out[j] == kept[j]);
                    } else {
                        assert(names_file_of(names, dir, kept[i]));
                        let a = choose|a: int|
                            0 <= a < names.len() && kept[i].file() == joined(
                                dir,
                                #[trigger] names[a],
                            );
                        if a < end {
                            assert(r(names[a], names[end]));
                        } else {
                            lemma_by_name_total_ordering();
                            assert(r(names[end], names[end]));
                        }
                        assert(lex_le(names[a], names[end]));
                    }
                }
            },
            None => {
                assert(out == kept);
            },
        }
    }
}

/// Order of discovery. A package's modifications stand in its set in the
/// order of their file names, whatever their kinds and in whatever order the
/// directory listed them: each modification of the set is a file of the
/// directory, and of two modifications of the set the one that stands first
/// has the name that comes first.
pub proof fn lemma_set_in_file_name_order(dir: Seq<char>, files: Seq<Seq<char>>)
    ensures
        forall|i: int|
            0 <= i < set_of(dir, files).len() ==> names_file_of(
                files,
                dir,
                #[trigger] set_of(dir, files)[i],
            ),
        forall|i: int, j: int|
            0 <= i < j < set_of(dir, files).len() ==> in_name_order(
                files,
                dir,
                #[trigger] set_of(dir, files)[i],
                #[trigger] set_of(dir, files)[j],
            ),
{
    broadcast use vstd::seq_lib::group_to_multiset_ensures;

    lemma_by_name_total_ordering();
    files.lemma_sort_by_ensures(by_name());
    let names = files.sort_by(by_name());
    lemma_classified_in_order(dir, names);
    let set = set_of(dir, files);
    assert forall|a: int| 0 <= a < names.len() implies files.contains(#[trigger] names[a]) by {
        assert(names.contains(names[a]));
    }
    assert forall|i: int| 0 <= i < set.len() implies names_file_of(files, dir, #[trigger] set[i]) by {
        assert(names_file_of(names, dir, set[i]));
        let a = choose|a: int|
            0 <= a < names.len() && set[i].file() == joined(dir, #[trigger] names[a]);
        assert(files.contains(names[a]));
        let b = choose|b: int| 0 <= b < files.len() && files[b] == names[a];
        assert(set[i].file() == joined(dir, files[b]));
    }
    assert forall|i: int, j: int| 0 <= i < j < set.len() implies in_name_order(
        files,
        dir,
        #[trigger] set[i],
        #[trigger] set[j],
    ) by {
        assert(in_name_order(names, dir, set[i], set[j]));
        let (a, b) = choose|a: int, b: int|
            0 <= a < names.len() && 0 <= b < names.len() && set[i].file() == joined(
                dir,
                #[trigger] names[a],
            ) && set[j].file() == joined(dir, #[trigger] names[b]) && lex_le(names[a], names[b]);
        assert(files.contains(names[a]));
        assert(files.contains(names[b]));
        let x = choose|x: int| 0 <= x < files.len() && files[x] == names[a];
        let y = choose|y: int| 0 <= y < files.len() && files[y] == names[b];
        assert(set[i].file() == joined(dir, files[x]) && set[j].file() == joined(dir, files[y])
            && lex_le(files[x], files[y]));
    }
}

/// First name first. Let a package's directory hold two modifications,
/// listed in either order. Then the one whose name comes first stands first
/// in the set, whatever the kinds of the two; its engine is run first, the
/// other's engine is run after it has succeeded, and then the application is
/// done.
pub proof fn lemma_first_name_is_applied_first(
    dir: Seq<char>,
    first: Seq<char>,
    second: Seq<char>,
    files: Seq<Seq<char>>,
    staged: Seq<char>,
)
    requires
        lex_le(first, second),
        first != second,
        files == seq![first, second] || files == seq![second, first],
        classified(joined(dir, first)) is Some,
        classified(joined(dir, second)) is Some,
    ensures
        ({
            let a = classified(joined(dir, first))->0;
            let b = classified(joined(dir, second))->0;
            let set = set_of(dir, files);
            &&& set == seq![a, b]
            &&& next_step(set, staged, seq![]) == Next::Run(engine_call(a, staged))
            &&& next_step(set, staged, seq![Report::Succeeded]) == Next::Run(
                engine_call(b, staged),
            )
            &&& next_step(set, staged, seq![Report::Succeeded, Report::Succeeded]) == Next::Done
        }),
{
    let a = classified(joined(dir, first))->0;
    let b = classified(joined(dir, second))->0;
    let ordered = seq![first, second];
    let r = by_name();
    lemma_by_name_total_ordering();
    files.lemma_sort_by_ensures(r);
    assert(sorted_by(ordered, r)) by {
        assert(r(ordered[0], ordered[1]));
    }
    assert(ordered.to_multiset() == files.to_multiset()) by {
        let other = seq![second, first];
        assert(ordered =~= seq![first].push(second));
        assert(other =~= seq![second].push(first));
        assert(seq![first] =~= Seq::<Seq<char>>::empty().push(first));
        assert(seq![second] =~= Seq::<Seq<char>>::empty().push(second));
        vstd::seq_lib::to_multiset_build(Seq::<Seq<char>>::empty(), first);
        vstd::seq_lib::to_multiset_build(Seq::<Seq<char>>::empty(), second);
        vstd::seq_lib::to_multiset_build(seq![first], second);
        vstd::seq_lib::to_multiset_build(seq![second], first);
        assert(ordered.to_multiset() =~= other.to_multiset());
    }
    vstd::seq_lib::lemma_sorted_unique(ordered, files.sort_by(r), r);
    let f = classifier(dir);
    assert(ordered.filter_map(f) == seq![a, b]) by {
        let head = ordered.drop_last();
        assert(head =~= seq![first]);
        assert(head.drop_last() =~= Seq::<Seq<char>>::empty());
        assert(head.last() == first);
        assert(head.drop_last().filter_map(f) =~= Seq::<Modification>::empty());
        assert(f(first) == Some(a));
        assert(f(second) == Some(b));
        assert(head.filter_map(f) =~= seq![a]);
        assert(ordered.last() == second);
        assert(ordered.filter_map(f) =~= seq![a, b]);
    }
    let set = set_of(dir, files);
    assert(set == seq![a, b]);
    let none = Seq::<Report>::empty();
    let one = seq![Report::Succeeded];
    let two = seq![Report::Succeeded, Report::Succeeded];
    lemma_first_failure_bounds(none, 0);
    lemma_first_failure_bounds(one, 0);
    lemma_first_failure_bounds(two, 0);
    assert(first_failure(one, 0) == 1) by {
        if first_failure(one, 0) < 1 {
            assert(one[0] is Succeeded);
        }
    }
    assert(first_failure(two, 0) == 2) by {
        let k = first_failure(two, 0);
        if k < 2 {
            assert(two[k] is Succeeded);
        }
    }
    assert(seq![] =~= none);
}

/// What discovery records. A package is in the manifest exactly when the
/// listing holds a directory of its name with at least one modification in
/// it, and no recorded set is empty.
pub proof fn lemma_discovered_packages(root: Seq<char>, entries: Seq<Listing>, package: Seq<char>)
    ensures
        discovered(root, entries).contains_key(package) <==> exists|i: int|
            0 <= i < entries.len() && (#[trigger] entries[i]).name == package && records(
                root,
                entries[i],
            ),
        discovered(root, entries).contains_key(package) ==> discovered(
            root,
            entries,
        )[package].len() > 0,
    decreases entries.len(),
{
    if entries.len() > 0 {
        let earlier = entries.drop_last();
        lemma_discovered_packages(root, earlier, package);
        let last = entries.last();
        if discovered(root, entries).contains_key(package) {
            if last.name == package && records(root, last) {
                assert(entries[entries.len() - 1] == last);
            } else {
                let i = choose|i: int|
                    0 <= i < earlier.len() && (#[trigger] earlier[i]).name == package && records(
                        root,
                        earlier[i],
                    );
                assert(entries[i] == earlier[i]);
            }
        }
        if exists|i: int|
            0 <= i < entries.len() && (#[trigger] entries[i]).name == package && records(
                root,
                entries[i],
            ) {
            let i = choose|i: int|
                0 <= i < entries.len() && (#[trigger] entries[i]).name == package && records(
                    root,
                    entries[i],
                );
            if i < entries.len() - 1 {
                assert(earlier[i] == entries[i]);
            }
        }
    }
}

} // verus!
