//! The modification manifest.
//!
//! The manifest maps each package that has modifications to its ordered set.
//! It is computed once, before the build tool is started, and then only read.

use vstd::prelude::*;
use crate::assoc::{
    assoc, lemma_assoc_absent, lemma_assoc_at, lemma_assoc_insert, lemma_assoc_len,
    lemma_assoc_update,
};
use crate::stitch::{Modification, StitchSet};
use crate::text::{by_name, chars_of, lemma_by_name_total_ordering, lex_le, precedes, same};

verus! {

/// `names` is in the order of `by_name` and holds no name twice.
pub open spec fn strictly_sorted(names: Seq<Seq<char>>) -> bool {
    forall|i: int, j: int|
        0 <= i < j < names.len() ==> lex_le(#[trigger] names[i], #[trigger] names[j]) && names[i]
            != names[j]
}

/// A list in strict order holds no name twice.
pub proof fn lemma_strictly_sorted_distinct(names: Seq<Seq<char>>)
    requires
        strictly_sorted(names),
    ensures
        names.no_duplicates(),
{
    assert forall|i: int, j: int| 0 <= i < names.len() && 0 <= j < names.len() && i != j implies
        names[i] != names[j] by {
        if i < j {
            assert(lex_le(names[i], names[j]) && names[i] != names[j]);
        } else {
            assert(lex_le(names[j], names[i]) && names[j] != names[i]);
        }
    }
}

/// The modification sets of a workspace, by package name. Every recorded set
/// holds at least one modification, and the packages are kept in the order of
/// their names.
#[derive(Debug, PartialEq, Eq)]
pub struct Manifest {
    entries: Vec<(String, StitchSet)>,
}

impl View for Manifest {
    type V = Map<Seq<char>, Seq<Modification>>;

    closed spec fn view(&self) -> Map<Seq<char>, Seq<Modification>> {
        assoc(self.names(), self.sets())
    }
}

impl Manifest {
    /// The recorded package names, in the order in which they are kept.
    pub closed spec fn names(&self) -> Seq<Seq<char>> {
        Seq::new(self.entries@.len(), |i: int| self.entries@[i].0@)
    }

    /// The recorded sets, in the order of `names`.
    pub closed spec fn sets(&self) -> Seq<Seq<Modification>> {
        Seq::new(self.entries@.len(), |i: int| self.entries@[i].1@)
    }

    /// The manifest is well formed: no package is recorded twice, the
    /// packages are in the order of their names, and no recorded set is empty.
    pub closed spec fn wf(&self) -> bool {
        &&& strictly_sorted(self.names())
        &&& forall|i: int| 0 <= i < self.entries@.len() ==> (#[trigger] self.entries@[i]).1@.len() > 0
    }

    /// The manifest that records nothing.
    pub fn new() -> (manifest: Manifest)
        ensures
            manifest.wf(),
            manifest@ == Map::<Seq<char>, Seq<Modification>>::empty(),
    {
        let manifest = Manifest { entries: Vec::new() };
        assert(manifest@ =~= Map::<Seq<char>, Seq<Modification>>::empty());
        manifest
    }

    /// The number of packages recorded.
    pub fn len(&self) -> (len: usize)
        requires
            self.wf(),
        ensures
            len == self@.len(),
    {
        proof {
            lemma_strictly_sorted_distinct(self.names());
            lemma_assoc_len(self.names(), self.sets());
        }
        self.entries.len()
    }

    /// Whether no package is recorded.
    pub fn is_empty(&self) -> (empty: bool)
        requires
            self.wf(),
        ensures
            empty == (self@.len() == 0),
    {
        proof {
            lemma_strictly_sorted_distinct(self.names());
            lemma_assoc_len(self.names(), self.sets());
        }
        self.entries.len() == 0
    }

    /// The set recorded for `package`, if there is one. A recorded set is
    /// never empty.
    pub fn get(&self, package: &str) -> (found: Option<&StitchSet>)
        requires
            self.wf(),
        ensures
            match found {
                Some(set) => self@.contains_key(package@) && set@ == self@[package@] && set@.len()
                    > 0,
                None => !self@.contains_key(package@),
            },
    {
        let key = chars_of(package);
        let mut i: usize = 0;
        while i < self.entries.len()
            invariant
                self.wf(),
                i <= self.entries.len(),
                key@ == package@,
                forall|j: int| 0 <= j < i ==> self.names()[j] != package@,
            decreases self.entries.len() - i,
        {
            let name = chars_of(self.entries[i].0.as_str());
            if same(&name, &key) {
                proof {
                    assert(self.names()[i as int] == package@);
                    lemma_strictly_sorted_distinct(self.names());
                    lemma_assoc_at(self.names(), self.sets(), i as int);
                }
                return Some(&self.entries[i].1);
            }
            i += 1;
        }
        proof {
            lemma_assoc_absent(self.names(), self.sets(), package@);
        }
        None
    }

    /// Records `set` under `package`, in place of a set recorded there
    /// before. An empty set is not recorded and changes nothing.
    pub fn record(&mut self, package: String, set: StitchSet)
        requires
            old(self).wf(),
        ensures
            final(self).wf(),
            final(self)@ == if set@.len() > 0 {
                old(self)@.insert(package@, set@)
            } else {
                old(self)@
            },
    {
        proof {
            lemma_by_name_total_ordering();
        }
        if set.is_empty() {
            return ;
        }
        let key = chars_of(package.as_str());
        let ghost names = self.names();
        let ghost sets = self.sets();
        let ghost r = by_name();
        let mut at: usize = 0;
        let mut searching = true;
        let mut present = false;
        while searching && at < self.entries.len()
            invariant
                at <= self.entries.len(),
                names == self.names(),
                key@ == package@,
                forall|j: int| 0 <= j < at ==> lex_le(#[trigger] names[j], key@) && names[j] != key@,
                !searching ==> at < self.entries.len() && (present <==> names[at as int] == key@)
                    && (!present ==> !lex_le(names[at as int], key@)),
                searching ==> !present,
            decreases self.entries.len() - at + if searching { 1int } else { 0int },
        {
            let name = chars_of(self.entries[at].0.as_str());
            assert(names[at as int] == name@);
            if same(&name, &key) {
                present = true;
                searching = false;
            } else if precedes(&name, &key) {
                at += 1;
            } else {
                searching = false;
            }
        }
        if present {
            self.entries.set(at, (package, set));
            proof {
                assert(self.names() =~= names);
                assert(self.sets() =~= sets.update(at as int, set@));
                lemma_strictly_sorted_distinct(names);
                lemma_assoc_update(names, sets, at as int, set@);
            }
        } else {
            self.entries.insert(at, (package, set));
            proof {
                let names2 = names.insert(at as int, key@);
                assert(self.names() =~= names2);
                assert(self.sets() =~= sets.insert(at as int, set@));
                assert forall|j: int| at <= j < names.len() implies lex_le(
                    key@,
                    #[trigger] names[j],
                ) && key@ != names[j] by {
                    assert(r(key@, names[at as int]) || r(names[at as int], key@));
                    if at < j {
                        assert(r(names[at as int], names[j]));
                        assert(r(key@, names[at as int]) && r(names[at as int], names[j]) ==> r(
                            key@,
                            names[j],
                        ));
                        if key@ == names[j] {
                            assert(r(names[j], names[at as int]) && r(names[at as int], names[j])
                                ==> names[j] == names[at as int]);
                        }
                    }
                }
                assert forall|a: int, b: int| 0 <= a < b < names2.len() implies lex_le(
                    #[trigger] names2[a],
                    #[trigger] names2[b],
                ) && names2[a] != names2[b] by {
                    if b < at {
                        assert(lex_le(names[a], names[b]) && names[a] != names[b]);
                    } else if b == at {
                        assert(lex_le(names[a], key@) && names[a] != key@);
                    } else if a < at {
                        assert(lex_le(names[a], key@) && names[a] != key@);
                        assert(lex_le(key@, names[b - 1]) && key@ != names[b - 1]);
                        if a < b - 1 {
                            assert(lex_le(names[a], names[b - 1]) && names[a] != names[b - 1]);
                        }
                    } else if a == at {
                        assert(lex_le(key@, names[b - 1]) && key@ != names[b - 1]);
                    } else {
                        assert(lex_le(names[a - 1], names[b - 1]) && names[a - 1] != names[b - 1]);
                    }
                }
                lemma_strictly_sorted_distinct(names);
                assert(!names.contains(key@)) by {
                    if names.contains(key@) {
                        let j = names.index_of(key@);
                        assert(0 <= j < names.len() && names[j] == key@);
                        if j < at {
                            assert(names[j] != key@);
                        } else {
                            assert(key@ != names[j]);
                        }
                    }
                }
                lemma_assoc_insert(names, sets, at as int, key@, set@);
            }
        }
    }

    /// The recorded package names, in the order of `by_name`.
    pub fn packages(&self) -> (names: Vec<String>)
        requires
            self.wf(),
        ensures
            names.deep_view() == self.names(),
            strictly_sorted(self.names()),
            forall|name: Seq<char>| self@.contains_key(name) <==> self.names().contains(name),
    {
        let mut names: Vec<String> = Vec::new();
        let mut i: usize = 0;
        while i < self.entries.len()
            invariant
                i <= self.entries.len(),
                names.len() == i,
                forall|j: int| 0 <= j < i ==> (#[trigger] names@[j])@ == self.entries@[j].0@,
            decreases self.entries.len() - i,
        {
            names.push(self.entries[i].0.clone());
            i += 1;
        }
        assert(names.deep_view() =~= self.names());
        names
    }
}

} // verus!
