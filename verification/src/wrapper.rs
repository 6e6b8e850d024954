//! Wrapper mode.
//!
//! The build tool starts the wrapper once for each compiler invocation. The
//! wrapper either hands the invocation to the compiler as it is, or stages
//! the package, applies its modifications and hands the compiler rewritten
//! arguments. What it does is decided here, from the command line and the
//! coordination state that the orchestrator left in the environment.

use vstd::prelude::*;
use crate::error::{Error, Failure, MissingEnvVar};
use crate::manifest::Manifest;
use crate::path::relative_of;
use crate::rewrite::{rewrite, rewritten_all};
use crate::staging::{patched_dir, staged_dir};
use crate::discovery::{discovered, lemma_discovered_packages, records, Listing};
use crate::stitch::{Modification, StitchSet};
use crate::text::copy_from;
use crate::{PACKAGE_DIR_ENV, STITCH_MANIFEST_ENV, WORKSPACE_ROOT_ENV};

verus! {

/// What the wrapper finds in its environment, as contracts speak of it.
pub struct Coordination {
    pub package: Option<Seq<char>>,
    pub package_dir: Option<Seq<char>>,
    pub workspace_root: Option<Seq<char>>,
    pub manifest: Option<Map<Seq<char>, Seq<Modification>>>,
}

/// What the wrapper finds in its environment. Each field is `None` where the
/// variable is not set; `manifest` also where the variable does not hold a
/// manifest.
#[derive(Debug, PartialEq, Eq)]
pub struct Environment {
    /// The name of the package that is being compiled. A compiler invocation
    /// that belongs to no package, such as a probe of the compiler's version,
    /// has none.
    pub package: Option<String>,
    /// The directory of the package's source.
    pub package_dir: Option<String>,
    /// The workspace root that the orchestrator resolved.
    pub workspace_root: Option<String>,
    /// The manifest that the orchestrator discovered.
    pub manifest: Option<Manifest>,
}

impl View for Environment {
    type V = Coordination;

    open spec fn view(&self) -> Coordination {
        Coordination {
            package: self.package.deep_view(),
            package_dir: self.package_dir.deep_view(),
            workspace_root: self.workspace_root.deep_view(),
            manifest: match self.manifest {
                Some(manifest) => Some(manifest@),
                None => None,
            },
        }
    }
}

impl Environment {
    /// The manifest, where there is one, is well formed.
    pub open spec fn wf(&self) -> bool {
        self.manifest matches Some(manifest) ==> manifest.wf()
    }
}

/// One thing for the wrapper to do, as contracts speak of it.
pub enum Act {
    Clear(Seq<char>),
    Stage { from: Seq<char>, to: Seq<char> },
    Apply { dir: Seq<char>, set: Seq<Modification> },
    Compile { rustc: Seq<char>, args: Seq<Seq<char>> },
}

/// One thing for the wrapper to do.
#[derive(Debug, PartialEq, Eq)]
pub enum Action<'a> {
    /// Remove this directory and all that it holds, if it exists.
    Clear(String),
    /// Stage the source tree `from` as `to`.
    Stage { from: String, to: String },
    /// Apply the modifications of `set`, in order, to the tree under `dir`.
    Apply { dir: String, set: &'a StitchSet },
    /// Replace this process by the compiler `rustc`, run with `args`.
    Compile { rustc: String, args: Vec<String> },
}

impl<'a> DeepView for Action<'a> {
    type V = Act;

    open spec fn deep_view(&self) -> Act {
        match self {
            Action::Clear(dir) => Act::Clear(dir@),
            Action::Stage { from, to } => Act::Stage { from: from@, to: to@ },
            Action::Apply { dir, set } => Act::Apply { dir: dir@, set: set@ },
            Action::Compile { rustc, args } => Act::Compile {
                rustc: rustc@,
                args: args.deep_view(),
            },
        }
    }
}

/// The compiler invocation that the command line `argv` asks for: the
/// compiler is named after the wrapper itself, and its arguments follow.
pub open spec fn passthrough(argv: Seq<Seq<char>>) -> Seq<Act> {
    seq![Act::Compile { rustc: argv[1], args: argv.skip(2) }]
}

/// What the wrapper does for the package `package` whose source is in
/// `source` and whose modifications are `set`: it clears the staged
/// directory, stages the source there, applies the modifications to the
/// staged copy, and runs the compiler on the copy.
pub open spec fn patched(
    argv: Seq<Seq<char>>,
    package: Seq<char>,
    source: Seq<char>,
    root: Seq<char>,
    set: Seq<Modification>,
) -> Seq<Act> {
    let staged = staged_dir(package, root);
    seq![
        Act::Clear(staged),
        Act::Stage { from: source, to: staged },
        Act::Apply { dir: staged, set },
        Act::Compile {
            rustc: argv[1],
            args: rewritten_all(argv.skip(2), source, staged, relative_of(source, root)),
        },
    ]
}

/// What the wrapper does, in order, or the failure that ends it. Without a
/// package the invocation passes through, whatever else is missing. With a
/// package, the package's directory, the workspace root and the manifest must
/// all be there; a package that the manifest does not record passes through,
/// and one that it records is patched.
pub open spec fn planned(argv: Seq<Seq<char>>, env: Coordination) -> Result<Seq<Act>, Failure> {
    match env.package {
        None => Ok(passthrough(argv)),
        Some(package) => {
            if env.package_dir is None {
                Err(Failure::MissingCoordinationState(PACKAGE_DIR_ENV@))
            } else if env.workspace_root is None {
                Err(Failure::MissingCoordinationState(WORKSPACE_ROOT_ENV@))
            } else if env.manifest is None {
                Err(Failure::MissingCoordinationState(STITCH_MANIFEST_ENV@))
            } else if !env.manifest->0.contains_key(package) {
                Ok(passthrough(argv))
            } else {
                Ok(
                    patched(
                        argv,
                        package,
                        env.package_dir->0,
                        env.workspace_root->0,
                        env.manifest->0[package],
                    ),
                )
            }
        },
    }
}

/// Plans one wrapper invocation. `argv` is the wrapper's command line: its
/// own name, the compiler, and the compiler's arguments.
pub fn run_wrapper<'a>(argv: &Vec<String>, env: &'a Environment) -> (result: Result<
    Vec<Action<'a>>,
    Error,
>)
    requires
        argv@.len() >= 2,
        env.wf(),
    ensures
        match result {
            Ok(actions) => planned(argv.deep_view(), env@) == Ok::<Seq<Act>, Failure>(
                actions.deep_view(),
            ),
            Err(error) => planned(argv.deep_view(), env@) == Err::<Seq<Act>, Failure>(error@),
        },
{
    let rustc = argv[1].clone();
    let args = copy_from(argv, 2);
    let mut actions: Vec<Action<'a>> = Vec::new();
    let package = match &env.package {
        Some(package) => package,
        None => {
            actions.push(Action::Compile { rustc, args });
            assert(actions.deep_view() =~= passthrough(argv.deep_view()));
            return Ok(actions);
        },
    };
    let source = match &env.package_dir {
        Some(dir) => dir,
        None => {
            return Err(Error::MissingEnvVar(MissingEnvVar(PACKAGE_DIR_ENV)));
        },
    };
    let root = match &env.workspace_root {
        Some(root) => root,
        None => {
            return Err(Error::MissingEnvVar(MissingEnvVar(WORKSPACE_ROOT_ENV)));
        },
    };
    let manifest = match &env.manifest {
        Some(manifest) => manifest,
        None => {
            return Err(Error::MissingEnvVar(MissingEnvVar(STITCH_MANIFEST_ENV)));
        },
    };
    match manifest.get(package.as_str()) {
        None => {
            actions.push(Action::Compile { rustc, args });
            assert(actions.deep_view() =~= passthrough(argv.deep_view()));
        },
        Some(set) => {
            let staged = patched_dir(package.as_str(), root.as_str());
            let rewritten = rewrite(source.as_str(), staged.as_str(), root.as_str(), &args);
            actions.push(Action::Clear(staged.clone()));
            actions.push(Action::Stage { from: source.clone(), to: staged.clone() });
            actions.push(Action::Apply { dir: staged, set });
            actions.push(Action::Compile { rustc, args: rewritten });
            assert(actions.deep_view() =~= patched(
                argv.deep_view(),
                package@,
                source@,
                root@,
                set@,
            ));
        },
    }
    Ok(actions)
}

/// What follows the action at index `done` of a plan of `plan_len` actions,
/// given the failure in which the action ended, if it ended in one. A failure
/// ends the wrapper with that failure, and no action after it is carried
/// out; otherwise the next action follows, or nothing where there is none.
pub open spec fn following(plan_len: nat, done: nat, failure: Option<Failure>) -> Result<
    Option<nat>,
    Failure,
> {
    match failure {
        Some(f) => Err(f),
        None => Ok(
            if done + 1 < plan_len {
                Some((done + 1) as nat)
            } else {
                None
            },
        ),
    }
}

/// The failure that an action ended in, as contracts speak of it.
pub open spec fn cause_of(failure: Option<Error>) -> Option<Failure> {
    match failure {
        Some(error) => Some(error@),
        None => None,
    }
}

/// Says what follows the action at index `done` of a plan of `plan_len`
/// actions: the index of the action to carry out next, `None` where the plan
/// is carried out, or the failure that ends the wrapper.
pub fn after_action(plan_len: usize, done: usize, failure: Option<Error>) -> (next: Result<
    Option<usize>,
    Error,
>)
    requires
        done < plan_len,
    ensures
        following(plan_len as nat, done as nat, cause_of(failure)) == (match next {
            Ok(Some(index)) => Ok::<Option<nat>, Failure>(Some(index as nat)),
            Ok(None) => Ok::<Option<nat>, Failure>(None),
            Err(error) => Err::<Option<nat>, Failure>(error@),
        }),
{
    match failure {
        Some(error) => Err(error),
        None => if done + 1 < plan_len {
            Ok(Some(done + 1))
        } else {
            Ok(None)
        },
    }
}

/// A passthrough touches nothing: it runs the compiler with the arguments as
/// they came, and neither clears nor stages nor applies anything.
pub proof fn lemma_passthrough_only_compiles(argv: Seq<Seq<char>>)
    ensures
        passthrough(argv).len() == 1,
        passthrough(argv)[0] == (Act::Compile { rustc: argv[1], args: argv.skip(2) }),
{
}

/// Staging is from scratch. Whenever the wrapper stages a package, it first
/// clears the directory that it stages into, so that the staged copy depends
/// on the source and the modifications alone, and not on what an earlier
/// build left there. The staged directory is the package's own, and the
/// modifications are applied there and nowhere else.
pub proof fn lemma_staged_from_scratch(argv: Seq<Seq<char>>, env: Coordination)
    requires
        planned(argv, env) is Ok,
        planned(argv, env) != Ok::<Seq<Act>, Failure>(passthrough(argv)),
    ensures
        env.package is Some,
        env.package_dir is Some,
        env.workspace_root is Some,
        env.manifest is Some,
        env.manifest->0.contains_key(env.package->0),
        ({
            let acts = planned(argv, env)->Ok_0;
            let staged = staged_dir(env.package->0, env.workspace_root->0);
            &&& acts.len() == 4
            &&& acts[0] == Act::Clear(staged)
            &&& acts[1] == (Act::Stage { from: env.package_dir->0, to: staged })
            &&& acts[2] == (Act::Apply { dir: staged, set: env.manifest->0[env.package->0] })
            &&& acts[3] is Compile
        }),
{
}

/// A failed action ends the wrapper. When a package is patched, the
/// compiler is the last action of the plan. A failure of the clearing, of the
/// staging or of the application ends the wrapper with that very failure, and
/// no later action follows it: the compiler is not run, neither with the
/// rewritten arguments nor with those that came. Only when the application
/// has succeeded does the compiler follow.
pub proof fn lemma_failed_action_ends_the_wrapper(
    argv: Seq<Seq<char>>,
    package: Seq<char>,
    source: Seq<char>,
    root: Seq<char>,
    set: Seq<Modification>,
    done: nat,
    failure: Failure,
)
    requires
        done < 4,
    ensures
        ({
            let plan = patched(argv, package, source, root, set);
            &&& plan.len() == 4
            &&& plan[2] is Apply
            &&& plan[3] is Compile
            &&& forall|i: int| 0 <= i < 3 ==> !(#[trigger] plan[i] is Compile)
            &&& following(plan.len(), done, Some(failure)) == Err::<Option<nat>, Failure>(failure)
            &&& following(plan.len(), 2, None) == Ok::<Option<nat>, Failure>(Some(3nat))
            &&& following(plan.len(), 3, None) == Ok::<Option<nat>, Failure>(None)
        }),
{
}

/// Absence. A package for which the modifications directory holds no
/// directory with a modification in it is not in the discovered manifest,
/// and its wrapper invocation passes through: no staged directory is made.
pub proof fn lemma_unmodified_package_passes_through(
    argv: Seq<Seq<char>>,
    env: Coordination,
    stitches_dir: Seq<char>,
    entries: Seq<Listing>,
)
    requires
        env.package is Some,
        env.package_dir is Some,
        env.workspace_root is Some,
        env.manifest == Some(discovered(stitches_dir, entries)),
        forall|i: int|
            0 <= i < entries.len() && (#[trigger] entries[i]).name == env.package->0 ==> !records(
                stitches_dir,
                entries[i],
            ),
    ensures
        !discovered(stitches_dir, entries).contains_key(env.package->0),
        planned(argv, env) == Ok::<Seq<Act>, Failure>(passthrough(argv)),
{
    lemma_discovered_packages(stitches_dir, entries, env.package->0);
}

/// No modifications, no staging. Where the modifications directory holds no
/// directory with a modification in it, the discovered manifest is empty and
/// every wrapper invocation of the build passes through.
pub proof fn lemma_no_modifications_pass_through(
    argv: Seq<Seq<char>>,
    env: Coordination,
    stitches_dir: Seq<char>,
    entries: Seq<Listing>,
)
    requires
        forall|i: int| 0 <= i < entries.len() ==> !records(stitches_dir, #[trigger] entries[i]),
        env.manifest == Some(discovered(stitches_dir, entries)),
        env.package is Some ==> env.package_dir is Some && env.workspace_root is Some,
    ensures
        discovered(stitches_dir, entries) == Map::<Seq<char>, Seq<Modification>>::empty(),
        planned(argv, env) == Ok::<Seq<Act>, Failure>(passthrough(argv)),
{
    assert forall|package: Seq<char>| !discovered(stitches_dir, entries).contains_key(
        package,
    ) by {
        lemma_discovered_packages(stitches_dir, entries, package);
    }
    assert(discovered(stitches_dir, entries) =~= Map::<Seq<char>, Seq<Modification>>::empty());
}

} // verus!
