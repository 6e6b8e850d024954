//! Modifications and their application.
//!
//! A modification is a diff patch or a structural rewrite rule, told apart by
//! the extension of its file. The modifications of one package form an
//! ordered set, and they are applied to the package's staged copy strictly in
//! that order, each by an outside engine. The library does not run engines:
//! it says which engine to run next, and takes back what the engine reported.

use vstd::prelude::*;
use crate::error::{AstGrepFailed, Error, Failure, IoError, PatchFailed};
use crate::path::{extension, extension_of};
use crate::text::same_str;

verus! {

/// A modification, as contracts speak of it: its kind and the path of its
/// file.
pub enum Modification {
    DiffPatch(Seq<char>),
    StructuralRule(Seq<char>),
}

impl Modification {
    /// The path of the modification's file.
    pub open spec fn file(self) -> Seq<char> {
        match self {
            Modification::DiffPatch(file) => file,
            Modification::StructuralRule(file) => file,
        }
    }
}

/// One modification of a package's source.
#[derive(Debug, PartialEq, Eq)]
pub enum Stitch {
    /// A unified diff, applied by the diff engine.
    Patch(String),
    /// A structural rewrite rule, applied by the rewrite engine.
    SgRule(String),
}

impl View for Stitch {
    type V = Modification;

    open spec fn view(&self) -> Modification {
        match self {
            Stitch::Patch(file) => Modification::DiffPatch(file@),
            Stitch::SgRule(file) => Modification::StructuralRule(file@),
        }
    }
}

impl DeepView for Stitch {
    type V = Modification;

    open spec fn deep_view(&self) -> Modification {
        self@
    }
}

/// The modification that the file at `path` holds, by its extension alone:
/// `patch` is a diff patch, `yaml` and `yml` are structural rules, and a file
/// with any other extension, or none, holds no modification.
pub open spec fn classified(path: Seq<char>) -> Option<Modification> {
    match extension_of(path) {
        Some(ext) => if ext == "patch"@ {
            Some(Modification::DiffPatch(path))
        } else if ext == "yaml"@ || ext == "yml"@ {
            Some(Modification::StructuralRule(path))
        } else {
            None
        },
        None => None,
    }
}

/// An engine invocation, as contracts speak of it.
pub struct Call {
    pub program: Seq<char>,
    pub args: Seq<Seq<char>>,
}

/// What an engine is run with: the program's name and its arguments.
#[derive(Debug, PartialEq, Eq)]
pub struct Invocation {
    pub program: String,
    pub args: Vec<String>,
}

impl View for Invocation {
    type V = Call;

    open spec fn view(&self) -> Call {
        Call { program: self.program@, args: self.args.deep_view() }
    }
}

/// The engine invocation that applies `m` to the tree under `dir`. The diff
/// engine runs quietly, strips the first path component, and works in strict
/// mode: with no fuzz, so that a hunk whose context does not match is
/// rejected. The rewrite engine applies every match of the rule.
pub open spec fn engine_call(m: Modification, dir: Seq<char>) -> Call {
    match m {
        Modification::DiffPatch(file) => Call {
            program: "patch"@,
            args: seq!["-s"@, "-p1"@, "-F0"@, "-i"@, file, "-d"@, dir],
        },
        Modification::StructuralRule(file) => Call {
            program: "sg"@,
            args: seq!["scan"@, "-r"@, file, "--update-all"@, dir],
        },
    }
}

/// What an engine run came to, as contracts speak of it.
pub enum Report {
    Succeeded,
    Rejected,
    NotStarted(Seq<char>),
}

/// What an engine run came to.
#[derive(Debug, PartialEq, Eq)]
pub enum Outcome {
    /// The engine exited with status zero.
    Succeeded,
    /// The engine ran and did not exit with status zero.
    Rejected,
    /// The engine could not be started; the text is the system's report.
    NotStarted(String),
}

impl View for Outcome {
    type V = Report;

    open spec fn view(&self) -> Report {
        match self {
            Outcome::Succeeded => Report::Succeeded,
            Outcome::Rejected => Report::Rejected,
            Outcome::NotStarted(why) => Report::NotStarted(why@),
        }
    }
}

impl DeepView for Outcome {
    type V = Report;

    open spec fn deep_view(&self) -> Report {
        self@
    }
}

/// What to do next, as contracts speak of it.
pub enum Next {
    Run(Call),
    Done,
    Failed(Failure),
}

/// What to do next while modifications are applied.
#[derive(Debug, PartialEq, Eq)]
pub enum Step {
    /// Run this engine and report what it came to.
    Run(Invocation),
    /// Every modification has been applied.
    Done,
    /// Stop: a modification was not applied. No further engine is run, and
    /// what earlier engines changed stays as it is.
    Failed(Error),
}

impl View for Step {
    type V = Next;

    open spec fn view(&self) -> Next {
        match self {
            Step::Run(invocation) => Next::Run(invocation@),
            Step::Done => Next::Done,
            Step::Failed(error) => Next::Failed(error@),
        }
    }
}

/// The failure of `m`, if any, given what its engine reported. A rejection
/// names the modification's file.
pub open spec fn failure_of(m: Modification, report: Report) -> Option<Failure> {
    match report {
        Report::Succeeded => None,
        Report::Rejected => Some(
            match m {
                Modification::DiffPatch(file) => Failure::PatchApplication(file),
                Modification::StructuralRule(file) => Failure::StructuralRule(file),
            },
        ),
        Report::NotStarted(why) => Some(Failure::Io(why)),
    }
}

/// The step for one modification: run its engine while nothing is reported,
/// then be done or fail by the report.
pub open spec fn step_of(m: Modification, dir: Seq<char>, report: Option<Report>) -> Next {
    match report {
        None => Next::Run(engine_call(m, dir)),
        Some(r) => match failure_of(m, r) {
            None => Next::Done,
            Some(failure) => Next::Failed(failure),
        },
    }
}

/// The index of the first report at or after `from` that is no success; the
/// number of reports where there is none.
pub open spec fn first_failure(reports: Seq<Report>, from: int) -> int
    decreases reports.len() - from,
{
    if from < 0 || from >= reports.len() || !(reports[from] is Succeeded) {
        from
    } else {
        first_failure(reports, from + 1)
    }
}

/// The step for an ordered set, given the reports of the engines run so far,
/// in the order in which they were run. Modifications are applied in the
/// set's order; the first one whose engine did not succeed fails the whole
/// application.
pub open spec fn next_step(set: Seq<Modification>, dir: Seq<char>, reports: Seq<Report>) -> Next {
    let k = first_failure(reports, 0);
    if k >= set.len() {
        Next::Done
    } else if k < reports.len() {
        step_of(set[k], dir, Some(reports[k]))
    } else {
        step_of(set[k], dir, None)
    }
}

/// The modification whose engine is to be run, given the reports of the
/// engines run so far: the next one in the set's order where every engine so
/// far has succeeded and the set holds a next one; none where the application
/// is done or has failed.
pub open spec fn running_of(set: Seq<Modification>, reports: Seq<Report>) -> Option<Modification> {
    if first_failure(reports, 0) >= reports.len() && reports.len() < set.len() {
        Some(set[reports.len() as int])
    } else {
        None
    }
}

impl Stitch {
    /// Classifies the file at `path` by its extension.
    pub fn from_path(path: String) -> (stitch: Option<Stitch>)
        ensures
            stitch.deep_view() == classified(path@),
    {
        match extension(path.as_str()) {
            Some(ext) => {
                if same_str(ext.as_str(), "patch") {
                    Some(Stitch::Patch(path))
                } else if same_str(ext.as_str(), "yaml") || same_str(ext.as_str(), "yml") {
                    Some(Stitch::SgRule(path))
                } else {
                    None
                }
            },
            None => None,
        }
    }

    /// The path of the modification's file.
    pub fn file(&self) -> (file: &str)
        ensures
            file@ == self@.file(),
    {
        match self {
            Stitch::Patch(file) => file.as_str(),
            Stitch::SgRule(file) => file.as_str(),
        }
    }

    /// The engine invocation that applies this modification to the tree
    /// under `dir`.
    pub fn invocation(&self, dir: &str) -> (invocation: Invocation)
        ensures
            invocation@ == engine_call(self@, dir@),
    {
        let mut args: Vec<String> = Vec::new();
        match self {
            Stitch::Patch(file) => {
                args.push(String::from_str("-s"));
                args.push(String::from_str("-p1"));
                args.push(String::from_str("-F0"));
                args.push(String::from_str("-i"));
                args.push(file.clone());
                args.push(String::from_str("-d"));
                args.push(String::from_str(dir));
                assert(args.deep_view() =~= engine_call(self@, dir@).args);
                Invocation { program: String::from_str("patch"), args }
            },
            Stitch::SgRule(file) => {
                args.push(String::from_str("scan"));
                args.push(String::from_str("-r"));
                args.push(file.clone());
                args.push(String::from_str("--update-all"));
                args.push(String::from_str(dir));
                assert(args.deep_view() =~= engine_call(self@, dir@).args);
                Invocation { program: String::from_str("sg"), args }
            },
        }
    }

    /// The failure of this modification, if any, given what its engine
    /// reported.
    pub fn failure(&self, outcome: &Outcome) -> (failure: Option<Error>)
        ensures
            match failure {
                Some(error) => failure_of(self@, outcome@) == Some(error@),
                None => failure_of(self@, outcome@) is None,
            },
    {
        match outcome {
            Outcome::Succeeded => None,
            Outcome::Rejected => match self {
                Stitch::Patch(file) => Some(Error::Patch(PatchFailed(file.clone()))),
                Stitch::SgRule(file) => Some(Error::AstGrep(AstGrepFailed(file.clone()))),
            },
            Outcome::NotStarted(why) => Some(Error::Io(IoError(why.clone()))),
        }
    }

    /// Applies this modification to the tree under `dir`, one step at a
    /// time: with no outcome yet, the step is to run the engine; with the
    /// engine's outcome, the modification is done or has failed.
    pub fn apply(&self, dir: &str, outcome: Option<&Outcome>) -> (step: Step)
        ensures
            step@ == step_of(
                self@,
                dir@,
                match outcome {
                    Some(o) => Some(o@),
                    None => None,
                },
            ),
    {
        match outcome {
            None => Step::Run(self.invocation(dir)),
            Some(o) => match self.failure(o) {
                None => Step::Done,
                Some(error) => Step::Failed(error),
            },
        }
    }
}

/// `first_failure` lies between `from` and the number of reports; every
/// report before it is a success, and the report at it, if there is one, is
/// none.
pub proof fn lemma_first_failure_bounds(reports: Seq<Report>, from: int)
    requires
        0 <= from,
    ensures
        from <= first_failure(reports, from),
        from <= reports.len() ==> first_failure(reports, from) <= reports.len(),
        forall|i: int| from <= i < first_failure(reports, from) ==> reports[i] is Succeeded,
        first_failure(reports, from) < reports.len() ==> !(reports[first_failure(
            reports,
            from,
        )] is Succeeded),
    decreases reports.len() - from,
{
    if from < reports.len() && reports[from] is Succeeded {
        lemma_first_failure_bounds(reports, from + 1);
    }
}

/// The ordered modifications of one package.
#[derive(Debug, PartialEq, Eq)]
pub struct StitchSet {
    stitches: Vec<Stitch>,
}

impl View for StitchSet {
    type V = Seq<Modification>;

    closed spec fn view(&self) -> Seq<Modification> {
        self.stitches.deep_view()
    }
}

impl StitchSet {
    /// The set that holds `stitches` in the order given.
    pub fn new(stitches: Vec<Stitch>) -> (set: StitchSet)
        ensures
            set@ == stitches.deep_view(),
    {
        StitchSet { stitches }
    }

    /// The modifications, in order.
    pub fn stitches(&self) -> (stitches: &Vec<Stitch>)
        ensures
            stitches.deep_view() == self@,
    {
        &self.stitches
    }

    /// The number of modifications.
    pub fn len(&self) -> (len: usize)
        ensures
            len == self@.len(),
    {
        self.stitches.len()
    }

    /// Whether the set holds no modification.
    pub fn is_empty(&self) -> (empty: bool)
        ensures
            empty == (self@.len() == 0),
    {
        self.stitches.len() == 0
    }

    /// The modification whose engine is to be run next, given what the
    /// engines run so far came to: the one that a step to run an engine
    /// belongs to.
    pub fn running(&self, outcomes: &Vec<Outcome>) -> (stitch: Option<&Stitch>)
        ensures
            match stitch {
                Some(s) => running_of(self@, outcomes.deep_view()) == Some(s@),
                None => running_of(self@, outcomes.deep_view()) is None,
            },
    {
        let ghost reports = outcomes.deep_view();
        let mut k: usize = 0;
        while k < outcomes.len()
            invariant
                k <= outcomes.len(),
                reports == outcomes.deep_view(),
                first_failure(reports, 0) == first_failure(reports, k as int),
            decreases outcomes.len() - k,
        {
            match &outcomes[k] {
                Outcome::Succeeded => {
                    k += 1;
                },
                _ => {
                    proof {
                        assert(!(reports[k as int] is Succeeded));
                    }
                    return None;
                },
            }
        }
        if k < self.stitches.len() {
            Some(&self.stitches[k])
        } else {
            None
        }
    }

    /// Applies the set to the tree under `dir`, one step at a time. `outcomes`
    /// holds what the engines run so far came to, in the order in which they
    /// were run; the step says which engine to run next, or that the
    /// application is done or has failed.
    pub fn apply(&self, dir: &str, outcomes: &Vec<Outcome>) -> (step: Step)
        ensures
            step@ == next_step(self@, dir@, outcomes.deep_view()),
    {
        let ghost reports = outcomes.deep_view();
        let mut k: usize = 0;
        while k < outcomes.len() && k < self.stitches.len()
            invariant
                k <= outcomes.len(),
                k <= self.stitches.len(),
                reports == outcomes.deep_view(),
                first_failure(reports, 0) == first_failure(reports, k as int),
            decreases outcomes.len() - k,
        {
            match self.stitches[k].failure(&outcomes[k]) {
                None => {
                    k += 1;
                },
                Some(error) => {
                    return Step::Failed(error);
                },
            }
        }
        proof {
            lemma_first_failure_bounds(reports, k as int);
        }
        if k >= self.stitches.len() {
            Step::Done
        } else {
            Step::Run(self.stitches[k].invocation(dir))
        }
    }
}

/// A step to run an engine is the step of the running modification: an
/// engine is to be run exactly when there is a running modification, and the
/// engine is that modification's.
pub proof fn lemma_run_is_of_the_running(
    set: Seq<Modification>,
    dir: Seq<char>,
    reports: Seq<Report>,
)
    ensures
        next_step(set, dir, reports) is Run <==> running_of(set, reports) is Some,
        running_of(set, reports) matches Some(m) ==> next_step(set, dir, reports) == Next::Run(
            engine_call(m, dir),
        ),
{
    lemma_first_failure_bounds(reports, 0);
    let k = first_failure(reports, 0);
    if k < reports.len() && k < set.len() {
        assert(!(reports[k] is Succeeded));
    }
}

/// Order of application. Where the step is to run an engine, every engine
/// run so far has succeeded, and the engine to run is that of the next
/// modification in the set's order, whatever its kind.
pub proof fn lemma_engines_run_in_set_order(
    set: Seq<Modification>,
    dir: Seq<char>,
    reports: Seq<Report>,
)
    requires
        next_step(set, dir, reports) is Run,
    ensures
        reports.len() < set.len(),
        forall|i: int| 0 <= i < reports.len() ==> reports[i] is Succeeded,
        next_step(set, dir, reports) == Next::Run(engine_call(set[reports.len() as int], dir)),
{
    lemma_first_failure_bounds(reports, 0);
}

/// The application is done exactly when the engine of every modification of
/// the set has run and succeeded.
pub proof fn lemma_done_when_all_applied(
    set: Seq<Modification>,
    dir: Seq<char>,
    reports: Seq<Report>,
)
    ensures
        next_step(set, dir, reports) is Done <==> reports.len() >= set.len() && forall|i: int|
            0 <= i < set.len() ==> reports[i] is Succeeded,
{
    lemma_first_failure_bounds(reports, 0);
    let k = first_failure(reports, 0);
    if k < set.len() && k < reports.len() {
        assert(!(reports[k] is Succeeded));
    }
}

/// Failure locality. Let the engines of the first `k` modifications have
/// succeeded and the engine of modification `k` not. Then the application
/// has failed with the failure of that modification, which names its file
/// where the engine rejected it; whatever is reported after that changes
/// nothing, so that no further engine is run and what the first `k` engines
/// did stays; and the process exits with a code other than zero.
pub proof fn lemma_failure_locality(
    set: Seq<Modification>,
    dir: Seq<char>,
    reports: Seq<Report>,
    k: int,
    later: Seq<Report>,
)
    requires
        0 <= k < set.len(),
        k < reports.len(),
        forall|i: int| 0 <= i < k ==> reports[i] is Succeeded,
        !(reports[k] is Succeeded),
    ensures
        next_step(set, dir, reports) == Next::Failed(failure_of(set[k], reports[k])->0),
        reports[k] is Rejected ==> failure_of(set[k], reports[k]) == Some(
            match set[k] {
                Modification::DiffPatch(file) => Failure::PatchApplication(file),
                Modification::StructuralRule(file) => Failure::StructuralRule(file),
            },
        ),
        next_step(set, dir, reports + later) == next_step(set, dir, reports),
        failure_of(set[k], reports[k])->0.exit_code() != 0,
{
    lemma_first_failure_bounds(reports, 0);
    lemma_first_failure_bounds(reports + later, 0);
    let longer = reports + later;
    assert(forall|i: int| 0 <= i <= k ==> longer[i] == reports[i]);
    let f = first_failure(reports, 0);
    let g = first_failure(longer, 0);
    if f < k {
        assert(reports[f] is Succeeded);
    }
    if g < k {
        assert(longer[g] is Succeeded);
    }
    if g > k {
        assert(longer[k] is Succeeded);
    }
}

} // verus!
