//! The orchestration decisions: fail-fast build and test sessions, the
//! verdict on one test case, the scoped-cleanup combinator, and the run
//! plan derived from a parsed configuration.
//!
//! The sessions separate decisions from process I/O: the caller asks the
//! session what to run next, runs it, and reports what happened; the
//! session decides whether to go on. Once a step or case has failed, no
//! further one is ever offered, and the failure keeps the evidence — the
//! step's captured output, or the case's verdict.

use vstd::prelude::*;

use crate::config::RunConfig;
use crate::errors::{Error, ErrorView};
use crate::program::Program;
use crate::text::{outputs_match, trimmed};

verus! {

/// A project rooted at a directory: build steps and test programs run with
/// this directory as their working directory.
pub struct Project {
    pub root: String,
}

impl Project {
    /// A project at the given root directory.
    pub fn at_root(root: String) -> (p: Project)
        ensures
            p.root@ == root@,
    {
        Project { root }
    }
}

/// The evidence of a failed build step: which step, and what it printed.
pub struct BuildFailure {
    pub step: usize,
    pub output: String,
}

/// A fail-fast walk through the build steps: steps run in order, and the
/// first non-zero exit stops the whole build.
pub struct BuildSession {
    pub steps: Vec<Program>,
    pub next: usize,
    pub failure: Option<BuildFailure>,
}

impl BuildSession {
    /// The session's internal consistency.
    pub open spec fn wf(&self) -> bool {
        &&& self.next <= self.steps@.len()
        &&& match self.failure {
            Some(f) => f.step == self.next && self.next < self.steps@.len(),
            None => true,
        }
    }

    /// The step to run next, if the build is still going.
    pub open spec fn spec_current(&self) -> Option<Program> {
        if self.failure is Some || self.next >= self.steps@.len() {
            None
        } else {
            Some(self.steps@[self.next as int])
        }
    }

    /// A session about to run the first of `steps`.
    pub fn start(steps: Vec<Program>) -> (s: BuildSession)
        ensures
            s.wf(),
            s.steps == steps,
            s.next == 0,
            s.failure is None,
    {
        BuildSession { steps, next: 0, failure: None }
    }

    /// The step to run next, or nothing when the build has finished or
    /// failed.
    pub fn current(&self) -> (r: Option<&Program>)
        requires
            self.wf(),
        ensures
            r matches Some(p) ==> self.spec_current() == Some(*p),
            r is None <==> self.spec_current() is None,
    {
        if self.failure.is_some() {
            None
        } else if self.next < self.steps.len() {
            Some(&self.steps[self.next])
        } else {
            None
        }
    }

    /// Records the current step's outcome: on success the session advances
    /// to the next step; on failure it stops for good, keeping the step's
    /// index and captured output.
    pub fn record(&mut self, success: bool, output: String)
        requires
            old(self).wf(),
            old(self).spec_current() is Some,
        ensures
            final(self).wf(),
            final(self).steps == old(self).steps,
            success ==> final(self).next == old(self).next + 1 && final(self).failure is None,
            !success ==> final(self).next == old(self).next && (final(self).failure matches Some(
                f,
            ) && f.step == old(self).next && f.output == output),
    {
        if success {
            let n = self.steps.len();
            assert(self.next < n);
            self.next += 1;
        } else {
            self.failure = Some(BuildFailure { step: self.next, output });
        }
    }

    /// The build's result so far: the error names the failed step and
    /// carries its captured output.
    pub fn outcome(&self) -> (r: Result<(), Error>)
        requires
            self.wf(),
        ensures
            r is Ok <==> self.failure is None,
            self.failure matches Some(f) ==> (r matches Err(e) && e@
                == ErrorView::BuildStepFailed { step: f.step as int, output: f.output@ }),
    {
        match &self.failure {
            None => Ok(()),
            Some(f) => Err(Error::BuildStepFailed { step: f.step, output: f.output.clone() }),
        }
    }
}

/// Fail-fast build: once one step has failed, the session never offers a
/// later step, so a step after the failing one is never run.
pub proof fn lemma_build_fail_fast(s: BuildSession)
    requires
        s.wf(),
        s.failure is Some,
    ensures
        s.spec_current() is None,
{
}

/// What running one test case showed.
#[derive(Debug, PartialEq)]
pub enum CaseVerdict {
    /// The program exited cleanly and its trimmed output matched.
    Passed,
    /// The program exited cleanly but printed the wrong output.
    WrongOutput,
    /// The program exited with a non-zero status; carries its captured
    /// standard error.
    ProcessFailed(String),
}

/// Judges one test case from what the child process did: a non-zero exit
/// is a process failure whatever was printed; otherwise the outputs are
/// compared with leading and trailing whitespace ignored.
pub fn judge_case(exit_success: bool, stdout: &str, stderr: &str, expected: &str) -> (v:
    CaseVerdict)
    ensures
        !exit_success ==> (v matches CaseVerdict::ProcessFailed(e) && e@ == stderr@),
        exit_success && trimmed(stdout@) == trimmed(expected@) ==> v is Passed,
        exit_success && trimmed(stdout@) != trimmed(expected@) ==> v is WrongOutput,
{
    if !exit_success {
        CaseVerdict::ProcessFailed(stderr.to_owned())
    } else if outputs_match(stdout, expected) {
        CaseVerdict::Passed
    } else {
        CaseVerdict::WrongOutput
    }
}

/// The evidence of a failed test case: which case, its name, and the
/// verdict that failed it.
pub struct TestFailure {
    pub index: usize,
    pub name: String,
    pub verdict: CaseVerdict,
}

/// A fail-fast walk through the paired test cases, in their given order:
/// the first failing case stops the run.
pub struct TestSession {
    pub cases: Vec<String>,
    pub next: usize,
    pub failure: Option<TestFailure>,
}

impl TestSession {
    /// The session's internal consistency.
    pub open spec fn wf(&self) -> bool {
        &&& self.next <= self.cases@.len()
        &&& match self.failure {
            Some(f) => f.index == self.next && self.next < self.cases@.len() && !(f.verdict
                is Passed) && f.name@ == self.cases@[self.next as int]@,
            None => true,
        }
    }

    /// The case to run next, if the run is still going.
    pub open spec fn spec_current(&self) -> Option<Seq<char>> {
        if self.failure is Some || self.next >= self.cases@.len() {
            None
        } else {
            Some(self.cases@[self.next as int]@)
        }
    }

    /// A session about to run the first of `cases`.
    pub fn start(cases: Vec<String>) -> (s: TestSession)
        ensures
            s.wf(),
            s.cases == cases,
            s.next == 0,
            s.failure is None,
    {
        TestSession { cases, next: 0, failure: None }
    }

    /// The name of the case to run next, or nothing when the run has
    /// finished or failed.
    pub fn current(&self) -> (r: Option<&String>)
        requires
            self.wf(),
        ensures
            r matches Some(n) ==> self.spec_current() == Some(n@),
            r is None <==> self.spec_current() is None,
    {
        if self.failure.is_some() {
            None
        } else if self.next < self.cases.len() {
            Some(&self.cases[self.next])
        } else {
            None
        }
    }

    /// Records how the current case went. After a success the session
    /// moves on to the next case; anything else stops it for good, and the
    /// failure keeps the case's index, its name and what went wrong.
    pub fn record(&mut self, verdict: CaseVerdict)
        requires
            old(self).wf(),
            old(self).spec_current() is Some,
        ensures
            final(self).wf(),
            final(self).cases == old(self).cases,
            verdict is Passed ==> final(self).next == old(self).next + 1 && final(self).failure
                is None,
            !(verdict is Passed) ==> final(self).next == old(self).next && (final(self).failure
                matches Some(f) && f.index == old(self).next && f.verdict == verdict && f.name@
                == old(self).cases@[old(self).next as int]@),
    {
        match verdict {
            CaseVerdict::Passed => {
                let n = self.cases.len();
                assert(self.next < n);
                self.next += 1;
            },
            v => {
                let name = self.cases[self.next].clone();
                self.failure = Some(TestFailure { index: self.next, name, verdict: v });
            },
        }
    }

    /// The run's result so far: a wrong output names the failing case, a
    /// process failure carries the captured standard error.
    pub fn outcome(&self) -> (r: Result<(), Error>)
        requires
            self.wf(),
        ensures
            r is Ok <==> self.failure is None,
            self.failure matches Some(f) ==> (f.verdict is WrongOutput ==> (r matches Err(e)
                && e@ == ErrorView::TestCaseFailed { name: f.name@ })),
            self.failure matches Some(f) ==> (f.verdict matches CaseVerdict::ProcessFailed(se)
                ==> (r matches Err(e) && e@ == ErrorView::TestProcessFailed { stderr: se@ })),
    {
        match &self.failure {
            None => Ok(()),
            Some(f) => match &f.verdict {
                CaseVerdict::ProcessFailed(se) => Err(Error::TestProcessFailed {
                    stderr: se.clone(),
                }),
                _ => Err(Error::TestCaseFailed { name: f.name.clone() }),
            },
        }
    }
}

/// Fail-fast testing: once one case has failed, the session never offers a
/// later case, so the cases after the failing one are never run.
pub proof fn lemma_test_fail_fast(s: TestSession)
    requires
        s.wf(),
        s.failure is Some,
    ensures
        s.spec_current() is None,
{
}

/// A file that must be deleted when the scope that made it ends.
pub struct TemporaryArtifact {
    pub path: String,
}

/// How a guarded action's result combines with the cleanup outcome: a
/// cleanup failure never overrides a pending failure — the two are
/// aggregated — and never turns a cleanup success into a failure.
pub open spec fn combine_cleanup<T>(action: Result<T, Error>, cleanup: Option<Error>) -> Result<
    T,
    Error,
> {
    match cleanup {
        None => action,
        Some(ce) => match action {
            Ok(_) => Err(ce),
            Err(ae) => Err(Error::WithCleanup { primary: Box::new(ae), cleanup: Box::new(ce) }),
        },
    }
}

/// Combines a guarded action's result with the cleanup outcome.
pub fn combine_results<T>(action: Result<T, Error>, cleanup: Option<Error>) -> (r: Result<T, Error>)
    ensures
        r == combine_cleanup(action, cleanup),
{
    match cleanup {
        None => action,
        Some(ce) => match action {
            Ok(_) => Err(ce),
            Err(ae) => Err(Error::WithCleanup { primary: Box::new(ae), cleanup: Box::new(ce) }),
        },
    }
}

/// When cleanup succeeds, the guarded action's own result — its success or
/// its original failure — is exactly what comes back.
pub proof fn lemma_cleanup_keeps_primary<T>(action: Result<T, Error>)
    ensures
        combine_cleanup(action, None::<Error>) == action,
{
}

/// When cleanup fails, the cleanup error surfaces after a success, and is
/// aggregated — not substituted — after a failure.
pub proof fn lemma_cleanup_failure_combined<T>(action: Result<T, Error>, ce: Error)
    ensures
        action is Ok ==> combine_cleanup(action, Some(ce)) == Err::<T, Error>(ce),
        action matches Err(ae) ==> combine_cleanup(action, Some(ce)) == Err::<T, Error>(
            Error::WithCleanup { primary: Box::new(ae), cleanup: Box::new(ce) },
        ),
{
}

impl TemporaryArtifact {
    /// Runs `use_artifact`, then always hands the artifact to `delete` —
    /// success or failure — and combines the two outcomes so a cleanup
    /// failure never hides the action's own result.
    pub fn defer_deletion<T, F: FnOnce() -> Result<T, Error>, D: FnOnce(
        TemporaryArtifact,
    ) -> Option<Error>>(artifact: TemporaryArtifact, use_artifact: F, delete: D) -> (r: Result<
        T,
        Error,
    >)
        requires
            call_requires(use_artifact, ()),
            call_requires(delete, (artifact,)),
        ensures
            exists|ar: Result<T, Error>, dr: Option<Error>|
                {
                    &&& #[trigger] call_ensures(use_artifact, (), ar)
                    &&& #[trigger] call_ensures(delete, (artifact,), dr)
                    &&& r == combine_cleanup(ar, dr)
                },
    {
        let a = use_artifact();
        let ghost ga = a;
        let d = delete(artifact);
        let ghost gd = d;
        let r = combine_results(a, d);
        proof {
            assert(call_ensures(use_artifact, (), ga) && call_ensures(delete, (artifact,), gd)
                && r == combine_cleanup(ga, gd));
        }
        r
    }
}

/// What to do for one configured project: its build steps, at most one
/// artifact to delete after testing, and at most one test program.
#[derive(Debug, PartialEq)]
pub struct RunPlan {
    pub build: Vec<Program>,
    pub artifact: Option<String>,
    pub test: Option<Program>,
}

/// Turns a parsed run configuration into a plan, rejecting a configuration
/// that names more than one cleanup path: only a single temporary artifact
/// is supported.
pub fn plan_run(cfg: RunConfig) -> (r: Result<RunPlan, Error>)
    ensures
        r is Err <==> cfg.clean@.len() > 1,
        r matches Err(e) ==> e@ == ErrorView::MultipleCleanPaths,
        r matches Ok(p) ==> {
            &&& p.build@ == cfg.build@
            &&& p.test == cfg.test
            &&& cfg.clean@.len() == 0 ==> p.artifact is None
            &&& cfg.clean@.len() == 1 ==> (p.artifact matches Some(a) && a@ == cfg.clean@[0]@)
        },
{
    if cfg.clean.len() > 1 {
        return Err(Error::MultipleCleanPaths);
    }
    let artifact = if cfg.clean.len() == 1 {
        Some(cfg.clean[0].clone())
    } else {
        None
    };
    Ok(RunPlan { build: cfg.build, artifact, test: cfg.test })
}

} // verus!
