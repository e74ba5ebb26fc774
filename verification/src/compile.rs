//! Compile once, run many times: the plan for one target and the bookkeeping
//! of its compile steps.

use crate::error::HarnessError;
use crate::language::{
    CommandStep, CommandStepView, ExecuteStatus, Language, detect_language, first_accepting,
};
use crate::path::{extension, extension_of};
use vstd::prelude::*;

verus! {

/// The seconds that one compile step may take.
pub const COMPILE_TIME_LIMIT_SECS: u64 = 10;

/// What it takes to compile a target and to run it afterwards.
#[derive(Debug)]
pub struct CompilePlan {
    /// The compile steps, in the order in which they run.
    pub compile: Vec<CommandStep>,
    /// The step that runs the compiled target, in the directory in which the
    /// compile steps ran.
    pub run: CommandStep,
}

/// The plan for `target`: the compile steps and the run step of the first
/// toolchain of `langs` that accepts the extension of `target`, for the
/// canonical absolute path `canonical_target` of the same file. Fails with
/// `MissingExtension` where the file name has no extension and with
/// `NoLanguageDetected` where no toolchain accepts it.
pub fn plan_compile<L: Language>(target: &str, canonical_target: &str, langs: &Vec<L>) -> (r: Result<
    CompilePlan,
    HarnessError,
>)
    ensures
        match r {
            Ok(plan) => {
                &&& extension_of(target@) is Some
                &&& first_accepting(langs@, extension_of(target@)->0) < langs.len()
                &&& plan.compile.deep_view() == langs@[first_accepting(
                    langs@,
                    extension_of(target@)->0,
                )].compile_steps(canonical_target@)
                &&& plan.run@ == langs@[first_accepting(
                    langs@,
                    extension_of(target@)->0,
                )].run_step(canonical_target@)
            },
            Err(e) => match extension_of(target@) {
                None => e == HarnessError::MissingExtension,
                Some(ext) => e == HarnessError::NoLanguageDetected && first_accepting(langs@, ext)
                    == langs.len(),
            },
        },
{
    let ext = match extension(target) {
        Some(ext) => ext,
        None => {
            return Err(HarnessError::MissingExtension);
        },
    };
    match detect_language(ext.as_str(), langs) {
        Ok(lang) => Ok(
            CompilePlan { compile: lang.compile(canonical_target), run: lang.run(canonical_target) },
        ),
        Err(e) => {
            proof {
                crate::language::lemma_first_accepting_is(langs@, ext@, langs.len() as int);
            }
            Err(e)
        },
    }
}

/// What became of a compile step: `Ok` where it ended in `Success`,
/// `CompileFailure` where it ran to another status, and the error itself
/// where the step could not be run.
pub open spec fn compile_step_result(outcome: Result<ExecuteStatus, HarnessError>) -> Result<
    (),
    HarnessError,
> {
    match outcome {
        Ok(ExecuteStatus::Success) => Ok(()),
        Ok(_) => Err(HarnessError::CompileFailure),
        Err(e) => Err(e),
    }
}

/// The compilation of one target: which compile steps have succeeded, and
/// whether one has failed. The run step is handed out only after every compile
/// step has succeeded, each once and in order.
#[derive(Debug)]
pub struct CompileSession {
    plan: CompilePlan,
    done: usize,
    failure: Option<HarnessError>,
}

impl CompileSession {
    /// The compile steps of the plan.
    pub closed spec fn steps(&self) -> Seq<CommandStepView> {
        self.plan.compile.deep_view()
    }

    /// The run step of the plan.
    pub closed spec fn run_step(&self) -> CommandStepView {
        self.plan.run@
    }

    /// How many compile steps have succeeded.
    pub closed spec fn completed(&self) -> int {
        self.done as int
    }

    /// The error that ended the compilation, if any.
    pub closed spec fn failure(&self) -> Option<HarnessError> {
        self.failure
    }

    /// The compile step that is to run next, if the compilation goes on.
    pub open spec fn pending_step(&self) -> Option<CommandStepView> {
        if self.failure() is None && self.completed() < self.steps().len() {
            Some(self.steps()[self.completed()])
        } else {
            None
        }
    }

    /// A compilation in which no step has run yet.
    pub fn start(plan: CompilePlan) -> (s: Self)
        ensures
            s.steps() == plan.compile.deep_view(),
            s.run_step() == plan.run@,
            s.completed() == 0,
            s.failure() is None,
    {
        CompileSession { plan, done: 0, failure: None }
    }

    /// The compile step to run next: the first that has not run, unless a
    /// step has failed or all have succeeded.
    pub fn pending(&self) -> (r: Option<&CommandStep>)
        ensures
            match r {
                Some(step) => self.pending_step() == Some(step@),
                None => self.pending_step() is None,
            },
    {
        if self.failure.is_none() && self.done < self.plan.compile.len() {
            Some(&self.plan.compile[self.done])
        } else {
            None
        }
    }

    /// Takes note of what became of the pending step. Success moves on to the
    /// next step; anything else ends the compilation with an error, which is
    /// returned. Without a pending step nothing changes.
    pub fn record(&mut self, outcome: Result<ExecuteStatus, HarnessError>) -> (r: Result<
        (),
        HarnessError,
    >)
        ensures
            final(self).steps() == old(self).steps(),
            final(self).run_step() == old(self).run_step(),
            old(self).pending_step() is None ==> {
                &&& final(self).completed() == old(self).completed()
                &&& final(self).failure() == old(self).failure()
                &&& r == match old(self).failure() {
                    Some(e) => Err::<(), HarnessError>(e),
                    None => Ok(()),
                }
            },
            old(self).pending_step() is Some ==> {
                &&& r == compile_step_result(outcome)
                &&& match r {
                    Ok(_) => final(self).completed() == old(self).completed() + 1
                        && final(self).failure() is None,
                    Err(e) => final(self).completed() == old(self).completed()
                        && final(self).failure() == Some(e),
                }
            },
    {
        if self.failure.is_some() || self.done >= self.plan.compile.len() {
            return match self.failure {
                Some(e) => Err(e),
                None => Ok(()),
            };
        }
        match outcome {
            Ok(ExecuteStatus::Success) => {
                self.done = self.done + 1;
                Ok(())
            },
            Ok(_) => {
                self.failure = Some(HarnessError::CompileFailure);
                Err(HarnessError::CompileFailure)
            },
            Err(e) => {
                self.failure = Some(e);
                Err(e)
            },
        }
    }

    /// The run step, once every compile step has succeeded. Before that there
    /// is none: the error that ended the compilation is returned, or
    /// `CompileFailure` while steps are still to run.
    pub fn finish(self) -> (r: Result<CommandStep, HarnessError>)
        ensures
            match r {
                Ok(step) => {
                    &&& self.failure() is None
                    &&& self.completed() == self.steps().len()
                    &&& step@ == self.run_step()
                },
                Err(e) => match self.failure() {
                    Some(f) => e == f,
                    None => self.completed() != self.steps().len() && e
                        == HarnessError::CompileFailure,
                },
            },
    {
        match self.failure {
            Some(e) => Err(e),
            None => {
                if self.done == self.plan.compile.len() {
                    Ok(self.plan.run)
                } else {
                    Err(HarnessError::CompileFailure)
                }
            },
        }
    }
}

} // verus!
