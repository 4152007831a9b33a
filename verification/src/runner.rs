//! Performing a script, one step after the other.
use crate::plan_model;
use crate::script;
use crate::script::{Call, Ending, Failure, FailureOutcome, OnFailure, Script, Step};
use vstd::prelude::*;

verus! {

/// A script under way: the steps that are left, what becomes of the one that is being
/// performed if it fails, what is shown in the end, and whether the work was broken off.
#[derive(PartialEq, Eq)]
pub struct ScriptRun {
    steps: Vec<Step>,
    rule: OnFailure,
    remembered: Option<String>,
    ending: Ending,
    stopped: bool,
}

/// A script under way.
pub struct RunView {
    pub steps: Seq<script::StepView>,
    pub rule: script::FailureRule,
    pub remembered: Option<Seq<char>>,
    pub ending: Ending,
    pub stopped: bool,
}

impl View for ScriptRun {
    type V = RunView;

    closed spec fn view(&self) -> RunView {
        RunView {
            steps: script::step_views(self.steps@),
            rule: self.rule@,
            remembered: plan_model::opt(self.remembered),
            ending: self.ending,
            stopped: self.stopped,
        }
    }
}

/// What is done next.
#[derive(PartialEq, Eq)]
pub enum RunAction {
    Perform(Call),
    /// The work is over. The overlay shows the error, if there is one; the ending counts where
    /// the work was not broken off.
    Finish { error: Option<String>, ending: Option<Ending> },
}

pub enum RunActionView {
    Perform(script::CallView),
    Finish { error: Option<Seq<char>>, ending: Option<Ending> },
}

impl View for RunAction {
    type V = RunActionView;

    open spec fn view(&self) -> RunActionView {
        match self {
            RunAction::Perform(call) => RunActionView::Perform(call@),
            RunAction::Finish { error, ending } => RunActionView::Finish {
                error: plan_model::opt(*error),
                ending: *ending,
            },
        }
    }
}

/// A script that begins.
pub open spec fn begun(s: script::ScriptView) -> RunView {
    RunView {
        steps: s.steps,
        rule: script::FailureRule::Fatal,
        remembered: None,
        ending: s.ending,
        stopped: false,
    }
}

/// The next step, or the end.
pub open spec fn next_of(run: RunView) -> (RunView, RunActionView) {
    if run.steps.len() > 0 {
        (
            RunView { steps: run.steps.drop_first(), rule: run.steps[0].on_failure, ..run },
            RunActionView::Perform(run.steps[0].call),
        )
    } else {
        (
            RunView { remembered: None, ..run },
            RunActionView::Finish {
                error: run.remembered,
                ending: if run.stopped {
                    None
                } else {
                    Some(run.ending)
                },
            },
        )
    }
}

/// The run after the step that was being performed has failed: it goes on with something to
/// show in the end, or it is broken off.
pub open spec fn failed_of(run: RunView, outcome: script::FailureView) -> RunView {
    match outcome {
        script::FailureView::GoOn(words) => RunView { remembered: Some(words), ..run },
        _ => RunView { steps: Seq::empty(), remembered: None, stopped: true, ..run },
    }
}

impl ScriptRun {
    pub fn new(s: Script) -> (r: ScriptRun)
        ensures
            r@ == begun(s@),
    {
        ScriptRun {
            steps: s.steps,
            rule: OnFailure::Fatal,
            remembered: None,
            ending: s.ending,
            stopped: false,
        }
    }

    /// What is done next, now that the step before has been performed.
    pub fn next(&mut self) -> (r: RunAction)
        ensures
            (final(self)@, r@) == next_of(old(self)@),
    {
        if self.steps.len() > 0 {
            let ghost before = self.steps@;
            let step = self.steps.remove(0);
            self.rule = step.on_failure;
            proof {
                assert(script::step_views(self.steps@) =~= script::step_views(
                    before,
                ).drop_first());
                assert(script::step_views(before)[0] == step@);
            }
            RunAction::Perform(step.call)
        } else {
            proof {
                assert(script::step_views(self.steps@) =~= Seq::empty());
            }
            let error = self.remembered.take();
            RunAction::Finish {
                error,
                ending: if self.stopped {
                    None
                } else {
                    Some(self.ending)
                },
            }
        }
    }

    /// What the failure of the step that was being performed leads to at once; nothing where
    /// it is shown in the end. `warned` says whether the user has been told before, and is set
    /// where they are told now.
    pub fn failed(&mut self, failure: Failure, warned: &mut bool) -> (r: Option<FailureOutcome>)
        ensures
            ({
                let outcome = script::after_failure(old(self)@.rule, failure, *old(warned));
                &&& final(self)@ == failed_of(old(self)@, outcome)
                &&& match r {
                    Some(o) => o@ == outcome && !(outcome is GoOn),
                    None => outcome is GoOn,
                }
            }),
            *final(warned) == (*old(warned) || old(self)@.rule is DiagnosticOnce),
    {
        match script::fail(self.rule, failure, warned) {
            FailureOutcome::GoOn(words) => {
                self.remembered = Some(words);
                None
            },
            outcome => {
                self.steps = Vec::new();
                self.remembered = None;
                self.stopped = true;
                proof {
                    assert(script::step_views(self.steps@) =~= Seq::empty());
                }
                Some(outcome)
            },
        }
    }
}

/// The run after `n` steps that have been performed one after the other.
pub open spec fn after_steps(run: RunView, n: nat) -> RunView
    decreases n,
{
    if n == 0 {
        run
    } else {
        next_of(after_steps(run, (n - 1) as nat)).0
    }
}

/// Where nothing fails, every step of a script is performed, in its order, and then its ending
/// counts, with nothing to show.
pub proof fn scripts_are_performed_in_order(s: script::ScriptView, n: nat)
    requires
        n <= s.steps.len(),
    ensures
        ({
            let run = after_steps(begun(s), n);
            &&& run.steps == s.steps.skip(n as int)
            &&& n < s.steps.len() ==> next_of(run).1 == RunActionView::Perform(
                s.steps[n as int].call,
            ) && next_of(run).0.rule == s.steps[n as int].on_failure
            &&& n == s.steps.len() ==> next_of(run).1 == (RunActionView::Finish {
                error: None,
                ending: Some(s.ending),
            })
            &&& !run.stopped && run.remembered is None && run.ending == s.ending
        }),
    decreases n,
{
    if n > 0 {
        scripts_are_performed_in_order(s, (n - 1) as nat);
        assert(s.steps.skip(n - 1).drop_first() =~= s.steps.skip(n as int));
    } else {
        assert(s.steps.skip(0) =~= s.steps);
    }
}

/// After a failure that is not kept for the end no further step is performed, and the ending
/// does not count.
pub proof fn failures_break_the_work_off(run: RunView, outcome: script::FailureView)
    requires
        !(outcome is GoOn),
    ensures
        next_of(failed_of(run, outcome)).1 == (RunActionView::Finish {
            error: None,
            ending: None,
        }),
{
}

/// A failure that is kept leaves the steps that are left as they are.
pub proof fn kept_failures_stop_nothing(run: RunView, words: Seq<char>)
    ensures
        failed_of(run, script::FailureView::GoOn(words)).steps == run.steps,
        failed_of(run, script::FailureView::GoOn(words)).stopped == run.stopped,
        failed_of(run, script::FailureView::GoOn(words)).remembered == Some(words),
{
}

} // verus!
