//! The toolchain steps that follow the construction of a workspace.
//!
//! Four commands are run one after the other against the workspace root.
//! This module says which commands they are and what follows from the
//! outcome of each; running them is left to the caller. A step that fails
//! ends the run at once: nothing is retried and nothing is undone.
use crate::text::joined;
use vstd::prelude::*;

verus! {

/// One of the steps, in the order in which they are run.
#[derive(Clone, Copy, Debug, PartialEq, Eq, Structural)]
pub enum ToolchainStep {
    /// Compile check of the whole workspace.
    Check,
    /// Refresh of the dependency versions.
    Update,
    /// Benchmark run.
    Bench,
    /// Dump of the workspace metadata.
    Metadata,
}

/// What came of running a command.
#[derive(Debug, PartialEq, Eq)]
pub struct CommandOutcome {
    /// Whether the command exited with status zero.
    pub success: bool,
    /// What the command wrote to standard output.
    pub stdout: String,
    /// What the command wrote to standard error.
    pub stderr: String,
}

/// What is to be done after a step.
#[derive(Debug, PartialEq, Eq)]
pub enum StepVerdict {
    /// The step passed: `report` goes to standard output and the run goes
    /// on.
    Proceed { report: String },
    /// The step failed: `diagnostic` goes to standard error and the program
    /// ends with `exit_code`.
    Abort { diagnostic: String, exit_code: i32 },
}

/// Where a run stands.
#[derive(Clone, Copy, Debug, PartialEq, Eq, Structural)]
pub enum RunState {
    /// The step is the next to run.
    Pending(ToolchainStep),
    /// Nothing is left to run: the program ends with the exit code.
    Finished(i32),
}

/// The exit code of a run in which every step passed.
pub open spec fn exit_success() -> i32 {
    0
}

/// The exit code of a run that was given too few arguments or in which a
/// step failed.
pub open spec fn exit_failure() -> i32 {
    1
}

/// The arguments with which the command of `step` is run.
pub open spec fn step_arguments(step: ToolchainStep) -> Seq<Seq<char>> {
    match step {
        ToolchainStep::Check => seq!["check"@, "--workspace"@],
        ToolchainStep::Update => seq!["update"@],
        ToolchainStep::Bench => seq!["bench"@],
        ToolchainStep::Metadata => seq!["metadata"@, "--format-version=1"@],
    }
}

/// What is announced before `step` is run, if anything.
pub open spec fn step_banner(step: ToolchainStep) -> Option<Seq<char>> {
    match step {
        ToolchainStep::Check => None,
        ToolchainStep::Update => Some("Running version management..."@),
        ToolchainStep::Bench => Some("Running `cargo bench`..."@),
        ToolchainStep::Metadata => Some("Generating dependency graph..."@),
    }
}

/// What precedes the captured error output in the diagnostic of a failed
/// `step`.
pub open spec fn failure_prefix(step: ToolchainStep) -> Seq<char> {
    match step {
        ToolchainStep::Check => "`cargo check` failed: "@,
        ToolchainStep::Update => "Version management failed: "@,
        ToolchainStep::Bench => "`cargo bench` failed: "@,
        ToolchainStep::Metadata => "Failed to generate dependency graph: "@,
    }
}

/// What is reported when `step` has passed. The metadata step hands on
/// what the command printed, as it is.
pub open spec fn success_report(step: ToolchainStep, stdout: Seq<char>) -> Seq<char> {
    match step {
        ToolchainStep::Check => "`cargo check` passed."@,
        ToolchainStep::Update => "Dependency versions updated."@,
        ToolchainStep::Bench => "Benchmarking completed."@,
        ToolchainStep::Metadata => "Dependency Graph: "@ + stdout,
    }
}

/// The step that follows `step`, if any.
pub open spec fn step_after(step: ToolchainStep) -> Option<ToolchainStep> {
    match step {
        ToolchainStep::Check => Some(ToolchainStep::Update),
        ToolchainStep::Update => Some(ToolchainStep::Bench),
        ToolchainStep::Bench => Some(ToolchainStep::Metadata),
        ToolchainStep::Metadata => None,
    }
}

/// Whether `verdict` is what follows from `outcome` at `step`: a command
/// that succeeded lets the run go on with the report of the step; one that
/// did not ends the run with the failure code and a diagnostic that holds
/// all that the command wrote to standard error.
pub open spec fn follows_from(
    verdict: StepVerdict,
    step: ToolchainStep,
    outcome: CommandOutcome,
) -> bool {
    match verdict {
        StepVerdict::Proceed { report } => outcome.success && report@ == success_report(
            step,
            outcome.stdout@,
        ),
        StepVerdict::Abort { diagnostic, exit_code } => !outcome.success && diagnostic@
            == failure_prefix(step) + outcome.stderr@ && exit_code == exit_failure(),
    }
}

/// Where a run stands after `step` has ended: a step that failed ends the
/// run with the failure code, the last step that passed ends it with the
/// success code, and any other step that passed hands over to the next.
pub open spec fn state_after(step: ToolchainStep, success: bool) -> RunState {
    if !success {
        RunState::Finished(exit_failure())
    } else {
        match step_after(step) {
            Some(next) => RunState::Pending(next),
            None => RunState::Finished(exit_success()),
        }
    }
}

/// Where a run that stands at `state` gets to when its steps end as
/// `outcomes` say, one after the other (`true` for a step that passes). A
/// run that is finished stays as it is: what would have come of later steps
/// does not matter.
pub open spec fn run_from(state: RunState, outcomes: Seq<bool>) -> RunState
    decreases outcomes.len(),
{
    if outcomes.len() == 0 {
        state
    } else {
        match state {
            RunState::Pending(step) => run_from(
                state_after(step, outcomes[0]),
                outcomes.skip(1),
            ),
            RunState::Finished(_) => state,
        }
    }
}

/// A run of the four steps ends with the success code if every step
/// passes, and with the failure code if any step fails.
pub proof fn lemma_fail_fast(outcomes: Seq<bool>)
    requires
        outcomes.len() == 4,
    ensures
        run_from(RunState::Pending(ToolchainStep::Check), outcomes) == RunState::Finished(
            if outcomes[0] && outcomes[1] && outcomes[2] && outcomes[3] {
                exit_success()
            } else {
                exit_failure()
            },
        ),
{
    reveal_with_fuel(run_from, 6);
    let a = outcomes.skip(1);
    let b = a.skip(1);
    let c = b.skip(1);
    let d = c.skip(1);
    assert(a[0] == outcomes[1]);
    assert(b[0] == outcomes[2]);
    assert(c[0] == outcomes[3]);
    assert(d.len() == 0);
}

/// A step that fails ends the run at once with the failure code, whatever
/// step it is and whatever would have come of the steps after it.
pub proof fn lemma_failure_is_final(step: ToolchainStep, outcomes: Seq<bool>)
    requires
        outcomes.len() > 0,
        !outcomes[0],
    ensures
        run_from(RunState::Pending(step), outcomes) == RunState::Finished(exit_failure()),
{
    lemma_finished_stays(exit_failure(), outcomes.skip(1));
}

/// A run that is finished stays finished.
proof fn lemma_finished_stays(code: i32, outcomes: Seq<bool>)
    ensures
        run_from(RunState::Finished(code), outcomes) == RunState::Finished(code),
{
}

/// The program that every step runs.
pub fn program() -> (name: &'static str)
    ensures
        name@ == "cargo"@,
{
    "cargo"
}

/// Where every run begins: the compile check is the next to run.
pub fn start() -> (state: RunState)
    ensures
        state == RunState::Pending(ToolchainStep::Check),
{
    RunState::Pending(ToolchainStep::Check)
}

/// The arguments with which the command of `step` is run.
pub fn arguments(step: ToolchainStep) -> (args: Vec<String>)
    ensures
        args.deep_view() == step_arguments(step),
{
    let mut args: Vec<String> = Vec::new();
    match step {
        ToolchainStep::Check => {
            args.push("check".to_owned());
            args.push("--workspace".to_owned());
        },
        ToolchainStep::Update => {
            args.push("update".to_owned());
        },
        ToolchainStep::Bench => {
            args.push("bench".to_owned());
        },
        ToolchainStep::Metadata => {
            args.push("metadata".to_owned());
            args.push("--format-version=1".to_owned());
        },
    }
    assert(args.deep_view() =~= step_arguments(step));
    args
}

/// What is announced before `step` is run, if anything.
pub fn banner(step: ToolchainStep) -> (text: Option<String>)
    ensures
        text is Some <==> step_banner(step) is Some,
        text matches Some(t) ==> Some(t@) == step_banner(step),
{
    match step {
        ToolchainStep::Check => None,
        ToolchainStep::Update => Some("Running version management...".to_owned()),
        ToolchainStep::Bench => Some("Running `cargo bench`...".to_owned()),
        ToolchainStep::Metadata => Some("Generating dependency graph...".to_owned()),
    }
}

/// Judges the outcome of `step`. A command that did not succeed ends the
/// run with the failure code, and the diagnostic holds all that the command
/// wrote to standard error. A command that succeeded lets the run go on.
pub fn judge(step: ToolchainStep, outcome: &CommandOutcome) -> (verdict: StepVerdict)
    ensures
        follows_from(verdict, step, *outcome),
{
    if outcome.success {
        let report = match step {
            ToolchainStep::Check => "`cargo check` passed.".to_owned(),
            ToolchainStep::Update => "Dependency versions updated.".to_owned(),
            ToolchainStep::Bench => "Benchmarking completed.".to_owned(),
            ToolchainStep::Metadata => joined("Dependency Graph: ", outcome.stdout.as_str()),
        };
        StepVerdict::Proceed { report }
    } else {
        let diagnostic = match step {
            ToolchainStep::Check => joined("`cargo check` failed: ", outcome.stderr.as_str()),
            ToolchainStep::Update => joined(
                "Version management failed: ",
                outcome.stderr.as_str(),
            ),
            ToolchainStep::Bench => joined("`cargo bench` failed: ", outcome.stderr.as_str()),
            ToolchainStep::Metadata => joined(
                "Failed to generate dependency graph: ",
                outcome.stderr.as_str(),
            ),
        };
        StepVerdict::Abort { diagnostic, exit_code: 1 }
    }
}

/// Takes a run one step further: judges the outcome of `step` and says
/// where the run stands afterwards.
pub fn advance(step: ToolchainStep, outcome: &CommandOutcome) -> (next: (StepVerdict, RunState))
    ensures
        follows_from(next.0, step, *outcome),
        next.1 == state_after(step, outcome.success),
{
    let verdict = judge(step, outcome);
    let state = if !outcome.success {
        RunState::Finished(1)
    } else {
        match step {
            ToolchainStep::Check => RunState::Pending(ToolchainStep::Update),
            ToolchainStep::Update => RunState::Pending(ToolchainStep::Bench),
            ToolchainStep::Bench => RunState::Pending(ToolchainStep::Metadata),
            ToolchainStep::Metadata => RunState::Finished(0),
        }
    };
    (verdict, state)
}

} // verus!
