//! What a run of a scan tool is worth.
//!
//! Running a tool is left to the caller. [`watch`] decides, at each look at the child,
//! whether to go on waiting; [`run_capture`] tells what the run amounts to.

use vstd::prelude::*;

use crate::text;

verus! {

broadcast use vstd::string::group_string_axioms;

/// Wall-clock budget for a single scan command, in milliseconds. It bounds a wedged
/// tool; a healthy one takes well under a second.
pub const SCAN_TIMEOUT_MS: u64 = 60_000;

/// How often to look at the child while waiting, in milliseconds.
pub const SCAN_POLL_INTERVAL_MS: u64 = 50;

/// The outcome of running a scan tool.
#[derive(Debug, PartialEq, Eq)]
pub enum CaptureOutcome {
    /// Captured output: a clean success, or accepted partial output.
    Output(String),
    /// The tool is not installed; the class is legitimately empty.
    Absent,
    /// The tool is there but its run failed; carries a human reason.
    Degraded(String),
}

/// The contents of a [`CaptureOutcome`].
pub enum CaptureView {
    /// See [`CaptureOutcome::Output`].
    Output(Seq<char>),
    /// See [`CaptureOutcome::Absent`].
    Absent,
    /// See [`CaptureOutcome::Degraded`].
    Degraded(Seq<char>),
}

impl View for CaptureOutcome {
    type V = CaptureView;

    open spec fn view(&self) -> CaptureView {
        match self {
            CaptureOutcome::Output(s) => CaptureView::Output(s@),
            CaptureOutcome::Absent => CaptureView::Absent,
            CaptureOutcome::Degraded(r) => CaptureView::Degraded(r@),
        }
    }
}

/// How a run of a tool ended.
#[derive(Debug, PartialEq, Eq)]
pub enum ToolRun {
    /// There is no such program.
    NotFound,
    /// The program could not be started, with the error.
    SpawnFailed(String),
    /// The budget ran out after this many whole seconds, and the child was killed.
    TimedOut(u64),
    /// Waiting for the child failed, with the error.
    WaitFailed(String),
    /// Reading the output failed, with the error.
    ReadFailed(String),
    /// The reader of the output died.
    ReaderPanicked,
    /// The child exited with this code, if any, and this output.
    Exited(Option<i32>, Vec<u8>),
}

/// What one look at the child shows.
#[derive(Debug, PartialEq, Eq)]
pub enum ChildState {
    /// It exited with this code, if any.
    Exited(Option<i32>),
    /// It is running.
    Running,
    /// It cannot be looked at, with the error.
    Failed(String),
}

/// What to do after a look at the child.
#[derive(Debug, PartialEq, Eq)]
pub enum WatchStep {
    /// Collect the output of a child that exited with this code, if any.
    Collect(Option<i32>),
    /// Look again after the poll interval.
    Sleep,
    /// Kill and reap the child; the run ended so.
    Kill(ToolRun),
}

/// What to do after a look at the child.
pub open spec fn watched(state: ChildState, elapsed_ms: u64, timeout_ms: u64) -> WatchStep {
    match state {
        ChildState::Exited(code) => WatchStep::Collect(code),
        ChildState::Running => if elapsed_ms >= timeout_ms {
            WatchStep::Kill(ToolRun::TimedOut((timeout_ms / 1000) as u64))
        } else {
            WatchStep::Sleep
        },
        ChildState::Failed(e) => WatchStep::Kill(ToolRun::WaitFailed(e)),
    }
}

/// Decide what to do after a look at the child, `elapsed_ms` into a budget of
/// `timeout_ms`.
pub fn watch(state: ChildState, elapsed_ms: u64, timeout_ms: u64) -> (r: WatchStep)
    ensures
        match state {
            ChildState::Exited(code) => r == WatchStep::Collect(code),
            ChildState::Running => if elapsed_ms >= timeout_ms {
                r == WatchStep::Kill(ToolRun::TimedOut((timeout_ms / 1000) as u64))
            } else {
                r == WatchStep::Sleep
            },
            ChildState::Failed(e) => r == WatchStep::Kill(ToolRun::WaitFailed(e)),
        },
        r == watched(state, elapsed_ms, timeout_ms),
{
    match state {
        ChildState::Exited(code) => WatchStep::Collect(code),
        ChildState::Running => {
            if elapsed_ms >= timeout_ms {
                WatchStep::Kill(ToolRun::TimedOut(timeout_ms / 1000))
            } else {
                WatchStep::Sleep
            }
        },
        ChildState::Failed(e) => WatchStep::Kill(ToolRun::WaitFailed(e)),
    }
}

/// The form in which `Debug` prints an exit code.
pub open spec fn code_text(code: Option<i32>) -> Seq<char> {
    match code {
        Some(n) => "Some("@ + text::signed(n as int) + ")"@,
        None => "None"@,
    }
}

/// What a run of `program` amounts to. A non-zero exit degrades, unless partial output
/// is accepted and there is some.
pub open spec fn captured(program: Seq<char>, run: ToolRun, accept_partial: bool) -> CaptureView {
    match run {
        ToolRun::NotFound => CaptureView::Absent,
        ToolRun::SpawnFailed(e) => CaptureView::Degraded(program + ": spawn failed: "@ + e@),
        ToolRun::TimedOut(secs) => CaptureView::Degraded(
            program + ": timed out after "@ + text::decimal(secs as nat) + "s"@,
        ),
        ToolRun::WaitFailed(e) => CaptureView::Degraded(program + ": wait failed: "@ + e@),
        ToolRun::ReadFailed(e) => CaptureView::Degraded(program + ": stdout read failed: "@ + e@),
        ToolRun::ReaderPanicked => CaptureView::Degraded(program + ": stdout reader panicked"@),
        ToolRun::Exited(code, bytes) => if !vstd::utf8::valid_utf8(bytes@) {
            CaptureView::Degraded(
                program + ": output not UTF-8: "@ + text::utf8_fault(bytes@),
            )
        } else if code == Some(0i32) || (accept_partial && bytes@.len() > 0) {
            CaptureView::Output(vstd::utf8::decode_utf8(bytes@))
        } else {
            CaptureView::Degraded(program + ": non-zero exit "@ + code_text(code))
        },
    }
}

/// The form in which `Debug` prints an exit code.
fn code_string(code: Option<i32>) -> (r: String)
    ensures
        r@ == code_text(code),
{
    match code {
        Some(n) => text::join3("Some(", &text::signed_string(n), ")"),
        None => "None".to_owned(),
    }
}

/// Tell what a run of `program` amounts to.
///
/// `accept_partial` is for a tool that exits non-zero when only some of its arguments
/// are unknown and still prints the others. For any other tool a non-zero exit means
/// that the listing is incomplete, and reading it as complete would under-report.
pub fn run_capture(program: &str, run: ToolRun, accept_partial: bool) -> (r: CaptureOutcome)
    ensures
        r@ == captured(program@, run, accept_partial),
{
    match run {
        ToolRun::NotFound => CaptureOutcome::Absent,
        ToolRun::SpawnFailed(e) => CaptureOutcome::Degraded(
            text::join3(program, ": spawn failed: ", &e),
        ),
        ToolRun::TimedOut(secs) => {
            let mut reason = text::join3(
                program,
                ": timed out after ",
                &text::decimal_string(secs),
            );
            reason.append("s");
            CaptureOutcome::Degraded(reason)
        },
        ToolRun::WaitFailed(e) => CaptureOutcome::Degraded(
            text::join3(program, ": wait failed: ", &e),
        ),
        ToolRun::ReadFailed(e) => CaptureOutcome::Degraded(
            text::join3(program, ": stdout read failed: ", &e),
        ),
        ToolRun::ReaderPanicked => CaptureOutcome::Degraded(
            text::join2(program, ": stdout reader panicked"),
        ),
        ToolRun::Exited(code, bytes) => {
            let some = bytes.len() > 0;
            match text::decode_utf8(bytes) {
                Err(e) => CaptureOutcome::Degraded(
                    text::join3(program, ": output not UTF-8: ", &e),
                ),
                Ok(stdout) => {
                    let success = match code {
                        Some(n) => n == 0,
                        None => false,
                    };
                    if success || (accept_partial && some) {
                        CaptureOutcome::Output(stdout)
                    } else {
                        CaptureOutcome::Degraded(
                            text::join3(program, ": non-zero exit ", &code_string(code)),
                        )
                    }
                },
            }
        },
    }
}

// ---------------------------------------------------------------------------
// Laws
// ---------------------------------------------------------------------------

/// Only a program that is not installed is absent. Output is what a child wrote, as text,
/// where it exited with zero, or with anything else where partial output is accepted and
/// there is some. All else degrades, and the reason names the program.
pub proof fn runs_are_output_absent_or_degraded(
    program: Seq<char>,
    run: ToolRun,
    accept_partial: bool,
)
    ensures
        captured(program, run, accept_partial) is Absent <==> run is NotFound,
        captured(program, run, accept_partial) is Output <==> (run matches ToolRun::Exited(
            code,
            bytes,
        ) && vstd::utf8::valid_utf8(bytes@) && (code == Some(0i32) || (accept_partial
            && bytes@.len() > 0))),
        captured(program, run, accept_partial) matches CaptureView::Output(t)
            ==> vstd::utf8::encode_utf8(
            t,
        ) == run->Exited_1@,
        captured(program, run, accept_partial) matches CaptureView::Degraded(reason)
            ==> text::starts_with(reason, program + seq![':', ' ']),
{
    reveal_strlit(": spawn failed: ");
    reveal_strlit(": timed out after ");
    reveal_strlit(": wait failed: ");
    reveal_strlit(": stdout read failed: ");
    reveal_strlit(": stdout reader panicked");
    reveal_strlit(": output not UTF-8: ");
    reveal_strlit(": non-zero exit ");
    if let ToolRun::Exited(code, bytes) = run {
        if vstd::utf8::valid_utf8(bytes@) {
            vstd::utf8::decode_utf8_encode_utf8(bytes@);
        }
    }
    if let CaptureView::Degraded(reason) = captured(program, run, accept_partial) {
        let n = (program.len() + 2) as int;
        assert(reason.take(n) =~= program + seq![':', ' ']);
    }
}

/// Why a run is degraded: each way to fail has a reason of its own, with what is known of it.
pub proof fn reasons_of_degraded_runs(
    program: Seq<char>,
    e: String,
    secs: u64,
    n: i32,
    bytes: Vec<u8>,
    accept_partial: bool,
)
    ensures
        captured(program, ToolRun::SpawnFailed(e), accept_partial) == CaptureView::Degraded(
            program + ": spawn failed: "@ + e@,
        ),
        captured(program, ToolRun::TimedOut(secs), accept_partial) == CaptureView::Degraded(
            program + ": timed out after "@ + text::decimal(secs as nat) + "s"@,
        ),
        captured(program, ToolRun::WaitFailed(e), accept_partial) == CaptureView::Degraded(
            program + ": wait failed: "@ + e@,
        ),
        captured(program, ToolRun::ReadFailed(e), accept_partial) == CaptureView::Degraded(
            program + ": stdout read failed: "@ + e@,
        ),
        captured(program, ToolRun::ReaderPanicked, accept_partial) == CaptureView::Degraded(
            program + ": stdout reader panicked"@,
        ),
        !vstd::utf8::valid_utf8(bytes@) ==> captured(
            program,
            ToolRun::Exited(Some(n), bytes),
            accept_partial,
        ) == CaptureView::Degraded(program + ": output not UTF-8: "@ + text::utf8_fault(bytes@)),
        vstd::utf8::valid_utf8(bytes@) && n != 0 && !(accept_partial && bytes@.len() > 0)
            ==> captured(program, ToolRun::Exited(Some(n), bytes), accept_partial)
            == CaptureView::Degraded(
            program + ": non-zero exit "@ + ("Some("@ + text::signed(n as int) + ")"@),
        ),
        vstd::utf8::valid_utf8(bytes@) && !(accept_partial && bytes@.len() > 0) ==> captured(
            program,
            ToolRun::Exited(None, bytes),
            accept_partial,
        ) == CaptureView::Degraded(program + ": non-zero exit "@ + "None"@),
{
}

/// A child that runs is looked at again until its budget is spent, and from then on killed;
/// the seconds that are told are the whole ones of the budget. One that exited is collected
/// with its code, however late, and one that cannot be looked at is killed at once.
pub proof fn children_are_killed_when_the_budget_is_spent(
    elapsed_ms: u64,
    timeout_ms: u64,
    code: Option<i32>,
    e: String,
)
    ensures
        watched(ChildState::Running, elapsed_ms, timeout_ms) is Sleep <==> elapsed_ms < timeout_ms,
        watched(ChildState::Running, elapsed_ms, timeout_ms) is Kill <==> timeout_ms <= elapsed_ms,
        watched(ChildState::Running, elapsed_ms, timeout_ms) matches WatchStep::Kill(run) ==> (
        run matches ToolRun::TimedOut(secs) && secs * 1000 <= timeout_ms < (secs + 1) * 1000),
        watched(ChildState::Exited(code), elapsed_ms, timeout_ms) == WatchStep::Collect(code),
        watched(ChildState::Failed(e), elapsed_ms, timeout_ms) == WatchStep::Kill(
            ToolRun::WaitFailed(e),
        ),
{
    let secs = (timeout_ms / 1000) as u64;
    assert(secs * 1000 <= timeout_ms < (secs + 1) * 1000);
    assert(elapsed_ms >= timeout_ms ==> watched(ChildState::Running, elapsed_ms, timeout_ms)
        == WatchStep::Kill(ToolRun::TimedOut(secs)));
}

} // verus!
