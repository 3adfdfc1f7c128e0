//! The record of one artifact's job: how it starts, what each failure says, and how it
//! ends.
use vstd::prelude::*;
use crate::plan::PreparedArtifact;
use crate::digest::{digest_of, digest_text};
use crate::manifest::opt_view;
use crate::report::ArtifactReport;
use crate::text::{decimal, decimal_string, signed_decimal, signed_decimal_string, text2};

verus! {

/// A step of a job that went wrong, with what the system said about it.
pub enum Failure {
    OutputDir(String),
    WorkDir(String),
    JobDir(String),
    StageInput(String),
    MissingExecutable { command: String, detail: String },
    StdoutCapture(String),
    StderrCapture(String),
    Start(String),
    Wait(String),
    TimedOut(u64),
    Exited(Option<i32>),
    NoOutput,
    Promote(String),
}

/// What the report says of a failure.
pub open spec fn failure_message(f: Failure) -> Seq<char> {
    match f {
        Failure::OutputDir(e) => "cannot create output directory: "@ + e@,
        Failure::WorkDir(e) => "cannot create work directory: "@ + e@,
        Failure::JobDir(e) => "cannot create job directory: "@ + e@,
        Failure::StageInput(e) => "cannot stage input: "@ + e@,
        Failure::MissingExecutable { command, detail } => "converter executable '"@ + command@
            + "' not found: "@ + detail@,
        Failure::StdoutCapture(e) => "cannot create stdout capture: "@ + e@,
        Failure::StderrCapture(e) => "cannot create stderr capture: "@ + e@,
        Failure::Start(e) => "cannot start converter: "@ + e@,
        Failure::Wait(e) => "cannot wait for converter: "@ + e@,
        Failure::TimedOut(s) => "converter timed out after "@ + decimal(s as nat) + " seconds"@,
        Failure::Exited(code) => "converter exited with "@ + match code {
            Some(v) => "code "@ + signed_decimal(v as int),
            None => "a signal"@,
        },
        Failure::NoOutput => "converter reported success but did not create the declared output"@,
        Failure::Promote(e) => "cannot promote output: "@ + e@,
    }
}

/// What the report says of `f`.
pub fn describe_failure(f: &Failure) -> (res: String)
    ensures
        res@ == failure_message(*f),
{
    match f {
        Failure::OutputDir(e) => text2("cannot create output directory: ", e),
        Failure::WorkDir(e) => text2("cannot create work directory: ", e),
        Failure::JobDir(e) => text2("cannot create job directory: ", e),
        Failure::StageInput(e) => text2("cannot stage input: ", e),
        Failure::MissingExecutable { command, detail } => {
            let mut res = text2("converter executable '", command);
            res.append("' not found: ");
            res.append(detail);
            res
        },
        Failure::StdoutCapture(e) => text2("cannot create stdout capture: ", e),
        Failure::StderrCapture(e) => text2("cannot create stderr capture: ", e),
        Failure::Start(e) => text2("cannot start converter: ", e),
        Failure::Wait(e) => text2("cannot wait for converter: ", e),
        Failure::TimedOut(s) => {
            let mut res = text2("converter timed out after ", &decimal_string(*s));
            res.append(" seconds");
            res
        },
        Failure::Exited(code) => {
            let how = match code {
                Some(v) => text2("code ", &signed_decimal_string(*v)),
                None => String::from_str("a signal"),
            };
            text2("converter exited with ", &how)
        },
        Failure::NoOutput => String::from_str(
            "converter reported success but did not create the declared output",
        ),
        Failure::Promote(e) => text2("cannot promote output: ", e),
    }
}

/// The report of a job that has not yet succeeded: status `failed`, nothing run yet.
pub fn new_artifact_report(
    task: &PreparedArtifact,
    input_sha256: Option<String>,
    sandboxed: bool,
) -> (res: ArtifactReport)
    ensures
        res.source@ == task.source_relative@,
        res.output@ == task.output_relative@,
        res.converter@ == task.converter@.name,
        res.status@ == "failed"@,
        res.sandboxed == sandboxed,
        res.exit_code is None,
        res.duration_ms == 0,
        res.input_sha256 == input_sha256,
        res.output_sha256 is None,
        res.error is None,
        res.stdout@.len() == 0,
        res.stderr@.len() == 0,
{
    ArtifactReport {
        source: task.source_relative.clone(),
        output: task.output_relative.clone(),
        converter: task.converter.name.clone(),
        status: String::from_str("failed"),
        sandboxed,
        exit_code: None,
        duration_ms: 0,
        input_sha256,
        output_sha256: None,
        error: None,
        stdout: String::new(),
        stderr: String::new(),
    }
}

/// `a` and `b` agree in every field but the status, the exit code, the error and the
/// digest of the output.
pub open spec fn same_record(a: ArtifactReport, b: ArtifactReport) -> bool {
    &&& a.source == b.source
    &&& a.output == b.output
    &&& a.converter == b.converter
    &&& a.sandboxed == b.sandboxed
    &&& a.duration_ms == b.duration_ms
    &&& a.input_sha256 == b.input_sha256
    &&& a.stdout == b.stdout
    &&& a.stderr == b.stderr
}

/// The report carries the error `msg`.
pub open spec fn has_error(r: ArtifactReport, msg: Seq<char>) -> bool {
    r.error matches Some(m) && m@ == msg
}

/// The steps of a job, in the order it takes them.
#[derive(PartialEq, Eq, Structural)]
pub enum Stage {
    /// Create the directory that will hold the output.
    OutputDir,
    /// Create the scratch root under the output directory.
    WorkDir,
    /// Create this job's own scratch directory.
    JobDir,
    /// Copy the source into the job directory, read-only.
    StageInput,
    /// Find the converter's executable.
    Locate,
    /// Create the file that captures standard output.
    StdoutCapture,
    /// Create the file that captures standard error.
    StderrCapture,
    /// Start the converter.
    Start,
    /// Wait for the converter, no longer than its timeout.
    Wait,
    /// Look for the declared output.
    CheckOutput,
    /// Move the output into place.
    Promote,
    /// Nothing left to do.
    Done,
}

/// What came of the outside work of a step.
pub enum Event {
    /// The step went well.
    Succeeded,
    /// The step went wrong; the system's words.
    Failed(String),
    /// The converter ended with the exit code `code`, or by a signal where there is none;
    /// it succeeded exactly when the code is 0.
    Exited { code: Option<i32> },
    /// The converter outlived its timeout and was killed; the code it then ended with.
    TimedOut { code: Option<i32> },
    /// Whether the declared output is a file, and its contents where they could be read.
    OutputChecked { present: bool, contents: Option<Vec<u8>> },
}

/// The event is one that `stage` can end with.
pub open spec fn fits(stage: Stage, event: Event) -> bool {
    match stage {
        Stage::Done => false,
        Stage::Wait => event is Exited || event is TimedOut || event is Failed,
        Stage::CheckOutput => event is OutputChecked,
        _ => event is Succeeded || event is Failed,
    }
}

/// The step after `stage` when it went well.
pub open spec fn next_stage(stage: Stage) -> Stage {
    match stage {
        Stage::OutputDir => Stage::WorkDir,
        Stage::WorkDir => Stage::JobDir,
        Stage::JobDir => Stage::StageInput,
        Stage::StageInput => Stage::Locate,
        Stage::Locate => Stage::StdoutCapture,
        Stage::StdoutCapture => Stage::StderrCapture,
        Stage::StderrCapture => Stage::Start,
        Stage::Start => Stage::Wait,
        Stage::Wait => Stage::CheckOutput,
        Stage::CheckOutput => Stage::Promote,
        _ => Stage::Done,
    }
}

/// The failure that `stage` ends with on `detail`, for the steps that fail that way.
pub open spec fn step_failure(stage: Stage, command: String, detail: String) -> Failure {
    match stage {
        Stage::OutputDir => Failure::OutputDir(detail),
        Stage::WorkDir => Failure::WorkDir(detail),
        Stage::JobDir => Failure::JobDir(detail),
        Stage::StageInput => Failure::StageInput(detail),
        Stage::Locate => Failure::MissingExecutable { command, detail },
        Stage::StdoutCapture => Failure::StdoutCapture(detail),
        Stage::StderrCapture => Failure::StderrCapture(detail),
        Stage::Start => Failure::Start(detail),
        Stage::Wait => Failure::Wait(detail),
        _ => Failure::Promote(detail),
    }
}

/// A job under way: its report so far, the step it is at, and what of its converter the
/// report may need to say.
pub struct Job {
    pub report: ArtifactReport,
    pub stage: Stage,
    pub command: String,
    pub timeout_seconds: u64,
}

/// A job under way carries no error; one past its converter's exit has exit code 0; and
/// one whose report is `ok` is done, carries no error and has exit code 0.
pub open spec fn job_consistent(job: Job) -> bool {
    &&& job.stage != Stage::Done ==> job.report.error is None
    &&& (job.stage == Stage::CheckOutput || job.stage == Stage::Promote) ==> job.report.exit_code
        == Some(0i32)
    &&& job.report.status@ == "ok"@ ==> job.stage == Stage::Done && job.report.error is None
        && job.report.exit_code == Some(0i32)
}

proof fn lemma_ok_is_not_failed()
    ensures
        "ok"@ != "failed"@,
{
    reveal_strlit("ok");
    reveal_strlit("failed");
    assert("ok"@.len() != "failed"@.len());
}

/// The job that exports `task`, at its first step; `input` holds the contents of its
/// source where they could be read.
pub fn start_job(task: &PreparedArtifact, input: Option<Vec<u8>>, sandboxed: bool) -> (res: Job)
    ensures
        res.stage == Stage::OutputDir,
        res.command@ == task.converter@.command,
        res.timeout_seconds == task.converter@.timeout_seconds,
        res.report.source@ == task.source_relative@,
        res.report.output@ == task.output_relative@,
        res.report.converter@ == task.converter@.name,
        res.report.status@ == "failed"@,
        res.report.sandboxed == sandboxed,
        res.report.exit_code is None,
        res.report.duration_ms == 0,
        opt_view(res.report.input_sha256) == digest_text(input),
        res.report.output_sha256 is None,
        res.report.error is None,
        res.report.stdout@.len() == 0,
        res.report.stderr@.len() == 0,
        job_consistent(res),
{
    proof {
        lemma_ok_is_not_failed();
    }
    Job {
        report: new_artifact_report(task, digest_of(&input), sandboxed),
        stage: Stage::OutputDir,
        command: task.converter.command.clone(),
        timeout_seconds: task.converter.timeout_seconds,
    }
}

/// The job after its current step came to `event`. A failed step ends the job with an
/// error; the report turns `ok` only when the output was promoted.
pub fn advance(job: Job, event: Event) -> (res: Job)
    requires
        fits(job.stage, event),
        job_consistent(job),
    ensures
        job_consistent(res),
        same_record(res.report, job.report),
        res.command == job.command,
        res.timeout_seconds == job.timeout_seconds,
        res.report.status@ == "ok"@ <==> (job.stage == Stage::Promote && event is Succeeded),
        res.report.status@ != "ok"@ ==> res.report.status == job.report.status,
        res.stage == Stage::Promote ==> job.stage == Stage::CheckOutput && (event matches Event::OutputChecked {
            present: true,
            ..
        }),
        res.stage == Stage::CheckOutput ==> job.stage == Stage::Wait && event == (Event::Exited {
            code: Some(0i32),
        }),
        event matches Event::OutputChecked { present: true, contents } ==> opt_view(
            res.report.output_sha256,
        ) == digest_text(contents),
        !(event matches Event::OutputChecked { present: true, .. }) ==> res.report.output_sha256
            == job.report.output_sha256,
        match event {
            Event::Succeeded => res.stage == next_stage(job.stage) && res.report.error
                == job.report.error && res.report.exit_code == job.report.exit_code,
            Event::Failed(e) => res.stage == Stage::Done && res.report.exit_code
                == job.report.exit_code && has_error(res.report, failure_message(step_failure(job.stage, job.command, e))),
            Event::Exited { code } => res.report.exit_code == code && if code == Some(0i32) {
                res.stage == Stage::CheckOutput && res.report.error == job.report.error
            } else {
                res.stage == Stage::Done && has_error(res.report, failure_message(Failure::Exited(code)))
            },
            Event::TimedOut { code } => res.stage == Stage::Done && res.report.exit_code == code
                && has_error(res.report, failure_message(Failure::TimedOut(job.timeout_seconds))),
            Event::OutputChecked { present, contents } => res.report.exit_code == job.report.exit_code && if present {
                res.stage == Stage::Promote && res.report.error == job.report.error
            } else {
                res.stage == Stage::Done && has_error(res.report, failure_message(Failure::NoOutput))
            },
        },
{
    let mut job = job;
    match event {
        Event::Succeeded => {
            let next = match job.stage {
                Stage::OutputDir => Stage::WorkDir,
                Stage::WorkDir => Stage::JobDir,
                Stage::JobDir => Stage::StageInput,
                Stage::StageInput => Stage::Locate,
                Stage::Locate => Stage::StdoutCapture,
                Stage::StdoutCapture => Stage::StderrCapture,
                Stage::StderrCapture => Stage::Start,
                Stage::Start => Stage::Wait,
                Stage::Wait => Stage::CheckOutput,
                Stage::CheckOutput => Stage::Promote,
                _ => Stage::Done,
            };
            if job.stage == Stage::Promote {
                job.report.status = String::from_str("ok");
            }
            job.stage = next;
            job
        },
        Event::Failed(e) => {
            let failure = match job.stage {
                Stage::OutputDir => Failure::OutputDir(e),
                Stage::WorkDir => Failure::WorkDir(e),
                Stage::JobDir => Failure::JobDir(e),
                Stage::StageInput => Failure::StageInput(e),
                Stage::Locate => Failure::MissingExecutable { command: job.command.clone(), detail: e },
                Stage::StdoutCapture => Failure::StdoutCapture(e),
                Stage::StderrCapture => Failure::StderrCapture(e),
                Stage::Start => Failure::Start(e),
                Stage::Wait => Failure::Wait(e),
                _ => Failure::Promote(e),
            };
            job.report.error = Some(describe_failure(&failure));
            job.stage = Stage::Done;
            job
        },
        Event::Exited { code } => {
            job.report.exit_code = code;
            let success = match code {
                Some(c) => c == 0,
                None => false,
            };
            if success {
                job.stage = Stage::CheckOutput;
            } else {
                job.report.error = Some(describe_failure(&Failure::Exited(code)));
                job.stage = Stage::Done;
            }
            job
        },
        Event::TimedOut { code } => {
            job.report.exit_code = code;
            job.report.error = Some(describe_failure(&Failure::TimedOut(job.timeout_seconds)));
            job.stage = Stage::Done;
            job
        },
        Event::OutputChecked { present, contents } => {
            if present {
                job.report.output_sha256 = digest_of(&contents);
                job.stage = Stage::Promote;
            } else {
                job.report.error = Some(describe_failure(&Failure::NoOutput));
                job.stage = Stage::Done;
            }
            job
        },
    }
}

/// The report with the time that the job took.
pub fn finish(report: ArtifactReport, elapsed_ms: u128) -> (res: ArtifactReport)
    ensures
        res.duration_ms == elapsed_ms,
        res.source == report.source,
        res.output == report.output,
        res.converter == report.converter,
        res.status == report.status,
        res.sandboxed == report.sandboxed,
        res.exit_code == report.exit_code,
        res.input_sha256 == report.input_sha256,
        res.output_sha256 == report.output_sha256,
        res.error == report.error,
        res.stdout == report.stdout,
        res.stderr == report.stderr,
{
    let mut report = report;
    report.duration_ms = elapsed_ms;
    report
}

} // verus!
