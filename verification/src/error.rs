//! rt's errors, their process exit codes and their text.
use vstd::prelude::*;
use crate::text::{copy_string, decimal, decimal_text, views};
use vstd::string::StringExecFns;

verus! {

/// A Ruby exception: class, message and backtrace frames.
#[derive(Debug, Clone)]
pub struct ExceptionDetail {
    pub class: String,
    pub message: String,
    pub backtrace: Vec<String>,
}

/// Whether a failure reported by the harness came from the task's own code
/// or from preparing its environment.
#[derive(Debug, Clone, Copy, PartialEq, Eq, Structural)]
pub enum HarnessFailureKind {
    TaskException,
    Environment,
}

/// The failure message the harness sends over its control channel.
#[derive(Debug, Clone)]
pub struct HarnessFailure {
    pub kind: HarnessFailureKind,
    pub class: String,
    pub message: String,
    pub backtrace: Vec<String>,
}

/// Everything that can stop an rt command.
#[derive(Debug, Clone)]
pub enum RtError {
    Usage(String),
    Task(ExceptionDetail),
    Internal(String),
    Environment(String),
    EnvironmentFailure(ExceptionDetail),
    /// A task called `exit n`; rt propagates the same code.
    TaskExit(i32),
}

/// The rt error for a harness failure: a task exception, or an environment
/// failure, carrying the same class, message and backtrace.
pub open spec fn failure_error(f: HarnessFailure) -> RtError {
    let d = ExceptionDetail { class: f.class, message: f.message, backtrace: f.backtrace };
    match f.kind {
        HarnessFailureKind::TaskException => RtError::Task(d),
        HarnessFailureKind::Environment => RtError::EnvironmentFailure(d),
    }
}

impl HarnessFailure {
    /// The rt error this harness failure stands for.
    pub fn into_rt_error(self) -> (r: RtError)
        ensures
            r == failure_error(self),
    {
        let failure = ExceptionDetail {
            class: self.class,
            message: self.message,
            backtrace: self.backtrace,
        };
        match self.kind {
            HarnessFailureKind::TaskException => RtError::Task(failure),
            HarnessFailureKind::Environment => RtError::EnvironmentFailure(failure),
        }
    }
}

/// The exit code of each kind of error: 1 for a task exception, 2 for a
/// usage error, 70 for an internal error, 74 for an environment error, and a
/// task's own `exit n` passed through.
pub open spec fn spec_exit_code(e: RtError) -> i32 {
    match e {
        RtError::Task(_) => 1,
        RtError::Usage(_) => 2,
        RtError::Internal(_) => 70,
        RtError::Environment(_) => 74,
        RtError::EnvironmentFailure(_) => 74,
        RtError::TaskExit(code) => code,
    }
}

/// The backtrace lines of an exception, each on its own line after `from`.
pub open spec fn frames_text(frames: Seq<Seq<char>>) -> Seq<char>
    decreases frames.len(),
{
    if frames.len() == 0 {
        seq![]
    } else {
        frames_text(frames.drop_last()) + "\n    from "@ + frames.last()
    }
}

/// `class: message` followed by the backtrace.
pub open spec fn exception_text(d: ExceptionDetail) -> Seq<char> {
    d.class@ + ": "@ + d.message@ + frames_text(views(d.backtrace@))
}

/// The text rt prints for an error after `error:`.
pub open spec fn error_text(e: RtError) -> Seq<char> {
    match e {
        RtError::Usage(m) => m@,
        RtError::Task(d) => exception_text(d),
        RtError::EnvironmentFailure(d) => exception_text(d),
        RtError::Internal(m) => "internal error: "@ + m@,
        RtError::Environment(m) => m@,
        RtError::TaskExit(code) => "task exited with code "@ + decimal(code as int),
    }
}

fn exception_message(d: &ExceptionDetail) -> (r: String)
    ensures
        r@ == exception_text(*d),
{
    let mut s = copy_string(&d.class);
    s.append(": ");
    s.append(d.message.as_str());
    let ghost head = s@;
    let ghost frames = views(d.backtrace@);
    let mut i: usize = 0;
    while i < d.backtrace.len()
        invariant
            i <= d.backtrace@.len(),
            frames == views(d.backtrace@),
            s@ == head + frames_text(frames.take(i as int)),
        decreases d.backtrace@.len() - i,
    {
        s.append("\n    from ");
        s.append(d.backtrace[i].as_str());
        assert(frames.take(i + 1).drop_last() =~= frames.take(i as int));
        assert(s@ =~= head + frames_text(frames.take(i + 1)));
        i = i + 1;
    }
    assert(frames.take(d.backtrace@.len() as int) =~= frames);
    proof { reveal_strlit(": "); }
    s
}

impl RtError {
    /// The process exit code for this error.
    pub fn exit_code(&self) -> (r: i32)
        ensures
            r == spec_exit_code(*self),
    {
        match self {
            RtError::Task(_) => 1,
            RtError::Usage(_) => 2,
            RtError::Internal(_) => 70,
            RtError::Environment(_) => 74,
            RtError::EnvironmentFailure(_) => 74,
            RtError::TaskExit(code) => *code,
        }
    }

    /// The human-readable text of this error.
    pub fn to_text(&self) -> (r: String)
        ensures
            r@ == error_text(*self),
    {
        match self {
            RtError::Usage(m) => copy_string(m),
            RtError::Task(d) => exception_message(d),
            RtError::EnvironmentFailure(d) => exception_message(d),
            RtError::Internal(m) => {
                let mut s = String::from_str("internal error: ");
                s.append(m.as_str());
                s
            },
            RtError::Environment(m) => copy_string(m),
            RtError::TaskExit(code) => {
                let mut s = String::from_str("task exited with code ");
                let digits = decimal_text(*code as i64);
                s.append(digits.as_str());
                s
            },
        }
    }
}

} // verus!
