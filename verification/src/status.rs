//! The progress status vocabulary shared with the wider judging service:
//! every state a submission can be in, with the snake-case names the
//! testlib-style overrides use.

use vstd::prelude::*;
use vstd::string::StringSliceAdditionalSpecFns;

use crate::text::eq_bytes;

verus! {

/// Progress status of a judged program.
#[derive(Clone, Copy, Debug, PartialEq, Eq, Structural)]
pub enum Status {
    Waiting,
    Judging,
    Accepted,
    WrongAnswer,
    PartiallyCorrect,
    TimeLimitExceeded,
    MemoryLimitExceeded,
    OutputLimitExceeded,
    RuntimeError,
    CompileError,
    PresentationError,
    SystemError,
    Canceled,
    Skipped,
}

impl Status {
    /// The snake-case name of this status.
    pub open spec fn spec_name(self) -> Seq<u8> {
        match self {
            Status::Waiting => "waiting".spec_bytes(),
            Status::Judging => "judging".spec_bytes(),
            Status::Accepted => "accepted".spec_bytes(),
            Status::WrongAnswer => "wrong_answer".spec_bytes(),
            Status::PartiallyCorrect => "partially_correct".spec_bytes(),
            Status::TimeLimitExceeded => "time_limit_exceeded".spec_bytes(),
            Status::MemoryLimitExceeded => "memory_limit_exceeded".spec_bytes(),
            Status::OutputLimitExceeded => "output_limit_exceeded".spec_bytes(),
            Status::RuntimeError => "runtime_error".spec_bytes(),
            Status::CompileError => "compile_error".spec_bytes(),
            Status::PresentationError => "presentation_error".spec_bytes(),
            Status::SystemError => "system_error".spec_bytes(),
            Status::Canceled => "canceled".spec_bytes(),
            Status::Skipped => "skipped".spec_bytes(),
        }
    }

    /// The status a name denotes, if the name is known.
    pub open spec fn spec_parse_name(tok: Seq<u8>) -> Option<Status> {
        if tok == Status::Waiting.spec_name() {
            Some(Status::Waiting)
        } else if tok == Status::Judging.spec_name() {
            Some(Status::Judging)
        } else if tok == Status::Accepted.spec_name() {
            Some(Status::Accepted)
        } else if tok == Status::WrongAnswer.spec_name() {
            Some(Status::WrongAnswer)
        } else if tok == Status::PartiallyCorrect.spec_name() {
            Some(Status::PartiallyCorrect)
        } else if tok == Status::TimeLimitExceeded.spec_name() {
            Some(Status::TimeLimitExceeded)
        } else if tok == Status::MemoryLimitExceeded.spec_name() {
            Some(Status::MemoryLimitExceeded)
        } else if tok == Status::OutputLimitExceeded.spec_name() {
            Some(Status::OutputLimitExceeded)
        } else if tok == Status::RuntimeError.spec_name() {
            Some(Status::RuntimeError)
        } else if tok == Status::CompileError.spec_name() {
            Some(Status::CompileError)
        } else if tok == Status::PresentationError.spec_name() {
            Some(Status::PresentationError)
        } else if tok == Status::SystemError.spec_name() {
            Some(Status::SystemError)
        } else if tok == Status::Canceled.spec_name() {
            Some(Status::Canceled)
        } else if tok == Status::Skipped.spec_name() {
            Some(Status::Skipped)
        } else {
            None
        }
    }

    /// Reads a status name.
    pub fn parse_name(tok: &[u8]) -> (r: Option<Status>)
        ensures
            r == Status::spec_parse_name(tok@),
    {
        if eq_bytes(tok, "waiting".as_bytes()) {
            Some(Status::Waiting)
        } else if eq_bytes(tok, "judging".as_bytes()) {
            Some(Status::Judging)
        } else if eq_bytes(tok, "accepted".as_bytes()) {
            Some(Status::Accepted)
        } else if eq_bytes(tok, "wrong_answer".as_bytes()) {
            Some(Status::WrongAnswer)
        } else if eq_bytes(tok, "partially_correct".as_bytes()) {
            Some(Status::PartiallyCorrect)
        } else if eq_bytes(tok, "time_limit_exceeded".as_bytes()) {
            Some(Status::TimeLimitExceeded)
        } else if eq_bytes(tok, "memory_limit_exceeded".as_bytes()) {
            Some(Status::MemoryLimitExceeded)
        } else if eq_bytes(tok, "output_limit_exceeded".as_bytes()) {
            Some(Status::OutputLimitExceeded)
        } else if eq_bytes(tok, "runtime_error".as_bytes()) {
            Some(Status::RuntimeError)
        } else if eq_bytes(tok, "compile_error".as_bytes()) {
            Some(Status::CompileError)
        } else if eq_bytes(tok, "presentation_error".as_bytes()) {
            Some(Status::PresentationError)
        } else if eq_bytes(tok, "system_error".as_bytes()) {
            Some(Status::SystemError)
        } else if eq_bytes(tok, "canceled".as_bytes()) {
            Some(Status::Canceled)
        } else if eq_bytes(tok, "skipped".as_bytes()) {
            Some(Status::Skipped)
        } else {
            None
        }
    }
}

} // verus!
