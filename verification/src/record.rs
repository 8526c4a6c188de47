//! Per-test judgement records and the fixed status mappings.
//!
//! A record carries what a caller sees of one test: the judged status, the
//! measured time and memory, the exit code, the fractional score in
//! millionths, and a human-readable message.

use vstd::prelude::*;
use vstd::string::StringSliceAdditionalSpecFns;
use vstd::utf8::valid_utf8;

use crate::checker;
use crate::encoding::{append_valid, lit_bytes, spec_sanitize, utf8_sanitize};
use crate::sandbox::response::{ExecuteResult, Status};
use crate::score::SCORE_UNIT;
use crate::text::append_bytes;

verus! {

/// Judge status of one test of a solution.
#[derive(Clone, Copy, Debug, PartialEq, Eq, Structural)]
pub enum RecordStatus {
    Waiting,
    Skipped,
    Accepted,
    WrongAnswer,
    PartiallyCorrect,
    PresentationError,
    TimeLimitExceeded,
    MemoryLimitExceeded,
    OutputLimitExceeded,
    FileError,
    RuntimeError,
    SystemError,
}

impl RecordStatus {
    /// The fixed mapping from an execution status: resource overruns keep
    /// their kind, abnormal exits become runtime errors, sandbox trouble
    /// becomes a system error.
    pub open spec fn spec_from_execute(s: Status) -> RecordStatus {
        match s {
            Status::Accepted => RecordStatus::Accepted,
            Status::TimeLimitExceeded => RecordStatus::TimeLimitExceeded,
            Status::MemoryLimitExceeded => RecordStatus::MemoryLimitExceeded,
            Status::OutputLimitExceeded => RecordStatus::OutputLimitExceeded,
            Status::FileError => RecordStatus::FileError,
            Status::NonZeroExitStatus => RecordStatus::RuntimeError,
            Status::DangerousSyscall => RecordStatus::RuntimeError,
            Status::Signalled => RecordStatus::RuntimeError,
            Status::InternalError => RecordStatus::SystemError,
        }
    }

    /// Maps an execution status into a record status.
    pub fn from_execute(s: Status) -> (r: RecordStatus)
        ensures
            r == RecordStatus::spec_from_execute(s),
    {
        match s {
            Status::Accepted => RecordStatus::Accepted,
            Status::TimeLimitExceeded => RecordStatus::TimeLimitExceeded,
            Status::MemoryLimitExceeded => RecordStatus::MemoryLimitExceeded,
            Status::OutputLimitExceeded => RecordStatus::OutputLimitExceeded,
            Status::FileError => RecordStatus::FileError,
            Status::NonZeroExitStatus => RecordStatus::RuntimeError,
            Status::DangerousSyscall => RecordStatus::RuntimeError,
            Status::Signalled => RecordStatus::RuntimeError,
            Status::InternalError => RecordStatus::SystemError,
        }
    }

    /// The direct mapping from a checker verdict.
    pub open spec fn spec_from_checker(s: checker::Status) -> RecordStatus {
        match s {
            checker::Status::Accepted => RecordStatus::Accepted,
            checker::Status::WrongAnswer => RecordStatus::WrongAnswer,
            checker::Status::PartiallyCorrect => RecordStatus::PartiallyCorrect,
            checker::Status::PresentationError => RecordStatus::PresentationError,
            checker::Status::SystemError => RecordStatus::SystemError,
        }
    }

    /// Maps a checker verdict into a record status.
    pub fn from_checker(s: checker::Status) -> (r: RecordStatus)
        ensures
            r == RecordStatus::spec_from_checker(s),
    {
        match s {
            checker::Status::Accepted => RecordStatus::Accepted,
            checker::Status::WrongAnswer => RecordStatus::WrongAnswer,
            checker::Status::PartiallyCorrect => RecordStatus::PartiallyCorrect,
            checker::Status::PresentationError => RecordStatus::PresentationError,
            checker::Status::SystemError => RecordStatus::SystemError,
        }
    }
}

/// Decimal digits of `n`, most significant first.
pub open spec fn spec_dec(n: int) -> Seq<u8>
    recommends
        n >= 0,
    decreases n,
{
    if n < 10 {
        seq![(0x30 + n) as u8]
    } else {
        spec_dec(n / 10).push((0x30 + n % 10) as u8)
    }
}

proof fn lemma_dec_digits(n: int)
    requires
        n >= 0,
    ensures
        spec_dec(n).len() >= 1,
        forall|i: int| 0 <= i < spec_dec(n).len() ==> 0x30 <= #[trigger] spec_dec(n)[i] <= 0x39,
    decreases n,
{
    if n >= 10 {
        lemma_dec_digits(n / 10);
    }
}

/// Writes `n` in decimal.
pub fn u64_dec(n: u64) -> (r: Vec<u8>)
    ensures
        r@ == spec_dec(n as int),
        r@.len() >= 1,
        valid_utf8(r@),
    decreases n,
{
    let mut r: Vec<u8>;
    if n < 10 {
        r = Vec::new();
        r.push(0x30 + (n as u8));
        assert(r@ =~= spec_dec(n as int));
    } else {
        r = u64_dec(n / 10);
        r.push(0x30 + ((n % 10) as u8));
        assert(r@ =~= spec_dec(n as int));
    }
    proof {
        lemma_dec_digits(n as int);
        crate::encoding::lemma_ascii_valid(r@);
    }
    r
}

/// Decimal digits of a signed value, with a leading minus sign when it is
/// negative.
pub open spec fn spec_dec_signed(n: int) -> Seq<u8> {
    if n >= 0 {
        spec_dec(n)
    } else {
        seq![0x2du8] + spec_dec(-n)
    }
}

/// Writes a signed value in decimal.
pub fn i32_dec(n: i32) -> (r: Vec<u8>)
    ensures
        r@ == spec_dec_signed(n as int),
        r@.len() >= 1,
        valid_utf8(r@),
{
    if n >= 0 {
        u64_dec(n as u64)
    } else {
        let mag = -(n as i64);
        let mut r: Vec<u8> = Vec::new();
        r.push(0x2d);
        let d = u64_dec(mag as u64);
        append_bytes(&mut r, d.as_slice());
        proof {
            assert(r@ =~= spec_dec_signed(n as int));
            lemma_dec_digits(mag as int);
            assert(forall|i: int| 0 <= i < r@.len() ==> r@[i] < 0x80);
            crate::encoding::lemma_ascii_valid(r@);
        }
        r
    }
}

/// Error for a task that did not execute normally: any non-accepted
/// execution result.
#[derive(Clone, Debug)]
pub struct RuntimeError {
    pub result: ExecuteResult,
}

impl RuntimeError {
    /// Wraps an execution result.
    pub fn from_result(result: ExecuteResult) -> (r: RuntimeError)
        ensures
            r.result == result,
    {
        RuntimeError { result }
    }

    /// The exact text the description renders to.
    pub open spec fn spec_render(self) -> Seq<u8> {
        "task executed failed (status: ".spec_bytes() + self.result.status.spec_name()
            + ", time: ".spec_bytes() + spec_dec(self.result.time_ns as int)
            + " ns, memory: ".spec_bytes() + spec_dec(self.result.memory as int)
            + " bytes, exit code: ".spec_bytes() + spec_dec_signed(self.result.exit_code as int)
            + ")".spec_bytes()
    }

    /// A human-readable description: the status name with the measured
    /// time, memory and exit code.
    pub fn render(&self) -> (r: Vec<u8>)
        ensures
            r@ == self.spec_render(),
            valid_utf8(r@),
            r@.len() > 0,
    {
        let mut m = lit_bytes("task executed failed (status: ");
        let name = self.result.status.name();
        append_valid(&mut m, name.as_slice());
        let part = lit_bytes(", time: ");
        append_valid(&mut m, part.as_slice());
        let t = u64_dec(self.result.time_ns);
        append_valid(&mut m, t.as_slice());
        let part2 = lit_bytes(" ns, memory: ");
        append_valid(&mut m, part2.as_slice());
        let mem = u64_dec(self.result.memory);
        append_valid(&mut m, mem.as_slice());
        let part3 = lit_bytes(" bytes, exit code: ");
        append_valid(&mut m, part3.as_slice());
        let code = i32_dec(self.result.exit_code);
        append_valid(&mut m, code.as_slice());
        let part4 = lit_bytes(")");
        append_valid(&mut m, part4.as_slice());
        assert(m@.len() > 0) by {
            assert(t@.len() >= 1);
        }
        assert(m@ =~= self.spec_render());
        m
    }
}

/// Error for a program that failed to compile, with the compiler's output.
#[derive(Clone, Debug)]
pub struct CompileError {
    pub result: ExecuteResult,
    /// Compiler output, usually the error text.
    pub message: Vec<u8>,
}

/// A judge record of a solution running a single test.
#[derive(Clone, Debug)]
pub struct Record {
    /// Judge status.
    pub status: RecordStatus,
    /// Run time in nanoseconds.
    pub time_ns: u64,
    /// Memory in bytes.
    pub memory: u64,
    /// Exit code.
    pub exit_code: i32,
    /// Score in millionths; [`SCORE_UNIT`] is full score.
    pub score: u64,
    /// A message for human reading.
    pub message: Vec<u8>,
}

impl Record {
    /// A well-formed record: score within `[0, 1]`, message valid UTF-8.
    pub open spec fn wf(self) -> bool {
        &&& self.score <= SCORE_UNIT
        &&& valid_utf8(self.message@)
    }

    /// The record of a test that has not been judged yet.
    pub fn new_waiting() -> (r: Record)
        ensures
            r.status == RecordStatus::Waiting,
            r.time_ns == 0 && r.memory == 0 && r.exit_code == -1,
            r.score == 0,
            r.wf(),
    {
        Record {
            status: RecordStatus::Waiting,
            time_ns: 0,
            memory: 0,
            exit_code: -1,
            score: 0,
            message: lit_bytes("waiting"),
        }
    }

    /// The record of a test skipped because a dependency scored zero.
    pub fn new_skipped() -> (r: Record)
        ensures
            r.status == RecordStatus::Skipped,
            r.time_ns == 0 && r.memory == 0 && r.exit_code == -1,
            r.score == 0,
            r.wf(),
    {
        Record {
            status: RecordStatus::Skipped,
            time_ns: 0,
            memory: 0,
            exit_code: -1,
            score: 0,
            message: lit_bytes("skipped"),
        }
    }

    /// A record for a failure outside the solution's own run, such as a
    /// broken checker or transport; the message is repaired to valid UTF-8.
    pub fn new_system_error(message: &[u8]) -> (r: Record)
        ensures
            r.status == RecordStatus::SystemError,
            r.time_ns == 0 && r.memory == 0 && r.exit_code == -1,
            r.score == 0,
            r.message@ == spec_sanitize(message@),
            r.wf(),
    {
        Record {
            status: RecordStatus::SystemError,
            time_ns: 0,
            memory: 0,
            exit_code: -1,
            score: 0,
            message: utf8_sanitize(message),
        }
    }

    /// The record of a run that was interrupted (did not exit normally):
    /// the mapped execution status with zero score.
    pub fn new_interrupted(result: &ExecuteResult) -> (r: Record)
        ensures
            r.status == RecordStatus::spec_from_execute(result.status),
            r.time_ns == result.time_ns,
            r.memory == result.memory,
            r.exit_code == result.exit_code,
            r.score == 0,
            r.message@ == (RuntimeError { result: *result }).spec_render(),
            r.message@.len() > 0,
            r.wf(),
    {
        let err = RuntimeError { result: result.clone() };
        let message = err.render();
        Record {
            status: RecordStatus::from_execute(result.status),
            time_ns: result.time_ns,
            memory: result.memory,
            exit_code: result.exit_code,
            score: 0,
            message,
        }
    }

    /// The record of a run judged by the checker: the checker's status and
    /// score with the run's measurements.
    pub fn new_checked(result: &ExecuteResult, output: &checker::Output) -> (r: Record)
        requires
            output.wf(),
        ensures
            r.status == RecordStatus::spec_from_checker(output.status),
            r.time_ns == result.time_ns,
            r.memory == result.memory,
            r.exit_code == result.exit_code,
            r.score == output.score,
            r.message@ == output.message@,
            r.wf(),
    {
        Record {
            status: RecordStatus::from_checker(output.status),
            time_ns: result.time_ns,
            memory: result.memory,
            exit_code: result.exit_code,
            score: output.score,
            message: output.message.clone(),
        }
    }
}

} // verus!
