//! Typed results of a sandbox execution.

use vstd::prelude::*;
use vstd::string::StringSliceAdditionalSpecFns;

use crate::encoding::lit_bytes;
use crate::sandbox::file::FileHandle;

verus! {

/// Status of one executed command, as the sandbox reports it.
/// `Accepted` means the command exited with code zero within its limits.
#[derive(Clone, Copy, Debug, PartialEq, Eq, Structural)]
pub enum Status {
    Accepted,
    TimeLimitExceeded,
    MemoryLimitExceeded,
    OutputLimitExceeded,
    FileError,
    NonZeroExitStatus,
    DangerousSyscall,
    Signalled,
    InternalError,
}

impl Status {
    /// The snake-case name of this status.
    pub open spec fn spec_name(self) -> Seq<u8> {
        match self {
            Status::Accepted => "accepted".spec_bytes(),
            Status::TimeLimitExceeded => "time_limit_exceeded".spec_bytes(),
            Status::MemoryLimitExceeded => "memory_limit_exceeded".spec_bytes(),
            Status::OutputLimitExceeded => "output_limit_exceeded".spec_bytes(),
            Status::FileError => "file_error".spec_bytes(),
            Status::NonZeroExitStatus => "non_zero_exit_status".spec_bytes(),
            Status::DangerousSyscall => "dangerous_syscall".spec_bytes(),
            Status::Signalled => "signalled".spec_bytes(),
            Status::InternalError => "internal_error".spec_bytes(),
        }
    }

    /// The snake-case name of this status, as bytes.
    pub fn name(&self) -> (r: Vec<u8>)
        ensures
            r@ == self.spec_name(),
            vstd::utf8::valid_utf8(r@),
    {
        match self {
            Status::Accepted => lit_bytes("accepted"),
            Status::TimeLimitExceeded => lit_bytes("time_limit_exceeded"),
            Status::MemoryLimitExceeded => lit_bytes("memory_limit_exceeded"),
            Status::OutputLimitExceeded => lit_bytes("output_limit_exceeded"),
            Status::FileError => lit_bytes("file_error"),
            Status::NonZeroExitStatus => lit_bytes("non_zero_exit_status"),
            Status::DangerousSyscall => lit_bytes("dangerous_syscall"),
            Status::Signalled => lit_bytes("signalled"),
            Status::InternalError => lit_bytes("internal_error"),
        }
    }
}

/// Execution outcome of one command: status, CPU time in nanoseconds,
/// memory in bytes, and the exit code.
#[derive(Clone, Copy, Debug, PartialEq, Eq, Structural)]
pub struct ExecuteResult {
    pub status: Status,
    pub time_ns: u64,
    pub memory: u64,
    pub exit_code: i32,
}

/// Result of one command together with the files it exported, each as a
/// name paired with a handle to the sandbox-side file.
#[derive(Clone, Debug)]
pub struct ResponseResult {
    pub result: ExecuteResult,
    pub files: Vec<(String, FileHandle)>,
}

impl ResponseResult {
    /// The handle exported under `name`, if any.
    pub fn file(&self, name: &str) -> (r: Option<&FileHandle>)
        ensures
            match r {
                Some(h) => exists|i: int|
                    0 <= i < self.files@.len() && #[trigger] self.files@[i].0@ == name@
                        && self.files@[i].1 == *h,
                None => forall|i: int|
                    0 <= i < self.files@.len() ==> #[trigger] self.files@[i].0@ != name@,
            },
    {
        let n = self.files.len();
        let mut i: usize = 0;
        while i < n
            invariant
                0 <= i <= n == self.files@.len(),
                forall|j: int| 0 <= j < i ==> #[trigger] self.files@[j].0@ != name@,
            decreases n - i,
        {
            if crate::text::eq_str(self.files[i].0.as_str(), name) {
                return Some(&self.files[i].1);
            }
            i += 1;
        }
        None
    }
}

/// What went wrong with one file of a command's schema, as the sandbox
/// reports it in a failed result.
#[derive(Clone, Copy, Debug, PartialEq, Eq, Structural)]
pub enum FileErrorType {
    CopyInOpenFile,
    CopyInCreateFile,
    CopyInCopyContent,
    CopyOutOpen,
    CopyOutNotRegularFile,
    CopyOutSizeExceeded,
    CopyOutCreateFile,
    CopyOutCopyContent,
    CollectSizeExceeded,
}

/// A detailed file error of a failed command.
#[derive(Clone, Debug)]
pub struct FileError {
    /// The file name the error is about.
    pub name: String,
    pub error_type: FileErrorType,
    /// A detailed message, when the sandbox gives one.
    pub message: Option<String>,
}

/// A transport failure while talking to the sandbox.
#[derive(Clone, Debug)]
pub struct SandboxError {
    pub message: String,
}

} // verus!
