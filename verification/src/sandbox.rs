//! Model of the sandbox service as the judging core sees it: execution
//! statuses and results, file handles, and the commands sent to it.
//!
//! The transport itself (the RPC client) lives outside the verified library;
//! the code here builds requests and interprets results as plain values.

pub mod file;
pub mod request;
pub mod response;

pub use file::FileHandle;
pub use request::{Cmd, PipeIndex, PipeMap, Request};
pub use response::{ExecuteResult, FileError, FileErrorType, ResponseResult, SandboxError, Status};
