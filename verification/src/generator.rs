//! The generate primitive: running a generator whose standard output
//! becomes a test input file.

use vstd::prelude::*;
use vstd::string::StringExecFns;

use crate::etc::JudgeCfg;
use crate::program::{concat_args, strs_concat, Executable};
use crate::record::RuntimeError;
use crate::sandbox::file::FileHandle;
use crate::sandbox::request::Cmd;
use crate::sandbox::response::{ResponseResult, Status};

verus! {

/// A generator program.
#[derive(Debug, Clone)]
pub struct Generator {
    pub program: Executable,
}

impl Generator {
    /// Wraps a compiled program.
    pub fn from_executable(program: Executable) -> (r: Generator)
        ensures
            r.program == program,
    {
        Generator { program }
    }

    /// Builds the sandbox command that runs this generator: the language's
    /// run command line plus `args`, the executable and extra files
    /// materialised, standard output kept sandbox-side.
    pub fn generate_request(
        &self,
        args: &Vec<String>,
        copy_in: Vec<(String, FileHandle)>,
        judge: &JudgeCfg,
    ) -> (r: Cmd)
        ensures
            r.args.deep_view() == strs_concat(self.program.lang.spec_cfg().run_cmd@, args@),
            r.copy_in@.len() == copy_in@.len() + 1,
            forall|k: int|
                0 <= k < copy_in@.len() ==> #[trigger] r.copy_in@[k].0@ == copy_in@[k].0@
                    && r.copy_in@[k].1.spec_id() == copy_in@[k].1.spec_id(),
            r.copy_in@.last().0@ == self.program.lang.spec_cfg().exec_file@,
            r.copy_in@.last().1.spec_id() == self.program.file.spec_id(),
            r.copy_out_cached.deep_view() == seq!["stdout"@],
            r.copy_out.deep_view() == seq!["stderr"@],
            r.stdin is None,
            r.time_limit_ns == judge.time_limit_ns,
            r.memory_limit == judge.memory_limit,
    {
        let mut cmd = Cmd::with_defaults(judge);
        cmd.args = concat_args(self.program.lang.run_cmd(), args);
        let mut files = copy_in;
        files.push((String::from_str(self.program.lang.exec_file()), self.program.file.share()));
        cmd.copy_in = files;
        let mut outs: Vec<String> = Vec::new();
        outs.push(String::from_str("stderr"));
        cmd.copy_out = outs;
        let mut cached: Vec<String> = Vec::new();
        cached.push(String::from_str("stdout"));
        cmd.copy_out_cached = cached;
        proof {
            assert(cmd.copy_out.deep_view() =~= seq!["stderr"@]);
            assert(cmd.copy_out_cached.deep_view() =~= seq!["stdout"@]);
        }
        cmd
    }
}

/// Reads a generate response: `Ok` with the generated file exactly when
/// the run was accepted and exported its standard output; any other
/// result is a runtime error carrying it.
pub fn generate_result(res: &ResponseResult) -> (r: Result<FileHandle, RuntimeError>)
    ensures
        match r {
            Ok(h) => res.result.status == Status::Accepted && exists|i: int|
                0 <= i < res.files@.len() && #[trigger] res.files@[i].0@ == "stdout"@
                    && res.files@[i].1.spec_id() == h.spec_id(),
            Err(e) => e.result == res.result && (res.result.status == Status::Accepted
                ==> forall|i: int|
                0 <= i < res.files@.len() ==> #[trigger] res.files@[i].0@ != "stdout"@),
        },
{
    if matches!(res.result.status, Status::Accepted) {
        match res.file("stdout") {
            Some(h) => {
                return Ok(h.share());
            },
            None => {
                return Err(RuntimeError { result: res.result });
            },
        }
    }
    Err(RuntimeError { result: res.result })
}

} // verus!
