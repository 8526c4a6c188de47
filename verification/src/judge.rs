//! The batch-judging primitive: running a solution over a test input under
//! the subtask's limits, collecting its standard output.

use vstd::prelude::*;
use vstd::string::StringExecFns;

use crate::etc::JudgeCfg;
use crate::program::{concat_args, strs_concat, Executable};
use crate::sandbox::file::FileHandle;
use crate::sandbox::request::Cmd;
use crate::sandbox::response::{ExecuteResult, ResponseResult, Status};

verus! {

impl Executable {
    /// Builds the sandbox command that runs this executable on `input`
    /// under the given limits: the language's run command line plus
    /// `args`, standard input bound to the test input, standard output
    /// kept sandbox-side, standard error exported.
    pub fn judge_batch_request(
        &self,
        args: &Vec<String>,
        input: FileHandle,
        copy_in: Vec<(String, FileHandle)>,
        time_limit_ns: u64,
        memory_limit: u64,
        judge: &JudgeCfg,
    ) -> (r: Cmd)
        ensures
            r.args.deep_view() == strs_concat(self.lang.spec_cfg().run_cmd@, args@),
            r.copy_in@.len() == copy_in@.len() + 1,
            forall|k: int|
                0 <= k < copy_in@.len() ==> #[trigger] r.copy_in@[k].0@ == copy_in@[k].0@
                    && r.copy_in@[k].1.spec_id() == copy_in@[k].1.spec_id(),
            r.copy_in@.last().0@ == self.lang.spec_cfg().exec_file@,
            r.copy_in@.last().1.spec_id() == self.file.spec_id(),
            match r.stdin {
                Some(h) => h.spec_id() == input.spec_id(),
                None => false,
            },
            r.copy_out_cached.deep_view() == seq!["stdout"@],
            r.copy_out.deep_view() == seq!["stderr"@],
            r.time_limit_ns == time_limit_ns,
            r.memory_limit == memory_limit,
    {
        let mut cmd = Cmd::with_defaults(judge);
        cmd.args = concat_args(self.lang.run_cmd(), args);
        cmd.time_limit_ns = time_limit_ns;
        cmd.memory_limit = memory_limit;
        cmd.stdin = Some(input);
        let mut files = copy_in;
        files.push((String::from_str(self.lang.exec_file()), self.file.share()));
        cmd.copy_in = files;
        let mut outs: Vec<String> = Vec::new();
        outs.push(String::from_str("stderr"));
        cmd.copy_out = outs;
        let mut cached: Vec<String> = Vec::new();
        cached.push(String::from_str("stdout"));
        cmd.copy_out_cached = cached;
        proof {
            assert(cmd.copy_out.deep_view() =~= seq!["stderr"@]);
            assert(cmd.copy_out_cached.deep_view() =~= seq!["stdout"@]);
        }
        cmd
    }
}

/// Reads a batch-judging response: the execution result always, and the
/// solution's output file exactly when the run was accepted and exported
/// one.  A failed run yields no output handle; its partial output, if any,
/// is the caller's to release.
pub fn judge_batch_result(res: &ResponseResult) -> (r: (ExecuteResult, Option<FileHandle>))
    ensures
        r.0 == res.result,
        match r.1 {
            Some(h) => res.result.status == Status::Accepted && exists|i: int|
                0 <= i < res.files@.len() && #[trigger] res.files@[i].0@ == "stdout"@
                    && res.files@[i].1.spec_id() == h.spec_id(),
            None => res.result.status != Status::Accepted || forall|i: int|
                0 <= i < res.files@.len() ==> #[trigger] res.files@[i].0@ != "stdout"@,
        },
{
    if matches!(res.result.status, Status::Accepted) {
        match res.file("stdout") {
            Some(h) => (res.result, Some(h.share())),
            None => (res.result, None),
        }
    } else {
        (res.result, None)
    }
}

} // verus!
