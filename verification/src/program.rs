//! Sources and executables, and the compile primitive: building the
//! sandbox command for a compilation and reading its result.

use vstd::prelude::*;
use vstd::string::StringExecFns;
use vstd::utf8::valid_utf8;

use crate::data::Provider;
use crate::encoding::{limit_message, spec_limit, spec_sanitize, utf8_sanitize, MESSAGE_LIMIT};
use crate::etc::{dup_strings, JudgeCfg};
use crate::lang::Lang;
use crate::record::CompileError;
use crate::sandbox::file::FileHandle;
use crate::sandbox::request::Cmd;
use crate::sandbox::response::{ResponseResult, Status};

verus! {

/// A program source: its language and its code.
#[derive(Debug, Clone)]
pub struct Source {
    pub lang: Lang,
    pub data: Provider,
}

/// A compiled program: its language and the sandbox file holding its
/// executable.
#[derive(Debug, Clone)]
pub struct Executable {
    pub lang: Lang,
    pub file: FileHandle,
}

/// Concatenation of two string lists, by content.
pub open spec fn strs_concat(a: Seq<String>, b: Seq<String>) -> Seq<Seq<char>> {
    a.map_values(|s: String| s@) + b.map_values(|s: String| s@)
}

/// Builds `a ++ b` as a fresh vector.
pub fn concat_args(a: &Vec<String>, b: &Vec<String>) -> (r: Vec<String>)
    ensures
        r.deep_view() == strs_concat(a@, b@),
{
    let mut r = dup_strings(a);
    let more = dup_strings(b);
    let n = more.len();
    let mut i: usize = 0;
    proof {
        assert forall|j: int| 0 <= j < a@.len() implies #[trigger] r@[j]@ == a@[j]@ by {
            assert(r.deep_view()[j] == a.deep_view()[j]);
        }
    }
    while i < n
        invariant
            0 <= i <= n == more@.len() == b@.len(),
            more.deep_view() == b.deep_view(),
            r@.len() == a@.len() + i,
            forall|j: int| 0 <= j < a@.len() ==> #[trigger] r@[j]@ == a@[j]@,
            forall|j: int| 0 <= j < i ==> #[trigger] r@[a@.len() + j]@ == b@[j]@,
        decreases n - i,
    {
        proof {
            assert(more.deep_view()[i as int] == b.deep_view()[i as int]);
        }
        r.push(more[i].clone());
        i += 1;
    }
    proof {
        assert forall|j: int|
            0 <= j < r.deep_view().len() implies r.deep_view()[j] == strs_concat(a@, b@)[j] by {
            assert(r.deep_view()[j] == r@[j]@);
            if j >= a@.len() {
                assert(r@[a@.len() + (j - a@.len())]@ == b@[j - a@.len()]@);
            }
        }
        assert(r.deep_view() =~= strs_concat(a@, b@));
    }
    r
}

/// Builds the sandbox command that compiles `code`: the language's compile
/// command line plus `args`, the code file under the language's source
/// name, the extra files as given, and the executable kept sandbox-side.
pub fn compile_request(
    lang: &Lang,
    args: &Vec<String>,
    code: FileHandle,
    copy_in: Vec<(String, FileHandle)>,
    judge: &JudgeCfg,
) -> (r: Cmd)
    ensures
        r.args.deep_view() == strs_concat(lang.spec_cfg().compile_cmd@, args@),
        r.copy_in@.len() == copy_in@.len() + 1,
        forall|k: int|
            0 <= k < copy_in@.len() ==> #[trigger] r.copy_in@[k].0@ == copy_in@[k].0@
                && r.copy_in@[k].1.spec_id() == copy_in@[k].1.spec_id(),
        r.copy_in@.last().0@ == lang.spec_cfg().source@,
        r.copy_in@.last().1.spec_id() == code.spec_id(),
        r.copy_out.deep_view() == seq!["stderr"@],
        r.copy_out_cached.deep_view() == seq![lang.spec_cfg().exec_file@],
        r.stdin is None,
        r.time_limit_ns == judge.time_limit_ns,
        r.memory_limit == judge.memory_limit,
        r.proc_limit == judge.process_limit,
{
    let mut cmd = Cmd::with_defaults(judge);
    cmd.args = concat_args(lang.compile_cmd(), args);
    let mut files = copy_in;
    files.push((String::from_str(lang.source()), code));
    cmd.copy_in = files;
    let mut outs: Vec<String> = Vec::new();
    outs.push(String::from_str("stderr"));
    cmd.copy_out = outs;
    let mut cached: Vec<String> = Vec::new();
    cached.push(String::from_str(lang.exec_file()));
    cmd.copy_out_cached = cached;
    proof {
        assert(cmd.copy_out.deep_view() =~= seq!["stderr"@]);
        assert(cmd.copy_out_cached.deep_view() =~= seq![lang.spec_cfg().exec_file@]);
    }
    cmd
}

/// Reads a compile response: `Ok` with the cached executable exactly when
/// the compiler was accepted and exported one; otherwise a compile error
/// carrying the result and the compiler's output, repaired to valid UTF-8
/// and truncated to the message limit.
pub fn compile_result(lang: &Lang, res: &ResponseResult, stderr: &[u8]) -> (r: Result<
    Executable,
    CompileError,
>)
    ensures
        match r {
            Ok(e) => res.result.status == Status::Accepted && e.lang.spec_name()
                == lang.spec_name() && exists|i: int|
                0 <= i < res.files@.len() && #[trigger] res.files@[i].0@
                    == lang.spec_cfg().exec_file@ && res.files@[i].1.spec_id()
                    == e.file.spec_id(),
            Err(e) => e.result == res.result && e.message@ == spec_limit(spec_sanitize(stderr@))
                && valid_utf8(e.message@) && e.message@.len() <= MESSAGE_LIMIT
                && (res.result.status == Status::Accepted ==> forall|i: int|
                0 <= i < res.files@.len() ==> #[trigger] res.files@[i].0@
                    != lang.spec_cfg().exec_file@),
        },
        r is Err ==> res.result.status != Status::Accepted || forall|i: int|
            0 <= i < res.files@.len() ==> #[trigger] res.files@[i].0@
                != lang.spec_cfg().exec_file@,
{
    if matches!(res.result.status, Status::Accepted) {
        match res.file(lang.exec_file()) {
            Some(h) => {
                return Ok(Executable { lang: lang.dup(), file: h.share() });
            },
            None => {
                let text = utf8_sanitize(stderr);
                return Err(
                    CompileError {
                        result: res.result,
                        message: limit_message(text.as_slice()),
                    },
                );
            },
        }
    }
    let text = utf8_sanitize(stderr);
    Err(CompileError { result: res.result, message: limit_message(text.as_slice()) })
}

} // verus!
