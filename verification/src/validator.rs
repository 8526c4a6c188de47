//! Validators and the testlib overview-log grammar.
//!
//! A validator writes an overview log: one line per read variable saying
//! whether its minimum and maximum were hit, and one line per declared
//! feature saying whether it was hit.  The parser reads that log into
//! plain values.

use vstd::prelude::*;
use vstd::string::StringExecFns;
use vstd::string::StringSliceAdditionalSpecFns;

use crate::encoding::{spec_sanitize, utf8_sanitize};
use crate::etc::JudgeCfg;
use crate::program::{concat_args, strs_concat, Executable};
use crate::record::RuntimeError;
use crate::sandbox::file::FileHandle;
use crate::sandbox::request::Cmd;
use crate::sandbox::response::{ResponseResult, Status};
use crate::text::{copy_range, ends_with, eq_bytes, lines, spec_lines, starts_with};

verus! {

/// Whether a validated variable hit the bounds it was read against.
#[derive(Clone, Copy, Debug, PartialEq, Eq, Structural)]
pub struct VariableBounds {
    pub hit_min: bool,
    pub hit_max: bool,
}

/// A parsed validator overview: per-variable bound coverage and feature
/// coverage, in log order; a later entry for the same name shadows an
/// earlier one.
#[derive(Debug, Clone)]
pub struct Overview {
    pub variables: Vec<(Vec<u8>, VariableBounds)>,
    pub features: Vec<(Vec<u8>, bool)>,
}

/// The variable entry a log line carries: its name and which bounds were
/// hit, for a line of the form `"name":[ min-value-hit][ max-value-hit]`.
pub open spec fn spec_var_line(l: Seq<u8>) -> Option<(Seq<u8>, bool, bool)> {
    let both = "\": min-value-hit max-value-hit".spec_bytes();
    let min_only = "\": min-value-hit".spec_bytes();
    let max_only = "\": max-value-hit".spec_bytes();
    let bare = "\":".spec_bytes();
    if l.len() > both.len() && l[0] == 0x22 && both.is_suffix_of(l) {
        Some((l.subrange(1, l.len() - both.len()), true, true))
    } else if l.len() > min_only.len() && l[0] == 0x22 && min_only.is_suffix_of(l) {
        Some((l.subrange(1, l.len() - min_only.len()), true, false))
    } else if l.len() > max_only.len() && l[0] == 0x22 && max_only.is_suffix_of(l) {
        Some((l.subrange(1, l.len() - max_only.len()), false, true))
    } else if l.len() > bare.len() && l[0] == 0x22 && bare.is_suffix_of(l) {
        Some((l.subrange(1, l.len() - bare.len()), false, false))
    } else {
        None
    }
}

/// The feature entry a log line carries, for a line of the form
/// `feature "name":[ hit]`.
pub open spec fn spec_feature_line(l: Seq<u8>) -> Option<(Seq<u8>, bool)> {
    let pfx = "feature \"".spec_bytes();
    let hit = "\": hit".spec_bytes();
    let bare = "\":".spec_bytes();
    if l.len() >= pfx.len() + hit.len() && pfx.is_prefix_of(l) && hit.is_suffix_of(l) {
        Some((l.subrange(pfx.len() as int, l.len() - hit.len()), true))
    } else if l.len() >= pfx.len() + bare.len() && pfx.is_prefix_of(l) && bare.is_suffix_of(l) {
        Some((l.subrange(pfx.len() as int, l.len() - bare.len()), false))
    } else {
        None
    }
}

/// The variable entries of all lines, in order.
pub open spec fn spec_collect_vars(ls: Seq<Seq<u8>>) -> Seq<(Seq<u8>, bool, bool)>
    decreases ls.len(),
{
    if ls.len() == 0 {
        Seq::empty()
    } else {
        let rest = spec_collect_vars(ls.drop_first());
        match spec_var_line(ls[0]) {
            Some(e) => seq![e] + rest,
            None => rest,
        }
    }
}

/// The feature entries of all lines, in order.
pub open spec fn spec_collect_features(ls: Seq<Seq<u8>>) -> Seq<(Seq<u8>, bool)>
    decreases ls.len(),
{
    if ls.len() == 0 {
        Seq::empty()
    } else {
        let rest = spec_collect_features(ls.drop_first());
        match spec_feature_line(ls[0]) {
            Some(e) => seq![e] + rest,
            None => rest,
        }
    }
}

impl Overview {
    /// Parses a validator overview log (repaired to valid UTF-8 first):
    /// every line of the variable form contributes a variable entry, every
    /// line of the feature form a feature entry, in log order.
    pub fn parse(s: &[u8]) -> (r: Overview)
        ensures
            ({
                let cv = spec_collect_vars(spec_lines(spec_sanitize(s@)));
                &&& r.variables@.len() == cv.len()
                &&& forall|k: int|
                    0 <= k < cv.len() ==> (#[trigger] r.variables@[k]).0@ == cv[k].0
                        && r.variables@[k].1.hit_min == cv[k].1 && r.variables@[k].1.hit_max
                        == cv[k].2
            }),
            ({
                let cf = spec_collect_features(spec_lines(spec_sanitize(s@)));
                &&& r.features@.len() == cf.len()
                &&& forall|k: int|
                    0 <= k < cf.len() ==> (#[trigger] r.features@[k]).0@ == cf[k].0
                        && r.features@[k].1 == cf[k].1
            }),
    {
        let t = utf8_sanitize(s);
        let ls = lines(t.as_slice());
        let ghost lseq = spec_lines(t@);
        let n = ls.len();
        let mut variables: Vec<(Vec<u8>, VariableBounds)> = Vec::new();
        let mut features: Vec<(Vec<u8>, bool)> = Vec::new();
        let mut i: usize = 0;
        proof {
            assert(lseq.skip(0) =~= lseq);
        }
        while i < n
            invariant
                0 <= i <= n == ls@.len(),
                ls.deep_view() == lseq,
                spec_collect_vars(lseq) == variables@.map_values(
                    |p: (Vec<u8>, VariableBounds)| (p.0@, p.1.hit_min, p.1.hit_max),
                ) + spec_collect_vars(lseq.skip(i as int)),
                spec_collect_features(lseq) == features@.map_values(
                    |p: (Vec<u8>, bool)| (p.0@, p.1),
                ) + spec_collect_features(lseq.skip(i as int)),
            decreases n - i,
        {
            let l = ls[i].as_slice();
            proof {
                assert(lseq[i as int] == ls@[i as int].deep_view());
                assert(lseq[i as int] =~= l@);
                assert(lseq.skip(i as int)[0] == lseq[i as int]);
                assert(lseq.skip(i as int).drop_first() =~= lseq.skip(i + 1 as int));
            }
            let ghost prev_vars = variables@;
            let ghost prev_feats = features@;
            match var_line(l) {
                Some(e) => {
                    variables.push(e);
                    proof {
                        assert(variables@.map_values(
                            |p: (Vec<u8>, VariableBounds)| (p.0@, p.1.hit_min, p.1.hit_max),
                        ) =~= prev_vars.map_values(
                            |p: (Vec<u8>, VariableBounds)| (p.0@, p.1.hit_min, p.1.hit_max),
                        ) + seq![spec_var_line(lseq[i as int]).unwrap()]);
                    }
                },
                None => {},
            }
            match feature_line(l) {
                Some(e) => {
                    features.push(e);
                    proof {
                        assert(features@.map_values(|p: (Vec<u8>, bool)| (p.0@, p.1))
                            =~= prev_feats.map_values(|p: (Vec<u8>, bool)| (p.0@, p.1)) + seq![
                            spec_feature_line(lseq[i as int]).unwrap(),
                        ]);
                    }
                },
                None => {},
            }
            i += 1;
        }
        proof {
            assert(lseq.skip(n as int) =~= Seq::<Seq<u8>>::empty());
            assert(spec_collect_vars(lseq.skip(n as int)) =~= Seq::<(Seq<u8>, bool, bool)>::empty());
            assert(spec_collect_features(lseq.skip(n as int)) =~= Seq::<(Seq<u8>, bool)>::empty());
            assert(variables@.map_values(
                |p: (Vec<u8>, VariableBounds)| (p.0@, p.1.hit_min, p.1.hit_max),
            ) + Seq::<(Seq<u8>, bool, bool)>::empty() =~= variables@.map_values(
                |p: (Vec<u8>, VariableBounds)| (p.0@, p.1.hit_min, p.1.hit_max),
            ));
            assert(features@.map_values(|p: (Vec<u8>, bool)| (p.0@, p.1)) + Seq::<
                (Seq<u8>, bool),
            >::empty() =~= features@.map_values(|p: (Vec<u8>, bool)| (p.0@, p.1)));
        }
        Overview { variables, features }
    }

    /// The bounds recorded for `name`, taking the last entry when the log
    /// mentioned it more than once.
    pub fn get_variable(&self, name: &[u8]) -> (r: Option<VariableBounds>)
        ensures
            match r {
                Some(b) => exists|k: int|
                    0 <= k < self.variables@.len() && (#[trigger] self.variables@[k]).0@ == name@
                        && self.variables@[k].1 == b && (forall|k2: int|
                        k < k2 < self.variables@.len() ==> (#[trigger] self.variables@[k2]).0@
                            != name@),
                None => forall|k: int|
                    0 <= k < self.variables@.len() ==> (#[trigger] self.variables@[k]).0@ != name@,
            },
    {
        let n = self.variables.len();
        let mut i: usize = n;
        while i > 0
            invariant
                0 <= i <= n == self.variables@.len(),
                forall|k: int|
                    i <= k < self.variables@.len() ==> (#[trigger] self.variables@[k]).0@
                        != name@,
            decreases i,
        {
            i -= 1;
            if eq_bytes(self.variables[i].0.as_slice(), name) {
                proof {
                    assert((self.variables@[i as int]).0@ == name@);
                }
                return Some(self.variables[i].1);
            }
        }
        None
    }

    /// Whether the feature `name` was hit, taking the last entry.
    pub fn get_feature(&self, name: &[u8]) -> (r: Option<bool>)
        ensures
            match r {
                Some(b) => exists|k: int|
                    0 <= k < self.features@.len() && (#[trigger] self.features@[k]).0@ == name@
                        && self.features@[k].1 == b && (forall|k2: int|
                        k < k2 < self.features@.len() ==> (#[trigger] self.features@[k2]).0@
                            != name@),
                None => forall|k: int|
                    0 <= k < self.features@.len() ==> (#[trigger] self.features@[k]).0@ != name@,
            },
    {
        let n = self.features.len();
        let mut i: usize = n;
        while i > 0
            invariant
                0 <= i <= n == self.features@.len(),
                forall|k: int|
                    i <= k < self.features@.len() ==> (#[trigger] self.features@[k]).0@ != name@,
            decreases i,
        {
            i -= 1;
            if eq_bytes(self.features[i].0.as_slice(), name) {
                proof {
                    assert((self.features@[i as int]).0@ == name@);
                }
                return Some(self.features[i].1);
            }
        }
        None
    }
}

/// Reads one line as a variable entry.
fn var_line(l: &[u8]) -> (r: Option<(Vec<u8>, VariableBounds)>)
    ensures
        match r {
            Some(e) => spec_var_line(l@) == Some((e.0@, e.1.hit_min, e.1.hit_max)),
            None => spec_var_line(l@) is None,
        },
{
    let both = "\": min-value-hit max-value-hit".as_bytes();
    let min_only = "\": min-value-hit".as_bytes();
    let max_only = "\": max-value-hit".as_bytes();
    let bare = "\":".as_bytes();
    if l.len() > both.len() && l[0] == 0x22 && ends_with(l, both) {
        let name = copy_range(l, 1, l.len() - both.len());
        return Some((name, VariableBounds { hit_min: true, hit_max: true }));
    }
    if l.len() > min_only.len() && l[0] == 0x22 && ends_with(l, min_only) {
        let name = copy_range(l, 1, l.len() - min_only.len());
        return Some((name, VariableBounds { hit_min: true, hit_max: false }));
    }
    if l.len() > max_only.len() && l[0] == 0x22 && ends_with(l, max_only) {
        let name = copy_range(l, 1, l.len() - max_only.len());
        return Some((name, VariableBounds { hit_min: false, hit_max: true }));
    }
    if l.len() > bare.len() && l[0] == 0x22 && ends_with(l, bare) {
        let name = copy_range(l, 1, l.len() - bare.len());
        return Some((name, VariableBounds { hit_min: false, hit_max: false }));
    }
    None
}

/// Reads one line as a feature entry.
fn feature_line(l: &[u8]) -> (r: Option<(Vec<u8>, bool)>)
    ensures
        match r {
            Some(e) => spec_feature_line(l@) == Some((e.0@, e.1)),
            None => spec_feature_line(l@) is None,
        },
{
    let pfx = "feature \"".as_bytes();
    let hit = "\": hit".as_bytes();
    let bare = "\":".as_bytes();
    if l.len() >= pfx.len() && l.len() - pfx.len() >= hit.len() && starts_with(l, pfx)
        && ends_with(l, hit) {
        let name = copy_range(l, pfx.len(), l.len() - hit.len());
        return Some((name, true));
    }
    if l.len() >= pfx.len() && l.len() - pfx.len() >= bare.len() && starts_with(l, pfx)
        && ends_with(l, bare) {
        let name = copy_range(l, pfx.len(), l.len() - bare.len());
        return Some((name, false));
    }
    None
}

/// A validator program.
#[derive(Debug, Clone)]
pub struct Validator {
    pub program: Executable,
}

impl Validator {
    /// Wraps a compiled program.
    pub fn from_executable(program: Executable) -> (r: Validator)
        ensures
            r.program == program,
    {
        Validator { program }
    }

    /// Builds the sandbox command that runs this validator over `input`:
    /// the language's run command line plus `args` plus the overview-log
    /// flag, standard input bound to the test input, standard error and
    /// the overview log exported.
    pub fn validate_request(
        &self,
        args: &Vec<String>,
        input: FileHandle,
        copy_in: Vec<(String, FileHandle)>,
        judge: &JudgeCfg,
    ) -> (r: Cmd)
        ensures
            r.args.deep_view() == strs_concat(self.program.lang.spec_cfg().run_cmd@, args@)
                + seq!["--testOverviewLogFileName"@, "val.log"@],
            r.copy_in@.len() == copy_in@.len() + 1,
            forall|k: int|
                0 <= k < copy_in@.len() ==> #[trigger] r.copy_in@[k].0@ == copy_in@[k].0@
                    && r.copy_in@[k].1.spec_id() == copy_in@[k].1.spec_id(),
            r.copy_in@.last().0@ == self.program.lang.spec_cfg().exec_file@,
            r.copy_in@.last().1.spec_id() == self.program.file.spec_id(),
            match r.stdin {
                Some(h) => h.spec_id() == input.spec_id(),
                None => false,
            },
            r.copy_out.deep_view() == seq!["stderr"@, "val.log"@],
            r.time_limit_ns == judge.time_limit_ns,
            r.memory_limit == judge.memory_limit,
    {
        let mut cmd = Cmd::with_defaults(judge);
        let mut args2 = concat_args(self.program.lang.run_cmd(), args);
        let ghost base = args2.deep_view();
        args2.push(String::from_str("--testOverviewLogFileName"));
        args2.push(String::from_str("val.log"));
        proof {
            assert(args2.deep_view() =~= base + seq!["--testOverviewLogFileName"@, "val.log"@]);
        }
        cmd.args = args2;
        cmd.stdin = Some(input);
        let mut files = copy_in;
        files.push((String::from_str(self.program.lang.exec_file()), self.program.file.share()));
        cmd.copy_in = files;
        let mut outs: Vec<String> = Vec::new();
        outs.push(String::from_str("stderr"));
        outs.push(String::from_str("val.log"));
        cmd.copy_out = outs;
        proof {
            assert(cmd.copy_out.deep_view() =~= seq!["stderr"@, "val.log"@]);
        }
        cmd
    }
}

/// Reads a validate response: the parsed overview of the exported log
/// exactly when the run was accepted (the caller fetches the log's bytes
/// first); any other result is a runtime error carrying it.
pub fn validate_result(res: &ResponseResult, log: &[u8]) -> (r: Result<Overview, RuntimeError>)
    ensures
        res.result.status == Status::Accepted <==> r is Ok,
        match r {
            Ok(ov) => {
                let cv = spec_collect_vars(spec_lines(spec_sanitize(log@)));
                let cf = spec_collect_features(spec_lines(spec_sanitize(log@)));
                &&& ov.variables@.len() == cv.len()
                &&& forall|k: int|
                    0 <= k < cv.len() ==> (#[trigger] ov.variables@[k]).0@ == cv[k].0
                        && ov.variables@[k].1.hit_min == cv[k].1 && ov.variables@[k].1.hit_max
                        == cv[k].2
                &&& ov.features@.len() == cf.len()
                &&& forall|k: int|
                    0 <= k < cf.len() ==> (#[trigger] ov.features@[k]).0@ == cf[k].0
                        && ov.features@[k].1 == cf[k].1
            },
            Err(e) => e.result == res.result,
        },
{
    if matches!(res.result.status, Status::Accepted) {
        Ok(Overview::parse(log))
    } else {
        Err(RuntimeError { result: res.result })
    }
}

} // verus!
