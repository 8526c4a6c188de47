//! Configuration surface of the judging core: the language table and the
//! default execution limits.  Loading (files, environment) happens outside
//! the library; the values live here as plain data.

use vstd::prelude::*;
use vstd::string::StringExecFns;

verus! {

/// How one programming language is compiled and run.
#[derive(Debug, Clone)]
pub struct LangCfg {
    /// Compiler command line.
    pub compile_cmd: Vec<String>,
    /// Command line that runs the produced executable.
    pub run_cmd: Vec<String>,
    /// Filename the source code is materialised under.
    pub source: String,
    /// Filename of the produced executable.
    pub exec_file: String,
}

/// Default resource limits for sandbox commands.
#[derive(Debug, Clone)]
pub struct JudgeCfg {
    /// Environment variables for every command.
    pub env: Vec<String>,
    /// Default CPU time limit in nanoseconds.
    pub time_limit_ns: u64,
    /// Default memory limit in bytes.
    pub memory_limit: u64,
    /// Default process count limit.
    pub process_limit: u64,
    /// Default cap on collected standard output, in bytes.
    pub stdout_limit: u64,
    /// Default cap on collected standard error, in bytes.
    pub stderr_limit: u64,
}

/// Where the sandbox service is reached.
#[derive(Debug, Clone)]
pub struct SandboxCfg {
    /// Sandbox server host address.
    pub host: String,
}

/// The whole configuration of the judging service.
#[derive(Debug, Clone)]
pub struct Cfg {
    /// Address the service listens on.
    pub host: String,
    /// Authentication token secret; `None` disables authentication.
    pub secret: Option<String>,
    /// The language table, keyed by language name.
    pub lang: Vec<(String, LangCfg)>,
    pub judge: JudgeCfg,
    pub sandbox: SandboxCfg,
}

/// Field-wise equality of two language configurations, by content.
pub open spec fn lang_cfg_eq(a: LangCfg, b: LangCfg) -> bool {
    &&& a.compile_cmd.deep_view() == b.compile_cmd.deep_view()
    &&& a.run_cmd.deep_view() == b.run_cmd.deep_view()
    &&& a.source@ == b.source@
    &&& a.exec_file@ == b.exec_file@
}

/// An exact copy of a list of strings.
pub fn dup_strings(v: &Vec<String>) -> (r: Vec<String>)
    ensures
        r.deep_view() == v.deep_view(),
        r@.len() == v@.len(),
{
    let n = v.len();
    let mut r: Vec<String> = Vec::new();
    let mut i: usize = 0;
    while i < n
        invariant
            0 <= i <= n == v@.len(),
            r@.len() == i,
            forall|j: int| 0 <= j < i ==> #[trigger] r@[j]@ == v@[j]@,
        decreases n - i,
    {
        r.push(v[i].clone());
        i += 1;
    }
    proof {
        assert(r.deep_view() =~= v.deep_view());
    }
    r
}

/// An exact copy of a language configuration.
pub fn dup_lang_cfg(c: &LangCfg) -> (r: LangCfg)
    ensures
        lang_cfg_eq(*c, r),
{
    LangCfg {
        compile_cmd: dup_strings(&c.compile_cmd),
        run_cmd: dup_strings(&c.run_cmd),
        source: c.source.clone(),
        exec_file: c.exec_file.clone(),
    }
}

impl Cfg {
    /// The configuration of the language called `name`, if the table has it.
    pub fn lang_cfg(&self, name: &str) -> (r: Option<&LangCfg>)
        ensures
            match r {
                Some(c) => exists|i: int|
                    0 <= i < self.lang@.len() && #[trigger] self.lang@[i].0@ == name@
                        && self.lang@[i].1 == *c,
                None => forall|i: int|
                    0 <= i < self.lang@.len() ==> #[trigger] self.lang@[i].0@ != name@,
            },
    {
        let n = self.lang.len();
        let mut i: usize = 0;
        while i < n
            invariant
                0 <= i <= n == self.lang@.len(),
                forall|j: int| 0 <= j < i ==> #[trigger] self.lang@[j].0@ != name@,
            decreases n - i,
        {
            if crate::text::eq_str(self.lang[i].0.as_str(), name) {
                return Some(&self.lang[i].1);
            }
            i += 1;
        }
        None
    }
}

impl Default for Cfg {
    /// The stock configuration: C and C++ with the usual judge flags, ten
    /// seconds and one gigabyte per non-solution command.
    fn default() -> (r: Cfg)
        ensures
            r.lang@.len() == 2,
            r.lang@[0].0@ == "c"@,
            r.lang@[1].0@ == "cpp"@,
            r.lang@[0].1.source@ == "foo.c"@,
            r.lang@[1].1.source@ == "foo.cpp"@,
            r.lang@[0].1.exec_file@ == "foo"@,
            r.lang@[1].1.exec_file@ == "foo"@,
            r.judge.time_limit_ns == 10000000000,
            r.judge.memory_limit == 0x40000000,
            r.judge.process_limit == 16,
            r.judge.stdout_limit == 0x20000000,
            r.judge.stderr_limit == 16384,
    {
        let c_cfg = LangCfg {
            compile_cmd: vec![
                String::from_str("/usr/bin/gcc"),
                String::from_str("foo.c"),
                String::from_str("-o"),
                String::from_str("foo"),
                String::from_str("-O2"),
                String::from_str("-w"),
                String::from_str("-fmax-errors=3"),
                String::from_str("-DONLINE_JUDGE"),
            ],
            run_cmd: vec![String::from_str("foo")],
            source: String::from_str("foo.c"),
            exec_file: String::from_str("foo"),
        };
        let cpp_cfg = LangCfg {
            compile_cmd: vec![
                String::from_str("/usr/bin/g++"),
                String::from_str("foo.cpp"),
                String::from_str("-o"),
                String::from_str("foo"),
                String::from_str("-O2"),
                String::from_str("-w"),
                String::from_str("-fmax-errors=3"),
                String::from_str("-DONLINE_JUDGE"),
            ],
            run_cmd: vec![String::from_str("foo")],
            source: String::from_str("foo.cpp"),
            exec_file: String::from_str("foo"),
        };
        Cfg {
            host: String::from_str(":8080"),
            secret: None,
            lang: vec![(String::from_str("c"), c_cfg), (String::from_str("cpp"), cpp_cfg)],
            judge: JudgeCfg {
                env: vec![
                    String::from_str(
                        "PATH=/usr/local/sbin:/usr/local/bin:/usr/sbin:/usr/bin:/sbin:/bin",
                    ),
                    String::from_str("HOME=/w"),
                    String::from_str("ONLINE_JUDGE=rindag"),
                ],
                time_limit_ns: 10000000000,
                memory_limit: 0x40000000,
                process_limit: 16,
                stdout_limit: 0x20000000,
                stderr_limit: 16384,
            },
            sandbox: SandboxCfg { host: String::from_str("http://[::1]:5051") },
        }
    }
}

} // verus!
