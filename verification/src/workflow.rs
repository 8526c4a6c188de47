//! Declarative workflows: a list of typed tasks whose edges are named
//! files, validated so that every file has exactly one producer and every
//! consumer can be served.

use vstd::prelude::*;
use vstd::string::StringExecFns;

use crate::file::File;
use crate::lang::InvalidLangError;
use crate::record::RuntimeError;
use crate::sandbox::file::FileHandle;
use crate::text::eq_str;

verus! {

/// Compiles a named code file into a named executable.
#[derive(Debug)]
pub struct CompileTask {
    /// Language name.
    pub lang: String,
    /// Extra compiler arguments.
    pub args: Vec<String>,
    /// Name of the code file to compile.
    pub code: String,
    /// Extra files to materialise, as destination name and source file name.
    pub copy_in: Vec<(String, String)>,
    /// Name the produced executable is published under.
    pub exec_file: String,
}

/// Runs a generator executable; its standard output becomes a file.
#[derive(Debug)]
pub struct GenerateTask {
    /// Language name.
    pub lang: String,
    /// Generator arguments.
    pub args: Vec<String>,
    /// Name of the executable file to run.
    pub exec_file: String,
    /// Extra files to materialise, as destination name and source file name.
    pub copy_in: Vec<(String, String)>,
    /// Name the generated output is published under.
    pub generated: String,
}

/// Runs a validator over an input file; its overview report becomes a file.
#[derive(Debug)]
pub struct ValidateTask {
    /// Language name.
    pub lang: String,
    /// Validator arguments.
    pub args: Vec<String>,
    /// Name of the executable file to run.
    pub exec_file: String,
    /// Name of the input file to validate.
    pub inf: String,
    /// Extra files to materialise, as destination name and source file name.
    pub copy_in: Vec<(String, String)>,
    /// Name the report is published under.
    pub report: String,
}

/// Runs an executable over an input file under limits; its standard output
/// becomes a file.
#[derive(Debug)]
pub struct ExecTask {
    /// Language name.
    pub lang: String,
    /// Run arguments.
    pub args: Vec<String>,
    /// Name of the executable file to run.
    pub exec_file: String,
    /// Name of the file bound to standard input.
    pub stdin: String,
    /// Extra files to materialise, as destination name and source file name.
    pub copy_in: Vec<(String, String)>,
    /// Name the output is published under.
    pub copy_out: String,
    /// CPU time limit in nanoseconds.
    pub time_limit_ns: u64,
    /// Memory limit in bytes.
    pub memory_limit: u64,
}

/// One workflow task.  The four kinds form a closed set so that validation
/// and scheduling stay exhaustive.
#[derive(Debug)]
pub enum Task {
    Compile(CompileTask),
    Generate(GenerateTask),
    Validate(ValidateTask),
    Exec(ExecTask),
}

impl Task {
    /// The names of the files the task reads: its extra files' sources and
    /// its primary inputs.
    pub open spec fn spec_inputs(self) -> Seq<Seq<char>> {
        match self {
            Task::Compile(t) => t.copy_in@.map_values(|p: (String, String)| p.1@).push(t.code@),
            Task::Generate(t) => t.copy_in@.map_values(|p: (String, String)| p.1@).push(
                t.exec_file@,
            ),
            Task::Validate(t) => t.copy_in@.map_values(|p: (String, String)| p.1@).push(
                t.exec_file@,
            ).push(t.inf@),
            Task::Exec(t) => t.copy_in@.map_values(|p: (String, String)| p.1@).push(
                t.exec_file@,
            ).push(t.stdin@),
        }
    }

    /// The names of the files the task produces.
    pub open spec fn spec_outputs(self) -> Seq<Seq<char>> {
        match self {
            Task::Compile(t) => seq![t.exec_file@],
            Task::Generate(t) => seq![t.generated@],
            Task::Validate(t) => seq![t.report@],
            Task::Exec(t) => seq![t.copy_out@],
        }
    }

    /// The names of the files the task reads.
    pub fn get_copy_in(&self) -> (r: Vec<String>)
        ensures
            r.deep_view() == self.spec_inputs(),
    {
        let mut r: Vec<String>;
        match self {
            Task::Compile(t) => {
                r = copy_in_sources(&t.copy_in);
                r.push(t.code.clone());
            },
            Task::Generate(t) => {
                r = copy_in_sources(&t.copy_in);
                r.push(t.exec_file.clone());
            },
            Task::Validate(t) => {
                r = copy_in_sources(&t.copy_in);
                r.push(t.exec_file.clone());
                r.push(t.inf.clone());
            },
            Task::Exec(t) => {
                r = copy_in_sources(&t.copy_in);
                r.push(t.exec_file.clone());
                r.push(t.stdin.clone());
            },
        }
        proof {
            assert(r.deep_view() =~= self.spec_inputs());
        }
        r
    }

    /// The names of the files the task produces.
    pub fn get_copy_out(&self) -> (r: Vec<String>)
        ensures
            r.deep_view() == self.spec_outputs(),
    {
        let mut r: Vec<String> = Vec::new();
        match self {
            Task::Compile(t) => {
                r.push(t.exec_file.clone());
            },
            Task::Generate(t) => {
                r.push(t.generated.clone());
            },
            Task::Validate(t) => {
                r.push(t.report.clone());
            },
            Task::Exec(t) => {
                r.push(t.copy_out.clone());
            },
        }
        proof {
            assert(r.deep_view() =~= self.spec_outputs());
        }
        r
    }
}

/// Copies the source names of an extra-files list.
fn copy_in_sources(v: &Vec<(String, String)>) -> (r: Vec<String>)
    ensures
        r.deep_view() == v@.map_values(|p: (String, String)| p.1@),
{
    let n = v.len();
    let mut r: Vec<String> = Vec::new();
    let mut i: usize = 0;
    while i < n
        invariant
            0 <= i <= n == v@.len(),
            r@.len() == i,
            forall|j: int| 0 <= j < i ==> #[trigger] r@[j]@ == v@[j].1@,
        decreases n - i,
    {
        r.push(v[i].1.clone());
        i += 1;
    }
    proof {
        assert(r.deep_view() =~= v@.map_values(|p: (String, String)| p.1@));
    }
    r
}

/// A workflow: named input files, tasks, and which produced files to hand
/// back at the end.
#[derive(Debug)]
pub struct Workflow {
    /// The given files, by name.
    pub copy_in: Vec<(String, File)>,
    /// The tasks, in declaration order.
    pub tasks: Vec<Task>,
    /// The produced files the caller wants back.
    pub copy_out: Vec<String>,
}

/// Error for a file name that no producer serves.
#[derive(Debug, Clone)]
pub enum InvalidFileError {
    /// A task reads a name nobody provides; holds the task index and name.
    Target { index: usize, name: String },
    /// The workflow exports a name no task produces; holds the name.
    Global(String),
}

/// Error for a file name produced more than once.
#[derive(Debug, Clone)]
pub enum DuplicateFileError {
    /// A task produces a name that is already a given input file.
    CopyIn { index: usize, name: String },
    /// Two task outputs share a name; `index1` declared it first.
    Prev { index1: usize, index2: usize, name: String },
}

/// Error found when validating a workflow.
#[derive(Debug, Clone)]
pub enum ParseError {
    InvalidFile(InvalidFileError),
    DuplicateFile(DuplicateFileError),
}

/// Error while executing one task.
#[derive(Debug, Clone)]
pub enum ExecuteError {
    InvalidLang(InvalidLangError),
    Runtime(RuntimeError),
}

/// Error that ends a workflow.
#[derive(Debug, Clone)]
pub enum Error {
    Parse(ParseError),
    Execute { index: usize, source: ExecuteError },
}

/// Event stream of a running workflow.
#[derive(Debug)]
pub enum Response {
    Failed(Error),
    /// The task with this index completed.
    CompleteOne(usize),
    /// All tasks completed; the exported files by name.
    Finished(Vec<(String, FileHandle)>),
}

/// The names of the given input files.
pub open spec fn copy_in_names(w: Workflow) -> Seq<Seq<char>> {
    w.copy_in@.map_values(|p: (String, File)| p.0@)
}

/// True when `n` names a given input file.
pub open spec fn copy_in_has(w: Workflow, n: Seq<char>) -> bool {
    exists|i: int| 0 <= i < copy_in_names(w).len() && #[trigger] copy_in_names(w)[i] == n
}

/// True when some task of `w` produces `n`.
pub open spec fn is_output(w: Workflow, n: Seq<char>) -> bool {
    exists|i: int, j: int|
        0 <= i < w.tasks@.len() && 0 <= j < w.tasks@[i].spec_outputs().len()
            && #[trigger] w.tasks@[i].spec_outputs()[j] == n
}

/// True when no two task outputs of `w` share a name.
pub open spec fn outputs_unique(w: Workflow) -> bool {
    forall|i1: int, j1: int, i2: int, j2: int|
        0 <= i1 < w.tasks@.len() && 0 <= j1 < w.tasks@[i1].spec_outputs().len() && 0 <= i2
            < w.tasks@.len() && 0 <= j2 < w.tasks@[i2].spec_outputs().len()
            && #[trigger] w.tasks@[i1].spec_outputs()[j1] == #[trigger] w.tasks@[i2].spec_outputs()[j2]
            ==> i1 == i2 && j1 == j2
}

/// True when no task output of `w` shadows a given input file.
pub open spec fn outputs_disjoint_from_inputs(w: Workflow) -> bool {
    forall|n: Seq<char>| is_output(w, n) ==> !copy_in_has(w, n)
}

/// True when every file a task of `w` reads is a given input or some
/// task's output.
pub open spec fn inputs_resolved(w: Workflow) -> bool {
    forall|i: int, j: int|
        0 <= i < w.tasks@.len() && 0 <= j < w.tasks@[i].spec_inputs().len() ==> copy_in_has(
            w,
            #[trigger] w.tasks@[i].spec_inputs()[j],
        ) || is_output(w, w.tasks@[i].spec_inputs()[j])
}

/// True when every exported name is some task's output.
pub open spec fn copy_out_resolved(w: Workflow) -> bool {
    forall|j: int|
        0 <= j < w.copy_out@.len() ==> is_output(w, #[trigger] w.copy_out@[j]@)
}

/// A valid workflow: every file name has exactly one producer, no output
/// shadows a given input, and every consumer can be served.
pub open spec fn wf_valid(w: Workflow) -> bool {
    &&& outputs_unique(w)
    &&& outputs_disjoint_from_inputs(w)
    &&& inputs_resolved(w)
    &&& copy_out_resolved(w)
}

/// Well-formedness of the workflow value itself: the given input names are
/// pairwise distinct, as in a map.
pub open spec fn wf_input_map(w: Workflow) -> bool {
    forall|i: int, j: int|
        0 <= i < copy_in_names(w).len() && 0 <= j < copy_in_names(w).len()
            && #[trigger] copy_in_names(w)[i] == #[trigger] copy_in_names(w)[j] ==> i == j
}

/// Looks `name` up among the given input files.
fn copy_in_lookup(w: &Workflow, name: &str) -> (r: bool)
    ensures
        r == copy_in_has(*w, name@),
{
    let n = w.copy_in.len();
    let mut i: usize = 0;
    while i < n
        invariant
            0 <= i <= n == w.copy_in@.len(),
            forall|j: int| 0 <= j < i ==> #[trigger] w.copy_in@[j].0@ != name@,
        decreases n - i,
    {
        if eq_str(w.copy_in[i].0.as_str(), name) {
            assert(copy_in_names(*w)[i as int] == name@);
            return true;
        }
        i += 1;
    }
    proof {
        if copy_in_has(*w, name@) {
            let k = choose|k: int|
                0 <= k < copy_in_names(*w).len() && copy_in_names(*w)[k] == name@;
            assert(w.copy_in@[k].0@ == name@);
        }
    }
    false
}

/// Finds the entry of `name` in the provider list.
fn find_provider(providers: &Vec<(String, usize)>, name: &str) -> (r: Option<usize>)
    ensures
        match r {
            Some(k) => k < providers@.len() && providers@[k as int].0@ == name@,
            None => forall|k: int|
                0 <= k < providers@.len() ==> #[trigger] providers@[k].0@ != name@,
        },
{
    let n = providers.len();
    let mut i: usize = 0;
    while i < n
        invariant
            0 <= i <= n == providers@.len(),
            forall|k: int| 0 <= k < i ==> #[trigger] providers@[k].0@ != name@,
        decreases n - i,
    {
        if eq_str(providers[i].0.as_str(), name) {
            return Some(i);
        }
        i += 1;
    }
    None
}

/// True when the provider list has an entry mapping `name` to task `i`.
pub open spec fn covered(providers: Seq<(String, usize)>, name: Seq<char>, i: int) -> bool {
    exists|k: int|
        0 <= k < providers.len() && #[trigger] providers[k].0@ == name && providers[k].1 == i
}

proof fn lemma_covered_push(p: Seq<(String, usize)>, x: (String, usize), n: Seq<char>, i: int)
    requires
        covered(p, n, i),
    ensures
        covered(p.push(x), n, i),
{
    let k = choose|k: int| 0 <= k < p.len() && #[trigger] p[k].0@ == n && p[k].1 == i;
    assert(p.push(x)[k].0@ == n);
}

/// What `Workflow::parse` promises of its result.
pub open spec fn parse_post(w: Workflow, r: Result<Vec<(String, usize)>, ParseError>) -> bool {
    match r {
        Ok(providers) => {
            &&& forall|k: int|
                0 <= k < providers@.len() ==> 0 <= #[trigger] providers@[k].1 < w.tasks@.len()
                    && w_produces(w, providers@[k].1 as int, providers@[k].0@)
            &&& forall|i: int, j: int|
                #![trigger w.tasks@[i].spec_outputs()[j]]
                0 <= i < w.tasks@.len() && 0 <= j < w.tasks@[i].spec_outputs().len() ==> covered(
                    providers@,
                    w.tasks@[i].spec_outputs()[j],
                    i,
                )
        },
        Err(ParseError::DuplicateFile(DuplicateFileError::CopyIn { index, name })) => {
            &&& index < w.tasks@.len()
            &&& w.tasks@[index as int].spec_outputs().contains(name@)
            &&& copy_in_has(w, name@)
        },
        Err(ParseError::DuplicateFile(DuplicateFileError::Prev { index1, index2, name })) => {
            &&& index1 <= index2 < w.tasks@.len()
            &&& exists|j1: int, j2: int|
                0 <= j1 < w.tasks@[index1 as int].spec_outputs().len() && 0 <= j2
                    < w.tasks@[index2 as int].spec_outputs().len() && (index1 as int
                    != index2 as int || j1 != j2)
                    && #[trigger] w.tasks@[index1 as int].spec_outputs()[j1] == name@
                    && #[trigger] w.tasks@[index2 as int].spec_outputs()[j2] == name@
        },
        Err(ParseError::InvalidFile(InvalidFileError::Target { index, name })) => {
            &&& index < w.tasks@.len()
            &&& w.tasks@[index as int].spec_inputs().contains(name@)
            &&& !copy_in_has(w, name@)
            &&& !is_output(w, name@)
        },
        Err(ParseError::InvalidFile(InvalidFileError::Global(name))) => {
            &&& exists|j: int|
                0 <= j < w.copy_out@.len() && #[trigger] w.copy_out@[j]@ == name@
            &&& !is_output(w, name@)
        },
    }
}

impl Workflow {
    /// Validates the workflow's file graph.  Succeeds exactly when the
    /// workflow is valid: every output name is produced once and is no
    /// given input's name, every task input and every exported name
    /// resolves.  On success the returned list maps each produced name to
    /// its producing task.  Each error names a witness of its violation;
    /// the scan walks tasks in declaration order and reports the first
    /// conflict it meets, but when a workflow holds several violations,
    /// which one is named is not part of the contract.
    #[verifier::rlimit(100)]
    #[verifier::spinoff_prover]
    pub fn parse(&self) -> (r: Result<Vec<(String, usize)>, ParseError>)
        ensures
            r is Ok <==> wf_valid(*self),
            parse_post(*self, r),
    {
        let n = self.tasks.len();
        let mut providers: Vec<(String, usize)> = Vec::new();
        let ghost mut slots: Seq<(int, int)> = Seq::empty();
        let mut i: usize = 0;
        while i < n
            invariant
                0 <= i <= n == self.tasks@.len(),
                slots.len() == providers@.len(),
                forall|k: int|
                    0 <= k < providers@.len() ==> {
                        let s = #[trigger] slots[k];
                        &&& 0 <= s.0 < i
                        &&& 0 <= s.1 < self.tasks@[s.0].spec_outputs().len()
                        &&& self.tasks@[s.0].spec_outputs()[s.1] == providers@[k].0@
                        &&& providers@[k].1 == s.0
                    },
                forall|i2: int, j2: int|
                    #![trigger self.tasks@[i2].spec_outputs()[j2]]
                    0 <= i2 < i && 0 <= j2 < self.tasks@[i2].spec_outputs().len() ==> covered(
                        providers@,
                        self.tasks@[i2].spec_outputs()[j2],
                        i2,
                    ),
                forall|k1: int, k2: int|
                    0 <= k1 < providers@.len() && 0 <= k2 < providers@.len()
                        && #[trigger] providers@[k1].0@ == #[trigger] providers@[k2].0@ ==> k1
                        == k2,
                forall|k: int| 0 <= k < providers@.len() ==> !copy_in_has(
                    *self,
                    #[trigger] providers@[k].0@,
                ),
            decreases n - i,
        {
            let outs = self.tasks[i].get_copy_out();
            let m = outs.len();
            let mut j: usize = 0;
            while j < m
                invariant
                    0 <= i < n == self.tasks@.len(),
                    0 <= j <= m == outs@.len(),
                    outs.deep_view() == self.tasks@[i as int].spec_outputs(),
                    slots.len() == providers@.len(),
                    forall|k: int|
                        0 <= k < providers@.len() ==> {
                            let s = #[trigger] slots[k];
                            &&& 0 <= s.0 <= i
                            &&& 0 <= s.1 < self.tasks@[s.0].spec_outputs().len()
                            &&& (s.0 == i ==> s.1 < j)
                            &&& self.tasks@[s.0].spec_outputs()[s.1] == providers@[k].0@
                            &&& providers@[k].1 == s.0
                        },
                    forall|i2: int, j2: int|
                        #![trigger self.tasks@[i2].spec_outputs()[j2]]
                        ((0 <= i2 < i && 0 <= j2 < self.tasks@[i2].spec_outputs().len()) || (i2
                            == i && 0 <= j2 < j)) ==> covered(
                            providers@,
                            self.tasks@[i2].spec_outputs()[j2],
                            i2,
                        ),
                    forall|k1: int, k2: int|
                        0 <= k1 < providers@.len() && 0 <= k2 < providers@.len()
                            && #[trigger] providers@[k1].0@ == #[trigger] providers@[k2].0@ ==> k1
                            == k2,
                    forall|k: int| 0 <= k < providers@.len() ==> !copy_in_has(
                        *self,
                        #[trigger] providers@[k].0@,
                    ),
                decreases m - j,
            {
                let name = &outs[j];
                proof {
                    assert(outs@[j as int]@ == self.tasks@[i as int].spec_outputs()[j as int]);
                }
                if copy_in_lookup(self, name.as_str()) {
                    let e = ParseError::DuplicateFile(
                        DuplicateFileError::CopyIn { index: i, name: name.clone() },
                    );
                    proof {
                        assert(self.tasks@[i as int].spec_outputs().contains(name@));
                        assert(!outputs_disjoint_from_inputs(*self));
                        assert(parse_post(*self, Err(e)));
                    }
                    return Err(e);
                }
                match find_provider(&providers, name.as_str()) {
                    Some(k) => {
                        let prev = providers[k].1;
                        proof {
                            let s = slots[k as int];
                            assert(self.tasks@[s.0].spec_outputs()[s.1] == name@);
                            assert((s.0, s.1) != (i as int, j as int));
                            assert(self.tasks@[i as int].spec_outputs()[j as int] == name@);
                            assert(!outputs_unique(*self)) by {
                                if outputs_unique(*self) {
                                    assert(self.tasks@[s.0].spec_outputs()[s.1]
                                        == self.tasks@[i as int].spec_outputs()[j as int]);
                                    assert(s.0 == i as int && s.1 == j as int);
                                }
                            }
                            assert(prev as int == s.0);
                            assert(self.tasks@[prev as int].spec_outputs()[s.1] == name@);
                            assert((prev as int, s.1) != (i as int, j as int));
                            assert(exists|j1: int, j2: int|
                                0 <= j1 < self.tasks@[prev as int].spec_outputs().len() && 0 <= j2
                                    < self.tasks@[i as int].spec_outputs().len() && (prev as int
                                    != i as int || j1 != j2)
                                    && #[trigger] self.tasks@[prev as int].spec_outputs()[j1]
                                    == name@
                                    && #[trigger] self.tasks@[i as int].spec_outputs()[j2]
                                    == name@) by {
                                let s = slots[k as int];
                                assert(prev as int != i as int || s.1 != j as int);
                                assert(self.tasks@[prev as int].spec_outputs()[s.1] == name@);
                                assert(self.tasks@[i as int].spec_outputs()[j as int] == name@);
                            }
                        }
                        let e = ParseError::DuplicateFile(
                            DuplicateFileError::Prev {
                                index1: prev,
                                index2: i,
                                name: name.clone(),
                            },
                        );
                        proof {
                            let sl = slots[k as int];
                            assert(prev as int == sl.0);
                            assert(prev <= i);
                            assert(parse_post(*self, Err(e))) by {
                                let nm = match e {
                                    ParseError::DuplicateFile(
                                        DuplicateFileError::Prev { index1, index2, name },
                                    ) => name,
                                    _ => arbitrary(),
                                };
                                let pi = prev as int;
                                let ii = i as int;
                                let ji = j as int;
                                assert(nm@ == name@);
                                assert(0 <= sl.1 < self.tasks@[pi].spec_outputs().len());
                                assert(0 <= ji < self.tasks@[ii].spec_outputs().len());
                                assert(pi != ii || sl.1 != ji);
                                assert(self.tasks@[pi].spec_outputs()[sl.1] == nm@);
                                assert(self.tasks@[ii].spec_outputs()[ji] == nm@);
                            }
                        }
                        return Err(e);
                    },
                    None => {
                        let ghost oldp = providers@;
                        providers.push((name.clone(), i));
                        proof {
                            slots = slots.push((i as int, j as int));
                            assert(providers@[oldp.len() as int].0@ == name@);
                            assert(covered(
                                providers@,
                                self.tasks@[i as int].spec_outputs()[j as int],
                                i as int,
                            ));
                            assert forall|i2: int, j2: int|
                                #![trigger self.tasks@[i2].spec_outputs()[j2]]
                                ((0 <= i2 < i && 0 <= j2 < self.tasks@[i2].spec_outputs().len())
                                    || (i2 == i && 0 <= j2 < j + 1)) implies covered(
                                providers@,
                                self.tasks@[i2].spec_outputs()[j2],
                                i2,
                            ) by {
                                if i2 == i && j2 == j {
                                } else {
                                    lemma_covered_push(
                                        oldp,
                                        (providers@[oldp.len() as int].0, i),
                                        self.tasks@[i2].spec_outputs()[j2],
                                        i2,
                                    );
                                    assert(providers@ =~= oldp.push(
                                        providers@[oldp.len() as int],
                                    ));
                                }
                            }
                        }
                    },
                }
                j += 1;
            }
            i += 1;
        }
        // every declared output is now in the provider list, uniquely
        proof {
            assert(outputs_unique(*self)) by {
                assert forall|i1: int, j1: int, i2: int, j2: int|
                    0 <= i1 < self.tasks@.len() && 0 <= j1 < self.tasks@[i1].spec_outputs().len()
                        && 0 <= i2 < self.tasks@.len() && 0 <= j2
                        < self.tasks@[i2].spec_outputs().len()
                        && #[trigger] self.tasks@[i1].spec_outputs()[j1]
                        == #[trigger] self.tasks@[i2].spec_outputs()[j2] implies i1 == i2 && j1
                    == j2 by {
                    assert(covered(providers@, self.tasks@[i1].spec_outputs()[j1], i1));
                    assert(covered(providers@, self.tasks@[i2].spec_outputs()[j2], i2));
                    let k1 = choose|k: int|
                        0 <= k < providers@.len() && #[trigger] providers@[k].0@
                            == self.tasks@[i1].spec_outputs()[j1] && providers@[k].1 == i1;
                    let k2 = choose|k: int|
                        0 <= k < providers@.len() && #[trigger] providers@[k].0@
                            == self.tasks@[i2].spec_outputs()[j2] && providers@[k].1 == i2;
                    assert(k1 == k2);
                    let s1 = slots[k1];
                    assert(s1.0 == i1 && s1.0 == i2);
                    assert(self.tasks@[i1].spec_outputs()[s1.1]
                        == self.tasks@[i1].spec_outputs()[j1]);
                    if j1 != s1.1 {
                        assert(covered(providers@, self.tasks@[i1].spec_outputs()[j1], i1));
                        let k3 = choose|k: int|
                            0 <= k < providers@.len() && #[trigger] providers@[k].0@
                                == self.tasks@[i1].spec_outputs()[j1] && providers@[k].1 == i1;
                        assert(k3 == k1);
                        assert(slots[k1].1 == s1.1);
                    }
                    assert(j1 == s1.1 || self.tasks@[i1].spec_outputs()[j1]
                        == providers@[k1].0@);
                }
            }
            assert(outputs_disjoint_from_inputs(*self)) by {
                assert forall|nm: Seq<char>| is_output(*self, nm) implies !copy_in_has(
                    *self,
                    nm,
                ) by {
                    let (oi, oj) = choose|oi: int, oj: int|
                        0 <= oi < self.tasks@.len() && 0 <= oj
                            < self.tasks@[oi].spec_outputs().len()
                            && #[trigger] self.tasks@[oi].spec_outputs()[oj] == nm;
                    assert(covered(providers@, self.tasks@[oi].spec_outputs()[oj], oi));
                    let k = choose|k: int|
                        0 <= k < providers@.len() && #[trigger] providers@[k].0@ == nm
                            && providers@[k].1 == oi;
                    assert(!copy_in_has(*self, providers@[k].0@));
                }
            }
        }
        // every task input must resolve
        let mut i2: usize = 0;
        while i2 < n
            invariant
                0 <= i2 <= n == self.tasks@.len(),
                slots.len() == providers@.len(),
                forall|k: int|
                    0 <= k < providers@.len() ==> {
                        let s = #[trigger] slots[k];
                        &&& 0 <= s.0 < n
                        &&& 0 <= s.1 < self.tasks@[s.0].spec_outputs().len()
                        &&& self.tasks@[s.0].spec_outputs()[s.1] == providers@[k].0@
                        &&& providers@[k].1 == s.0
                    },
                forall|ti: int, tj: int|
                    #![trigger self.tasks@[ti].spec_outputs()[tj]]
                    0 <= ti < n && 0 <= tj < self.tasks@[ti].spec_outputs().len() ==> covered(
                        providers@,
                        self.tasks@[ti].spec_outputs()[tj],
                        ti,
                    ),
                forall|ti: int, tj: int|
                    0 <= ti < i2 && 0 <= tj < self.tasks@[ti].spec_inputs().len() ==> copy_in_has(
                        *self,
                        #[trigger] self.tasks@[ti].spec_inputs()[tj],
                    ) || is_output(*self, self.tasks@[ti].spec_inputs()[tj]),
            decreases n - i2,
        {
            let ins = self.tasks[i2].get_copy_in();
            let m = ins.len();
            let mut j: usize = 0;
            while j < m
                invariant
                    0 <= i2 < n == self.tasks@.len(),
                    0 <= j <= m == ins@.len(),
                    ins.deep_view() == self.tasks@[i2 as int].spec_inputs(),
                    slots.len() == providers@.len(),
                    forall|k: int|
                        0 <= k < providers@.len() ==> {
                            let s = #[trigger] slots[k];
                            &&& 0 <= s.0 < n
                            &&& 0 <= s.1 < self.tasks@[s.0].spec_outputs().len()
                            &&& self.tasks@[s.0].spec_outputs()[s.1] == providers@[k].0@
                            &&& providers@[k].1 == s.0
                        },
                    forall|ti: int, tj: int|
                        #![trigger self.tasks@[ti].spec_outputs()[tj]]
                        0 <= ti < n && 0 <= tj < self.tasks@[ti].spec_outputs().len() ==> covered(
                            providers@,
                            self.tasks@[ti].spec_outputs()[tj],
                            ti,
                        ),
                    forall|tj: int|
                        0 <= tj < j ==> copy_in_has(
                            *self,
                            #[trigger] self.tasks@[i2 as int].spec_inputs()[tj],
                        ) || is_output(*self, self.tasks@[i2 as int].spec_inputs()[tj]),
                decreases m - j,
            {
                let name = &ins[j];
                proof {
                    assert(ins@[j as int]@ == self.tasks@[i2 as int].spec_inputs()[j as int]);
                }
                if !copy_in_lookup(self, name.as_str()) {
                    match find_provider(&providers, name.as_str()) {
                        Some(k) => {
                            proof {
                                let s = slots[k as int];
                                assert(self.tasks@[s.0].spec_outputs()[s.1] == name@);
                                assert(is_output(*self, name@));
                            }
                        },
                        None => {
                            proof {
                                if is_output(*self, name@) {
                                    let (oi, oj) = choose|oi: int, oj: int|
                                        0 <= oi < self.tasks@.len() && 0 <= oj
                                            < self.tasks@[oi].spec_outputs().len()
                                            && #[trigger] self.tasks@[oi].spec_outputs()[oj]
                                            == name@;
                                    assert(covered(
                                        providers@,
                                        self.tasks@[oi].spec_outputs()[oj],
                                        oi,
                                    ));
                                    let k = choose|k: int|
                                        0 <= k < providers@.len() && #[trigger] providers@[k].0@
                                            == name@ && providers@[k].1 == oi;
                                    assert(providers@[k].0@ == name@);
                                }
                                assert(self.tasks@[i2 as int].spec_inputs().contains(name@));
                            }
                            let e = ParseError::InvalidFile(
                                InvalidFileError::Target { index: i2, name: name.clone() },
                            );
                            proof {
                                assert(!inputs_resolved(*self));
                                assert(parse_post(*self, Err(e)));
                            }
                            return Err(e);
                        },
                    }
                }
                j += 1;
            }
            i2 += 1;
        }
        // every exported name must resolve
        let m = self.copy_out.len();
        let mut j: usize = 0;
        while j < m
            invariant
                0 <= j <= m == self.copy_out@.len(),
                n == self.tasks@.len(),
                slots.len() == providers@.len(),
                forall|k: int|
                    0 <= k < providers@.len() ==> {
                        let s = #[trigger] slots[k];
                        &&& 0 <= s.0 < n
                        &&& 0 <= s.1 < self.tasks@[s.0].spec_outputs().len()
                        &&& self.tasks@[s.0].spec_outputs()[s.1] == providers@[k].0@
                        &&& providers@[k].1 == s.0
                    },
                forall|ti: int, tj: int|
                    #![trigger self.tasks@[ti].spec_outputs()[tj]]
                    0 <= ti < n && 0 <= tj < self.tasks@[ti].spec_outputs().len() ==> covered(
                        providers@,
                        self.tasks@[ti].spec_outputs()[tj],
                        ti,
                    ),
                forall|tj: int|
                    0 <= tj < j ==> is_output(*self, #[trigger] self.copy_out@[tj]@),
            decreases m - j,
        {
            let name = &self.copy_out[j];
            match find_provider(&providers, name.as_str()) {
                Some(k) => {
                    proof {
                        let s = slots[k as int];
                        assert(self.tasks@[s.0].spec_outputs()[s.1] == name@);
                        assert(is_output(*self, name@));
                    }
                },
                None => {
                    proof {
                        if is_output(*self, name@) {
                            let (oi, oj) = choose|oi: int, oj: int|
                                0 <= oi < self.tasks@.len() && 0 <= oj
                                    < self.tasks@[oi].spec_outputs().len()
                                    && #[trigger] self.tasks@[oi].spec_outputs()[oj] == name@;
                            assert(covered(providers@, self.tasks@[oi].spec_outputs()[oj], oi));
                            let k = choose|k: int|
                                0 <= k < providers@.len() && #[trigger] providers@[k].0@ == name@
                                    && providers@[k].1 == oi;
                            assert(providers@[k].0@ == name@);
                        }
                    }
                    let e = ParseError::InvalidFile(InvalidFileError::Global(name.clone()));
                    proof {
                        assert(exists|jj: int|
                            0 <= jj < self.copy_out@.len() && #[trigger] self.copy_out@[jj]@
                                == name@) by {
                            assert(self.copy_out@[j as int]@ == name@);
                        }
                        assert(!copy_out_resolved(*self));
                        assert(parse_post(*self, Err(e)));
                    }
                    return Err(e);
                },
            }
            j += 1;
        }
        proof {
            assert forall|k: int|
                0 <= k < providers@.len() implies 0 <= #[trigger] providers@[k].1
                < self.tasks@.len() && w_produces(*self, providers@[k].1 as int, providers@[k].0@)
            by {
                let s = slots[k];
                assert(self.tasks@[s.0].spec_outputs()[s.1] == providers@[k].0@);
            }
        }
        proof {
            assert(inputs_resolved(*self));
            assert(copy_out_resolved(*self));
            assert(parse_post(*self, Ok(providers)));
        }
        Ok(providers)
    }
}

/// True when task `i` of `w` declares output name `n`.
pub open spec fn w_produces(w: Workflow, i: int, n: Seq<char>) -> bool {
    0 <= i < w.tasks@.len() && w.tasks@[i].spec_outputs().contains(n)
}

} // verus!
