//! The workflow engine's bookkeeping: which tasks may run, which files are
//! published, and — at the end — that every sandbox file the run created is
//! either handed back or released.
//!
//! The engine is a state machine over plain values; the host drives it,
//! performing uploads and executions between steps.  Every sandbox file id
//! enters the engine through `provide_input` or `complete`, so the
//! published-file list is the full record of adopted files.

use vstd::prelude::*;

use crate::sandbox::file::FileHandle;
use crate::text::eq_str;
use crate::workflow::{
    copy_out_resolved, is_output, wf_valid, Error, ParseError, Task, Workflow,
};

verus! {

/// Lifecycle of one task.
#[derive(Clone, Copy, Debug, PartialEq, Eq, Structural)]
pub enum TaskState {
    Waiting,
    Running,
    Done,
}

/// True when some published file carries the sandbox id `id`.
pub open spec fn has_id(files: Seq<(String, FileHandle)>, id: Seq<char>) -> bool {
    exists|m: int| 0 <= m < files.len() && (#[trigger] files[m]).1.spec_id() == id
}

/// True when some published file is named `name`.
pub open spec fn has_name(files: Seq<(String, FileHandle)>, name: Seq<char>) -> bool {
    exists|m: int| 0 <= m < files.len() && (#[trigger] files[m]).0@ == name
}

/// True when some handle in `hs` carries the sandbox id `id`.
pub open spec fn handles_have_id(hs: Seq<FileHandle>, id: Seq<char>) -> bool {
    exists|m: int| 0 <= m < hs.len() && (#[trigger] hs[m]).spec_id() == id
}

/// True when some published file carries both this name and this id.
pub open spec fn published_as(
    files: Seq<(String, FileHandle)>,
    name: Seq<char>,
    id: Seq<char>,
) -> bool {
    exists|m: int|
        0 <= m < files.len() && (#[trigger] files[m]).0@ == name && files[m].1.spec_id() == id
}

/// True when some task in `tasks` declares the output `name`.
pub open spec fn some_task_produces(tasks: Seq<Task>, name: Seq<char>) -> bool {
    exists|ti: int, tj: int|
        0 <= ti < tasks.len() && 0 <= tj < tasks[ti].spec_outputs().len()
            && #[trigger] tasks[ti].spec_outputs()[tj] == name
}

proof fn lemma_has_id_extend(a: Seq<(String, FileHandle)>, b: Seq<(String, FileHandle)>, id: Seq<char>)
    requires
        has_id(a, id),
        a.len() <= b.len(),
        forall|m: int| 0 <= m < a.len() ==> #[trigger] b[m] == a[m],
    ensures
        has_id(b, id),
{
    let m = choose|m: int| 0 <= m < a.len() && (#[trigger] a[m]).1.spec_id() == id;
    assert(b[m].1.spec_id() == id);
}

proof fn lemma_has_name_extend(a: Seq<(String, FileHandle)>, b: Seq<(String, FileHandle)>, name: Seq<char>)
    requires
        has_name(a, name),
        a.len() <= b.len(),
        forall|m: int| 0 <= m < a.len() ==> #[trigger] b[m] == a[m],
    ensures
        has_name(b, name),
{
    let m = choose|m: int| 0 <= m < a.len() && (#[trigger] a[m]).0@ == name;
    assert(b[m].0@ == name);
}

/// The running state of one workflow: its tasks, the published files, and
/// every sandbox file id the run has adopted.
#[derive(Debug)]
pub struct Executor {
    /// The tasks, as declared.
    pub tasks: Vec<Task>,
    /// The names the caller wants back.
    pub copy_out: Vec<String>,
    /// Published files: name and handle, in publication order.
    pub files: Vec<(String, FileHandle)>,
    /// Per-task lifecycle state.
    pub state: Vec<TaskState>,
    /// The first error, if any; set once.
    pub error: Option<Error>,
    /// Every sandbox file id this run has created or adopted.
    pub created: Vec<String>,
}

/// The engine's invariant: states cover the tasks, every adopted id is
/// among the published files, a finished task has published all its
/// outputs, and every exported name has a producing task.
pub open spec fn engine_inv(e: Executor) -> bool {
    &&& e.state@.len() == e.tasks@.len()
    &&& forall|k: int|
        0 <= k < e.created@.len() ==> has_id(e.files@, (#[trigger] e.created@[k])@)
    &&& forall|i: int, j: int|
        #![trigger e.tasks@[i].spec_outputs()[j]]
        0 <= i < e.state@.len() && e.state@[i] == TaskState::Done && 0 <= j
            < e.tasks@[i].spec_outputs().len() ==> has_name(
            e.files@,
            e.tasks@[i].spec_outputs()[j],
        )
    &&& forall|j: int|
        0 <= j < e.copy_out@.len() ==> some_task_produces(e.tasks@, (#[trigger] e.copy_out@[j])@)
}

/// What a completed workflow hands back: the exported files on success,
/// the first error otherwise, and every other adopted file for release.
#[derive(Debug)]
pub struct WorkflowOutcome {
    /// The exported files, by name, when the run succeeded.
    pub files: Vec<(String, FileHandle)>,
    /// Handles whose sandbox files the caller should delete.
    pub released: Vec<FileHandle>,
    /// The first error, when the run failed.
    pub error: Option<Error>,
}

/// Finds the first published file of this name.
fn find_file_idx(files: &Vec<(String, FileHandle)>, name: &str) -> (r: Option<usize>)
    ensures
        match r {
            Some(ix) => ix < files@.len() && files@[ix as int].0@ == name@,
            None => !has_name(files@, name@),
        },
{
    let n = files.len();
    let mut i: usize = 0;
    while i < n
        invariant
            0 <= i <= n == files@.len(),
            forall|m: int| 0 <= m < i ==> (#[trigger] files@[m]).0@ != name@,
        decreases n - i,
    {
        if eq_str(files[i].0.as_str(), name) {
            return Some(i);
        }
        i += 1;
    }
    None
}

impl Executor {
    /// Validates `w` and starts an execution: no file published, every
    /// task waiting.  Fails exactly when the workflow is invalid.
    pub fn start(w: Workflow) -> (r: Result<Executor, ParseError>)
        ensures
            match r {
                Ok(e) => {
                    &&& engine_inv(e)
                    &&& e.tasks@ == w.tasks@
                    &&& e.copy_out@ == w.copy_out@
                    &&& e.files@.len() == 0
                    &&& e.created@.len() == 0
                    &&& e.error is None
                    &&& forall|i: int|
                        0 <= i < e.state@.len() ==> #[trigger] e.state@[i] == TaskState::Waiting
                },
                Err(_) => true,
            },
            r is Ok <==> wf_valid(w),
    {
        let ghost w0 = w;
        match w.parse() {
            Ok(_) => {
                let n = w.tasks.len();
                let mut state: Vec<TaskState> = Vec::new();
                let mut i: usize = 0;
                while i < n
                    invariant
                        0 <= i <= n,
                        state@.len() == i,
                        forall|k: int|
                            0 <= k < i ==> #[trigger] state@[k] == TaskState::Waiting,
                    decreases n - i,
                {
                    state.push(TaskState::Waiting);
                    i += 1;
                }
                let e = Executor {
                    tasks: w.tasks,
                    copy_out: w.copy_out,
                    files: Vec::new(),
                    state,
                    error: None,
                    created: Vec::new(),
                };
                proof {
                    assert(e.tasks@ == w0.tasks@);
                    assert(e.copy_out@ == w0.copy_out@);
                    assert(copy_out_resolved(w0));
                    assert forall|j: int| 0 <= j < e.copy_out@.len() implies some_task_produces(
                        e.tasks@,
                        (#[trigger] e.copy_out@[j])@,
                    ) by {
                        assert(is_output(w0, w0.copy_out@[j]@));
                        let (ti, tj) = choose|ti: int, tj: int|
                            0 <= ti < w0.tasks@.len() && 0 <= tj
                                < w0.tasks@[ti].spec_outputs().len()
                                && #[trigger] w0.tasks@[ti].spec_outputs()[tj]
                                == w0.copy_out@[j]@;
                        assert(e.tasks@[ti].spec_outputs()[tj] == e.copy_out@[j]@);
                    }
                    assert(engine_inv(e));
                }
                Ok(e)
            },
            Err(e) => Err(e),
        }
    }

    /// Publishes a given input file the host has uploaded; its id joins
    /// the adopted set.
    pub fn provide_input(&mut self, name: String, h: FileHandle)
        requires
            engine_inv(*old(self)),
        ensures
            engine_inv(*final(self)),
            final(self).tasks@ == old(self).tasks@,
            final(self).copy_out@ == old(self).copy_out@,
            final(self).state@ == old(self).state@,
            final(self).error == old(self).error,
            final(self).files@.len() == old(self).files@.len() + 1,
            forall|m: int|
                0 <= m < old(self).files@.len() ==> #[trigger] final(self).files@[m] == old(
                    self,
                ).files@[m],
            final(self).files@.last().0@ == name@,
            final(self).files@.last().1.spec_id() == h.spec_id(),
            final(self).created@.len() == old(self).created@.len() + 1,
            forall|k: int|
                0 <= k < old(self).created@.len() ==> #[trigger] final(self).created@[k] == old(
                    self,
                ).created@[k],
            final(self).created@.last()@ == h.spec_id(),
    {
        let id = h.id().clone();
        let ghost prev = *self;
        self.files.push((name, h));
        self.created.push(id);
        proof {
            lemma_publish_preserves(prev, *self);
        }
    }

    /// Resolves the declared inputs of task `i` against the published
    /// files: all of them, or `None` when one is still missing.
    pub fn inputs_for(&self, i: usize) -> (r: Option<Vec<(String, FileHandle)>>)
        requires
            i < self.tasks@.len(),
        ensures
            match r {
                Some(v) => v@.len() == self.tasks@[i as int].spec_inputs().len() && forall|k: int|
                    0 <= k < v@.len() ==> (#[trigger] v@[k]).0@
                        == self.tasks@[i as int].spec_inputs()[k] && exists|m: int|
                        0 <= m < self.files@.len() && (#[trigger] self.files@[m]).0@
                            == self.tasks@[i as int].spec_inputs()[k]
                            && self.files@[m].1.spec_id() == v@[k].1.spec_id(),
                None => exists|k: int|
                    0 <= k < self.tasks@[i as int].spec_inputs().len() && !has_name(
                        self.files@,
                        (#[trigger] self.tasks@[i as int].spec_inputs()[k]),
                    ),
            },
    {
        let names = self.tasks[i].get_copy_in();
        let n = names.len();
        let mut v: Vec<(String, FileHandle)> = Vec::new();
        let mut k: usize = 0;
        while k < n
            invariant
                0 <= k <= n == names@.len(),
                i < self.tasks@.len(),
                names.deep_view() == self.tasks@[i as int].spec_inputs(),
                v@.len() == k,
                forall|m: int|
                    0 <= m < k ==> (#[trigger] v@[m]).0@
                        == self.tasks@[i as int].spec_inputs()[m] && exists|mm: int|
                        0 <= mm < self.files@.len() && (#[trigger] self.files@[mm]).0@
                            == self.tasks@[i as int].spec_inputs()[m]
                            && self.files@[mm].1.spec_id() == v@[m].1.spec_id(),
            decreases n - k,
        {
            proof {
                assert(names@[k as int]@ == self.tasks@[i as int].spec_inputs()[k as int]);
            }
            match find_file_idx(&self.files, names[k].as_str()) {
                Some(ix) => {
                    let ghost prev_v = v@;
                    v.push((names[k].clone(), self.files[ix].1.share()));
                    proof {
                        assert(v@[prev_v.len() as int].1.spec_id()
                            == self.files@[ix as int].1.spec_id());
                        assert(self.files@[ix as int].0@
                            == self.tasks@[i as int].spec_inputs()[k as int]);
                    }
                },
                None => {
                    return None;
                },
            }
            k += 1;
        }
        Some(v)
    }

    /// Picks a task to run: the first waiting task whose inputs are all
    /// published.  Marks it running.
    pub fn next_ready(&mut self) -> (r: Option<usize>)
        requires
            engine_inv(*old(self)),
        ensures
            engine_inv(*final(self)),
            final(self).tasks@ == old(self).tasks@,
            final(self).copy_out@ == old(self).copy_out@,
            final(self).files@ == old(self).files@,
            final(self).created@ == old(self).created@,
            final(self).error == old(self).error,
            match r {
                Some(i) => i < old(self).tasks@.len() && old(self).state@[i as int]
                    == TaskState::Waiting && final(self).state@[i as int] == TaskState::Running
                    && (forall|k: int|
                    0 <= k < old(self).state@.len() && k != i
                        ==> #[trigger] final(self).state@[k] == old(self).state@[k]) && forall|
                    k: int,
                |
                    0 <= k < old(self).tasks@[i as int].spec_inputs().len() ==> has_name(
                        old(self).files@,
                        (#[trigger] old(self).tasks@[i as int].spec_inputs()[k]),
                    ),
                None => final(self).state@ == old(self).state@ && forall|ii: int|
                    0 <= ii < old(self).state@.len() && #[trigger] old(self).state@[ii]
                        == TaskState::Waiting ==> exists|k: int|
                        0 <= k < old(self).tasks@[ii].spec_inputs().len() && !has_name(
                            old(self).files@,
                            (#[trigger] old(self).tasks@[ii].spec_inputs()[k]),
                        ),
            },
    {
        let n = self.tasks.len();
        let mut i: usize = 0;
        while i < n
            invariant
                0 <= i <= n == self.tasks@.len(),
                engine_inv(*self),
                *self == *old(self),
                forall|ii: int|
                    0 <= ii < i && #[trigger] self.state@[ii] == TaskState::Waiting ==> exists|
                        k: int,
                    |
                        0 <= k < self.tasks@[ii].spec_inputs().len() && !has_name(
                            self.files@,
                            (#[trigger] self.tasks@[ii].spec_inputs()[k]),
                        ),
            decreases n - i,
        {
            if matches!(self.state[i], TaskState::Waiting) {
                match self.inputs_for(i) {
                    Some(v) => {
                        proof {
                            assert forall|k: int|
                                0 <= k < self.tasks@[i as int].spec_inputs().len() implies
                                has_name(
                                self.files@,
                                (#[trigger] self.tasks@[i as int].spec_inputs()[k]),
                            ) by {
                                assert(v@[k].0@ == self.tasks@[i as int].spec_inputs()[k]);
                                let m = choose|m: int|
                                    0 <= m < self.files@.len() && (#[trigger] self.files@[m]).0@
                                        == self.tasks@[i as int].spec_inputs()[k]
                                        && self.files@[m].1.spec_id() == v@[k].1.spec_id();
                                assert(self.files@[m].0@
                                    == self.tasks@[i as int].spec_inputs()[k]);
                            }
                        }
                        let ghost before = *self;
                        self.state.set(i, TaskState::Running);
                        proof {
                            lemma_state_to_running_preserves(before, *self, i as int);
                        }
                        return Some(i);
                    },
                    None => {},
                }
            }
            i += 1;
        }
        None
    }

    /// Records that task `i` finished and published `outputs`, one handle
    /// per declared output name, in declaration order.  Their ids join the
    /// adopted set.
    pub fn complete(&mut self, i: usize, outputs: Vec<FileHandle>)
        requires
            engine_inv(*old(self)),
            i < old(self).tasks@.len(),
            outputs@.len() == old(self).tasks@[i as int].spec_outputs().len(),
        ensures
            engine_inv(*final(self)),
            final(self).tasks@ == old(self).tasks@,
            final(self).copy_out@ == old(self).copy_out@,
            final(self).error == old(self).error,
            final(self).state@ == old(self).state@.update(i as int, TaskState::Done),
            final(self).files@.len() == old(self).files@.len() + outputs@.len(),
            forall|m: int|
                0 <= m < old(self).files@.len() ==> #[trigger] final(self).files@[m] == old(
                    self,
                ).files@[m],
            forall|j: int|
                0 <= j < outputs@.len() ==> (#[trigger] final(self).files@[old(
                    self,
                ).files@.len() + j]).0@ == old(self).tasks@[i as int].spec_outputs()[j]
                    && final(self).files@[old(self).files@.len() + j].1.spec_id()
                    == outputs@[j].spec_id(),
            final(self).created@.len() == old(self).created@.len() + outputs@.len(),
            forall|k: int|
                0 <= k < old(self).created@.len() ==> #[trigger] final(self).created@[k] == old(
                    self,
                ).created@[k],
            forall|j: int|
                0 <= j < outputs@.len() ==> (#[trigger] final(self).created@[old(
                    self,
                ).created@.len() + j])@ == outputs@[j].spec_id(),
    {
        let names = self.tasks[i].get_copy_out();
        let n = names.len();
        let mut k: usize = 0;
        let ghost outs0 = outputs@;
        let mut outs = outputs;
        let ghost base_len = self.files@.len();
        let ghost base_created = self.created@.len();
        while k < n
            invariant
                0 <= k <= n == names@.len(),
                i < self.tasks@.len() == self.state@.len(),
                names.deep_view() == self.tasks@[i as int].spec_outputs(),
                outs@.len() + k == n,
                outs@ =~= outs0.skip(k as int),
                outs0.len() == n,
                engine_inv(*self),
                self.files@.len() == base_len + k,
                base_len == old(self).files@.len(),
                base_created == old(self).created@.len(),
                forall|m: int|
                    0 <= m < base_len ==> #[trigger] self.files@[m] == old(self).files@[m],
                forall|j: int|
                    0 <= j < k ==> (#[trigger] self.files@[base_len + j]).0@ == names@[j]@
                        && self.files@[base_len + j].1.spec_id() == outs0[j].spec_id(),
                self.created@.len() == base_created + k,
                forall|kk: int|
                    0 <= kk < base_created ==> #[trigger] self.created@[kk] == old(
                        self,
                    ).created@[kk],
                forall|j: int|
                    0 <= j < k ==> (#[trigger] self.created@[base_created + j])@
                        == outs0[j].spec_id(),
                self.tasks@ == old(self).tasks@,
                self.copy_out@ == old(self).copy_out@,
                self.error == old(self).error,
                self.state@ == old(self).state@,
            decreases n - k,
        {
            proof {
                assert(outs@[0] == outs0[k as int]);
            }
            let h = outs.remove(0);
            let id = h.id().clone();
            let ghost prev = *self;
            self.files.push((names[k].clone(), h));
            self.created.push(id);
            proof {
                lemma_publish_preserves(prev, *self);
                assert(outs@ =~= outs0.skip(k + 1 as int));
            }
            k += 1;
        }
        let ghost before = *self;
        self.state.set(i, TaskState::Done);
        proof {
            assert forall|ii: int, j: int|
                #![trigger self.tasks@[ii].spec_outputs()[j]]
                0 <= ii < self.state@.len() && self.state@[ii] == TaskState::Done && 0 <= j
                    < self.tasks@[ii].spec_outputs().len() implies has_name(
                self.files@,
                self.tasks@[ii].spec_outputs()[j],
            ) by {
                if ii == i {
                    assert(self.files@[base_len + j].0@ == names@[j]@);
                    assert(names@[j]@ == self.tasks@[i as int].spec_outputs()[j]);
                } else {
                    assert(before.state@[ii] == TaskState::Done);
                    assert(before.tasks@[ii].spec_outputs()[j]
                        == self.tasks@[ii].spec_outputs()[j]);
                    assert(has_name(before.files@, before.tasks@[ii].spec_outputs()[j]));
                }
            }
            assert(engine_inv(*self));
        }
    }

    /// Records the first error; later errors are discarded.
    pub fn fail(&mut self, e: Error)
        requires
            engine_inv(*old(self)),
        ensures
            engine_inv(*final(self)),
            final(self).tasks@ == old(self).tasks@,
            final(self).copy_out@ == old(self).copy_out@,
            final(self).files@ == old(self).files@,
            final(self).created@ == old(self).created@,
            final(self).state@ == old(self).state@,
            final(self).error is Some,
            old(self).error is None ==> final(self).error == Some(e),
            old(self).error is Some ==> final(self).error == old(self).error,
    {
        if self.error.is_none() {
            self.error = Some(e);
        }
    }

    /// True when every task is done.
    pub fn all_done(&self) -> (r: bool)
        ensures
            r == forall|i: int|
                0 <= i < self.state@.len() ==> #[trigger] self.state@[i] == TaskState::Done,
    {
        let n = self.state.len();
        let mut i: usize = 0;
        while i < n
            invariant
                0 <= i <= n == self.state@.len(),
                forall|k: int| 0 <= k < i ==> #[trigger] self.state@[k] == TaskState::Done,
            decreases n - i,
        {
            if !matches!(self.state[i], TaskState::Done) {
                return false;
            }
            i += 1;
        }
        true
    }

    /// Ends the run.  On success the exported files are handed back under
    /// their names and every other published file is released; on failure
    /// everything is released.  No handle leaks: every file id this run
    /// adopted is either among the returned files or among the released
    /// handles.
    pub fn finish(self) -> (r: WorkflowOutcome)
        requires
            engine_inv(self),
            self.error is Some || forall|i: int|
                0 <= i < self.state@.len() ==> #[trigger] self.state@[i] == TaskState::Done,
        ensures
            forall|k: int|
                0 <= k < self.created@.len() ==> has_id(r.files@, (#[trigger] self.created@[k])@)
                    || handles_have_id(r.released@, self.created@[k]@),
            r.error == self.error,
            self.error is None ==> r.files@.len() == self.copy_out@.len() && forall|j: int|
                0 <= j < r.files@.len() ==> (#[trigger] r.files@[j]).0@ == self.copy_out@[j]@,
            self.error is None ==> forall|j: int|
                #![trigger r.files@[j]]
                0 <= j < r.files@.len() ==> published_as(
                    self.files@,
                    self.copy_out@[j]@,
                    r.files@[j].1.spec_id(),
                ),
            self.error is Some ==> r.files@.len() == 0,
    {
        let failed = self.error.is_some();
        let total = self.files.len();
        let mut used: Vec<bool> = Vec::new();
        let mut u: usize = 0;
        while u < total
            invariant
                0 <= u <= total,
                used@.len() == u,
                forall|m: int| 0 <= m < u ==> !(#[trigger] used@[m]),
            decreases total - u,
        {
            used.push(false);
            u += 1;
        }
        let mut kept: Vec<(String, FileHandle)> = Vec::new();
        if !failed {
            let m = self.copy_out.len();
            let mut j: usize = 0;
            while j < m
                invariant
                    0 <= j <= m == self.copy_out@.len(),
                    engine_inv(self),
                    used@.len() == total == self.files@.len(),
                    forall|i: int|
                        0 <= i < self.state@.len() ==> #[trigger] self.state@[i]
                            == TaskState::Done,
                    kept@.len() == j,
                    forall|k: int|
                        0 <= k < j ==> (#[trigger] kept@[k]).0@ == self.copy_out@[k]@,
                    forall|k: int|
                        #![trigger kept@[k]]
                        0 <= k < j ==> published_as(
                            self.files@,
                            self.copy_out@[k]@,
                            kept@[k].1.spec_id(),
                        ),
                    forall|mm: int|
                        0 <= mm < used@.len() && #[trigger] used@[mm] ==> has_id(
                            kept@,
                            self.files@[mm].1.spec_id(),
                        ),
                decreases m - j,
            {
                let name = &self.copy_out[j];
                match find_file_idx(&self.files, name.as_str()) {
                    Some(ix) => {
                        let ghost prev_kept = kept@;
                        let ghost prev_used = used@;
                        kept.push((name.clone(), self.files[ix].1.share()));
                        used.set(ix, true);
                        proof {
                            assert(kept@[prev_kept.len() as int].1.spec_id()
                                == self.files@[ix as int].1.spec_id());
                            assert(self.files@[ix as int].0@ == self.copy_out@[j as int]@);
                            assert(published_as(
                                self.files@,
                                self.copy_out@[j as int]@,
                                kept@[prev_kept.len() as int].1.spec_id(),
                            ));
                            assert forall|k: int|
                                #![trigger kept@[k]]
                                0 <= k < j + 1 implies published_as(
                                self.files@,
                                self.copy_out@[k]@,
                                kept@[k].1.spec_id(),
                            ) by {
                                if k < j {
                                    assert(kept@[k] == prev_kept[k]);
                                    assert(published_as(
                                        self.files@,
                                        self.copy_out@[k]@,
                                        prev_kept[k].1.spec_id(),
                                    ));
                                }
                            }
                            assert forall|mm: int|
                                0 <= mm < used@.len() && #[trigger] used@[mm] implies has_id(
                                kept@,
                                self.files@[mm].1.spec_id(),
                            ) by {
                                if mm == ix {
                                    assert(kept@[prev_kept.len() as int].1.spec_id()
                                        == self.files@[mm].1.spec_id());
                                } else {
                                    assert(prev_used[mm]);
                                    assert(has_id(prev_kept, self.files@[mm].1.spec_id()));
                                    lemma_has_id_extend(
                                        prev_kept,
                                        kept@,
                                        self.files@[mm].1.spec_id(),
                                    );
                                }
                            }
                        }
                    },
                    None => {
                        proof {
                            assert(some_task_produces(self.tasks@, self.copy_out@[j as int]@));
                            let (ti, tj) = choose|ti: int, tj: int|
                                0 <= ti < self.tasks@.len() && 0 <= tj
                                    < self.tasks@[ti].spec_outputs().len()
                                    && #[trigger] self.tasks@[ti].spec_outputs()[tj]
                                    == self.copy_out@[j as int]@;
                            assert(self.state@[ti] == TaskState::Done);
                            assert(has_name(self.files@, self.tasks@[ti].spec_outputs()[tj]));
                            let mm = choose|m2: int|
                                0 <= m2 < self.files@.len() && (#[trigger] self.files@[m2]).0@
                                    == self.tasks@[ti].spec_outputs()[tj];
                            assert(false);
                        }
                    },
                }
                j += 1;
            }
        }
        // release every published file that was not handed back
        let mut released: Vec<FileHandle> = Vec::new();
        let mut k: usize = 0;
        while k < total
            invariant
                0 <= k <= total == self.files@.len() == used@.len(),
                forall|mm: int|
                    0 <= mm < used@.len() && #[trigger] used@[mm] ==> has_id(
                        kept@,
                        self.files@[mm].1.spec_id(),
                    ),
                forall|mm: int|
                    0 <= mm < k && !(#[trigger] used@[mm]) ==> handles_have_id(
                        released@,
                        self.files@[mm].1.spec_id(),
                    ),
            decreases total - k,
        {
            if !used[k] {
                let ghost prev_rel = released@;
                released.push(self.files[k].1.share());
                proof {
                    assert forall|mm: int|
                        0 <= mm < k + 1 && !(#[trigger] used@[mm]) implies handles_have_id(
                        released@,
                        self.files@[mm].1.spec_id(),
                    ) by {
                        if mm == k {
                            assert(released@[prev_rel.len() as int].spec_id()
                                == self.files@[mm].1.spec_id());
                        } else {
                            assert(handles_have_id(prev_rel, self.files@[mm].1.spec_id()));
                            let rr = choose|rr: int|
                                0 <= rr < prev_rel.len() && (#[trigger] prev_rel[rr]).spec_id()
                                    == self.files@[mm].1.spec_id();
                            assert(released@[rr].spec_id() == self.files@[mm].1.spec_id());
                        }
                    }
                }
            } else {
                proof {
                    assert forall|mm: int|
                        0 <= mm < k + 1 && !(#[trigger] used@[mm]) implies handles_have_id(
                        released@,
                        self.files@[mm].1.spec_id(),
                    ) by {
                        assert(mm != k);
                    }
                }
            }
            k += 1;
        }
        proof {
            assert forall|kk: int| 0 <= kk < self.created@.len() implies has_id(
                kept@,
                (#[trigger] self.created@[kk])@,
            ) || handles_have_id(released@, self.created@[kk]@) by {
                assert(has_id(self.files@, self.created@[kk]@));
                let m = choose|m: int|
                    0 <= m < self.files@.len() && (#[trigger] self.files@[m]).1.spec_id()
                        == self.created@[kk]@;
                if used@[m] {
                    assert(has_id(kept@, self.files@[m].1.spec_id()));
                } else {
                    assert(handles_have_id(released@, self.files@[m].1.spec_id()));
                }
            }
        }
        WorkflowOutcome { files: kept, released, error: self.error }
    }
}

/// Publishing one more file and adopting its id preserves the invariant
/// when the new file's handle carries the new id.
proof fn lemma_publish_preserves(prev: Executor, cur: Executor)
    requires
        engine_inv(prev),
        cur.tasks@ == prev.tasks@,
        cur.copy_out@ == prev.copy_out@,
        cur.state@ == prev.state@,
        cur.files@.len() == prev.files@.len() + 1,
        forall|m: int| 0 <= m < prev.files@.len() ==> #[trigger] cur.files@[m] == prev.files@[m],
        cur.created@.len() == prev.created@.len() + 1,
        forall|k: int|
            0 <= k < prev.created@.len() ==> #[trigger] cur.created@[k] == prev.created@[k],
        cur.created@.last()@ == cur.files@.last().1.spec_id(),
    ensures
        engine_inv(cur),
{
    assert forall|k: int| 0 <= k < cur.created@.len() implies has_id(
        cur.files@,
        (#[trigger] cur.created@[k])@,
    ) by {
        if k < prev.created@.len() {
            assert(cur.created@[k] == prev.created@[k]);
            assert(has_id(prev.files@, prev.created@[k]@));
            lemma_has_id_extend(prev.files@, cur.files@, prev.created@[k]@);
        } else {
            assert(cur.files@[cur.files@.len() - 1].1.spec_id() == cur.created@[k]@);
        }
    }
    assert forall|i: int, j: int|
        #![trigger cur.tasks@[i].spec_outputs()[j]]
        0 <= i < cur.state@.len() && cur.state@[i] == TaskState::Done && 0 <= j
            < cur.tasks@[i].spec_outputs().len() implies has_name(
        cur.files@,
        cur.tasks@[i].spec_outputs()[j],
    ) by {
        assert(prev.state@[i] == TaskState::Done);
        assert(prev.tasks@[i].spec_outputs()[j] == cur.tasks@[i].spec_outputs()[j]);
        assert(has_name(prev.files@, prev.tasks@[i].spec_outputs()[j]));
        lemma_has_name_extend(prev.files@, cur.files@, prev.tasks@[i].spec_outputs()[j]);
    }
    assert forall|j: int| 0 <= j < cur.copy_out@.len() implies some_task_produces(
        cur.tasks@,
        (#[trigger] cur.copy_out@[j])@,
    ) by {
        assert(cur.copy_out@[j] == prev.copy_out@[j]);
        assert(some_task_produces(prev.tasks@, prev.copy_out@[j]@));
    }
}

/// Marking a waiting task as running preserves the invariant.
proof fn lemma_state_to_running_preserves(prev: Executor, cur: Executor, i: int)
    requires
        engine_inv(prev),
        cur.tasks@ == prev.tasks@,
        cur.copy_out@ == prev.copy_out@,
        cur.files@ == prev.files@,
        cur.created@ == prev.created@,
        cur.state@ == prev.state@.update(i, TaskState::Running),
        0 <= i < prev.state@.len(),
    ensures
        engine_inv(cur),
{
    assert forall|ii: int, j: int|
        #![trigger cur.tasks@[ii].spec_outputs()[j]]
        0 <= ii < cur.state@.len() && cur.state@[ii] == TaskState::Done && 0 <= j
            < cur.tasks@[ii].spec_outputs().len() implies has_name(
        cur.files@,
        cur.tasks@[ii].spec_outputs()[j],
    ) by {
        assert(ii != i);
        assert(prev.state@[ii] == TaskState::Done);
        assert(has_name(prev.files@, prev.tasks@[ii].spec_outputs()[j]));
    }
}

} // verus!
