//! Problems and the subtask judger's decision logic: per-test record
//! derivation, inter-subtask score dependences, and exact score
//! aggregation.
//!
//! A subtask's unscaled score is the minimum of its per-test scores; its
//! final score is further capped by the minimum of its dependences' final
//! scores, and a zero anywhere among the dependences skips the subtask
//! outright.  The total is the exact weighted sum of final scores.

use vstd::prelude::*;
use vstd::string::StringSliceAdditionalSpecFns;
use vstd::utf8::valid_utf8;

use crate::checker;
use crate::encoding::{append_valid, lit_bytes, utf8_sanitize};
use crate::file::File;
use crate::generator::Generator;
use crate::record::{Record, RecordStatus, RuntimeError};
use crate::sandbox::response::ExecuteResult;
use crate::score::SCORE_UNIT;

verus! {

/// Kind of a problem.
#[derive(Clone, Copy, Debug, PartialEq, Eq, Structural)]
pub enum Kind {
    /// Batch problem (also called a traditional problem).
    Batch,
    /// Interactive problem.
    Interactive,
    /// Submit-answer problem.
    SubmitAnswer,
}

/// Test set a subtask belongs to, passed on to the checker.
#[derive(Clone, Copy, Debug, PartialEq, Eq, Structural)]
pub enum Testset {
    Sample,
    Pretests,
    Main,
    Hack,
}

impl Testset {
    /// The snake-case name of this test set.
    pub open spec fn spec_name(self) -> Seq<u8> {
        match self {
            Testset::Sample => "sample".spec_bytes(),
            Testset::Pretests => "pretests".spec_bytes(),
            Testset::Main => "main".spec_bytes(),
            Testset::Hack => "hack".spec_bytes(),
        }
    }

    /// The snake-case name of this test set.
    pub fn name(&self) -> (r: Vec<u8>)
        ensures
            r@ == self.spec_name(),
            valid_utf8(r@),
            r@.len() > 0,
    {
        let r = match self {
            Testset::Sample => lit_bytes("sample"),
            Testset::Pretests => lit_bytes("pretests"),
            Testset::Main => lit_bytes("main"),
            Testset::Hack => lit_bytes("hack"),
        };
        proof {
            reveal_strlit("sample");
            reveal_strlit("pretests");
            reveal_strlit("main");
            reveal_strlit("hack");
            assert(r@.len() > 0) by {
                vstd::utf8::encode_utf8_first_scalar("sample"@);
                vstd::utf8::encode_utf8_first_scalar("pretests"@);
                vstd::utf8::encode_utf8_first_scalar("main"@);
                vstd::utf8::encode_utf8_first_scalar("hack"@);
            }
        }
        r
    }
}

/// A program source: its language name and its code.
#[derive(Debug, Clone)]
pub struct SourceCode {
    /// Language name.
    pub lang: String,
    /// The code itself.
    pub data: File,
}

/// Where a test's input comes from.
#[derive(Debug)]
pub enum Input {
    /// Run a generator with these arguments.
    Generated { generator: Generator, args: Vec<String> },
    /// Plain bytes.
    Plain { context: Vec<u8> },
}

/// Where a test's answer comes from.
#[derive(Debug)]
pub enum Answer {
    /// Run the standard solution over the test's input.
    Generated,
    /// Plain bytes.
    Plain { context: Vec<u8> },
}

/// One test: an input and its expected answer.
#[derive(Debug)]
pub struct Test {
    pub input: Input,
    pub answer: Answer,
}

/// A group of tests judged together, with a weight, limits and score
/// dependences on earlier subtasks.
#[derive(Debug)]
pub struct Subtask {
    /// Index of this subtask in its problem.
    pub id: usize,
    /// Weight of this subtask in the total score.
    pub score: u64,
    /// Indices of subtasks whose final scores cap this one; each must be
    /// smaller than this subtask's index.
    pub dependences: Vec<usize>,
    /// Test set passed to the checker.
    pub testset: Testset,
    /// The tests.
    pub tests: Vec<Test>,
    /// Per-test CPU time limit in nanoseconds.
    pub time_limit_ns: u64,
    /// Per-test memory limit in bytes.
    pub memory_limit: u64,
}

/// A whole problem.
#[derive(Debug)]
pub struct Problem {
    pub subtasks: Vec<Subtask>,
    pub kind: Kind,
    /// Checker source; for an interactive problem this is the interactor.
    pub checker: SourceCode,
    /// The reference solution, used to generate missing answers.
    pub standard_solution: SourceCode,
    /// Extra files available when compiling and when checking.
    pub user_copy_in: Vec<(String, crate::data::Provider)>,
    /// Extra files available when running solutions.
    pub judge_copy_in: Vec<(String, crate::data::Provider)>,
}

/// True when every dependence of subtask `i` points at an earlier subtask.
pub open spec fn subtask_deps_wf(s: Subtask, i: int) -> bool {
    forall|k: int| 0 <= k < s.dependences@.len() ==> 0 <= #[trigger] s.dependences@[k] < i
}

/// True when every subtask only depends on earlier ones.
pub open spec fn problem_deps_wf(subtasks: Seq<Subtask>) -> bool {
    forall|i: int| 0 <= i < subtasks.len() ==> subtask_deps_wf(#[trigger] subtasks[i], i)
}

/// Judgement events of a whole problem.
#[derive(Debug)]
pub enum Response {
    /// Compilation failed; judging ends here.
    CompileErr { message: Vec<u8> },
    /// One test of one subtask was judged.
    CompleteOne { subtask_id: usize, record: Record },
    /// All subtasks are judged: total score in weight-millionths and the
    /// per-subtask, per-test records.
    Finished { score: u64, results: Vec<Vec<Record>> },
}

impl Response {
    /// The terminal event for a compile-phase failure.
    pub fn from_compile_error(err: &RuntimeError) -> (r: Response)
        ensures
            r is CompileErr,
            match r {
                Response::CompileErr { message } => valid_utf8(message@) && message@.len() > 0,
                _ => false,
            },
    {
        Response::CompileErr { message: err.render() }
    }
}

/// What happened to one test, as the pipeline observed it.
#[derive(Debug)]
pub enum TestOutcome {
    /// The input could not be materialised.
    InputFailed { message: Vec<u8> },
    /// The answer could not be materialised.
    AnswerFailed { message: Vec<u8> },
    /// The solution's run did not exit normally.
    Interrupted { result: ExecuteResult },
    /// The solution ran and the checker judged its output.
    Checked { result: ExecuteResult, output: checker::Output },
    /// The solution ran but the checker could not be run.
    CheckerFailed { message: Vec<u8> },
}

/// The fixed record each test outcome yields: failures around the run give
/// a system-error record with a saying message, an abnormal exit gives its
/// mapped status with zero score, and a checked run carries the checker's
/// verdict and score.
pub fn record_of_outcome(outcome: &TestOutcome) -> (r: Record)
    requires
        match outcome {
            TestOutcome::Checked { result, output } => output.wf(),
            _ => true,
        },
    ensures
        r.wf(),
        match outcome {
            TestOutcome::InputFailed { message } => r.status == RecordStatus::SystemError
                && r.score == 0 && r.message@ == "input file generated failed: ".spec_bytes()
                + crate::encoding::spec_sanitize(message@),
            TestOutcome::AnswerFailed { message } => r.status == RecordStatus::SystemError
                && r.score == 0 && r.message@ == "answer file generated failed: ".spec_bytes()
                + crate::encoding::spec_sanitize(message@),
            TestOutcome::CheckerFailed { message } => r.status == RecordStatus::SystemError
                && r.score == 0 && r.message@ == "checker execute failed: ".spec_bytes()
                + crate::encoding::spec_sanitize(message@),
            TestOutcome::Interrupted { result } => r.status == RecordStatus::spec_from_execute(
                result.status,
            ) && r.score == 0 && r.time_ns == result.time_ns && r.memory == result.memory
                && r.exit_code == result.exit_code && r.message@ == (crate::record::RuntimeError {
                result: *result,
            }).spec_render(),
            TestOutcome::Checked { result, output } => r.status
                == RecordStatus::spec_from_checker(output.status) && r.score == output.score
                && r.time_ns == result.time_ns && r.memory == result.memory && r.exit_code
                == result.exit_code && r.message@ == output.message@,
        },
{
    match outcome {
        TestOutcome::InputFailed { message } => {
            let mut m = lit_bytes("input file generated failed: ");
            let tail = utf8_sanitize(message.as_slice());
            append_valid(&mut m, tail.as_slice());
            proof {
                crate::encoding::lemma_sanitize_id(m@);
            }
            Record::new_system_error(m.as_slice())
        },
        TestOutcome::AnswerFailed { message } => {
            let mut m = lit_bytes("answer file generated failed: ");
            let tail = utf8_sanitize(message.as_slice());
            append_valid(&mut m, tail.as_slice());
            proof {
                crate::encoding::lemma_sanitize_id(m@);
            }
            Record::new_system_error(m.as_slice())
        },
        TestOutcome::CheckerFailed { message } => {
            let mut m = lit_bytes("checker execute failed: ");
            let tail = utf8_sanitize(message.as_slice());
            append_valid(&mut m, tail.as_slice());
            proof {
                crate::encoding::lemma_sanitize_id(m@);
            }
            Record::new_system_error(m.as_slice())
        },
        TestOutcome::Interrupted { result } => Record::new_interrupted(result),
        TestOutcome::Checked { result, output } => Record::new_checked(result, output),
    }
}

/// Minimum of the scores of `s`, starting from `base`.
pub open spec fn seq_min(s: Seq<u64>, base: int) -> int
    decreases s.len(),
{
    if s.len() == 0 {
        base
    } else {
        let m = seq_min(s.drop_first(), base);
        if s[0] < m {
            s[0] as int
        } else {
            m
        }
    }
}

proof fn lemma_seq_min_le(s: Seq<u64>, base: int)
    ensures
        seq_min(s, base) <= base,
        forall|k: int| 0 <= k < s.len() ==> seq_min(s, base) <= #[trigger] s[k],
        seq_min(s, base) >= 0 || seq_min(s, base) == base,
    decreases s.len(),
{
    if s.len() > 0 {
        lemma_seq_min_le(s.drop_first(), base);
        assert forall|k: int| 0 <= k < s.len() implies seq_min(s, base) <= #[trigger] s[k] by {
            if k > 0 {
                assert(s.drop_first()[k - 1] == s[k]);
                assert(seq_min(s.drop_first(), base) <= s.drop_first()[k - 1]);
            }
        }
    }
}

/// The per-test minimum of a subtask's records, full score when there are
/// no tests.
pub open spec fn spec_unscaled(records: Seq<Record>) -> int {
    seq_min(records.map_values(|r: Record| r.score), SCORE_UNIT as int)
}

/// The unscaled score of a judged subtask: the minimum of its per-test
/// scores (one failing test fails the subtask), full score for an empty
/// test list.
pub fn subtask_unscaled(records: &Vec<Record>) -> (r: u64)
    requires
        forall|k: int| 0 <= k < records@.len() ==> (#[trigger] records@[k]).score <= SCORE_UNIT,
    ensures
        r as int == spec_unscaled(records@),
        r <= SCORE_UNIT,
        forall|k: int| 0 <= k < records@.len() ==> r <= (#[trigger] records@[k]).score,
{
    let n = records.len();
    let mut m: u64 = SCORE_UNIT;
    let mut i: usize = n;
    while i > 0
        invariant
            0 <= i <= n == records@.len(),
            forall|k: int|
                0 <= k < records@.len() ==> (#[trigger] records@[k]).score <= SCORE_UNIT,
            m as int == seq_min(
                records@.map_values(|r: Record| r.score).skip(i as int),
                SCORE_UNIT as int,
            ),
            m <= SCORE_UNIT,
        decreases i,
    {
        i -= 1;
        let sc = records[i].score;
        proof {
            let sv = records@.map_values(|r: Record| r.score);
            assert(sv.skip(i as int)[0] == sc);
            assert(sv.skip(i as int).drop_first() =~= sv.skip(i + 1 as int));
        }
        if sc < m {
            m = sc;
        }
    }
    proof {
        let sv = records@.map_values(|r: Record| r.score);
        assert(sv.skip(0) =~= sv);
        lemma_seq_min_le(sv, SCORE_UNIT as int);
        assert(forall|k: int| 0 <= k < sv.len() ==> sv[k] == (#[trigger] records@[k]).score);
    }
    m
}

/// Minimum over `deps` of the already-computed final scores, full score
/// for an empty dependence list.
pub open spec fn spec_effective(finals: Seq<u64>, deps: Seq<usize>) -> int
    decreases deps.len(),
{
    if deps.len() == 0 {
        SCORE_UNIT as int
    } else {
        let rest = spec_effective(finals, deps.drop_first());
        let d = deps[0] as int;
        let f = if 0 <= d < finals.len() {
            finals[d] as int
        } else {
            SCORE_UNIT as int
        };
        if f < rest {
            f
        } else {
            rest
        }
    }
}

proof fn lemma_effective_le(finals: Seq<u64>, deps: Seq<usize>)
    ensures
        spec_effective(finals, deps) <= SCORE_UNIT as int,
        spec_effective(finals, deps) >= 0,
        forall|k: int|
            0 <= k < deps.len() && 0 <= deps[k] < finals.len() ==> spec_effective(finals, deps)
                <= finals[#[trigger] deps[k] as int],
    decreases deps.len(),
{
    if deps.len() > 0 {
        lemma_effective_le(finals, deps.drop_first());
        assert forall|k: int|
            0 <= k < deps.len() && 0 <= deps[k] < finals.len() implies spec_effective(
            finals,
            deps,
        ) <= finals[#[trigger] deps[k] as int] by {
            if k > 0 {
                assert(deps.drop_first()[k - 1] == deps[k]);
                assert(spec_effective(finals, deps.drop_first()) <= finals[
                    deps.drop_first()[k - 1] as int
                ]);
            }
        }
    }
}

/// The effective input score of a subtask: the minimum of its dependences'
/// final scores.  A zero here means the subtask is skipped.
pub fn effective_score(finals: &Vec<u64>, deps: &Vec<usize>) -> (r: u64)
    requires
        forall|k: int| 0 <= k < deps@.len() ==> #[trigger] deps@[k] < finals@.len(),
        forall|k: int| 0 <= k < finals@.len() ==> #[trigger] finals@[k] <= SCORE_UNIT,
    ensures
        r as int == spec_effective(finals@, deps@),
        r <= SCORE_UNIT,
{
    let n = deps.len();
    let mut m: u64 = SCORE_UNIT;
    let mut i: usize = n;
    while i > 0
        invariant
            0 <= i <= n == deps@.len(),
            forall|k: int| 0 <= k < deps@.len() ==> #[trigger] deps@[k] < finals@.len(),
            forall|k: int| 0 <= k < finals@.len() ==> #[trigger] finals@[k] <= SCORE_UNIT,
            m as int == spec_effective(finals@, deps@.skip(i as int)),
            m <= SCORE_UNIT,
        decreases i,
    {
        i -= 1;
        let f = finals[deps[i]];
        proof {
            assert(deps@.skip(i as int)[0] == deps@[i as int]);
            assert(deps@.skip(i as int).drop_first() =~= deps@.skip(i + 1 as int));
        }
        if f < m {
            m = f;
        }
    }
    proof {
        assert(deps@.skip(0) =~= deps@);
    }
    m
}

/// Records of a skipped subtask: one `Skipped` record per test.
pub fn skipped_records(count: usize) -> (r: Vec<Record>)
    ensures
        r@.len() == count,
        forall|k: int|
            0 <= k < count ==> (#[trigger] r@[k]).status == RecordStatus::Skipped && r@[k].score
                == 0 && r@[k].wf(),
{
    let mut r: Vec<Record> = Vec::new();
    let mut i: usize = 0;
    while i < count
        invariant
            0 <= i <= count,
            r@.len() == i,
            forall|k: int|
                0 <= k < i ==> (#[trigger] r@[k]).status == RecordStatus::Skipped && r@[k].score
                    == 0 && r@[k].wf(),
        decreases count - i,
    {
        r.push(Record::new_skipped());
        i += 1;
    }
    r
}

/// The skip decision of one subtask: when the minimum of its dependences'
/// final scores is zero the subtask is skipped outright — one `Skipped`
/// record per test, no judging; otherwise judging proceeds and nothing is
/// decided here.
pub fn skip_when_zero(finals: &Vec<u64>, deps: &Vec<usize>, n_tests: usize) -> (r: Option<
    Vec<Record>,
>)
    requires
        forall|k: int| 0 <= k < deps@.len() ==> #[trigger] deps@[k] < finals@.len(),
        forall|k: int| 0 <= k < finals@.len() ==> #[trigger] finals@[k] <= SCORE_UNIT,
    ensures
        r is Some <==> spec_effective(finals@, deps@) == 0,
        match r {
            Some(rs) => rs@.len() == n_tests && forall|k: int|
                0 <= k < n_tests ==> (#[trigger] rs@[k]).status == RecordStatus::Skipped
                    && rs@[k].score == 0 && rs@[k].wf(),
            None => true,
        },
{
    let eff = effective_score(finals, deps);
    if eff == 0 {
        Some(skipped_records(n_tests))
    } else {
        None
    }
}

/// The final score of each subtask, given each subtask's own per-test
/// minimum `tmins`: the effective input score caps the own score, and a
/// zero effective score forces zero.
pub open spec fn spec_final(subtasks: Seq<Subtask>, tmins: Seq<u64>, i: int) -> int
    decreases i, 1int, 0int,
    when 0 <= i < subtasks.len() && subtask_deps_wf(subtasks[i], i)
{
    let eff = spec_dep_min(subtasks, tmins, subtasks[i].dependences@, i);
    if eff == 0 {
        0
    } else {
        let own = if 0 <= i < tmins.len() {
            tmins[i] as int
        } else {
            SCORE_UNIT as int
        };
        if own < eff {
            own
        } else {
            eff
        }
    }
}

/// Minimum of the final scores the dependence list `deps` of subtask `i`
/// points at.
pub open spec fn spec_dep_min(
    subtasks: Seq<Subtask>,
    tmins: Seq<u64>,
    deps: Seq<usize>,
    i: int,
) -> int
    decreases i, 0int, deps.len(),
    when 0 <= i < subtasks.len() && (forall|k: int|
        0 <= k < deps.len() ==> 0 <= #[trigger] deps[k] < i) && problem_deps_wf(subtasks)
{
    if deps.len() == 0 {
        SCORE_UNIT as int
    } else {
        let d = deps[0] as int;
        let f = spec_final(subtasks, tmins, d);
        let rest = spec_dep_min(subtasks, tmins, deps.drop_first(), i);
        if f < rest {
            f
        } else {
            rest
        }
    }
}

proof fn lemma_final_bounds(subtasks: Seq<Subtask>, tmins: Seq<u64>, i: int)
    requires
        problem_deps_wf(subtasks),
        0 <= i < subtasks.len(),
        forall|k: int| 0 <= k < tmins.len() ==> #[trigger] tmins[k] <= SCORE_UNIT,
    ensures
        0 <= spec_final(subtasks, tmins, i) <= SCORE_UNIT as int,
    decreases i, 1int, 0int,
{
    lemma_dep_min_bounds(subtasks, tmins, subtasks[i].dependences@, i);
}

proof fn lemma_dep_min_bounds(subtasks: Seq<Subtask>, tmins: Seq<u64>, deps: Seq<usize>, i: int)
    requires
        problem_deps_wf(subtasks),
        0 <= i < subtasks.len(),
        forall|k: int| 0 <= k < deps.len() ==> 0 <= #[trigger] deps[k] < i,
        forall|k: int| 0 <= k < tmins.len() ==> #[trigger] tmins[k] <= SCORE_UNIT,
    ensures
        0 <= spec_dep_min(subtasks, tmins, deps, i) <= SCORE_UNIT as int,
        forall|k: int|
            0 <= k < deps.len() ==> spec_dep_min(subtasks, tmins, deps, i) <= spec_final(
                subtasks,
                tmins,
                #[trigger] deps[k] as int,
            ),
    decreases i, 0int, deps.len(),
{
    if deps.len() > 0 {
        lemma_final_bounds(subtasks, tmins, deps[0] as int);
        lemma_dep_min_bounds(subtasks, tmins, deps.drop_first(), i);
        assert forall|k: int|
            0 <= k < deps.len() implies spec_dep_min(subtasks, tmins, deps, i) <= spec_final(
            subtasks,
            tmins,
            #[trigger] deps[k] as int,
        ) by {
            if k > 0 {
                assert(deps.drop_first()[k - 1] == deps[k]);
                assert(spec_dep_min(subtasks, tmins, deps.drop_first(), i) <= spec_final(
                    subtasks,
                    tmins,
                    deps.drop_first()[k - 1] as int,
                ));
            }
        }
    }
}

/// Dependency monotonicity: a subtask's final score never exceeds any of
/// its dependences' final scores.
pub proof fn lemma_dependency_monotonic(
    subtasks: Seq<Subtask>,
    tmins: Seq<u64>,
    i: int,
    k: int,
)
    requires
        problem_deps_wf(subtasks),
        0 <= i < subtasks.len(),
        forall|m: int| 0 <= m < tmins.len() ==> #[trigger] tmins[m] <= SCORE_UNIT,
        0 <= k < subtasks[i].dependences@.len(),
    ensures
        spec_final(subtasks, tmins, i) <= spec_final(
            subtasks,
            tmins,
            subtasks[i].dependences@[k] as int,
        ),
{
    lemma_dep_min_bounds(subtasks, tmins, subtasks[i].dependences@, i);
    lemma_final_bounds(subtasks, tmins, subtasks[i].dependences@[k] as int);
}

/// True when `j` is in the dependency closure of `i`: a direct dependence
/// or a dependence of one, transitively.
pub open spec fn in_closure(subtasks: Seq<Subtask>, i: int, j: int) -> bool
    decreases i,
    when 0 <= i < subtasks.len() && problem_deps_wf(subtasks)
{
    exists|k: int|
        0 <= k < subtasks[i].dependences@.len() && ((#[trigger] subtasks[i].dependences@[k]) as int
            == j || in_closure(subtasks, subtasks[i].dependences@[k] as int, j))
}

/// Zero propagation: a zero final score anywhere in the dependency closure
/// of subtask `i` forces its final score to zero.
pub proof fn lemma_zero_propagates(subtasks: Seq<Subtask>, tmins: Seq<u64>, i: int, j: int)
    requires
        problem_deps_wf(subtasks),
        0 <= i < subtasks.len(),
        forall|m: int| 0 <= m < tmins.len() ==> #[trigger] tmins[m] <= SCORE_UNIT,
        in_closure(subtasks, i, j),
        0 <= j < subtasks.len(),
        spec_final(subtasks, tmins, j) == 0,
    ensures
        spec_final(subtasks, tmins, i) == 0,
    decreases i,
{
    let k = choose|k: int|
        0 <= k < subtasks[i].dependences@.len() && ((#[trigger] subtasks[i].dependences@[k]) as int
            == j || in_closure(subtasks, subtasks[i].dependences@[k] as int, j));
    let d = subtasks[i].dependences@[k] as int;
    if d != j {
        lemma_zero_propagates(subtasks, tmins, d, j);
    }
    assert(spec_final(subtasks, tmins, d) == 0);
    lemma_dep_min_bounds(subtasks, tmins, subtasks[i].dependences@, i);
    assert(spec_dep_min(subtasks, tmins, subtasks[i].dependences@, i) <= 0);
    assert(spec_dep_min(subtasks, tmins, subtasks[i].dependences@, i) == 0);
}

/// Computes every subtask's final score from the per-test minimums, in
/// index order.
pub fn aggregate_scores(subtasks: &Vec<Subtask>, tmins: &Vec<u64>) -> (r: Vec<u64>)
    requires
        problem_deps_wf(subtasks@),
        tmins@.len() == subtasks@.len(),
        forall|k: int| 0 <= k < tmins@.len() ==> #[trigger] tmins@[k] <= SCORE_UNIT,
    ensures
        r@.len() == subtasks@.len(),
        forall|i: int| 0 <= i < r@.len() ==> #[trigger] r@[i] as int == spec_final(
            subtasks@,
            tmins@,
            i,
        ),
        forall|i: int| 0 <= i < r@.len() ==> #[trigger] r@[i] <= SCORE_UNIT,
{
    let n = subtasks.len();
    let mut finals: Vec<u64> = Vec::new();
    let mut i: usize = 0;
    while i < n
        invariant
            0 <= i <= n == subtasks@.len() == tmins@.len(),
            problem_deps_wf(subtasks@),
            forall|k: int| 0 <= k < tmins@.len() ==> #[trigger] tmins@[k] <= SCORE_UNIT,
            finals@.len() == i,
            forall|k: int| 0 <= k < i ==> #[trigger] finals@[k] as int == spec_final(
                subtasks@,
                tmins@,
                k,
            ),
            forall|k: int| 0 <= k < i ==> #[trigger] finals@[k] <= SCORE_UNIT,
        decreases n - i,
    {
        proof {
            assert(subtask_deps_wf(subtasks@[i as int], i as int));
        }
        let eff = effective_score(&finals, &subtasks[i].dependences);
        proof {
            lemma_effective_matches_dep_min(
                subtasks@,
                tmins@,
                finals@,
                subtasks@[i as int].dependences@,
                i as int,
            );
        }
        let own = tmins[i];
        let f: u64 = if eff == 0 {
            0
        } else if own < eff {
            own
        } else {
            eff
        };
        finals.push(f);
        i += 1;
    }
    finals
}

/// When the prefix of computed finals agrees with `spec_final`, the
/// running minimum over a dependence list agrees with `spec_dep_min`.
proof fn lemma_effective_matches_dep_min(
    subtasks: Seq<Subtask>,
    tmins: Seq<u64>,
    finals: Seq<u64>,
    deps: Seq<usize>,
    i: int,
)
    requires
        problem_deps_wf(subtasks),
        0 <= i < subtasks.len(),
        forall|k: int| 0 <= k < deps.len() ==> 0 <= #[trigger] deps[k] < i,
        i <= finals.len(),
        forall|k: int|
            0 <= k < finals.len() ==> #[trigger] finals[k] as int == spec_final(
                subtasks,
                tmins,
                k,
            ),
        finals.len() <= subtasks.len(),
        forall|k: int| 0 <= k < tmins.len() ==> #[trigger] tmins[k] <= SCORE_UNIT,
    ensures
        spec_effective(finals, deps) == spec_dep_min(subtasks, tmins, deps, i),
    decreases deps.len(),
{
    if deps.len() > 0 {
        lemma_effective_matches_dep_min(subtasks, tmins, finals, deps.drop_first(), i);
        assert(forall|k: int| 1 <= k < deps.len() ==> deps[k] == #[trigger] deps.drop_first()[k - 1]);
        assert(finals[deps[0] as int] as int == spec_final(subtasks, tmins, deps[0] as int));
    }
}

/// The exact weighted total: the sum over subtasks of weight times final
/// score, in weight-millionths.
pub open spec fn spec_total(subtasks: Seq<Subtask>, finals: Seq<u64>) -> int
    decreases subtasks.len(),
{
    if subtasks.len() == 0 || finals.len() == 0 {
        0
    } else {
        spec_total(subtasks.drop_last(), finals.drop_last()) + subtasks.last().score
            * finals.last()
    }
}

proof fn lemma_total_nonneg(subtasks: Seq<Subtask>, finals: Seq<u64>)
    ensures
        spec_total(subtasks, finals) >= 0,
    decreases subtasks.len(),
{
    if subtasks.len() > 0 && finals.len() > 0 {
        lemma_total_nonneg(subtasks.drop_last(), finals.drop_last());
        assert(subtasks.last().score * finals.last() >= 0) by (nonlinear_arith);
    }
}

/// Computes the total score exactly: the sum over subtasks of weight times
/// final score, with no intermediate rounding.  The caller keeps the sum
/// within machine range.
pub fn total_score(subtasks: &Vec<Subtask>, finals: &Vec<u64>) -> (r: u64)
    requires
        finals@.len() == subtasks@.len(),
        spec_total(subtasks@, finals@) <= u64::MAX,
    ensures
        r as int == spec_total(subtasks@, finals@),
{
    let n = subtasks.len();
    let mut sum: u64 = 0;
    let mut i: usize = 0;
    while i < n
        invariant
            0 <= i <= n == subtasks@.len() == finals@.len(),
            spec_total(subtasks@, finals@) <= u64::MAX,
            sum as int == spec_total(subtasks@.take(i as int), finals@.take(i as int)),
        decreases n - i,
    {
        proof {
            assert(subtasks@.take(i + 1 as int).drop_last() =~= subtasks@.take(i as int));
            assert(finals@.take(i + 1 as int).drop_last() =~= finals@.take(i as int));
            assert(subtasks@.take(i + 1 as int).last() == subtasks@[i as int]);
            assert(finals@.take(i + 1 as int).last() == finals@[i as int]);
            lemma_total_prefix_le(subtasks@, finals@, i + 1 as int);
            lemma_total_nonneg(subtasks@.take(i as int), finals@.take(i as int));
            assert(subtasks@[i as int].score * finals@[i as int] >= 0) by (nonlinear_arith);
        }
        let prod = subtasks[i].score.checked_mul(finals[i]);
        match prod {
            Some(p) => {
                sum = sum + p;
            },
            None => {
                proof {
                    assert(false);
                }
            },
        }
        i += 1;
    }
    proof {
        assert(subtasks@.take(n as int) =~= subtasks@);
        assert(finals@.take(n as int) =~= finals@);
    }
    sum
}

/// A prefix of the weighted sum never exceeds the whole.
proof fn lemma_total_prefix_le(subtasks: Seq<Subtask>, finals: Seq<u64>, i: int)
    requires
        0 <= i <= subtasks.len(),
        subtasks.len() == finals.len(),
    ensures
        spec_total(subtasks.take(i), finals.take(i)) <= spec_total(subtasks, finals),
    decreases subtasks.len() - i,
{
    if i < subtasks.len() {
        lemma_total_prefix_le(subtasks, finals, i + 1);
        assert(subtasks.take(i + 1).drop_last() =~= subtasks.take(i));
        assert(finals.take(i + 1).drop_last() =~= finals.take(i));
        assert(subtasks.take(i + 1).last() == subtasks[i]);
        assert(finals.take(i + 1).last() == finals[i]);
        assert(subtasks[i].score * finals[i] >= 0) by (nonlinear_arith);
    } else {
        assert(subtasks.take(i) =~= subtasks);
        assert(finals.take(i) =~= finals);
    }
}

} // verus!
