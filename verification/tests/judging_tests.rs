//! Tests of records, status mappings, and exact score aggregation.

use rindag::checker;
use rindag::problem::{
    aggregate_scores, effective_score, record_of_outcome, skipped_records, subtask_unscaled,
    total_score, Response, Subtask, Testset, TestOutcome,
};
use rindag::record::{i32_dec, u64_dec, Record, RecordStatus, RuntimeError};
use rindag::sandbox::response::{ExecuteResult, Status};
use rindag::score::SCORE_UNIT;

fn subtask(weight: u64, deps: Vec<usize>, tests: usize) -> Subtask {
    Subtask {
        id: 0,
        score: weight,
        dependences: deps,
        testset: Testset::Main,
        tests: (0..tests)
            .map(|_| rindag::problem::Test {
                input: rindag::problem::Input::Plain { context: vec![] },
                answer: rindag::problem::Answer::Plain { context: vec![] },
            })
            .collect(),
        time_limit_ns: 1_000_000_000,
        memory_limit: 256 * 1024 * 1024,
    }
}

fn accepted_result() -> ExecuteResult {
    ExecuteResult { status: Status::Accepted, time_ns: 1_000_000, memory: 4096, exit_code: 0 }
}

#[test]
fn test_status_mappings() {
    assert_eq!(RecordStatus::from_execute(Status::Accepted), RecordStatus::Accepted);
    assert_eq!(
        RecordStatus::from_execute(Status::TimeLimitExceeded),
        RecordStatus::TimeLimitExceeded
    );
    assert_eq!(
        RecordStatus::from_execute(Status::MemoryLimitExceeded),
        RecordStatus::MemoryLimitExceeded
    );
    assert_eq!(
        RecordStatus::from_execute(Status::OutputLimitExceeded),
        RecordStatus::OutputLimitExceeded
    );
    assert_eq!(RecordStatus::from_execute(Status::FileError), RecordStatus::FileError);
    assert_eq!(RecordStatus::from_execute(Status::NonZeroExitStatus), RecordStatus::RuntimeError);
    assert_eq!(RecordStatus::from_execute(Status::DangerousSyscall), RecordStatus::RuntimeError);
    assert_eq!(RecordStatus::from_execute(Status::Signalled), RecordStatus::RuntimeError);
    assert_eq!(RecordStatus::from_execute(Status::InternalError), RecordStatus::SystemError);

    assert_eq!(RecordStatus::from_checker(checker::Status::Accepted), RecordStatus::Accepted);
    assert_eq!(
        RecordStatus::from_checker(checker::Status::WrongAnswer),
        RecordStatus::WrongAnswer
    );
    assert_eq!(
        RecordStatus::from_checker(checker::Status::PartiallyCorrect),
        RecordStatus::PartiallyCorrect
    );
    assert_eq!(
        RecordStatus::from_checker(checker::Status::PresentationError),
        RecordStatus::PresentationError
    );
    assert_eq!(
        RecordStatus::from_checker(checker::Status::SystemError),
        RecordStatus::SystemError
    );
}

#[test]
fn test_record_constructors() {
    let r = Record::new_waiting();
    assert_eq!(r.status, RecordStatus::Waiting);
    assert_eq!(r.message, b"waiting".to_vec());
    let r = Record::new_skipped();
    assert_eq!(r.status, RecordStatus::Skipped);
    assert_eq!(r.message, b"skipped".to_vec());

    let res = ExecuteResult {
        status: Status::Signalled,
        time_ns: 2_000_000_000,
        memory: 123,
        exit_code: -9,
    };
    let r = Record::new_interrupted(&res);
    assert_eq!(r.status, RecordStatus::RuntimeError);
    assert_eq!(r.time_ns, 2_000_000_000);
    assert_eq!(r.memory, 123);
    assert_eq!(r.exit_code, -9);
    assert_eq!(r.score, 0);
    let text = String::from_utf8(r.message.clone()).unwrap();
    assert_eq!(
        text,
        "task executed failed (status: signalled, time: 2000000000 ns, memory: 123 bytes, exit code: -9)"
    );

    let out = checker::Output::parse(b"points 0.5 half");
    let r = Record::new_checked(&accepted_result(), &out);
    assert_eq!(r.status, RecordStatus::PartiallyCorrect);
    assert_eq!(r.score, SCORE_UNIT / 2);
    assert_eq!(r.message, b"points 0.5 half".to_vec());
}

#[test]
fn test_record_of_outcome() {
    let r = record_of_outcome(&TestOutcome::InputFailed { message: b"boom".to_vec() });
    assert_eq!(r.status, RecordStatus::SystemError);
    assert_eq!(
        String::from_utf8(r.message).unwrap(),
        "input file generated failed: boom"
    );
    let r = record_of_outcome(&TestOutcome::CheckerFailed { message: b"gone".to_vec() });
    assert_eq!(String::from_utf8(r.message).unwrap(), "checker execute failed: gone");
    let out = checker::Output::parse(b"ok fine");
    let r = record_of_outcome(&TestOutcome::Checked { result: accepted_result(), output: out });
    assert_eq!(r.status, RecordStatus::Accepted);
    assert_eq!(r.score, SCORE_UNIT);
}

#[test]
fn test_decimal_rendering() {
    assert_eq!(u64_dec(0), b"0".to_vec());
    assert_eq!(u64_dec(998244353), b"998244353".to_vec());
    assert_eq!(i32_dec(-1), b"-1".to_vec());
    assert_eq!(i32_dec(i32::MIN), b"-2147483648".to_vec());
}

#[test]
fn test_compile_error_response() {
    let err = RuntimeError {
        result: ExecuteResult {
            status: Status::NonZeroExitStatus,
            time_ns: 5,
            memory: 6,
            exit_code: 1,
        },
    };
    match Response::from_compile_error(&err) {
        Response::CompileErr { message } => {
            assert!(!message.is_empty());
        },
        _ => panic!("expected a compile-error event"),
    }
}

fn record_with_score(score: u64) -> Record {
    Record {
        status: RecordStatus::Accepted,
        time_ns: 0,
        memory: 0,
        exit_code: 0,
        score,
        message: vec![],
    }
}

#[test]
fn test_subtask_unscaled_is_minimum() {
    let records = vec![
        record_with_score(SCORE_UNIT),
        record_with_score(SCORE_UNIT / 4),
        record_with_score(SCORE_UNIT / 2),
    ];
    assert_eq!(subtask_unscaled(&records), SCORE_UNIT / 4);
    assert_eq!(subtask_unscaled(&vec![]), SCORE_UNIT);
}

#[test]
fn test_effective_score_is_dependency_minimum() {
    let finals = vec![SCORE_UNIT, SCORE_UNIT / 2, SCORE_UNIT / 4];
    assert_eq!(effective_score(&finals, &vec![]), SCORE_UNIT);
    assert_eq!(effective_score(&finals, &vec![0, 1]), SCORE_UNIT / 2);
    assert_eq!(effective_score(&finals, &vec![1, 2]), SCORE_UNIT / 4);
}

#[test]
fn test_aggregate_caps_by_dependencies() {
    // subtask 1 depends on 0, and cannot score above it
    let subtasks = vec![subtask(100, vec![], 1), subtask(100, vec![0], 1)];
    let tmins = vec![SCORE_UNIT / 2, SCORE_UNIT];
    let finals = aggregate_scores(&subtasks, &tmins);
    assert_eq!(finals, vec![SCORE_UNIT / 2, SCORE_UNIT / 2]);
}

#[test]
fn test_zero_propagates_through_closure() {
    // 0 <- 1 <- 2: a zero at the root forces zero all the way down
    let subtasks = vec![
        subtask(100, vec![], 1),
        subtask(100, vec![0], 1),
        subtask(100, vec![1], 1),
    ];
    let tmins = vec![0, SCORE_UNIT, SCORE_UNIT];
    let finals = aggregate_scores(&subtasks, &tmins);
    assert_eq!(finals, vec![0, 0, 0]);
}

#[test]
fn test_skipped_records_shape() {
    let rs = skipped_records(3);
    assert_eq!(rs.len(), 3);
    for r in rs {
        assert_eq!(r.status, RecordStatus::Skipped);
        assert_eq!(r.score, 0);
    }
}

#[test]
fn test_total_score_exact_weighted_sum() {
    // the happy path: one subtask of weight 100 with full score gives 100
    let subtasks = vec![subtask(100, vec![], 2)];
    let finals = vec![SCORE_UNIT];
    assert_eq!(total_score(&subtasks, &finals), 100 * SCORE_UNIT);

    // mixed weights and fractions, exactly
    let subtasks = vec![subtask(30, vec![], 1), subtask(70, vec![], 1)];
    let finals = vec![SCORE_UNIT / 4, 120_000];
    assert_eq!(
        total_score(&subtasks, &finals),
        30 * (SCORE_UNIT / 4) + 70 * 120_000
    );
}

#[test]
fn test_wrong_answer_path_scores_zero() {
    // both tests judged wrong: the subtask minimum and the total are zero
    let out = checker::Output::parse(b"wrong answer nope");
    let r1 = Record::new_checked(&accepted_result(), &out);
    let out = checker::Output::parse(b"wrong answer still no");
    let r2 = Record::new_checked(&accepted_result(), &out);
    assert_eq!(r1.status, RecordStatus::WrongAnswer);
    assert_eq!(r2.status, RecordStatus::WrongAnswer);
    let tmin = subtask_unscaled(&vec![r1, r2]);
    assert_eq!(tmin, 0);
    let subtasks = vec![subtask(100, vec![], 2)];
    let finals = aggregate_scores(&subtasks, &vec![tmin]);
    assert_eq!(total_score(&subtasks, &finals), 0);
}

#[test]
fn test_accepted_path_scores_full() {
    // the happy path over records: two accepted tests give the full total
    let out = checker::Output::parse(b"ok 1 2 3");
    let r1 = Record::new_checked(&accepted_result(), &out);
    let out = checker::Output::parse(b"ok also fine");
    let r2 = Record::new_checked(&accepted_result(), &out);
    let tmin = subtask_unscaled(&vec![r1, r2]);
    assert_eq!(tmin, SCORE_UNIT);
    let subtasks = vec![subtask(100, vec![], 2)];
    let finals = aggregate_scores(&subtasks, &vec![tmin]);
    assert_eq!(total_score(&subtasks, &finals), 100 * SCORE_UNIT);
}

#[test]
fn test_skip_when_zero_decision() {
    let finals = vec![0, SCORE_UNIT];
    let skipped = rindag::problem::skip_when_zero(&finals, &vec![0], 2)
        .expect("a zero dependency skips the subtask");
    assert_eq!(skipped.len(), 2);
    for r in &skipped {
        assert_eq!(r.status, RecordStatus::Skipped);
    }
    assert!(rindag::problem::skip_when_zero(&finals, &vec![1], 2).is_none());
    assert!(rindag::problem::skip_when_zero(&finals, &vec![], 2).is_none());
}
