//! Tests of the checker-output and testlib parsers, the score grammar and
//! message limiting.

use rindag::checker::{Output, Status};
use rindag::encoding::{limit_message, utf8_sanitize, MESSAGE_LIMIT};
use rindag::score::{parse_score, SCORE_UNIT};
use rindag::status::Status as ProgressStatus;
use rindag::testlib::parse_output;

fn score_f32(micros: u64) -> f32 {
    micros as f32 / SCORE_UNIT as f32
}

#[test]
fn checker_test_parse_output() {
    let out = Output::parse(b"ok you win\n3 steps.");
    assert_eq!(out.status, Status::Accepted);
    assert_eq!(score_f32(out.score), 1.0f32);
    assert_eq!(out.message, b"ok you win\n3 steps.".to_vec());

    let out = Output::parse(b"wrong answer you lose\n12 steps.");
    assert_eq!(out.status, Status::WrongAnswer);
    assert_eq!(score_f32(out.score), 0.0f32);
    assert_eq!(out.message, b"wrong answer you lose\n12 steps.".to_vec());

    let out = Output::parse(b"points 0.12 you used 12 / 100 moves");
    assert_eq!(out.status, Status::PartiallyCorrect);
    assert_eq!(score_f32(out.score), 0.12f32);
    assert_eq!(out.message, b"points 0.12 you used 12 / 100 moves".to_vec());

    let out = Output::parse(b"wrong output format \t \textra spaces\n\t\t");
    assert_eq!(out.status, Status::PresentationError);
    assert_eq!(score_f32(out.score), 0.0f32);
    assert_eq!(out.message, b"wrong output format \t \textra spaces\n\t\t".to_vec());

    let out = Output::parse(b"status(accepted)\nscore(0.1)");
    assert_eq!(out.status, Status::Accepted);
    assert_eq!(score_f32(out.score), 0.1f32);
    assert_eq!(out.message, b"status(accepted)\nscore(0.1)".to_vec());
}

#[test]
fn testlib_test_parse_output() {
    let (st, sc, msg) = parse_output(b"ok you win\n3 steps.", false);
    assert_eq!(st, ProgressStatus::Accepted);
    assert_eq!(score_f32(sc), 1.0f32);
    assert_eq!(msg, b"ac you win\n3 steps.".to_vec());

    let (st, sc, msg) = parse_output(b"wrong answer you lose\n12 steps.", false);
    assert_eq!(st, ProgressStatus::WrongAnswer);
    assert_eq!(score_f32(sc), 0.0f32);
    assert_eq!(msg, b"wa you lose\n12 steps.".to_vec());

    let (st, sc, msg) = parse_output(b"points 0.12 you used 12 / 100 moves", false);
    assert_eq!(st, ProgressStatus::PartiallyCorrect);
    assert_eq!(score_f32(sc), 0.12f32);
    assert_eq!(msg, b"pc you used 12 / 100 moves".to_vec());

    let (st, sc, msg) = parse_output(b"wrong output format \t \textra spaces\n\t\t", false);
    assert_eq!(st, ProgressStatus::PresentationError);
    assert_eq!(score_f32(sc), 0.0f32);
    assert_eq!(msg, b"pe extra spaces".to_vec());

    let (st, sc, msg) = parse_output(b"status(time_limit_exceeded)\nscore(1)", false);
    assert_eq!(st, ProgressStatus::TimeLimitExceeded);
    assert_eq!(score_f32(sc), 1.0f32);
    assert_eq!(msg, b"status(time_limit_exceeded)\nscore(1)".to_vec());
}

#[test]
fn test_fail_as_wa_switch() {
    let (st, _, msg) = parse_output(b"FAIL broken input", false);
    assert_eq!(st, ProgressStatus::SystemError);
    assert_eq!(msg, b"fail broken input".to_vec());
    let (st, _, _) = parse_output(b"FAIL broken input", true);
    assert_eq!(st, ProgressStatus::WrongAnswer);
}

#[test]
fn test_parser_default_is_system_error() {
    let out = Output::parse(b"something unexpected");
    assert_eq!(out.status, Status::SystemError);
    assert_eq!(out.score, 0);
    // a bare `points` without the decimal also falls through
    let out = Output::parse(b"points abc");
    assert_eq!(out.status, Status::SystemError);
    assert_eq!(out.score, 0);
}

#[test]
fn test_points_thresholds() {
    let out = Output::parse(b"points 1.5 too generous");
    assert_eq!(out.status, Status::Accepted);
    assert_eq!(out.score, SCORE_UNIT);
    let out = Output::parse(b"points 0 nothing");
    assert_eq!(out.status, Status::WrongAnswer);
    assert_eq!(out.score, 0);
    let out = Output::parse(b"partially correct (0.5) half");
    assert_eq!(out.status, Status::PartiallyCorrect);
    assert_eq!(out.score, SCORE_UNIT / 2);
}

#[test]
fn test_overrides_last_line_wins() {
    let out = Output::parse(b"ok fine\nstatus(wrong_answer)\nstatus(partially_correct)\nscore(0.25)\nscore(0.75)");
    assert_eq!(out.status, Status::PartiallyCorrect);
    assert_eq!(out.score, 750_000);
    // unknown names and malformed numbers are ignored
    let out = Output::parse(b"ok fine\nstatus(bogus)\nscore(1.2.3)");
    assert_eq!(out.status, Status::Accepted);
    assert_eq!(out.score, SCORE_UNIT);
    // an override score above one is clamped
    let out = Output::parse(b"ok fine\nscore(17)");
    assert_eq!(out.score, SCORE_UNIT);
}

#[test]
fn test_parse_score_grammar() {
    assert_eq!(parse_score(b"0.12"), Some(120_000));
    assert_eq!(parse_score(b"1"), Some(SCORE_UNIT));
    assert_eq!(parse_score(b".5"), Some(500_000));
    assert_eq!(parse_score(b"0."), Some(0));
    assert_eq!(parse_score(b""), None);
    assert_eq!(parse_score(b"."), None);
    assert_eq!(parse_score(b"1e5"), None);
    assert_eq!(parse_score(b"1.2.3"), None);
    assert_eq!(parse_score(b"007"), Some(SCORE_UNIT));
}

#[test]
fn test_limit_message_short_unchanged() {
    let s = b"hello world".to_vec();
    assert_eq!(limit_message(&s), s);
}

#[test]
fn test_limit_message_truncates_on_boundary() {
    // 1020 ASCII bytes followed by a three-byte character: the cut at 1021
    // would split the character, so it backs up to 1020
    let mut s = vec![b'a'; 1020];
    s.extend_from_slice("\u{20ac}".as_bytes());
    s.extend(vec![b'b'; 100]);
    let r = limit_message(&s);
    assert!(r.len() <= MESSAGE_LIMIT);
    assert_eq!(r.len(), 1020 + 3);
    assert!(std::str::from_utf8(&r).is_ok());
    assert!(std::str::from_utf8(&r).unwrap().ends_with('\u{2026}'));
}

#[test]
fn test_limit_message_idempotent_concrete() {
    let s = vec![b'x'; 5000];
    let once = limit_message(&s);
    let twice = limit_message(&once);
    assert_eq!(once, twice);
    assert_eq!(once.len(), MESSAGE_LIMIT);
}

#[test]
fn test_utf8_sanitize() {
    assert_eq!(utf8_sanitize(b"plain"), b"plain".to_vec());
    // a lone continuation byte becomes the replacement character
    let r = utf8_sanitize(&[b'a', 0x80, b'b']);
    assert_eq!(r, vec![b'a', 0xef, 0xbf, 0xbd, b'b']);
    assert!(std::str::from_utf8(&r).is_ok());
    // well-formed multibyte content is kept
    let s = "na\u{ef}ve".as_bytes().to_vec();
    assert_eq!(utf8_sanitize(&s), s);
}

#[test]
fn test_parser_is_total_on_junk() {
    let mut junk: Vec<u8> = Vec::new();
    for i in 0..4096 {
        junk.push((i * 37 % 256) as u8);
    }
    let out = Output::parse(&junk);
    assert!(out.score <= SCORE_UNIT);
    assert!(out.message.len() <= MESSAGE_LIMIT);
    assert!(std::str::from_utf8(&out.message).is_ok());
}
