//! Tests of the supporting pieces: built-in pools, configuration, languages,
//! command building, the validator-log parser and the sandbox model.

use rindag::builtin::{File as BuiltinFile, FileFromStrError, FileNotExistError, Pools};
use rindag::data::Provider;
use rindag::etc::Cfg;
use rindag::file::File;
use rindag::generator::Generator;
use rindag::judge::judge_batch_result;
use rindag::lang::Lang;
use rindag::program::{compile_request, compile_result, Executable, Source};
use rindag::sandbox::file::FileHandle;
use rindag::sandbox::request::Cmd;
use rindag::sandbox::response::{ExecuteResult, ResponseResult, Status};
use rindag::validator::{Overview, VariableBounds};

fn pools() -> Pools {
    Pools {
        testlib: rindag::builtin::Testlib {
            files: vec![("testlib.h".to_string(), b"// testlib header".to_vec())],
        },
        checker: rindag::builtin::Checker {
            files: vec![("ncmp.cpp".to_string(), b"// ncmp source".to_vec())],
        },
    }
}

#[test]
fn test_builtin_lookup() {
    let p = pools();
    let f = BuiltinFile::new(&p, "testlib", "testlib.h").unwrap();
    assert_eq!(f.as_bytes(), &b"// testlib header".to_vec());
    assert_eq!(f.pool, "testlib".to_string());
    assert_eq!(f.path, "testlib.h".to_string());

    match BuiltinFile::new(&p, "nowhere", "x") {
        Err(FileNotExistError::Pool(name)) => assert_eq!(name, "nowhere".to_string()),
        _ => panic!("expected an unknown pool"),
    }
    match BuiltinFile::new(&p, "checker", "missing.cpp") {
        Err(FileNotExistError::Path { pool, path }) => {
            assert_eq!(pool, "checker".to_string());
            assert_eq!(path, "missing.cpp".to_string());
        },
        _ => panic!("expected a missing path"),
    }
}

#[test]
fn test_builtin_reference_text() {
    let p = pools();
    let f = BuiltinFile::from_text(&p, "checker:ncmp.cpp").unwrap();
    assert_eq!(f.as_bytes(), &b"// ncmp source".to_vec());
    match BuiltinFile::from_text(&p, "no separator here") {
        Err(FileFromStrError::Format(t)) => assert_eq!(t, "no separator here".to_string()),
        _ => panic!("expected a format error"),
    }
}

#[test]
fn test_provider_and_file_bytes() {
    let p = Provider::Memory(b"xyz".to_vec());
    assert_eq!(p.as_bytes(), &b"xyz".to_vec());
    let f = File::Memory(b"abc".to_vec());
    assert_eq!(f.as_bytes(), &b"abc".to_vec());
    let pool = pools();
    let b = BuiltinFile::from_text(&pool, "testlib:testlib.h").unwrap();
    let p = Provider::Builtin(b);
    assert_eq!(p.as_bytes(), &b"// testlib header".to_vec());
}

#[test]
fn test_default_config_and_lang() {
    let cfg = Cfg::default();
    assert_eq!(cfg.judge.time_limit_ns, 10_000_000_000);
    assert_eq!(cfg.judge.memory_limit, 1024 * 1024 * 1024);
    assert_eq!(cfg.judge.process_limit, 16);

    let c = Lang::from_cfg(&cfg, "c").unwrap();
    assert_eq!(c.name(), "c");
    assert_eq!(c.source(), "foo.c");
    assert_eq!(c.exec_file(), "foo");
    assert_eq!(c.compile_cmd()[0], "/usr/bin/gcc".to_string());
    let cpp = Lang::from_cfg(&cfg, "cpp").unwrap();
    assert_eq!(cpp.source(), "foo.cpp");
    let err = Lang::from_cfg(&cfg, "cobol").unwrap_err();
    assert_eq!(err.lang, "cobol".to_string());
}

#[test]
fn test_cmd_defaults_and_clock() {
    let cfg = Cfg::default();
    let cmd = Cmd::with_defaults(&cfg.judge);
    assert_eq!(cmd.time_limit_ns, cfg.judge.time_limit_ns);
    assert_eq!(cmd.memory_limit, cfg.judge.memory_limit);
    assert_eq!(cmd.clock_limit_ns(), 2 * cfg.judge.time_limit_ns);
    assert!(cmd.stdin.is_none());
    assert!(cmd.copy_in.is_empty());
}

#[test]
fn test_compile_request_shape() {
    let cfg = Cfg::default();
    let lang = Lang::from_cfg(&cfg, "c").unwrap();
    let code = FileHandle::from_id("code-id".to_string());
    let cmd = compile_request(
        &lang,
        &vec!["-DX".to_string()],
        code,
        vec![("my_head.c".to_string(), FileHandle::from_id("head-id".to_string()))],
        &cfg.judge,
    );
    let mut expected = lang.compile_cmd().clone();
    expected.push("-DX".to_string());
    assert_eq!(cmd.args, expected);
    assert_eq!(cmd.copy_in.len(), 2);
    assert_eq!(cmd.copy_in[0].0, "my_head.c".to_string());
    assert_eq!(cmd.copy_in[1].0, "foo.c".to_string());
    assert_eq!(cmd.copy_in[1].1.id().as_str(), "code-id");
    assert_eq!(cmd.copy_out, vec!["stderr".to_string()]);
    assert_eq!(cmd.copy_out_cached, vec!["foo".to_string()]);
}

#[test]
fn test_compile_result_paths() {
    let cfg = Cfg::default();
    let lang = Lang::from_cfg(&cfg, "c").unwrap();
    let ok = ResponseResult {
        result: ExecuteResult { status: Status::Accepted, time_ns: 1, memory: 2, exit_code: 0 },
        files: vec![("foo".to_string(), FileHandle::from_id("exec-id".to_string()))],
    };
    let e = compile_result(&lang, &ok, b"").unwrap();
    assert_eq!(e.file.id().as_str(), "exec-id");

    let bad = ResponseResult {
        result: ExecuteResult {
            status: Status::NonZeroExitStatus,
            time_ns: 1,
            memory: 2,
            exit_code: 1,
        },
        files: vec![],
    };
    let err = compile_result(&lang, &bad, b"syntax error").unwrap_err();
    assert_eq!(err.message, b"syntax error".to_vec());
    assert_eq!(err.result.exit_code, 1);
}

#[test]
fn test_judge_batch_result_paths() {
    let ok = ResponseResult {
        result: ExecuteResult { status: Status::Accepted, time_ns: 1, memory: 2, exit_code: 0 },
        files: vec![("stdout".to_string(), FileHandle::from_id("out-id".to_string()))],
    };
    let (res, file) = judge_batch_result(&ok);
    assert_eq!(res.status, Status::Accepted);
    assert_eq!(file.unwrap().id().as_str(), "out-id");

    let tle = ResponseResult {
        result: ExecuteResult {
            status: Status::TimeLimitExceeded,
            time_ns: 1,
            memory: 2,
            exit_code: -1,
        },
        files: vec![("stdout".to_string(), FileHandle::from_id("late".to_string()))],
    };
    let (res, file) = judge_batch_result(&tle);
    assert_eq!(res.status, Status::TimeLimitExceeded);
    assert!(file.is_none());
}

#[test]
fn test_generate_request_argv() {
    let cfg = Cfg::default();
    let lang = Lang::from_cfg(&cfg, "cpp").unwrap();
    let gen = Generator::from_executable(Executable {
        lang,
        file: FileHandle::from_id("gen-id".to_string()),
    });
    let cmd = gen.generate_request(
        &vec!["-a".to_string(), "1".to_string()],
        vec![],
        &cfg.judge,
    );
    assert_eq!(cmd.args, vec!["foo".to_string(), "-a".to_string(), "1".to_string()]);
    assert_eq!(cmd.copy_out_cached, vec!["stdout".to_string()]);
    assert_eq!(cmd.copy_in[0].0, "foo".to_string());
}

#[test]
fn test_overview_parse_round_trip() {
    // the validator asserted a in [1,100] and b in [1,100]; the run hit a's
    // minimum and b's maximum
    let log = b"\"a\": min-value-hit\n\"b\": max-value-hit\nfeature \"sum_0\":\nfeature \"even\": hit";
    let ov = Overview::parse(log);
    assert_eq!(
        ov.get_variable(b"a"),
        Some(VariableBounds { hit_min: true, hit_max: false })
    );
    assert_eq!(
        ov.get_variable(b"b"),
        Some(VariableBounds { hit_min: false, hit_max: true })
    );
    assert_eq!(ov.get_variable(b"c"), None);
    assert_eq!(ov.get_feature(b"sum_0"), Some(false));
    assert_eq!(ov.get_feature(b"even"), Some(true));
    assert_eq!(ov.variables.len(), 2);
    assert_eq!(ov.features.len(), 2);
}

#[test]
fn test_overview_parse_edge_forms() {
    let ov = Overview::parse(b"\"x\": min-value-hit max-value-hit\n\"y\":\nnoise line");
    assert_eq!(
        ov.get_variable(b"x"),
        Some(VariableBounds { hit_min: true, hit_max: true })
    );
    assert_eq!(
        ov.get_variable(b"y"),
        Some(VariableBounds { hit_min: false, hit_max: false })
    );
    // a later entry for the same name shadows the earlier one
    let ov = Overview::parse(b"\"x\":\n\"x\": max-value-hit");
    assert_eq!(
        ov.get_variable(b"x"),
        Some(VariableBounds { hit_min: false, hit_max: true })
    );
}

#[test]
fn test_source_holds_language_and_data() {
    let cfg = Cfg::default();
    let lang = Lang::from_cfg(&cfg, "c").unwrap();
    let src = Source { lang, data: Provider::Memory(b"int main(){}".to_vec()) };
    assert_eq!(src.data.as_bytes(), &b"int main(){}".to_vec());
    assert_eq!(src.lang.name(), "c");
}

#[test]
fn test_file_handle_identity() {
    let h = FileHandle::from_id("abc".to_string());
    assert_eq!(h.id().as_str(), "abc");
    let h2 = h.share();
    assert_eq!(h2.id().as_str(), "abc");
}

#[test]
fn test_check_result_paths() {
    let ran = ResponseResult {
        result: ExecuteResult {
            status: Status::NonZeroExitStatus,
            time_ns: 1,
            memory: 2,
            exit_code: 3,
        },
        files: vec![],
    };
    // testlib checkers report verdicts through a nonzero exit, so the
    // output is still parsed
    let out = rindag::checker::check_result(&ran, b"wrong answer nope").unwrap();
    assert_eq!(out.status, rindag::checker::Status::WrongAnswer);

    let crashed = ResponseResult {
        result: ExecuteResult {
            status: Status::Signalled,
            time_ns: 1,
            memory: 2,
            exit_code: -11,
        },
        files: vec![],
    };
    let err = rindag::checker::check_result(&crashed, b"").unwrap_err();
    assert_eq!(err.result.status, Status::Signalled);
}

#[test]
fn test_validate_result_paths() {
    let ok = ResponseResult {
        result: ExecuteResult { status: Status::Accepted, time_ns: 1, memory: 2, exit_code: 0 },
        files: vec![],
    };
    let ov = rindag::validator::validate_result(&ok, b"\"a\": min-value-hit").unwrap();
    assert_eq!(
        ov.get_variable(b"a"),
        Some(VariableBounds { hit_min: true, hit_max: false })
    );
    let bad = ResponseResult {
        result: ExecuteResult {
            status: Status::TimeLimitExceeded,
            time_ns: 1,
            memory: 2,
            exit_code: -1,
        },
        files: vec![],
    };
    let err = rindag::validator::validate_result(&bad, b"").unwrap_err();
    assert_eq!(err.result.status, Status::TimeLimitExceeded);
}

#[test]
fn test_generate_result_error() {
    let bad = ResponseResult {
        result: ExecuteResult {
            status: Status::NonZeroExitStatus,
            time_ns: 1,
            memory: 2,
            exit_code: 1,
        },
        files: vec![],
    };
    let err = rindag::generator::generate_result(&bad).unwrap_err();
    assert_eq!(err.result.exit_code, 1);
}

#[test]
fn test_check_request_file_bindings() {
    let cfg = Cfg::default();
    let lang = Lang::from_cfg(&cfg, "cpp").unwrap();
    let chk = rindag::checker::Checker::from_executable(Executable {
        lang,
        file: FileHandle::from_id("chk".to_string()),
    });
    let cmd = chk.check_request(
        &vec!["--testset".to_string(), "main".to_string()],
        FileHandle::from_id("in".to_string()),
        FileHandle::from_id("out".to_string()),
        FileHandle::from_id("ans".to_string()),
        vec![],
        &cfg.judge,
    );
    assert_eq!(
        cmd.args,
        vec![
            "foo".to_string(),
            "inf.txt".to_string(),
            "ouf.txt".to_string(),
            "ans.txt".to_string(),
            "--testset".to_string(),
            "main".to_string(),
        ]
    );
    let names: Vec<String> = cmd.copy_in.iter().map(|(n, _)| n.clone()).collect();
    assert_eq!(
        names,
        vec![
            "foo".to_string(),
            "inf.txt".to_string(),
            "ouf.txt".to_string(),
            "ans.txt".to_string(),
        ]
    );
    assert_eq!(cmd.copy_in[1].1.id().as_str(), "in");
    assert_eq!(cmd.copy_in[2].1.id().as_str(), "out");
    assert_eq!(cmd.copy_in[3].1.id().as_str(), "ans");
}

#[test]
fn test_compile_result_truncates_long_stderr() {
    let cfg = Cfg::default();
    let lang = Lang::from_cfg(&cfg, "c").unwrap();
    let bad = ResponseResult {
        result: ExecuteResult {
            status: Status::NonZeroExitStatus,
            time_ns: 1,
            memory: 2,
            exit_code: 1,
        },
        files: vec![],
    };
    let long = vec![b'e'; 5000];
    let err = compile_result(&lang, &bad, &long).unwrap_err();
    assert_eq!(err.message.len(), 1024);
    assert!(std::str::from_utf8(&err.message).unwrap().ends_with('\u{2026}'));
}
