//! Tests of workflow validation and the engine's scheduling and cleanup.

use rindag::engine::{Executor, TaskState};
use rindag::file::File;
use rindag::sandbox::file::FileHandle;
use rindag::workflow::{
    CompileTask, DuplicateFileError, ExecTask, GenerateTask, InvalidFileError, ParseError, Task,
    Workflow,
};

fn compile_task(code: &str, exec_file: &str) -> Task {
    Task::Compile(CompileTask {
        lang: "c".to_string(),
        args: vec![],
        code: code.to_string(),
        copy_in: vec![],
        exec_file: exec_file.to_string(),
    })
}

#[test]
fn test_duplicate_file() {
    let w = Workflow {
        copy_in: vec![("a.c".to_string(), File::Memory(b"a".to_vec()))],
        tasks: vec![
            compile_task("a.c", "b.c"),
            compile_task("b.c", "c.c"),
            compile_task("c.c", "b.c"),
        ],
        copy_out: vec![],
    };
    if let Err(ParseError::DuplicateFile(DuplicateFileError::Prev { index1, index2, name })) =
        w.parse()
    {
        assert_eq!(index1, 0);
        assert_eq!(index2, 2);
        assert_eq!(name, "b.c".to_string());
    } else {
        panic!("excepted err");
    }
}

#[test]
fn test_output_shadows_copy_in() {
    let w = Workflow {
        copy_in: vec![("a.c".to_string(), File::Memory(b"a".to_vec()))],
        tasks: vec![compile_task("a.c", "a.c")],
        copy_out: vec![],
    };
    if let Err(ParseError::DuplicateFile(DuplicateFileError::CopyIn { index, name })) = w.parse()
    {
        assert_eq!(index, 0);
        assert_eq!(name, "a.c".to_string());
    } else {
        panic!("expected a copy-in clash");
    }
}

#[test]
fn test_unresolved_input() {
    let w = Workflow {
        copy_in: vec![],
        tasks: vec![compile_task("missing.c", "out")],
        copy_out: vec![],
    };
    if let Err(ParseError::InvalidFile(InvalidFileError::Target { index, name })) = w.parse() {
        assert_eq!(index, 0);
        assert_eq!(name, "missing.c".to_string());
    } else {
        panic!("expected an unresolved input");
    }
}

#[test]
fn test_unresolved_copy_out() {
    let w = Workflow {
        copy_in: vec![("a.c".to_string(), File::Memory(b"a".to_vec()))],
        tasks: vec![compile_task("a.c", "prog")],
        copy_out: vec!["nowhere".to_string()],
    };
    if let Err(ParseError::InvalidFile(InvalidFileError::Global(name))) = w.parse() {
        assert_eq!(name, "nowhere".to_string());
    } else {
        panic!("expected an unresolved export");
    }
}

/// The generator round-trip workflow shape: compile a generator, run it,
/// compile a validator, validate the produced input.
fn round_trip_workflow() -> Workflow {
    Workflow {
        copy_in: vec![
            ("generator.cpp".to_string(), File::Memory(b"gen code".to_vec())),
            ("validator.cpp".to_string(), File::Memory(b"val code".to_vec())),
            ("testlib.h".to_string(), File::Memory(b"header".to_vec())),
        ],
        tasks: vec![
            Task::Compile(CompileTask {
                lang: "cpp".to_string(),
                args: vec![],
                code: "generator.cpp".to_string(),
                copy_in: vec![("testlib.h".to_string(), "testlib.h".to_string())],
                exec_file: "generator".to_string(),
            }),
            Task::Generate(GenerateTask {
                lang: "cpp".to_string(),
                args: vec!["-a".to_string(), "1".to_string(), "-b".to_string(), "100".to_string()],
                exec_file: "generator".to_string(),
                copy_in: vec![],
                generated: "1.in".to_string(),
            }),
            Task::Compile(CompileTask {
                lang: "cpp".to_string(),
                args: vec![],
                code: "validator.cpp".to_string(),
                copy_in: vec![("testlib.h".to_string(), "testlib.h".to_string())],
                exec_file: "validator".to_string(),
            }),
            Task::Exec(ExecTask {
                lang: "cpp".to_string(),
                args: vec![],
                exec_file: "validator".to_string(),
                stdin: "1.in".to_string(),
                copy_in: vec![],
                copy_out: "1.log".to_string(),
                time_limit_ns: 1_000_000_000,
                memory_limit: 64 * 1024 * 1024,
            }),
        ],
        copy_out: vec!["1.in".to_string(), "1.log".to_string()],
    }
}

#[test]
fn test_round_trip_workflow_parses() {
    let w = round_trip_workflow();
    let providers = w.parse().expect("the round-trip workflow is valid");
    // each produced name maps to its producing task
    let find = |name: &str| {
        providers
            .iter()
            .find(|(n, _)| n == name)
            .map(|(_, i)| *i)
            .expect("name should have a producer")
    };
    assert_eq!(find("generator"), 0);
    assert_eq!(find("1.in"), 1);
    assert_eq!(find("validator"), 2);
    assert_eq!(find("1.log"), 3);
}

#[test]
fn test_engine_runs_in_dependency_order() {
    let w = round_trip_workflow();
    let mut e = Executor::start(w).expect("valid workflow");
    // nothing can run before the inputs are uploaded
    assert_eq!(e.next_ready(), None);
    e.provide_input("generator.cpp".to_string(), FileHandle::from_id("f1".to_string()));
    e.provide_input("validator.cpp".to_string(), FileHandle::from_id("f2".to_string()));
    e.provide_input("testlib.h".to_string(), FileHandle::from_id("f3".to_string()));

    let first = e.next_ready().expect("a compile is ready");
    assert_eq!(first, 0);
    // the generate task still waits for the compiled generator
    let second = e.next_ready().expect("the other compile is ready");
    assert_eq!(second, 2);
    assert_eq!(e.next_ready(), None);

    let inputs = e.inputs_for(0).expect("inputs are published");
    assert_eq!(inputs.len(), 2);
    assert_eq!(inputs[0].0, "testlib.h".to_string());
    assert_eq!(inputs[1].0, "generator.cpp".to_string());
    // the handles are the published ones, not fabrications
    assert_eq!(inputs[0].1.id().as_str(), "f3");
    assert_eq!(inputs[1].1.id().as_str(), "f1");

    e.complete(0, vec![FileHandle::from_id("gen-exec".to_string())]);
    let third = e.next_ready().expect("generate is ready now");
    assert_eq!(third, 1);
    e.complete(1, vec![FileHandle::from_id("gen-out".to_string())]);
    e.complete(2, vec![FileHandle::from_id("val-exec".to_string())]);
    let fourth = e.next_ready().expect("the final run is ready");
    assert_eq!(fourth, 3);
    e.complete(3, vec![FileHandle::from_id("val-log".to_string())]);
    assert!(e.all_done());

    let outcome = e.finish();
    assert!(outcome.error.is_none());
    let names: Vec<String> = outcome.files.iter().map(|(n, _)| n.clone()).collect();
    assert_eq!(names, vec!["1.in".to_string(), "1.log".to_string()]);
    let kept: Vec<String> = outcome.files.iter().map(|(_, h)| h.id().clone()).collect();
    assert_eq!(kept, vec!["gen-out".to_string(), "val-log".to_string()]);
    // every adopted id is either kept or released
    let released: Vec<String> = outcome.released.iter().map(|h| h.id().clone()).collect();
    for id in ["f1", "f2", "f3", "gen-exec", "gen-out", "val-exec", "val-log"] {
        assert!(
            kept.iter().any(|k| k == id) || released.iter().any(|r| r == id),
            "id {} leaked",
            id
        );
    }
    // the files handed back are not also scheduled for deletion
    for id in ["gen-out", "val-log"] {
        assert!(!released.iter().any(|r| r == id));
    }
}

#[test]
fn test_engine_failure_releases_everything() {
    let w = round_trip_workflow();
    let mut e = Executor::start(w).expect("valid workflow");
    e.provide_input("generator.cpp".to_string(), FileHandle::from_id("f1".to_string()));
    e.provide_input("validator.cpp".to_string(), FileHandle::from_id("f2".to_string()));
    e.provide_input("testlib.h".to_string(), FileHandle::from_id("f3".to_string()));
    let i = e.next_ready().expect("ready");
    assert_eq!(i, 0);
    e.fail(rindag::workflow::Error::Execute {
        index: i,
        source: rindag::workflow::ExecuteError::InvalidLang(rindag::lang::InvalidLangError {
            lang: "c".to_string(),
        }),
    });
    let outcome = e.finish();
    assert!(outcome.error.is_some());
    assert_eq!(outcome.files.len(), 0);
    let released: Vec<String> = outcome.released.iter().map(|h| h.id().clone()).collect();
    for id in ["f1", "f2", "f3"] {
        assert!(released.iter().any(|r| r == id));
    }
}

#[test]
fn test_task_copy_lists() {
    let t = compile_task("a.c", "prog");
    assert_eq!(t.get_copy_in(), vec!["a.c".to_string()]);
    assert_eq!(t.get_copy_out(), vec!["prog".to_string()]);
    let g = Task::Generate(GenerateTask {
        lang: "c".to_string(),
        args: vec![],
        exec_file: "gen".to_string(),
        copy_in: vec![("dest".to_string(), "src".to_string())],
        generated: "1.in".to_string(),
    });
    assert_eq!(g.get_copy_in(), vec!["src".to_string(), "gen".to_string()]);
    assert_eq!(g.get_copy_out(), vec!["1.in".to_string()]);
}

#[test]
fn test_task_states_start_waiting() {
    let w = round_trip_workflow();
    let e = Executor::start(w).expect("valid workflow");
    assert_eq!(e.state, vec![TaskState::Waiting; 4]);
}
