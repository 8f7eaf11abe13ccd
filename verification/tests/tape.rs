use code_runner::common::Code;
use code_runner::tape::common_record::CommonRecord;
use code_runner::tape::java_tape::{JavaTape, RecordCommand};
use code_runner::tape::{ContextMap, ContextValue, PlayAction, Record, Tape, TapePlayer};

fn code() -> Code {
    Code {
        _id: None,
        language_id: "java".to_string(),
        input: "5".to_string(),
        code_string: "class Main {}".to_string(),
        time_limit: 2000,
        memory_limit: 128,
    }
}

#[test]
fn contexts_keep_what_was_set() {
    let mut c = ContextMap::new();
    c.set_val("container_id", ContextValue::Text("abc".to_string()));
    assert_eq!(c.get_val("container_id").as_text(), Some(&"abc".to_string()));
    assert!(c.get_val("container_id").as_code().is_none());
    c.set_val("container_id", ContextValue::Text("def".to_string()));
    assert_eq!(c.get_val("container_id").as_text(), Some(&"def".to_string()));
    c.remove("container_id");
    assert!(!c.contains("container_id"));
}

#[test]
fn java_tape_records() {
    let mut t = JavaTape::new();
    assert_eq!(t.get_iter().len(), 3);
    assert!(matches!(t.get_iter()[0], Record::WriteCode));
    t.add(Record::CompileMain);
    assert_eq!(t.get_iter().len(), 4);
}

fn run_args(a: &PlayAction) -> Vec<String> {
    match a {
        PlayAction::Run(RecordCommand::Once(c)) | PlayAction::Run(RecordCommand::Twice(c)) => c.args.clone(),
        PlayAction::Run(RecordCommand::Timed(c, _)) => c.args.clone(),
        _ => panic!("expected a step"),
    }
}

#[test]
fn playing_the_java_tape() {
    let mut p = TapePlayer::new(JavaTape::new());
    let start = p.play(code(), "java-image");
    match start {
        PlayAction::Start(c) => {
            assert!(c.args[5].starts_with("--name=code_runner_"));
            assert_eq!(c.args[6], "java-image");
        },
        _ => panic!("expected the start"),
    }
    let a = p.next(Ok("c1".to_string()));
    assert!(matches!(a, PlayAction::Run(RecordCommand::Twice(_))));
    assert_eq!(run_args(&a)[5], "echo 'class Main {}' > Main.java");
    let a = p.next(Ok(String::new()));
    assert_eq!(run_args(&a)[5], "javac -encoding utf-8 Main.java");
    let a = p.next(Ok(String::new()));
    assert!(matches!(a, PlayAction::Run(RecordCommand::Timed(_, 2000))));
    assert_eq!(run_args(&a)[5], "echo '5' | java -Xmx128m Main");
    match p.next(Ok("5".to_string())) {
        PlayAction::Kill(c, failure) => {
            assert_eq!(c.args, vec!["rm", "-f", "c1"]);
            assert!(failure.is_none());
        },
        _ => panic!("expected the removal"),
    }
    assert!(matches!(p.next(Ok(String::new())), PlayAction::Done));
}

#[test]
fn compiler_output_stops_the_tape() {
    let mut p = TapePlayer::new(JavaTape::new());
    let _ = p.play(code(), "img");
    let _ = p.next(Ok("c2".to_string()));
    let _ = p.next(Ok(String::new()));
    match p.next(Ok("Main.java:1: error".to_string())) {
        PlayAction::Kill(c, Some(e)) => {
            assert_eq!(c.args, vec!["rm", "-f", "c2"]);
            assert_eq!(e, "Main.java:1: error");
        },
        _ => panic!("expected the removal"),
    }
    assert!(!p.accepts(&Err("gone".to_string())));
}

#[test]
fn starting_step_records_the_container_or_fails() {
    let mut ctx = ContextMap::new();
    assert_eq!(CommonRecord::started(&mut ctx, Ok("c0ffee".to_string())), Ok(()));
    match ctx.get_val("container_id") {
        ContextValue::Text(t) => assert_eq!(t, "c0ffee"),
        _ => panic!("expected the container id"),
    }
    let mut ctx = ContextMap::new();
    assert_eq!(
        CommonRecord::started(&mut ctx, Err("Unable to find image".to_string())),
        Err("Unable to find image".to_string())
    );
    assert!(!ctx.contains("container_id"));
}

#[test]
fn removing_step_gives_success_or_the_error_output() {
    assert_eq!(CommonRecord::killed(Ok("c0ffee".to_string())), Ok(()));
    assert_eq!(
        CommonRecord::killed(Err("No such container: c0ffee".to_string())),
        Err("No such container: c0ffee".to_string())
    );
}
