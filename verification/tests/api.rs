use code_runner::path::join_path_text;
use code_runner::api::{
    languages, languages_command, new_language, remove_language, run_code,
    RestResponse, UploadAction,
};
use code_runner::common::RunResult;

#[test]
fn responses() {
    let ok = RestResponse::ok(5);
    assert_eq!((ok.msg().as_str(), *ok.data(), ok.code()), ("succeed", Some(5), 0));
    let m: RestResponse<i32> = RestResponse::ok_msg("id".to_string());
    assert_eq!((m.msg().as_str(), *m.data(), m.code()), ("id", None, 0));
    let e: RestResponse<i32> = RestResponse::err("bad".to_string());
    assert_eq!((e.msg().as_str(), *e.data(), e.code()), ("bad", None, -1));
    let d = code_runner::api::default();
    assert_eq!((d.msg().as_str(), d.code()), ("server error", -1));
}

#[test]
fn languages_are_the_nonblank_lines() {
    let r = languages("java\n  \npython3\n");
    assert_eq!(r.code(), 0);
    assert_eq!(r.data().clone().unwrap(), vec!["java".to_string(), "python3".to_string()]);
    assert_eq!(
        languages_command("runner").args,
        vec!["image", "ls", "--filter=reference=runner", "--format={{.Tag}}"]
    );
}

#[test]
fn remove_and_run_answers() {
    assert_eq!(remove_language(Ok(String::new())).code(), 0);
    let r = remove_language(Err("no such image".to_string()));
    assert_eq!((r.msg().as_str(), r.code()), ("no such image", -1));
    let result = RunResult {
        status: "OK".to_string(),
        use_time: "1ms".to_string(),
        memory: "2KB".to_string(),
        output: "3".to_string(),
    };
    let r = run_code(Ok(result));
    assert_eq!(r.code(), 0);
    assert_eq!(r.data().as_ref().unwrap().output, "3");
    let r = run_code(Err("x".to_string()));
    assert_eq!((r.msg().as_str(), r.code()), ("x", -1));
}

#[test]
fn paths_join() {
    assert_eq!(join_path_text("/tmp/code_runner", "java"), "/tmp/code_runner/java");
    assert_eq!(join_path_text("/tmp/", "java"), "/tmp/java");
    assert_eq!(join_path_text("/tmp/code_runner", "/etc"), "/etc");
    assert_eq!(join_path_text("", "java"), "java");
}

fn respond(a: UploadAction) -> (String, i32) {
    match a {
        UploadAction::Respond(r) => (r.msg().clone(), r.code()),
        _ => panic!("expected an answer"),
    }
}

#[test]
fn adding_a_language() {
    let (mut up, a) = new_language("go".to_string(), "runner".to_string());
    assert!(matches!(a, UploadAction::CreateDir(ref d) if d == "/tmp/code_runner"));
    let archive = match up.next(Err("exists".to_string())) {
        UploadAction::Save(p) => p,
        _ => panic!("expected saving"),
    };
    assert!(archive.starts_with("/tmp/code_runner/"));
    assert_eq!(archive.len(), "/tmp/code_runner/".len() + 36);
    match up.next(Ok(String::new())) {
        UploadAction::Extract(a, d) => {
            assert_eq!(a, archive);
            assert_eq!(d, "/tmp/code_runner");
        },
        _ => panic!("expected extraction"),
    }
    match up.next(Ok(String::new())) {
        UploadAction::Docker(c) => {
            assert_eq!(c.current_dir.as_deref(), Some("/tmp/code_runner/go"));
            assert_eq!(c.args[3], "--tag=runner:go");
        },
        _ => panic!("expected a build"),
    }
    assert!(!up.accepts(&Ok("sha".to_string())));
    assert!(matches!(up.next(Ok("sha256:abc\n".to_string())), UploadAction::RemoveFile(ref p) if *p == archive));
    assert!(matches!(up.next(Ok(String::new())), UploadAction::RemoveDir(ref p) if p == "/tmp/code_runner/go"));
    assert_eq!(respond(up.next(Ok(String::new()))), ("abc".to_string(), 0));
}

#[test]
fn adding_a_language_fails() {
    let (mut up, _) = new_language("go".to_string(), "runner".to_string());
    let _ = up.next(Ok(String::new()));
    assert_eq!(respond(up.next(Err("disk".to_string()))), ("cannot save file disk".to_string(), -1));
    let (mut up, _) = new_language("go".to_string(), "runner".to_string());
    let _ = up.next(Ok(String::new()));
    let _ = up.next(Ok(String::new()));
    assert_eq!(respond(up.next(Err("bad zip".to_string()))), ("cannot extract bad zip".to_string(), -1));
    let (mut up, _) = new_language("go".to_string(), "runner".to_string());
    for _ in 0..3 {
        let _ = up.next(Ok(String::new()));
    }
    assert_eq!(respond(up.next(Err("build failed".to_string()))), ("build failed".to_string(), -1));
    let (mut up, _) = new_language("go".to_string(), "runner".to_string());
    for _ in 0..3 {
        let _ = up.next(Ok(String::new()));
    }
    let _ = up.next(Ok("sha256:1".to_string()));
    assert_eq!(respond(up.next(Err("busy".to_string()))), ("busy".to_string(), 0));
}
