use code_runner::common::Code;
use code_runner::service::config::Config;
use code_runner::service::runner::{parse_res_file, run_code, run_script, CodeRun, RunAction};

fn config() -> Config {
    Config {
        dockerfile_dir: "/srv/dockerfiles/".to_string(),
        use_created_image: true,
        container_prefix: "code_runner_".to_string(),
        src_code_filename: "Main.java".to_string(),
        input_filename: "input.txt".to_string(),
        run_result_filename: "result.txt".to_string(),
        repository_name: "runner".to_string(),
    }
}

fn code() -> Code {
    Code {
        _id: None,
        language_id: "java".to_string(),
        input: "1 2".to_string(),
        code_string: "class Main {}".to_string(),
        time_limit: 1000,
        memory_limit: 256,
    }
}

fn command_args(a: &RunAction) -> Vec<String> {
    match a {
        RunAction::Docker(c) => c.args.clone(),
        RunAction::Finish(_) => panic!("expected a command"),
    }
}

fn ok(s: &str) -> Result<String, String> {
    Ok(s.to_string())
}

#[test]
fn result_file_is_read_line_by_line() {
    let map = parse_res_file("status=OK\n  wall_time=12 \nbroken\nmemory=1024\nx=1=2\n\nstatus=TLE".to_string());
    assert_eq!(map.get("status").unwrap(), "TLE");
    assert_eq!(map.get("wall_time").unwrap(), "12");
    assert_eq!(map.get("memory").unwrap(), "1024");
    assert!(map.get("x").is_none());
    assert!(map.get("broken").is_none());
    assert_eq!(map.len(), 3);
}

#[test]
fn script_results() {
    let r = run_script("3".to_string(), "status=OK\nwall_time=12\nmemory=1024".to_string()).unwrap();
    assert_eq!((r.status.as_str(), r.use_time.as_str(), r.memory.as_str(), r.output.as_str()), ("OK", "12ms", "1024KB", "3"));
    let r = run_script("".to_string(), "status=RE".to_string()).unwrap();
    assert_eq!((r.status.as_str(), r.use_time.as_str(), r.memory.as_str()), ("RE", "", ""));
    assert_eq!(run_script("".to_string(), "wall_time=1".to_string()).err(), Some("status不存在".to_string()));
    assert_eq!(run_script("".to_string(), "status=OK\nmemory=1".to_string()).err(), Some("wall_time不存在".to_string()));
    assert_eq!(run_script("".to_string(), "status=OK\nwall_time=1".to_string()).err(), Some("memory不存在".to_string()));
}

#[test]
fn a_run_issues_its_commands_in_order() {
    let (mut run, start): (CodeRun, _) = run_code(code(), config());
    assert_eq!(start.args[..5], ["container", "run", "--rm", "--detach", "--interactive"]);
    assert!(start.args[5].starts_with("--name=code_runner_"));
    assert_eq!(start.args[5].len(), "--name=code_runner_".len() + 36);
    assert_eq!(start.args[6], "runner:java");
    let a = run.next(ok("c1"));
    assert_eq!(command_args(&a), vec!["container", "exec", "c1", "sh", "-c", "echo 'class Main {}' > Main.java"]);
    let a = run.next(ok(""));
    assert_eq!(command_args(&a), vec!["container", "exec", "c1", "sh", "-c", "echo '1 2' > input.txt"]);
    let a = run.next(ok(""));
    assert_eq!(command_args(&a), vec!["cp", "/srv/dockerfiles/java/java.sh", "c1:java.sh"]);
    let a = run.next(ok(""));
    assert_eq!(command_args(&a), vec!["container", "exec", "c1", "sh", "-c", "chmod +x java.sh"]);
    let a = run.next(ok(""));
    assert_eq!(command_args(&a), vec!["container", "exec", "c1", "sh", "-c", "./java.sh 1000 256"]);
    let a = run.next(ok("3"));
    assert_eq!(command_args(&a), vec!["container", "exec", "c1", "sh", "-c", "cat result.txt"]);
    let a = run.next(ok("status=OK\nwall_time=5\nmemory=10"));
    assert_eq!(command_args(&a), vec!["rm", "-f", "c1"]);
    match run.next(ok("c1")) {
        RunAction::Finish(Ok(r)) => {
            assert_eq!(r.status, "OK");
            assert_eq!(r.use_time, "5ms");
            assert_eq!(r.memory, "10KB");
            assert_eq!(r.output, "3");
        },
        _ => panic!("expected the result"),
    }
}

#[test]
fn a_failed_step_removes_the_container_and_reports() {
    let (mut run, _) = run_code(code(), config());
    let _ = run.next(ok("c9"));
    let a = run.next(Err("disk full".to_string()));
    assert_eq!(command_args(&a), vec!["rm", "-f", "c9"]);
    match run.next(ok("c9")) {
        RunAction::Finish(Err(e)) => assert_eq!(e, "disk full"),
        _ => panic!("expected the failure"),
    }
}

#[test]
fn a_failed_removal_is_the_result() {
    let (mut run, _) = run_code(code(), config());
    let _ = run.next(ok("c9"));
    let _ = run.next(Err("disk full".to_string()));
    match run.next(Err("no such container".to_string())) {
        RunAction::Finish(Err(e)) => assert_eq!(e, "no such container"),
        _ => panic!("expected the failure"),
    }
}

#[test]
fn standalone_run_keeps_result_when_removal_fails() {
    let (mut run, start) = code_runner::runner::run_code(code(), "my/image:1", config());
    assert_eq!(start.args[6], "my/image:1");
    let _ = run.next(ok("c9"));
    let _ = run.next(Err("disk full".to_string()));
    match run.next(Err("no such container".to_string())) {
        RunAction::Finish(Err(e)) => assert_eq!(e, "disk full"),
        _ => panic!("expected the failure"),
    }
}

#[test]
fn standalone_run_needs_a_complete_result_file() {
    let (mut run, _) = code_runner::runner::run_code(code(), "img", config());
    for o in ["c1", "", "", "", "", "out"] {
        let _ = run.next(ok(o));
    }
    assert!(!run.accepts(&ok("status=OK\nmemory=1")));
    assert!(run.accepts(&ok("status=WA")));
    assert!(run.accepts(&ok("status=OK\nmemory=1\nwall_time=2")));
}

#[test]
fn a_container_that_did_not_start_is_not_removed() {
    let (mut run, _) = run_code(code(), config());
    match run.next(Err("no such image".to_string())) {
        RunAction::Finish(Err(e)) => assert_eq!(e, "no such image"),
        _ => panic!("expected the failure"),
    }
}

#[test]
fn standalone_removal_says_killed_or_gives_the_error() {
    assert_eq!(code_runner::runner::kill_container(Ok("c0ffee".to_string())), Ok("killed".to_string()));
    assert_eq!(
        code_runner::runner::kill_container(Err("No such container: c0ffee".to_string())),
        Err("No such container: c0ffee".to_string())
    );
}
