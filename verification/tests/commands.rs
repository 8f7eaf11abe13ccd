use code_runner::common::docker_command::{
    add_executable_for_file, build_container_exec_command, build_image, copy_file_to_container,
    copy_str_to_container, kill_container, read_container_file, remove_image, run_container,
};
use code_runner::common::util::run_cmd_get_result;

#[test]
fn test_build_container_exec_command() {
    let command = build_container_exec_command("123", vec!["ls", "-l"]);
    println!("{:?}", &command.args);
    assert!(command.get_program().eq("docker"));
    assert_eq!(command.args, vec!["container", "exec", "123", "sh", "-c", "ls", "-l"]);
    assert!(command.current_dir.is_none());
}

#[test]
fn mod_test_build_container_exec_command() {
    let command = code_runner::util::build_container_exec_command("123", vec!["ls", "-l"]);
    assert!(command.get_program().eq("docker"));
    assert_eq!(command.args.len(), 7);
}

#[test]
fn container_commands() {
    assert_eq!(read_container_file("c", "r.txt").args, vec!["container", "exec", "c", "sh", "-c", "cat r.txt"]);
    assert_eq!(kill_container("c").args, vec!["rm", "-f", "c"]);
    assert_eq!(add_executable_for_file("c", "x.sh").args[5], "chmod +x x.sh");
    assert_eq!(copy_str_to_container("c", "in.txt", "a b").args[5], "echo 'a b' > in.txt");
    assert_eq!(copy_file_to_container("c", "x.sh", "/d/x.sh").args, vec!["cp", "/d/x.sh", "c:x.sh"]);
    assert_eq!(remove_image("repo", "java").args, vec!["image", "rm", "repo:java"]);
    let b = build_image("/d/java", "repo", "java");
    assert_eq!(b.current_dir.as_deref(), Some("/d/java"));
    assert_eq!(b.args, vec!["image", "build", "--quiet", "--tag=repo:java", "."]);
}

#[test]
fn containers_get_fresh_uuid_names() {
    let a = run_container("img", "p_");
    let b = run_container("img", "p_");
    let name = a.args[5].strip_prefix("--name=p_").unwrap();
    assert_eq!(name.len(), 36);
    assert_eq!(name.as_bytes()[14], b'4');
    for i in [8, 13, 18, 23] {
        assert_eq!(name.as_bytes()[i], b'-');
    }
    assert_ne!(a.args[5], b.args[5]);
}

#[test]
fn command_results() {
    assert_eq!(run_cmd_get_result(true, b"  out \n".to_vec(), b"".to_vec()), Ok("out".to_string()));
    assert_eq!(run_cmd_get_result(false, b"x".to_vec(), b" err\n".to_vec()), Err(" err\n".to_string()));
    assert!(run_cmd_get_result(true, vec![0xff], vec![]).is_err());
    assert_eq!(code_runner::util::run_cmd_get_result(true, b"\tok\t".to_vec(), vec![]), Ok("ok".to_string()));
}
