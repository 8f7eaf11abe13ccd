use code_runner::service::config::Config;
use code_runner::service::image::{
    build_images, get_all_dockerfile, get_created_image, image_id_from_build_output,
    list_images_command, BuildAction, BuildEvent, Dockerfile,
};

fn paths(list: &[&str]) -> Vec<Vec<u8>> {
    list.iter().map(|p| p.as_bytes().to_vec()).collect()
}

fn config(use_created_image: bool) -> Config {
    Config {
        dockerfile_dir: "/srv/dockerfiles/".to_string(),
        use_created_image,
        container_prefix: "code_runner_".to_string(),
        src_code_filename: "Main.java".to_string(),
        input_filename: "input.txt".to_string(),
        run_result_filename: "result.txt".to_string(),
        repository_name: "runner".to_string(),
    }
}

fn names(ds: &[Dockerfile]) -> Vec<(String, String)> {
    ds.iter().map(|d| (d.language_id.clone(), d.pwd.clone())).collect()
}

#[test]
fn test_get_all_dockerfile() {
    let s = "/home/panzi/rust_projects/code_runner/dockerfiles";
    let files = paths(&[
        &format!("{}/java/Dockerfile", s),
        &format!("{}/java/java.sh", s),
        &format!("{}/python3/Dockerfile", s),
        &format!("{}/README.md", s),
    ]);
    let result = get_all_dockerfile(&files).unwrap();
    assert_eq!(
        names(&result),
        vec![
            ("java".to_string(), format!("{}/java", s)),
            ("python3".to_string(), format!("{}/python3", s)),
        ]
    );
}

#[test]
fn mod_test_get_all_dockerfile() {
    let s = "/home/panzi/rust_projects/code_runner/dockerfiles";
    let files = paths(&[&format!("{}/go/Dockerfile", s)]);
    let result = code_runner::image::get_all_dockerfile(&files).unwrap();
    assert_eq!(names(&result), vec![("go".to_string(), format!("{}/go", s))]);
    let bare = paths(&["Dockerfile"]);
    assert_eq!(code_runner::image::get_all_dockerfile(&bare).err(), Some("cannot get dir name".to_string()));
}

#[test]
fn dockerfile_in_unnamed_directory_is_an_error() {
    assert_eq!(
        get_all_dockerfile(&paths(&["Dockerfile"])).err(),
        Some("cannot get parent file name".to_string())
    );
    assert_eq!(
        get_all_dockerfile(&paths(&["./Dockerfile"])).err(),
        Some("cannot get parent file name".to_string())
    );
}

#[test]
fn dockerfile_directory_that_is_not_text() {
    let mut p = b"/srv/".to_vec();
    p.push(0xff);
    p.extend_from_slice(b"/Dockerfile");
    assert_eq!(get_all_dockerfile(&vec![p]).err(), Some("osstr cannot to str".to_string()));
    let mut q = vec![0xfeu8];
    q.extend_from_slice(b"/java/Dockerfile");
    assert_eq!(get_all_dockerfile(&vec![q]).err(), Some("cannot to string parent path".to_string()));
}

#[test]
fn dockerfile_paths_with_dots_and_slashes() {
    let result = get_all_dockerfile(&paths(&["dockerfiles//c/./Dockerfile", "a/Dockerfile/x"])).unwrap();
    assert_eq!(names(&result), vec![("c".to_string(), "dockerfiles//c".to_string())]);
}

#[test]
fn created_images_are_read_by_tag() {
    let output = "java sha256:0123456789ab\npython3 sha256:abcdefabcdefX";
    let map = get_created_image(output);
    assert_eq!(map.len(), 2);
    let java = map.get("java").unwrap();
    assert_eq!(java._image_id, "0123456789a");
    assert_eq!(java._language_id, "java");
    assert_eq!(map.get("python3").unwrap()._image_id, "abcdefabcdef");
    assert!(map.get("go").is_none());
}

#[test]
fn quoted_listing_of_the_standalone_modules() {
    let output = "'java sha256:42'\n\n'go sha256:7'";
    let map = code_runner::image::get_created_image(output);
    assert_eq!(map.get("java").unwrap()._image_id, "42");
    assert_eq!(map.get("go").unwrap()._image_id, "7");
}

#[test]
fn build_output_gives_image_id() {
    assert_eq!(image_id_from_build_output("sha256:deadbeef \n"), "deadbeef");
}

#[test]
fn listing_command() {
    let c = list_images_command("runner");
    assert_eq!(
        c.args,
        vec!["image", "ls", "--no-trunc", "--filter=reference=runner", "--format={{.Tag}} {{.ID}}"]
    );
}

#[test]
fn building_reuses_listed_images() {
    let (mut build, action) = build_images(config(true));
    match action {
        BuildAction::ListImages(c) => assert_eq!(c.args[3], "--filter=reference=runner"),
        _ => panic!("expected a listing"),
    }
    let ev = BuildEvent::Listed(Ok("java sha256:1111X".to_string()));
    assert!(build.accepts(&ev));
    match build.next(ev) {
        BuildAction::FindDockerfiles(d) => assert_eq!(d, "/srv/dockerfiles/"),
        _ => panic!("expected a walk"),
    }
    let ev = BuildEvent::Walked(paths(&["/srv/dockerfiles/java/Dockerfile", "/srv/dockerfiles/go/Dockerfile"]), None);
    let commands = match build.next(ev) {
        BuildAction::BuildAll(cs) => cs,
        _ => panic!("expected builds"),
    };
    assert_eq!(commands.len(), 1);
    assert_eq!(commands[0].current_dir.as_deref(), Some("/srv/dockerfiles/go"));
    assert_eq!(commands[0].args, vec!["image", "build", "--quiet", "--tag=runner:go", "."]);
    let ev = BuildEvent::Built(vec![Ok("sha256:9999".to_string())]);
    assert!(build.accepts(&ev));
    match build.next(ev) {
        BuildAction::Finish(Ok(map)) => {
            assert_eq!(map.len(), 2);
            assert_eq!(map.get("java").unwrap()._image_id, "1111");
            assert_eq!(map.get("go").unwrap()._image_id, "9999");
        },
        _ => panic!("expected the images"),
    }
}

#[test]
fn building_without_reuse_builds_all() {
    let (mut build, action) = build_images(config(false));
    assert!(matches!(action, BuildAction::FindDockerfiles(_)));
    let ev = BuildEvent::Walked(paths(&["/srv/dockerfiles/java/Dockerfile"]), None);
    match build.next(ev) {
        BuildAction::BuildAll(cs) => assert_eq!(cs.len(), 1),
        _ => panic!("expected builds"),
    }
    let ev = BuildEvent::Built(vec![Err("no space left".to_string())]);
    match build.next(ev) {
        BuildAction::Finish(Err(e)) => assert_eq!(e, "no space left"),
        _ => panic!("expected the failure"),
    }
}

#[test]
fn failed_build_in_standalone_modules_says_so() {
    let (mut build, _) = code_runner::image::build_images(config(false));
    let _ = build.next(BuildEvent::Walked(paths(&["/d/c/Dockerfile"]), None));
    match build.next(BuildEvent::Built(vec![Err("boom".to_string())])) {
        BuildAction::Finish(Err(e)) => assert_eq!(e, "构建镜像失败：boom"),
        _ => panic!("expected the failure"),
    }
}

#[test]
fn failed_listing_or_walk_stops_the_building() {
    let (mut build, _) = build_images(config(true));
    match build.next(BuildEvent::Listed(Err("docker down".to_string()))) {
        BuildAction::Finish(Err(e)) => assert_eq!(e, "docker down"),
        _ => panic!("expected the failure"),
    }
    let (mut build, _) = build_images(config(false));
    match build.next(BuildEvent::Walked(vec![], Some("No such file or directory (os error 2)".to_string()))) {
        BuildAction::Finish(Err(e)) => assert_eq!(e, "No such file or directory (os error 2)"),
        _ => panic!("expected the failure"),
    }
}

#[test]
fn unreadable_build_output_fails_the_building() {
    let (mut build, _) = build_images(config(false));
    let _ = build.next(BuildEvent::Walked(paths(&["/d/c/Dockerfile"]), None));
    assert!(!build.accepts(&BuildEvent::Built(vec![])));
    let ev = BuildEvent::Built(vec![Ok("short".to_string())]);
    assert!(build.accepts(&ev));
    match build.next(ev) {
        BuildAction::Finish(Err(e)) => assert_eq!(e, "receiving on a closed channel"),
        _ => panic!("expected the failure"),
    }
    let (mut build, _) = code_runner::image::build_images(config(false));
    let _ = build.next(BuildEvent::Walked(paths(&["/d/a/Dockerfile", "/d/b/Dockerfile"]), None));
    match build.next(BuildEvent::Built(vec![Ok("short".to_string()), Err("boom".to_string())])) {
        BuildAction::Finish(Err(e)) => assert_eq!(e, "receiving on a closed channel"),
        _ => panic!("expected the failure"),
    }
}

#[test]
fn walk_error_comes_after_the_files_found_before_it() {
    let (mut build, _) = build_images(config(false));
    let ev = BuildEvent::Walked(
        vec![b"/srv/dockerfiles/\xff/Dockerfile".to_vec()],
        Some("Permission denied (os error 13)".to_string()),
    );
    match build.next(ev) {
        BuildAction::Finish(Err(e)) => assert_eq!(e, "osstr cannot to str"),
        _ => panic!("expected the failure"),
    }
    let (mut build, _) = build_images(config(false));
    let ev = BuildEvent::Walked(
        paths(&["/srv/dockerfiles/java/Dockerfile"]),
        Some("Permission denied (os error 13)".to_string()),
    );
    match build.next(ev) {
        BuildAction::Finish(Err(e)) => assert_eq!(e, "Permission denied (os error 13)"),
        _ => panic!("expected the failure"),
    }
}
