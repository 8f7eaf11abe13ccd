use code_runner::service::config::{get_val_in_map, has_separators, parse_bool, read_config, read_to_hashmap};

const CONFIG: &str = "dockerfile_dir=/srv/dockerfiles/\nuse_created_image=true\ncontainer_prefix=code_runner_\nsrc_code_filename=Main.java\ninput_filename=input.txt\nrun_result_filename=result.txt\nrepository_name=runner";

#[test]
fn test_read_config() {
    let config = read_config(CONFIG.to_string()).unwrap();
    assert_eq!(config.dockerfile_dir, "/srv/dockerfiles/");
    assert!(config.use_created_image);
    assert_eq!(config.container_prefix, "code_runner_");
    assert_eq!(config.src_code_filename, "Main.java");
    assert_eq!(config.input_filename, "input.txt");
    assert_eq!(config.run_result_filename, "result.txt");
    assert_eq!(config.repository_name, "runner");
}

#[test]
fn mod_test_read_config() {
    let text = format!("\n  {}\n", CONFIG);
    let config = code_runner::config::read_config(text);
    assert_eq!(config.repository_name, "runner");
    assert!(config.use_created_image);
}

#[test]
fn missing_and_invalid_settings() {
    let text = CONFIG.replace("repository_name=runner", "other=1");
    assert_eq!(read_config(text).err(), Some("cannot find repository_name in config.txt".to_string()));
    let text = CONFIG.replace("use_created_image=true", "use_created_image=yes");
    assert_eq!(read_config(text).err(), Some("provided string was not `true` or `false`".to_string()));
}

#[test]
fn settings_lines_are_trimmed_and_later_ones_win() {
    let map = read_to_hashmap(" a=1 \nb=2=3\na=4".to_string());
    assert_eq!(map.get("a").unwrap(), "4");
    assert_eq!(map.get("b").unwrap(), "2");
    assert_eq!(get_val_in_map(&map, "c").err(), Some("cannot find c in config.txt".to_string()));
    assert_eq!(get_val_in_map(&map, "b").unwrap(), "2");
}

#[test]
fn booleans() {
    assert_eq!(parse_bool("true"), Ok(true));
    assert_eq!(parse_bool("false"), Ok(false));
    assert!(parse_bool("True").is_err());
}

#[test]
fn lines_without_separator_are_found() {
    assert!(has_separators(CONFIG));
    assert!(has_separators(" a = 1 \nb=2"));
    assert!(!has_separators("a=1\n"));
    assert!(!has_separators("a=1\nplain line\nb=2"));
    assert!(!has_separators(""));
}
