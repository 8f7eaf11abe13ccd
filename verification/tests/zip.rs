use std::io::{Cursor, Write};

use code_runner::common::util::zip_util::{extract, plan_entries, ExtractPlan, ExtractStep, ZipEntry};
use zip::write::SimpleFileOptions;
use zip::{CompressionMethod, ZipArchive, ZipWriter};

fn step(s: &ExtractStep) -> (String, String, Vec<u8>, Option<u32>) {
    let text = |p: &Vec<u8>| String::from_utf8(p.clone()).unwrap();
    match s {
        ExtractStep::MakeDir(p) => ("dir".to_string(), text(p), vec![], None),
        ExtractStep::MakeParent(p) => ("parent".to_string(), text(p), vec![], None),
        ExtractStep::Write(p, c) => ("write".to_string(), text(p), c.clone(), None),
        ExtractStep::SetMode(p, m) => ("mode".to_string(), text(p), vec![], Some(*m)),
    }
}

fn steps(plan: &ExtractPlan) -> Vec<(String, String, Vec<u8>, Option<u32>)> {
    plan.steps.iter().map(step).collect()
}

fn sample_archive() -> Vec<u8> {
    let mut w = ZipWriter::new(Cursor::new(Vec::new()));
    let o = SimpleFileOptions::default().compression_method(CompressionMethod::Deflated);
    w.add_directory("java/", o).unwrap();
    w.start_file("java/Dockerfile", o).unwrap();
    w.write_all(b"FROM openjdk:17").unwrap();
    w.start_file("../outside.txt", o).unwrap();
    w.write_all(b"nope").unwrap();
    w.finish().unwrap().into_inner()
}

fn modes(bytes: &[u8]) -> Vec<Option<u32>> {
    let mut a = ZipArchive::new(Cursor::new(bytes.to_vec())).unwrap();
    (0..a.len()).map(|i| a.by_index(i).unwrap().unix_mode()).collect()
}

#[test]
fn extract_plans_directories_files_and_modes() {
    let bytes = sample_archive();
    let m = modes(&bytes);
    let plan = extract(bytes, "/tmp/code_runner");
    assert_eq!(plan.outcome, Ok(()));
    let mut expected = vec![("dir".to_string(), "/tmp/code_runner/java".to_string(), vec![], None)];
    if let Some(mode) = m[0] {
        expected.push(("mode".to_string(), "/tmp/code_runner/java".to_string(), vec![], Some(mode)));
    }
    expected.push(("parent".to_string(), "/tmp/code_runner/java".to_string(), vec![], None));
    expected.push((
        "write".to_string(),
        "/tmp/code_runner/java/Dockerfile".to_string(),
        b"FROM openjdk:17".to_vec(),
        None,
    ));
    if let Some(mode) = m[1] {
        expected.push(("mode".to_string(), "/tmp/code_runner/java/Dockerfile".to_string(), vec![], Some(mode)));
    }
    assert_eq!(steps(&plan), expected);
}

#[test]
fn extract_refuses_bytes_that_are_no_archive() {
    let plan = extract(b"not a zip archive".to_vec(), "/tmp/code_runner");
    assert!(plan.steps.is_empty());
    assert!(plan.outcome.is_err());
}

fn entry(name: Option<&str>, is_dir: bool, mode: Option<u32>, contents: &[u8], read_error: Option<&str>) -> ZipEntry {
    ZipEntry {
        name: name.map(|n| n.to_string()),
        is_dir,
        mode,
        contents: contents.to_vec(),
        read_error: read_error.map(|e| e.to_string()),
    }
}

#[test]
fn plan_entries_skips_unsafe_names_and_sets_modes_last() {
    let entries = vec![
        Ok(entry(None, false, Some(0o644), b"x", None)),
        Ok(entry(Some("py"), true, Some(0o40755), b"", None)),
        Ok(entry(Some("py/run.sh"), false, Some(0o100755), b"echo", None)),
    ];
    let plan = plan_entries(&entries, "/srv/");
    assert_eq!(plan.outcome, Ok(()));
    assert_eq!(
        steps(&plan),
        vec![
            ("dir".to_string(), "/srv/py".to_string(), vec![], None),
            ("mode".to_string(), "/srv/py".to_string(), vec![], Some(0o40755)),
            ("parent".to_string(), "/srv/py".to_string(), vec![], None),
            ("write".to_string(), "/srv/py/run.sh".to_string(), b"echo".to_vec(), None),
            ("mode".to_string(), "/srv/py/run.sh".to_string(), vec![], Some(0o100755)),
        ]
    );
}

#[test]
fn plan_entries_stops_at_a_failed_lookup() {
    let entries = vec![
        Ok(entry(Some("a"), false, None, b"1", None)),
        Err("invalid Zip archive: bad header".to_string()),
        Ok(entry(Some("b"), false, None, b"2", None)),
    ];
    let plan = plan_entries(&entries, "/x");
    assert_eq!(
        steps(&plan),
        vec![
            ("parent".to_string(), "/x".to_string(), vec![], None),
            ("write".to_string(), "/x/a".to_string(), b"1".to_vec(), None),
        ]
    );
    assert_eq!(plan.outcome, Err("invalid Zip archive: bad header".to_string()));
}

#[test]
fn plan_entries_stops_after_writing_what_was_read() {
    let entries = vec![
        Ok(entry(Some("a"), false, Some(0o644), b"par", Some("corrupt deflate stream"))),
        Ok(entry(Some("b"), false, None, b"2", None)),
    ];
    let plan = plan_entries(&entries, "/x");
    assert_eq!(
        steps(&plan),
        vec![
            ("parent".to_string(), "/x".to_string(), vec![], None),
            ("write".to_string(), "/x/a".to_string(), b"par".to_vec(), None),
        ]
    );
    assert_eq!(plan.outcome, Err("corrupt deflate stream".to_string()));
}

#[test]
fn plan_entries_of_a_relative_target_has_no_parent_for_the_root() {
    let entries = vec![Ok(entry(Some("f"), false, None, b"", None))];
    let plan = plan_entries(&entries, "");
    assert_eq!(
        steps(&plan),
        vec![
            ("parent".to_string(), "".to_string(), vec![], None),
            ("write".to_string(), "f".to_string(), vec![], None),
        ]
    );
}

#[test]
fn extract_keeps_every_path_inside_the_target() {
    let mut w = ZipWriter::new(Cursor::new(Vec::new()));
    let o = SimpleFileOptions::default().compression_method(CompressionMethod::Stored);
    for name in ["/etc/passwd", "a/../../b", "ok/./c", "../d"] {
        w.start_file(name, o).unwrap();
        w.write_all(b"data").unwrap();
    }
    let bytes = w.finish().unwrap().into_inner();
    let plan = extract(bytes, "/tmp/code_runner");
    assert_eq!(plan.outcome, Ok(()));
    let written: Vec<String> = steps(&plan)
        .into_iter()
        .filter(|s| s.0 == "write")
        .map(|s| s.1)
        .collect();
    assert!(!written.is_empty());
    for p in &written {
        assert!(p.starts_with("/tmp/code_runner/"), "{}", p);
    }
    assert!(written.contains(&"/tmp/code_runner/ok/c".to_string()));
}
