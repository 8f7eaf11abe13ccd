use code_runner::path::{bytes_eq, path_file_name, path_parent};
use code_runner::string_map::StringMap;
use code_runner::text::{byte_slice_text, decimal_text, split_by, str_eq, trimmed};

#[test]
fn trimming() {
    assert_eq!(trimmed(" \t a b \n"), "a b");
    assert_eq!(trimmed("\u{3000}x\u{a0}"), "x");
    assert_eq!(trimmed("   "), "");
}

#[test]
fn splitting() {
    assert_eq!(split_by("a\nb\n", '\n'), vec!["a", "b", ""]);
    assert_eq!(split_by("", '='), vec![""]);
    assert_eq!(split_by("k=v=w", '='), vec!["k", "v", "w"]);
}

#[test]
fn decimals_and_equality() {
    assert_eq!(decimal_text(0), "0");
    assert_eq!(decimal_text(1024), "1024");
    assert_eq!(decimal_text(u64::MAX), u64::MAX.to_string());
    assert!(str_eq("abc", "abc"));
    assert!(!str_eq("abc", "abd"));
    assert!(bytes_eq(b"xy", b"xy"));
}

#[test]
fn byte_slices() {
    assert_eq!(byte_slice_text("sha256:abc", 7, 10), "abc");
    assert_eq!(byte_slice_text("é!", 0, 2), "é");
}

fn name(p: &str) -> Option<String> {
    path_file_name(&p.as_bytes().to_vec()).map(|v| String::from_utf8(v).unwrap())
}

fn parent(p: &str) -> Option<String> {
    path_parent(&p.as_bytes().to_vec()).map(|v| String::from_utf8(v).unwrap())
}

#[test]
fn paths_read_as_std_reads_them() {
    for p in ["/a/b/c", "a/b/", "a/b/.", "/", "", ".", "..", "a/..", "./a", "/a", "a", "a//b", "./"] {
        let std_name = std::path::Path::new(p).file_name().map(|s| s.to_str().unwrap().to_string());
        let std_parent = std::path::Path::new(p).parent().map(|s| s.to_str().unwrap().to_string());
        assert_eq!(name(p), std_name, "file name of {:?}", p);
        assert_eq!(parent(p), std_parent, "parent of {:?}", p);
    }
}

#[test]
fn string_maps() {
    let mut m: StringMap<u32> = StringMap::new();
    m.insert("a".to_string(), 1);
    m.insert("b".to_string(), 2);
    m.insert("a".to_string(), 3);
    assert_eq!(m.len(), 2);
    assert_eq!(m.get("a"), Some(&3));
    assert!(m.contains_key("b"));
    m.remove("b");
    assert!(!m.contains_key("b"));
    assert_eq!(m.len(), 1);
}
