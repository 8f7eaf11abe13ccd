//! The service's configuration and how it is read from `key=value` lines.
use vstd::prelude::*;

use crate::service::runner::text_values;
use crate::string_map::StringMap;
use crate::text::{concat, split, split_by, str_eq, texts, trim, trimmed};

verus! {

/// Where the service finds its Dockerfiles and how it names images,
/// containers and the files it puts into them.
pub struct Config {
    pub dockerfile_dir: String,
    pub use_created_image: bool,
    pub container_prefix: String,
    pub src_code_filename: String,
    pub input_filename: String,
    pub run_result_filename: String,
    pub repository_name: String,
}

/// The mathematical content of a `Config`.
pub struct ConfigView {
    pub dockerfile_dir: Seq<char>,
    pub use_created_image: bool,
    pub container_prefix: Seq<char>,
    pub src_code_filename: Seq<char>,
    pub input_filename: Seq<char>,
    pub run_result_filename: Seq<char>,
    pub repository_name: Seq<char>,
}

impl View for Config {
    type V = ConfigView;

    open spec fn view(&self) -> ConfigView {
        ConfigView {
            dockerfile_dir: self.dockerfile_dir@,
            use_created_image: self.use_created_image,
            container_prefix: self.container_prefix@,
            src_code_filename: self.src_code_filename@,
            input_filename: self.input_filename@,
            run_result_filename: self.run_result_filename@,
            repository_name: self.repository_name@,
        }
    }
}

/// Every line, trimmed, holds an `=`.
pub open spec fn lines_have_separator(lines: Seq<Seq<char>>) -> bool {
    forall|i: int| 0 <= i < lines.len() ==> #[trigger] split(trim(lines[i]), '=').len() >= 2
}

/// The settings that configuration lines define: for each line, trimmed, the
/// text before its first `=` is the key and the text up to the next `=` the
/// value; later lines win.
pub open spec fn config_entries(lines: Seq<Seq<char>>) -> Map<Seq<char>, Seq<char>>
    decreases lines.len(),
{
    if lines.len() == 0 {
        Map::empty()
    } else {
        let parts = split(trim(lines.last()), '=');
        config_entries(lines.drop_last()).insert(parts[0], parts[1])
    }
}

/// Whether every line of a configuration text, trimmed, holds an `=`: the
/// texts that `read_to_hashmap` can read.
pub fn has_separators(config: &str) -> (r: bool)
    ensures
        r == lines_have_separator(split(config@, '\n')),
{
    let lines = split_by(config, '\n');
    let mut i: usize = 0;
    while i < lines.len()
        invariant
            i <= lines@.len(),
            texts(lines@) == split(config@, '\n'),
            forall|j: int| 0 <= j < i ==> #[trigger] split(trim(texts(lines@)[j]), '=').len() >= 2,
        decreases lines@.len() - i,
    {
        let line = trimmed(lines[i].as_str());
        let item = split_by(line.as_str(), '=');
        if item.len() < 2 {
            assert(split(trim(texts(lines@)[i as int]), '=').len() < 2);
            return false;
        }
        i = i + 1;
    }
    true
}

/// The key that a configuration line sets: the text, trimmed, before its
/// first `=`.
pub open spec fn line_key(line: Seq<char>) -> Seq<char> {
    split(trim(line), '=')[0]
}

/// The value that a configuration line sets: the text after its first `=`,
/// up to the next one.
pub open spec fn line_value(line: Seq<char>) -> Seq<char> {
    split(trim(line), '=')[1]
}

/// A setting is there exactly where some line sets its key, and its value
/// is the one that the last such line sets.
pub proof fn law_config_last_line_wins(lines: Seq<Seq<char>>, k: Seq<char>)
    ensures
        config_entries(lines).contains_key(k) <==> exists|i: int|
            0 <= i < lines.len() && #[trigger] line_key(lines[i]) == k,
        forall|i: int|
            0 <= i < lines.len() && #[trigger] line_key(lines[i]) == k && (forall|j: int|
                i < j < lines.len() ==> line_key(lines[j]) != k) ==> config_entries(lines)[k]
                == line_value(lines[i]),
    decreases lines.len(),
{
    if lines.len() > 0 {
        let rest = lines.drop_last();
        law_config_last_line_wins(rest, k);
        let last = lines.len() - 1;
        assert(lines[last] == lines.last());
        if config_entries(lines).contains_key(k) {
            if line_key(lines.last()) != k {
                let i = choose|i: int| 0 <= i < rest.len() && #[trigger] line_key(rest[i]) == k;
                assert(lines[i] == rest[i]);
            }
        }
        assert forall|i: int| 0 <= i < lines.len() && #[trigger] line_key(lines[i]) == k implies config_entries(lines).contains_key(k) by {
            if i < last {
                assert(rest[i] == lines[i]);
            }
        }
        assert forall|i: int|
            0 <= i < lines.len() && #[trigger] line_key(lines[i]) == k && (forall|j: int|
                i < j < lines.len() ==> line_key(lines[j]) != k) implies config_entries(lines)[k]
                == line_value(lines[i]) by {
            if i < last {
                assert(rest[i] == lines[i]);
                assert(line_key(lines[last]) != k);
                assert forall|j: int| i < j < rest.len() implies line_key(rest[j]) != k by {
                    assert(rest[j] == lines[j]);
                }
            }
        }
    }
}

/// Reads the `key=value` lines of a configuration text; every line must hold
/// an `=`, so a line break at the very end is not allowed.
pub fn read_to_hashmap(config: String) -> (r: StringMap<String>)
    requires
        lines_have_separator(split(config@, '\n')),
    ensures
        text_values(r@) == config_entries(split(config@, '\n')),
{
    let lines = split_by(config.as_str(), '\n');
    let mut map: StringMap<String> = StringMap::new();
    let mut i: usize = 0;
    assert(text_values(map@) =~= config_entries(texts(lines@).subrange(0, 0)));
    while i < lines.len()
        invariant
            i <= lines@.len(),
            texts(lines@) == split(config@, '\n'),
            lines_have_separator(texts(lines@)),
            text_values(map@) =~= config_entries(texts(lines@).subrange(0, i as int)),
        decreases lines@.len() - i,
    {
        let ghost seen = texts(lines@).subrange(0, i + 1);
        assert(seen.drop_last() =~= texts(lines@).subrange(0, i as int));
        assert(seen.last() == lines@[i as int]@);
        assert(split(trim(texts(lines@)[i as int]), '=').len() >= 2);
        let line = trimmed(lines[i].as_str());
        let item = split_by(line.as_str(), '=');
        let ghost before = map@;
        map.insert(item[0].clone(), item[1].clone());
        assert(text_values(map@) =~= text_values(before).insert(item@[0]@, item@[1]@));
        i = i + 1;
    }
    assert(texts(lines@).subrange(0, lines@.len() as int) =~= texts(lines@));
    map
}

/// The message for a setting that the configuration lacks.
pub open spec fn missing_key_message(key: Seq<char>) -> Seq<char> {
    "cannot find "@ + key + " in config.txt"@
}

/// The value of a setting, or the message that names the missing key.
pub fn get_val_in_map<'a>(map: &'a StringMap<String>, key: &str) -> (r: Result<&'a String, String>)
    ensures
        match r {
            Ok(v) => map@.contains_key(key@) && *v == map@[key@],
            Err(e) => !map@.contains_key(key@) && e@ == missing_key_message(key@),
        },
{
    match map.get(key) {
        Some(v) => Ok(v),
        None => Err(concat("cannot find ", key).concat(" in config.txt")),
    }
}

/// The message of a text that is neither `true` nor `false`.
pub open spec fn bool_error_message() -> Seq<char> {
    "provided string was not `true` or `false`"@
}

/// A boolean written as `true` or `false`.
pub open spec fn parsed_bool(s: Seq<char>) -> Result<bool, Seq<char>> {
    if s == "true"@ {
        Ok(true)
    } else if s == "false"@ {
        Ok(false)
    } else {
        Err(bool_error_message())
    }
}

/// Reads `true` or `false`.
pub fn parse_bool(s: &str) -> (r: Result<bool, String>)
    ensures
        match (r, parsed_bool(s@)) {
            (Ok(a), Ok(b)) => a == b,
            (Err(e), Err(m)) => e@ == m,
            _ => false,
        },
{
    if str_eq(s, "true") {
        Ok(true)
    } else if str_eq(s, "false") {
        Ok(false)
    } else {
        Err("provided string was not `true` or `false`".to_owned())
    }
}

/// The configuration that a table of settings gives, or the message of the
/// first setting, in the order of the fields, that is missing or not valid.
pub open spec fn config_from(m: Map<Seq<char>, Seq<char>>) -> Result<ConfigView, Seq<char>> {
    if !m.contains_key("dockerfile_dir"@) {
        Err(missing_key_message("dockerfile_dir"@))
    } else if !m.contains_key("use_created_image"@) {
        Err(missing_key_message("use_created_image"@))
    } else if parsed_bool(m["use_created_image"@]) is Err {
        Err(bool_error_message())
    } else if !m.contains_key("container_prefix"@) {
        Err(missing_key_message("container_prefix"@))
    } else if !m.contains_key("src_code_filename"@) {
        Err(missing_key_message("src_code_filename"@))
    } else if !m.contains_key("input_filename"@) {
        Err(missing_key_message("input_filename"@))
    } else if !m.contains_key("run_result_filename"@) {
        Err(missing_key_message("run_result_filename"@))
    } else if !m.contains_key("repository_name"@) {
        Err(missing_key_message("repository_name"@))
    } else {
        Ok(
            ConfigView {
                dockerfile_dir: m["dockerfile_dir"@],
                use_created_image: parsed_bool(m["use_created_image"@])->Ok_0,
                container_prefix: m["container_prefix"@],
                src_code_filename: m["src_code_filename"@],
                input_filename: m["input_filename"@],
                run_result_filename: m["run_result_filename"@],
                repository_name: m["repository_name"@],
            },
        )
    }
}

/// A configuration is read exactly where every setting is there and
/// `use_created_image` is `true` or `false`; then each field is the text of
/// its setting, and `use_created_image` holds exactly where it reads `true`.
pub proof fn law_config_takes_settings(m: Map<Seq<char>, Seq<char>>)
    ensures
        config_from(m) is Ok <==> {
            &&& m.contains_key("dockerfile_dir"@)
            &&& m.contains_key("use_created_image"@)
            &&& (m["use_created_image"@] == "true"@ || m["use_created_image"@] == "false"@)
            &&& m.contains_key("container_prefix"@)
            &&& m.contains_key("src_code_filename"@)
            &&& m.contains_key("input_filename"@)
            &&& m.contains_key("run_result_filename"@)
            &&& m.contains_key("repository_name"@)
        },
        config_from(m) matches Ok(c) ==> {
            &&& c.use_created_image == (m["use_created_image"@] == "true"@)
            &&& !c.use_created_image <==> m["use_created_image"@] == "false"@
            &&& c.dockerfile_dir == m["dockerfile_dir"@]
            &&& c.container_prefix == m["container_prefix"@]
            &&& c.src_code_filename == m["src_code_filename"@]
            &&& c.input_filename == m["input_filename"@]
            &&& c.run_result_filename == m["run_result_filename"@]
            &&& c.repository_name == m["repository_name"@]
        },
{
    reveal_strlit("true");
    reveal_strlit("false");
    assert("true"@ != "false"@) by {
        assert("true"@.len() != "false"@.len());
    }
}

/// The configuration that a table of settings gives.
pub fn config_from_map(map: &StringMap<String>) -> (r: Result<Config, String>)
    ensures
        match (r, config_from(text_values(map@))) {
            (Ok(c), Ok(v)) => c@ == v,
            (Err(e), Err(m)) => e@ == m,
            _ => false,
        },
{
    let dockerfile_dir = get_val_in_map(map, "dockerfile_dir")?.clone();
    let use_created_image = parse_bool(get_val_in_map(map, "use_created_image")?.as_str())?;
    let container_prefix = get_val_in_map(map, "container_prefix")?.clone();
    let src_code_filename = get_val_in_map(map, "src_code_filename")?.clone();
    let input_filename = get_val_in_map(map, "input_filename")?.clone();
    let run_result_filename = get_val_in_map(map, "run_result_filename")?.clone();
    let repository_name = get_val_in_map(map, "repository_name")?.clone();
    Ok(
        Config {
            dockerfile_dir,
            use_created_image,
            container_prefix,
            src_code_filename,
            input_filename,
            run_result_filename,
            repository_name,
        },
    )
}

/// The configuration written in the text of `config.txt`.
pub fn read_config(content: String) -> (r: Result<Config, String>)
    requires
        lines_have_separator(split(content@, '\n')),
    ensures
        match (r, config_from(config_entries(split(content@, '\n')))) {
            (Ok(c), Ok(v)) => c@ == v,
            (Err(e), Err(m)) => e@ == m,
            _ => false,
        },
{
    let map = read_to_hashmap(content);
    config_from_map(&map)
}

} // verus!
