//! The configuration as the standalone modules read it: the
//! text is trimmed first, and every setting must be there and valid.
use vstd::prelude::*;

pub use crate::service::config::Config;
use crate::service::config::{config_entries, config_from, config_from_map, lines_have_separator};
use crate::service::runner::text_values;
use crate::string_map::StringMap;
use crate::text::{split, trim, trimmed};

verus! {

/// Reads the `key=value` lines of a configuration text, trimmed first, so
/// that a line break at the very end is allowed.
pub fn read_to_hashmap(config: String) -> (r: StringMap<String>)
    requires
        lines_have_separator(split(trim(config@), '\n')),
    ensures
        text_values(r@) == config_entries(split(trim(config@), '\n')),
{
    crate::service::config::read_to_hashmap(trimmed(config.as_str()))
}

/// The configuration written in the text of `config.txt`; every setting
/// must be there and `use_created_image` must be `true` or `false`.
pub fn read_config(content: String) -> (r: Config)
    requires
        lines_have_separator(split(trim(content@), '\n')),
        config_from(config_entries(split(trim(content@), '\n'))) is Ok,
    ensures
        r@ == config_from(config_entries(split(trim(content@), '\n')))->Ok_0,
{
    let map = read_to_hashmap(content);
    config_from_map(&map).unwrap()
}

} // verus!
