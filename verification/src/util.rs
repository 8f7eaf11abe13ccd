//! Command results as the standalone modules read them: output
//! that is not UTF-8 is not accepted.
use vstd::prelude::*;
use vstd::utf8::{decode_utf8, valid_utf8};

pub use crate::common::docker_command::build_container_exec_command;
use crate::text::trim;

verus! {

/// The result of a finished command: on success its standard output,
/// decoded and trimmed; on failure its standard error, decoded, as the
/// error. The stream that is read must be UTF-8.
pub fn run_cmd_get_result(success: bool, stdout: Vec<u8>, stderr: Vec<u8>) -> (r: Result<
    String,
    String,
>)
    requires
        success ==> valid_utf8(stdout@),
        !success ==> valid_utf8(stderr@),
    ensures
        match r {
            Ok(s) => success && s@ == trim(decode_utf8(stdout@)),
            Err(e) => !success && e@ == decode_utf8(stderr@),
        },
{
    crate::common::util::run_cmd_get_result(success, stdout, stderr)
}

} // verus!
