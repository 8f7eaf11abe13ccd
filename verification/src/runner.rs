//! A run of a submission as the standalone modules make it:
//! in a container of a named image, keeping the run's result even where
//! removing the container fails.
use vstd::prelude::*;

pub use crate::common::RunResult;
use crate::common::docker_command::run_container_command;
use crate::common::util::is_uuid_v4_text;
use crate::common::Code;
use crate::service::config::Config;
use crate::service::runner::{initial_state, outcome_view, start_run, CodeRun};

verus! {

/// Starts running `code` in a container of the image `image_name`, named by
/// the configured prefix and a fresh UUID; the run keeps its result where
/// removing the container fails, and needs a readable result file.
pub fn run_code(code: Code, image_name: &str, config: Config) -> (r: (CodeRun, crate::common::docker_command::DockerCommand))
    ensures
        r.0@ == initial_state(),
        r.0.submission() == code,
        r.0.settings() == config,
        r.0.is_standalone(),
        exists|id: Seq<char>|
            is_uuid_v4_text(id) && r.1@ == run_container_command(image_name@, config.container_prefix@ + id),
{
    start_run(code, config, image_name, true)
}

/// What removing a run's container gives in the standalone modules: the
/// text `killed` where `docker rm -f` succeeded, whatever it printed, else
/// its error output.
pub open spec fn kill_result(outcome: Result<Seq<char>, Seq<char>>) -> Result<Seq<char>, Seq<char>> {
    match outcome {
        Ok(_) => Ok("killed"@),
        Err(e) => Err(e),
    }
}

/// The result of removing a run's container, from the outcome of its
/// `docker rm -f` command (see `docker_command::kill_container`).
pub fn kill_container(outcome: Result<String, String>) -> (r: Result<String, String>)
    ensures
        outcome_view(r) == kill_result(outcome_view(outcome)),
{
    match outcome {
        Ok(_) => Ok("killed".to_owned()),
        Err(e) => Err(e),
    }
}

} // verus!
