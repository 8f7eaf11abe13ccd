//! The steps that every tape shares: starting and removing the container.
use vstd::prelude::*;

use crate::common::docker_command::{kill_container, plain, run_container, run_container_command, DockerCommand};
use crate::common::util::is_uuid_v4_text;
use crate::service::runner::outcome_view;
use crate::tape::{ContextEntry, ContextMap, ContextValue};

verus! {

/// What the starting step does with the outcome of starting the container:
/// where it started, the context records its id (the trimmed output) and
/// the step succeeds; else the context stays as it was and the step fails
/// with the error output.
pub open spec fn start_record(
    ctx: Map<Seq<char>, ContextEntry>,
    outcome: Result<Seq<char>, Seq<char>>,
) -> (Map<Seq<char>, ContextEntry>, Result<(), Seq<char>>) {
    match outcome {
        Ok(id) => (ctx.insert("container_id"@, ContextEntry::Text(id)), Ok(())),
        Err(e) => (ctx, Err(e)),
    }
}

/// What the removing step gives from the outcome of removing the container:
/// success, or the error output.
pub open spec fn kill_record(outcome: Result<Seq<char>, Seq<char>>) -> Result<(), Seq<char>> {
    match outcome {
        Ok(_) => Ok(()),
        Err(e) => Err(e),
    }
}

/// The steps that start and remove the container of a play.
pub struct CommonRecord;

impl CommonRecord {
    /// The command that starts a detached container of `image_id`, named
    /// `code_runner_` followed by a fresh random UUID.
    pub fn init(image_id: &str) -> (r: DockerCommand)
        ensures
            exists|id: Seq<char>|
                is_uuid_v4_text(id) && r@ == run_container_command(image_id@, "code_runner_"@ + id),
    {
        run_container(image_id, "code_runner_")
    }

    /// The command that removes the container.
    pub fn kill(container_id: &str) -> (r: DockerCommand)
        ensures
            r@ == plain(seq!["rm"@, "-f"@, container_id@]),
    {
        kill_container(container_id)
    }

    /// Takes the outcome of starting the container into the context: its id
    /// where it started; the step's result.
    pub fn started(ctx: &mut ContextMap, outcome: Result<String, String>) -> (r: Result<(), String>)
        ensures
            (final(ctx)@, match r {
                Ok(()) => Ok(()),
                Err(e) => Err(e@),
            }) == start_record(old(ctx)@, outcome_view(outcome)),
    {
        match outcome {
            Ok(id) => {
                ctx.set_val("container_id", ContextValue::Text(id));
                Ok(())
            },
            Err(e) => Err(e),
        }
    }

    /// The result of the removing step from the outcome of removing the
    /// container.
    pub fn killed(outcome: Result<String, String>) -> (r: Result<(), String>)
        ensures
            match r {
                Ok(()) => Ok(()),
                Err(e) => Err(e@),
            } == kill_record(outcome_view(outcome)),
    {
        match outcome {
            Ok(_) => Ok(()),
            Err(e) => Err(e),
        }
    }
}

} // verus!
