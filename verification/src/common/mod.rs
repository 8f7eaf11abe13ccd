//! The values that a run of submitted code takes and gives, and the docker
//! commands that carry it out.
use vstd::prelude::*;

pub mod docker_command;
pub mod util;

verus! {

/// What a finished run reports.
pub struct RunResult {
    pub status: String,
    pub use_time: String,
    pub memory: String,
    pub output: String,
}

/// The mathematical content of a `RunResult`.
pub struct RunResultView {
    pub status: Seq<char>,
    pub use_time: Seq<char>,
    pub memory: Seq<char>,
    pub output: Seq<char>,
}

impl View for RunResult {
    type V = RunResultView;

    open spec fn view(&self) -> RunResultView {
        RunResultView {
            status: self.status@,
            use_time: self.use_time@,
            memory: self.memory@,
            output: self.output@,
        }
    }
}

/// A run's result, or the message of what went wrong, by its content.
pub open spec fn result_view(r: Result<RunResult, String>) -> Result<RunResultView, Seq<char>> {
    match r {
        Ok(v) => Ok(v@),
        Err(e) => Err(e@),
    }
}

/// A submission: source code in a language, its input and its limits.
pub struct Code {
    pub _id: Option<String>,
    pub language_id: String,
    pub input: String,
    pub code_string: String,
    pub time_limit: u64,
    pub memory_limit: u64,
}

} // verus!
