//! One run of a submission in a fresh container, as a sequence of docker
//! commands: each outcome of a command decides the next command, and the
//! container, once it runs, is always removed before the run finishes.
use vstd::prelude::*;

use crate::common::docker_command::{
    add_executable_for_file, build_container_exec_command, copy_file_to_container,
    copy_str_to_container, echo_line, exec_in, image_ref, kill_container, plain,
    read_container_file, run_container, run_container_command, CommandView, DockerCommand,
};
use crate::common::util::is_uuid_v4_text;
use crate::common::{result_view, Code, RunResult, RunResultView};
use crate::service::config::Config;
use crate::string_map::StringMap;
use crate::text::{
    concat, decimal, decimal_text, split, split_by, str_eq, str_texts, texts, trim, trimmed,
};

verus! {

/// The entries that the lines of a result file define: each line, trimmed,
/// that splits at `=` into exactly a key and a value; later lines win.
pub open spec fn result_entries(lines: Seq<Seq<char>>) -> Map<Seq<char>, Seq<char>>
    decreases lines.len(),
{
    if lines.len() == 0 {
        Map::empty()
    } else {
        let before = result_entries(lines.drop_last());
        let line = trim(lines.last());
        let parts = split(line, '=');
        if line.len() > 0 && parts.len() == 2 {
            before.insert(parts[0], parts[1])
        } else {
            before
        }
    }
}

/// A result-file line that sets an entry: trimmed, it is not empty and
/// splits at `=` into exactly a key and a value.
pub open spec fn is_entry_line(line: Seq<char>) -> bool {
    trim(line).len() > 0 && split(trim(line), '=').len() == 2
}

/// The key and the value that a result-file line sets.
pub open spec fn entry_of(line: Seq<char>) -> (Seq<char>, Seq<char>) {
    (split(trim(line), '=')[0], split(trim(line), '=')[1])
}

/// An entry is there exactly where some entry line sets its key, and its
/// value is the one that the last such line sets; other lines set nothing.
pub proof fn law_result_last_line_wins(lines: Seq<Seq<char>>, k: Seq<char>)
    ensures
        result_entries(lines).contains_key(k) <==> exists|i: int|
            0 <= i < lines.len() && is_entry_line(lines[i]) && #[trigger] entry_of(lines[i]).0 == k,
        forall|i: int|
            0 <= i < lines.len() && is_entry_line(lines[i]) && #[trigger] entry_of(lines[i]).0 == k
                && (forall|j: int|
                i < j < lines.len() ==> !(is_entry_line(lines[j]) && entry_of(lines[j]).0 == k))
                ==> result_entries(lines)[k] == entry_of(lines[i]).1,
    decreases lines.len(),
{
    if lines.len() > 0 {
        let rest = lines.drop_last();
        law_result_last_line_wins(rest, k);
        let last = lines.len() - 1;
        assert(lines[last] == lines.last());
        if result_entries(lines).contains_key(k) {
            if !(is_entry_line(lines.last()) && entry_of(lines.last()).0 == k) {
                let i = choose|i: int|
                    0 <= i < rest.len() && is_entry_line(rest[i]) && #[trigger] entry_of(rest[i]).0 == k;
                assert(lines[i] == rest[i]);
            }
        }
        assert forall|i: int|
            0 <= i < lines.len() && is_entry_line(lines[i]) && #[trigger] entry_of(lines[i]).0
                == k implies result_entries(lines).contains_key(k) by {
            if i < last {
                assert(rest[i] == lines[i]);
            }
        }
        assert forall|i: int|
            0 <= i < lines.len() && is_entry_line(lines[i]) && #[trigger] entry_of(lines[i]).0 == k
                && (forall|j: int|
                i < j < lines.len() ==> !(is_entry_line(lines[j]) && entry_of(lines[j]).0 == k))
                implies result_entries(lines)[k] == entry_of(lines[i]).1 by {
            if i < last {
                assert(rest[i] == lines[i]);
                assert(!(is_entry_line(lines[last]) && entry_of(lines[last]).0 == k));
                assert forall|j: int| i < j < rest.len() implies !(is_entry_line(rest[j])
                    && entry_of(rest[j]).0 == k) by {
                    assert(rest[j] == lines[j]);
                }
            }
        }
    }
}

/// The `key=value` entries of a result file.
pub open spec fn result_file_map(content: Seq<char>) -> Map<Seq<char>, Seq<char>> {
    result_entries(split(content, '\n'))
}

/// The texts of a map's string values.
pub open spec fn text_values(m: Map<Seq<char>, String>) -> Map<Seq<char>, Seq<char>> {
    m.map_values(|v: String| v@)
}

/// Reads the `key=value` lines of a result file.
pub fn parse_res_file(content: String) -> (r: StringMap<String>)
    ensures
        text_values(r@) == result_file_map(content@),
{
    let lines = split_by(content.as_str(), '\n');
    let mut map: StringMap<String> = StringMap::new();
    let mut i: usize = 0;
    assert(text_values(map@) =~= result_entries(texts(lines@).subrange(0, 0)));
    while i < lines.len()
        invariant
            i <= lines@.len(),
            texts(lines@) == split(content@, '\n'),
            text_values(map@) =~= result_entries(texts(lines@).subrange(0, i as int)),
        decreases lines@.len() - i,
    {
        let ghost seen = texts(lines@).subrange(0, i + 1);
        assert(seen.drop_last() =~= texts(lines@).subrange(0, i as int));
        assert(seen.last() == lines@[i as int]@);
        let line = trimmed(lines[i].as_str());
        if !line.as_str().is_empty() {
            let parts = split_by(line.as_str(), '=');
            if parts.len() == 2 {
                let ghost before = map@;
                map.insert(parts[0].clone(), parts[1].clone());
                assert(text_values(map@) =~= text_values(before).insert(
                    parts@[0]@,
                    parts@[1]@,
                ));
            }
        }
        i = i + 1;
    }
    assert(texts(lines@).subrange(0, lines@.len() as int) =~= texts(lines@));
    map
}

/// What a run reports, from the output of its script and its result file:
/// the status, and for status `OK` the wall time in ms and the memory in KB;
/// a missing entry is an error that names it.
pub open spec fn script_result(output: Seq<char>, result_file: Seq<char>) -> Result<
    RunResultView,
    Seq<char>,
> {
    let m = result_file_map(result_file);
    if !m.contains_key("status"@) {
        Err("status不存在"@)
    } else if m["status"@] == "OK"@ {
        if !m.contains_key("wall_time"@) {
            Err("wall_time不存在"@)
        } else if !m.contains_key("memory"@) {
            Err("memory不存在"@)
        } else {
            Ok(
                RunResultView {
                    status: m["status"@],
                    use_time: m["wall_time"@] + "ms"@,
                    memory: m["memory"@] + "KB"@,
                    output,
                },
            )
        }
    } else {
        Ok(
            RunResultView {
                status: m["status"@],
                use_time: Seq::empty(),
                memory: Seq::empty(),
                output,
            },
        )
    }
}

/// A run reports what its script printed, as it is, whatever the status;
/// the status is the one the result file names; the time and memory are
/// given, in ms and KB, for status `OK` alone and are empty otherwise; and
/// reading fails exactly where the status, or for `OK` the time or the
/// memory, is missing.
pub proof fn law_run_reports_output_and_status(output: Seq<char>, result_file: Seq<char>)
    ensures
        ({
            let m = result_file_map(result_file);
            let ok = m.contains_key("status"@) && m["status"@] == "OK"@;
            &&& script_result(output, result_file) is Ok <==> (m.contains_key("status"@) && (ok
                ==> m.contains_key("wall_time"@) && m.contains_key("memory"@)))
            &&& script_result(output, result_file) matches Ok(v) ==> {
                &&& v.output == output
                &&& v.status == m["status"@]
                &&& ok ==> v.use_time == m["wall_time"@] + "ms"@ && v.memory == m["memory"@]
                    + "KB"@
                &&& !ok ==> v.use_time.len() == 0 && v.memory.len() == 0
            }
        }),
{
}

/// The result of a run from the output of its script and the content of
/// its result file.
pub fn run_script(output: String, result_file: String) -> (r: Result<RunResult, String>)
    ensures
        result_view(r) == script_result(output@, result_file@),
{
    let map = parse_res_file(result_file);
    let status = match map.get("status") {
        Some(s) => s,
        None => {
            return Err("status不存在".to_owned());
        },
    };
    if str_eq(status.as_str(), "OK") {
        let use_time = match map.get("wall_time") {
            Some(t) => t,
            None => {
                return Err("wall_time不存在".to_owned());
            },
        };
        let max_mem = match map.get("memory") {
            Some(m) => m,
            None => {
                return Err("memory不存在".to_owned());
            },
        };
        Ok(
            RunResult {
                status: status.clone(),
                use_time: concat(use_time.as_str(), "ms"),
                memory: concat(max_mem.as_str(), "KB"),
                output,
            },
        )
    } else {
        Ok(
            RunResult {
                status: status.clone(),
                use_time: String::new(),
                memory: String::new(),
                output,
            },
        )
    }
}

/// The name of the script that runs a submission's language.
pub open spec fn script_name(code: Code) -> Seq<char> {
    code.language_id@ + ".sh"@
}

/// Where the service keeps that script on the host.
pub open spec fn script_path(code: Code, config: Config) -> Seq<char> {
    config.dockerfile_dir@ + code.language_id@ + "/"@ + script_name(code)
}

/// The shell line that runs the script with the time and memory limits.
pub open spec fn script_line(code: Code) -> Seq<char> {
    "./"@ + script_name(code) + " "@ + decimal(code.time_limit as nat) + " "@ + decimal(
        code.memory_limit as nat,
    )
}

/// Where a run stands: which command it waits on, and what it holds.
pub enum Stage {
    StartingContainer,
    CopyingCode,
    CopyingInput,
    CopyingScript,
    MakingExecutable,
    RunningScript,
    ReadingResult(Seq<char>),
    Removing(Result<RunResultView, Seq<char>>),
    Finished,
}

/// A run's stage and the container it runs in.
pub struct RunState {
    pub stage: Stage,
    pub container_id: Seq<char>,
}

/// What a run asks for next: a docker command, or to finish with a result.
pub enum RunStep {
    Docker(CommandView),
    Finish(Result<RunResultView, Seq<char>>),
}

/// The text of a command's outcome.
pub open spec fn outcome_view(o: Result<String, String>) -> Result<Seq<char>, Seq<char>> {
    match o {
        Ok(s) => Ok(s@),
        Err(e) => Err(e@),
    }
}

/// Moves to removing the container, keeping the result for afterwards.
pub open spec fn start_removing(container_id: Seq<char>, result: Result<RunResultView, Seq<char>>) -> (
    RunState,
    RunStep,
) {
    (
        RunState { stage: Stage::Removing(result), container_id },
        RunStep::Docker(plain(seq!["rm"@, "-f"@, container_id])),
    )
}

/// Goes on to `stage` with `command`, or, where the last command failed,
/// removes the container and keeps the failure as the result.
pub open spec fn advance(
    s: RunState,
    outcome: Result<Seq<char>, Seq<char>>,
    stage: Stage,
    command: CommandView,
) -> (RunState, RunStep) {
    match outcome {
        Err(e) => start_removing(s.container_id, Err(e)),
        Ok(_) => (RunState { stage, container_id: s.container_id }, RunStep::Docker(command)),
    }
}

/// One step of a run: from its state and the outcome of the command it
/// waited on, its next state and what it asks for.
pub open spec fn run_step(
    code: Code,
    config: Config,
    standalone: bool,
    s: RunState,
    outcome: Result<Seq<char>, Seq<char>>,
) -> (RunState, RunStep) {
    let cid = s.container_id;
    match s.stage {
        Stage::StartingContainer => match outcome {
            Err(e) => (RunState { stage: Stage::Finished, container_id: cid }, RunStep::Finish(Err(e))),
            Ok(id) => (
                RunState { stage: Stage::CopyingCode, container_id: id },
                RunStep::Docker(
                    exec_in(id, seq![echo_line(code.code_string@, config.src_code_filename@)]),
                ),
            ),
        },
        Stage::CopyingCode => advance(
            s,
            outcome,
            Stage::CopyingInput,
            exec_in(cid, seq![echo_line(code.input@, config.input_filename@)]),
        ),
        Stage::CopyingInput => advance(
            s,
            outcome,
            Stage::CopyingScript,
            plain(seq!["cp"@, script_path(code, config), cid + ":"@ + script_name(code)]),
        ),
        Stage::CopyingScript => advance(
            s,
            outcome,
            Stage::MakingExecutable,
            exec_in(cid, seq!["chmod +x "@ + script_name(code)]),
        ),
        Stage::MakingExecutable => advance(
            s,
            outcome,
            Stage::RunningScript,
            exec_in(cid, seq![script_line(code)]),
        ),
        Stage::RunningScript => match outcome {
            Err(e) => start_removing(cid, Err(e)),
            Ok(output) => (
                RunState { stage: Stage::ReadingResult(output), container_id: cid },
                RunStep::Docker(exec_in(cid, seq!["cat "@ + config.run_result_filename@])),
            ),
        },
        Stage::ReadingResult(output) => match outcome {
            Err(e) => start_removing(cid, Err(e)),
            Ok(content) => start_removing(cid, script_result(output, content)),
        },
        Stage::Removing(result) => match outcome {
            Err(e) => (
                RunState { stage: Stage::Finished, container_id: cid },
                RunStep::Finish(if standalone { result } else { Err(e) }),
            ),
            Ok(_) => (RunState { stage: Stage::Finished, container_id: cid }, RunStep::Finish(result)),
        },
        Stage::Finished => (s, RunStep::Finish(Err(Seq::empty()))),
    }
}

/// The state a run starts in.
pub open spec fn initial_state() -> RunState {
    RunState { stage: Stage::StartingContainer, container_id: Seq::empty() }
}

/// What a run asks for, step by step, when the commands it asks for have
/// the given outcomes; the list ends where the run finishes.
pub open spec fn run_from(
    code: Code,
    config: Config,
    standalone: bool,
    s: RunState,
    outcomes: Seq<Result<Seq<char>, Seq<char>>>,
) -> Seq<RunStep>
    decreases outcomes.len(),
{
    if outcomes.len() == 0 || s.stage is Finished {
        Seq::empty()
    } else {
        let (next, step) = run_step(code, config, standalone, s, outcomes[0]);
        seq![step] + run_from(code, config, standalone, next, outcomes.drop_first())
    }
}

/// How far a run has come; every step moves it further.
pub open spec fn stage_rank(stage: Stage) -> nat {
    match stage {
        Stage::StartingContainer => 0,
        Stage::CopyingCode => 1,
        Stage::CopyingInput => 2,
        Stage::CopyingScript => 3,
        Stage::MakingExecutable => 4,
        Stage::RunningScript => 5,
        Stage::ReadingResult(_) => 6,
        Stage::Removing(_) => 7,
        Stage::Finished => 8,
    }
}

/// The command that removes a container.
pub open spec fn removal_of(container_id: Seq<char>) -> RunStep {
    RunStep::Docker(plain(seq!["rm"@, "-f"@, container_id]))
}

/// Every step of an unfinished run moves it to a later stage, and it
/// finishes exactly when it asks to finish.
pub proof fn law_run_progresses(
    code: Code,
    config: Config,
    standalone: bool,
    s: RunState,
    outcome: Result<Seq<char>, Seq<char>>,
)
    requires
        !(s.stage is Finished),
    ensures
        stage_rank(run_step(code, config, standalone, s, outcome).0.stage) > stage_rank(s.stage),
        run_step(code, config, standalone, s, outcome).0.stage is Finished <==> run_step(
            code,
            config,
            standalone,
            s,
            outcome,
        ).1 is Finish,
{
}

/// A run finishes only after removing its container, or without ever having
/// had one, when the container did not start.
pub proof fn law_finish_only_after_removal(
    code: Code,
    config: Config,
    standalone: bool,
    s: RunState,
    outcome: Result<Seq<char>, Seq<char>>,
)
    requires
        !(s.stage is Finished),
        run_step(code, config, standalone, s, outcome).1 is Finish,
    ensures
        s.stage is Removing || (s.stage is StartingContainer && outcome is Err),
{
}

/// Once its container runs, a run keeps it: every later step concerns the
/// same container, and the step into removal asks to remove exactly it.
pub proof fn law_removal_targets_container(
    code: Code,
    config: Config,
    standalone: bool,
    s: RunState,
    outcome: Result<Seq<char>, Seq<char>>,
)
    requires
        !(s.stage is Finished),
        !(s.stage is StartingContainer),
    ensures
        run_step(code, config, standalone, s, outcome).0.container_id == s.container_id,
        run_step(code, config, standalone, s, outcome).0.stage is Removing ==> run_step(
            code,
            config,
            standalone,
            s,
            outcome,
        ).1 == removal_of(s.container_id),
{
}

/// The first command that fails decides the result: a failure while the
/// container runs is kept as the result, and removal then passes it on;
/// where the removal itself fails, its message is the result, except for
/// the standalone modules, which keep the kept result.
pub proof fn law_first_failure_is_result(
    code: Code,
    config: Config,
    standalone: bool,
    s: RunState,
    e: Seq<char>,
)
    requires
        !(s.stage is Finished),
        !(s.stage is StartingContainer),
        !(s.stage is Removing),
    ensures
        run_step(code, config, standalone, s, Err(e)).0.stage == Stage::Removing(Err(e)),
        forall|o: Result<Seq<char>, Seq<char>>|
            #![trigger run_step(code, config, standalone, run_step(code, config, standalone, s, Err(e)).0, o)]
            run_step(code, config, standalone, run_step(code, config, standalone, s, Err(e)).0, o).1 == match o {
                Ok(_) => RunStep::Finish(Err(e)),
                Err(f) => RunStep::Finish(
                    if standalone {
                        Err(e)
                    } else {
                        Err(f)
                    },
                ),
            },
{
}

proof fn lemma_removal_before_finish(
    code: Code,
    config: Config,
    standalone: bool,
    s: RunState,
    outcomes: Seq<Result<Seq<char>, Seq<char>>>,
    id: Seq<char>,
)
    requires
        s.container_id == id,
        !(s.stage is StartingContainer),
        !(s.stage is Finished),
    ensures
        forall|k: int|
            0 <= k < run_from(code, config, standalone, s, outcomes).len() && #[trigger] run_from(
                code,
                config,
                standalone,
                s,
                outcomes,
            )[k] is Finish ==> (k == 0 && s.stage is Removing) || (k >= 1 && run_from(
                code,
                config,
                standalone,
                s,
                outcomes,
            )[k - 1] == removal_of(id)),
    decreases outcomes.len(),
{
    if outcomes.len() > 0 {
        let (next, step) = run_step(code, config, standalone, s, outcomes[0]);
        let rest = run_from(code, config, standalone, next, outcomes.drop_first());
        let all = run_from(code, config, standalone, s, outcomes);
        assert(all == seq![step] + rest);
        if !(next.stage is Finished) {
            lemma_removal_before_finish(code, config, standalone, next, outcomes.drop_first(), id);
        } else {
            assert(rest.len() == 0);
        }
        assert forall|k: int| 0 <= k < all.len() && #[trigger] all[k] is Finish implies (k == 0
            && s.stage is Removing) || (k >= 1 && all[k - 1] == removal_of(id)) by {
            if k >= 1 {
                assert(all[k] == rest[k - 1]);
                if k >= 2 {
                    assert(all[k - 1] == rest[k - 2]);
                }
            }
        }
    }
}

/// The central promise of a run: whatever the outcomes of its commands, once
/// its container has started, the run asks to finish only right after it
/// asked to remove that very container.
pub proof fn law_container_removed_before_finish(
    code: Code,
    config: Config,
    standalone: bool,
    outcomes: Seq<Result<Seq<char>, Seq<char>>>,
    id: Seq<char>,
    k: int,
)
    requires
        outcomes.len() > 0,
        outcomes[0] == Ok::<Seq<char>, Seq<char>>(id),
        0 <= k < run_from(code, config, standalone, initial_state(), outcomes).len(),
        run_from(code, config, standalone, initial_state(), outcomes)[k] is Finish,
    ensures
        k >= 2,
        run_from(code, config, standalone, initial_state(), outcomes)[k - 1] == removal_of(id),
{
    let (next, step) = run_step(code, config, standalone, initial_state(), outcomes[0]);
    let rest = run_from(code, config, standalone, next, outcomes.drop_first());
    let all = run_from(code, config, standalone, initial_state(), outcomes);
    assert(all == seq![step] + rest);
    lemma_removal_before_finish(code, config, standalone, next, outcomes.drop_first(), id);
    assert(all[k] == rest[k - 1]);
    if k >= 2 {
        assert(all[k - 1] == rest[k - 2]);
    }
}

proof fn lemma_run_finishes(
    code: Code,
    config: Config,
    standalone: bool,
    s: RunState,
    outcomes: Seq<Result<Seq<char>, Seq<char>>>,
)
    requires
        !(s.stage is Finished),
        outcomes.len() + stage_rank(s.stage) >= 8,
    ensures
        run_from(code, config, standalone, s, outcomes).len() >= 1,
        run_from(code, config, standalone, s, outcomes).last() is Finish,
    decreases outcomes.len(),
{
    let (next, step) = run_step(code, config, standalone, s, outcomes[0]);
    let rest = run_from(code, config, standalone, next, outcomes.drop_first());
    assert(run_from(code, config, standalone, s, outcomes) == seq![step] + rest);
    if !(next.stage is Finished) {
        lemma_run_finishes(code, config, standalone, next, outcomes.drop_first());
    }
}

/// Every run finishes: whatever the outcomes, it asks to finish after at
/// most eight commands.
pub proof fn law_run_finishes(
    code: Code,
    config: Config,
    standalone: bool,
    outcomes: Seq<Result<Seq<char>, Seq<char>>>,
)
    requires
        outcomes.len() >= 8,
    ensures
        1 <= run_from(code, config, standalone, initial_state(), outcomes).len() <= 8,
        run_from(code, config, standalone, initial_state(), outcomes).last() is Finish,
{
    lemma_run_finishes(code, config, standalone, initial_state(), outcomes);
    lemma_run_length(code, config, standalone, initial_state(), outcomes);
}

proof fn lemma_run_length(
    code: Code,
    config: Config,
    standalone: bool,
    s: RunState,
    outcomes: Seq<Result<Seq<char>, Seq<char>>>,
)
    ensures
        run_from(code, config, standalone, s, outcomes).len() + stage_rank(s.stage) <= 8,
    decreases outcomes.len(),
{
    if outcomes.len() > 0 && !(s.stage is Finished) {
        let (next, step) = run_step(code, config, standalone, s, outcomes[0]);
        lemma_run_length(code, config, standalone, next, outcomes.drop_first());
    }
}

/// What a run asks for next.
pub enum RunAction {
    Docker(DockerCommand),
    Finish(Result<RunResult, String>),
}

impl View for RunAction {
    type V = RunStep;

    open spec fn view(&self) -> RunStep {
        match self {
            RunAction::Docker(c) => RunStep::Docker(c@),
            RunAction::Finish(r) => RunStep::Finish(result_view(*r)),
        }
    }
}

enum Phase {
    StartingContainer,
    CopyingCode,
    CopyingInput,
    CopyingScript,
    MakingExecutable,
    RunningScript,
    ReadingResult(String),
    Removing(Result<RunResult, String>),
    Finished,
}

/// A run of one submission under one configuration.
pub struct CodeRun {
    code: Code,
    config: Config,
    standalone: bool,
    container_id: String,
    phase: Phase,
}

impl View for CodeRun {
    type V = RunState;

    closed spec fn view(&self) -> RunState {
        RunState {
            stage: match self.phase {
                Phase::StartingContainer => Stage::StartingContainer,
                Phase::CopyingCode => Stage::CopyingCode,
                Phase::CopyingInput => Stage::CopyingInput,
                Phase::CopyingScript => Stage::CopyingScript,
                Phase::MakingExecutable => Stage::MakingExecutable,
                Phase::RunningScript => Stage::RunningScript,
                Phase::ReadingResult(o) => Stage::ReadingResult(o@),
                Phase::Removing(r) => Stage::Removing(result_view(r)),
                Phase::Finished => Stage::Finished,
            },
            container_id: self.container_id@,
        }
    }
}

/// Starts running `code`: the run waits on the command that starts its
/// container, a container of the language's image named by the configured
/// prefix and a fresh UUID.
pub fn run_code(code: Code, config: Config) -> (r: (CodeRun, DockerCommand))
    ensures
        r.0@ == initial_state(),
        r.0.submission() == code,
        r.0.settings() == config,
        !r.0.is_standalone(),
        exists|id: Seq<char>|
            is_uuid_v4_text(id) && r.1@ == run_container_command(
                image_ref(config.repository_name@, code.language_id@),
                config.container_prefix@ + id,
            ),
{
    let image_name = concat(config.repository_name.as_str(), ":").concat(code.language_id.as_str());
    assert(image_name@ =~= image_ref(config.repository_name@, code.language_id@));
    start_run(code, config, image_name.as_str(), false)
}

/// Starts a run of `code` in a container of `image`.
pub(crate) fn start_run(code: Code, config: Config, image: &str, standalone: bool) -> (r: (
    CodeRun,
    DockerCommand,
))
    ensures
        r.0@ == initial_state(),
        r.0.submission() == code,
        r.0.settings() == config,
        r.0.is_standalone() == standalone,
        exists|id: Seq<char>|
            is_uuid_v4_text(id) && r.1@ == run_container_command(
                image@,
                config.container_prefix@ + id,
            ),
{
    let command = run_container(image, config.container_prefix.as_str());
    (
        CodeRun { code, config, standalone, container_id: String::new(), phase: Phase::StartingContainer },
        command,
    )
}

/// The result file of a run can be read by the standalone modules, which
/// requires the wall time and the memory wherever the status is `OK`.
pub open spec fn standalone_result_ok(result_file: Seq<char>) -> bool {
    let m = result_file_map(result_file);
    (m.contains_key("status"@) && m["status"@] == "OK"@) ==> (m.contains_key("wall_time"@)
        && m.contains_key("memory"@))
}

/// An outcome that a run can take: any, except that for the standalone modules
/// a result file must be readable.
pub open spec fn run_outcome_ok(standalone: bool, s: RunState, outcome: Result<Seq<char>, Seq<char>>) -> bool {
    match (s.stage, outcome) {
        (Stage::ReadingResult(_), Ok(content)) => standalone ==> standalone_result_ok(content),
        _ => true,
    }
}

impl CodeRun {
    /// The submission being run.
    pub closed spec fn submission(&self) -> Code {
        self.code
    }

    /// The configuration it runs under.
    pub closed spec fn settings(&self) -> Config {
        self.config
    }

    /// Whether the run follows the standalone modules.
    pub closed spec fn is_standalone(&self) -> bool {
        self.standalone
    }

    /// Whether the run can take an outcome in its current stage.
    pub fn accepts(&self, outcome: &Result<String, String>) -> (r: bool)
        ensures
            r == run_outcome_ok(self.is_standalone(), self@, outcome_view(*outcome)),
    {
        match (&self.phase, outcome) {
            (Phase::ReadingResult(_), Ok(content)) => {
                if !self.standalone {
                    return true;
                }
                let map = parse_res_file(content.clone());
                let status_ok = match map.get("status") {
                    Some(s) => str_eq(s.as_str(), "OK"),
                    None => false,
                };
                !status_ok || (map.contains_key("wall_time") && map.contains_key("memory"))
            },
            _ => true,
        }
    }

    fn script_name(&self) -> (r: String)
        ensures
            r@ == script_name(self.code),
    {
        concat(self.code.language_id.as_str(), ".sh")
    }

    fn removal(&mut self, result: Result<RunResult, String>) -> (r: RunAction)
        ensures
            (final(self)@, r@) == start_removing(old(self)@.container_id, result_view(result)),
            final(self).code == old(self).code,
            final(self).config == old(self).config,
            final(self).standalone == old(self).standalone,
    {
        let command = kill_container(self.container_id.as_str());
        self.phase = Phase::Removing(result);
        RunAction::Docker(command)
    }

    /// Takes the outcome of the command the run waited on, and gives what
    /// the run asks for next.
    pub fn next(&mut self, outcome: Result<String, String>) -> (r: RunAction)
        requires
            !(old(self)@.stage is Finished),
            run_outcome_ok(old(self).is_standalone(), old(self)@, outcome_view(outcome)),
        ensures
            (final(self)@, r@) == run_step(
                old(self).submission(),
                old(self).settings(),
                old(self).is_standalone(),
                old(self)@,
                outcome_view(outcome),
            ),
            final(self).submission() == old(self).submission(),
            final(self).settings() == old(self).settings(),
            final(self).is_standalone() == old(self).is_standalone(),
    {
        let mut phase = Phase::Finished;
        std::mem::swap(&mut phase, &mut self.phase);
        match phase {
            Phase::StartingContainer => match outcome {
                Err(e) => {
                    self.phase = Phase::Finished;
                    RunAction::Finish(Err(e))
                },
                Ok(id) => {
                    self.container_id = id;
                    self.phase = Phase::CopyingCode;
                    RunAction::Docker(
                        copy_str_to_container(
                            self.container_id.as_str(),
                            self.config.src_code_filename.as_str(),
                            self.code.code_string.as_str(),
                        ),
                    )
                },
            },
            Phase::CopyingCode => match outcome {
                Err(e) => self.removal(Err(e)),
                Ok(_) => {
                    self.phase = Phase::CopyingInput;
                    RunAction::Docker(
                        copy_str_to_container(
                            self.container_id.as_str(),
                            self.config.input_filename.as_str(),
                            self.code.input.as_str(),
                        ),
                    )
                },
            },
            Phase::CopyingInput => match outcome {
                Err(e) => self.removal(Err(e)),
                Ok(_) => {
                    let script_name = self.script_name();
                    let path = concat(
                        self.config.dockerfile_dir.as_str(),
                        self.code.language_id.as_str(),
                    ).concat("/").concat(script_name.as_str());
                    self.phase = Phase::CopyingScript;
                    let command = copy_file_to_container(
                        self.container_id.as_str(),
                        script_name.as_str(),
                        path.as_str(),
                    );
                    assert(path@ =~= script_path(self.code, self.config));
                    RunAction::Docker(command)
                },
            },
            Phase::CopyingScript => match outcome {
                Err(e) => self.removal(Err(e)),
                Ok(_) => {
                    let script_name = self.script_name();
                    self.phase = Phase::MakingExecutable;
                    RunAction::Docker(
                        add_executable_for_file(self.container_id.as_str(), script_name.as_str()),
                    )
                },
            },
            Phase::MakingExecutable => match outcome {
                Err(e) => self.removal(Err(e)),
                Ok(_) => {
                    let script_name = self.script_name();
                    let line = concat("./", script_name.as_str()).concat(" ").concat(
                        decimal_text(self.code.time_limit).as_str(),
                    ).concat(" ").concat(decimal_text(self.code.memory_limit).as_str());
                    assert(line@ =~= script_line(self.code));
                    self.phase = Phase::RunningScript;
                    let l = line.as_str();
                    let mut one: Vec<&str> = Vec::new();
                    one.push(l);
                    let command = build_container_exec_command(self.container_id.as_str(), one);
                    assert(str_texts(seq![l]) =~= seq![script_line(self.code)]);
                    RunAction::Docker(command)
                },
            },
            Phase::RunningScript => match outcome {
                Err(e) => self.removal(Err(e)),
                Ok(output) => {
                    self.phase = Phase::ReadingResult(output);
                    RunAction::Docker(
                        read_container_file(
                            self.container_id.as_str(),
                            self.config.run_result_filename.as_str(),
                        ),
                    )
                },
            },
            Phase::ReadingResult(output) => match outcome {
                Err(e) => self.removal(Err(e)),
                Ok(content) => {
                    let result = run_script(output, content);
                    self.removal(result)
                },
            },
            Phase::Removing(result) => {
                self.phase = Phase::Finished;
                if self.standalone {
                    let _removed = crate::runner::kill_container(outcome);
                    RunAction::Finish(result)
                } else {
                    match outcome {
                        Err(e) => RunAction::Finish(Err(e)),
                        Ok(_) => RunAction::Finish(result),
                    }
                }
            },
            Phase::Finished => {
                self.phase = Phase::Finished;
                RunAction::Finish(Err(String::new()))
            },
        }
    }
}

} // verus!
