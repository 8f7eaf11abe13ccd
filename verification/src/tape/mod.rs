//! Tapes: recorded steps that run one after another against a shared
//! context, inside a container that a player starts before and removes after.
use vstd::prelude::*;

pub mod common_record;
pub mod java_tape;

use crate::common::docker_command::{plain, run_container_command, CommandView, DockerCommand};
use crate::common::util::is_uuid_v4_text;
use crate::common::Code;
use crate::service::runner::outcome_view;
use crate::string_map::StringMap;
use crate::tape::common_record::{start_record, CommonRecord};
use crate::tape::java_tape::{
    record_command, record_command_of, record_verdict, record_verdict_of, RecordCommand,
    RecordCommandView,
};

verus! {

/// A value kept in a context: a text, such as a container id, or a
/// submission.
pub enum ContextValue {
    Text(String),
    Submission(Code),
}

/// The content of a context value.
pub enum ContextEntry {
    Text(Seq<char>),
    Submission(Code),
}

impl View for ContextValue {
    type V = ContextEntry;

    open spec fn view(&self) -> ContextEntry {
        match self {
            ContextValue::Text(t) => ContextEntry::Text(t@),
            ContextValue::Submission(c) => ContextEntry::Submission(*c),
        }
    }
}

impl ContextValue {
    /// The text, where the value is one.
    pub fn as_text(&self) -> (r: Option<&String>)
        ensures
            match self {
                ContextValue::Text(t) => r == Some(t),
                _ => r is None,
            },
    {
        match self {
            ContextValue::Text(t) => Some(t),
            _ => None,
        }
    }

    /// The submission, where the value is one.
    pub fn as_code(&self) -> (r: Option<&Code>)
        ensures
            match self {
                ContextValue::Submission(c) => r == Some(c),
                _ => r is None,
            },
    {
        match self {
            ContextValue::Submission(c) => Some(c),
            _ => None,
        }
    }
}

/// Named values that the steps of a tape share.
pub struct ContextMap {
    context: StringMap<ContextValue>,
}

impl View for ContextMap {
    type V = Map<Seq<char>, ContextEntry>;

    closed spec fn view(&self) -> Map<Seq<char>, ContextEntry> {
        self.context@.map_values(|v: ContextValue| v@)
    }
}

impl ContextMap {
    /// Sets `key` to `val`, in place of any value it had.
    pub fn set_val(&mut self, key: &str, val: ContextValue)
        ensures
            final(self)@ == old(self)@.insert(key@, val@),
    {
        let ghost before = self.context@;
        self.context.insert(key.to_owned(), val);
        assert(self@ =~= before.map_values(|v: ContextValue| v@).insert(key@, val@));
    }

    /// The value of `key`, which must be set.
    pub fn get_val(&self, key: &str) -> (r: &ContextValue)
        requires
            self@.contains_key(key@),
        ensures
            r@ == self@[key@],
    {
        self.context.get(key).unwrap()
    }

    /// Whether `key` is set.
    pub fn contains(&self, key: &str) -> (r: bool)
        ensures
            r == self@.contains_key(key@),
    {
        self.context.contains_key(key)
    }

    /// Drops `key` and its value.
    pub fn remove(&mut self, key: &str)
        ensures
            final(self)@ == old(self)@.remove(key@),
    {
        let ghost before = self.context@;
        self.context.remove(key);
        assert(self@ =~= before.map_values(|v: ContextValue| v@).remove(key@));
    }

    /// An empty context.
    pub fn new() -> (r: ContextMap)
        ensures
            r@ == Map::<Seq<char>, ContextEntry>::empty(),
    {
        let r = ContextMap { context: StringMap::new() };
        assert(r@ =~= Map::<Seq<char>, ContextEntry>::empty());
        r
    }
}

/// A context gives back what was last set under a key, keeps the other keys
/// as they were, and forgets a removed key.
pub proof fn law_context_read_after_write(
    m: Map<Seq<char>, ContextEntry>,
    k: Seq<char>,
    v: ContextEntry,
    other: Seq<char>,
)
    requires
        other != k,
    ensures
        m.insert(k, v).contains_key(k),
        m.insert(k, v)[k] == v,
        m.insert(k, v).contains_key(other) == m.contains_key(other),
        m.contains_key(other) ==> m.insert(k, v)[other] == m[other],
        !m.remove(k).contains_key(k),
        m.remove(k).contains_key(other) == m.contains_key(other),
{
}

/// A step that a tape records.
pub enum Record {
    WriteCode,
    CompileMain,
    RunMain,
}

/// Recorded steps, in the order they are played.
pub trait Tape {
    /// The steps, in order.
    spec fn recorded(&self) -> Seq<Record>;

    /// Records one more step at the end.
    fn add(&mut self, record: Record)
        ensures
            final(self).recorded() == old(self).recorded().push(record),
    ;

    /// The steps, in order.
    fn get_iter(&self) -> (r: &Vec<Record>)
        ensures
            r@ == self.recorded(),
    ;
}

/// Where a play stands.
pub enum PlayStage {
    Idle,
    Initializing,
    Playing(int),
    Killing,
    Finished,
}

/// A play's stage and its context.
pub struct PlayState {
    pub stage: PlayStage,
    pub context: Map<Seq<char>, ContextEntry>,
}

/// What a play asks for next: to start the container, to run a step's
/// command, to remove the container (reporting the failure that stopped the
/// tape, where one did), or nothing more.
pub enum PlayStep {
    Start(CommandView),
    Run(RecordCommandView),
    Kill(CommandView, Option<Seq<char>>),
    Done,
}

/// The container id that a context holds.
pub open spec fn container_of(ctx: Map<Seq<char>, ContextEntry>) -> Seq<char> {
    match ctx["container_id"@] {
        ContextEntry::Text(t) => t,
        _ => Seq::empty(),
    }
}

/// The submission that a context holds.
pub open spec fn code_of(ctx: Map<Seq<char>, ContextEntry>) -> Code {
    ctx["code"@]->Submission_0
}

/// A context holds a container id and a submission.
pub open spec fn context_ready(ctx: Map<Seq<char>, ContextEntry>) -> bool {
    &&& ctx.contains_key("container_id"@)
    &&& ctx["container_id"@] is Text
    &&& ctx.contains_key("code"@)
    &&& ctx["code"@] is Submission
}

/// The next step of the tape after step `i`, or removal after the last.
pub open spec fn after_step(records: Seq<Record>, ctx: Map<Seq<char>, ContextEntry>, i: int) -> (
    PlayState,
    PlayStep,
) {
    if i + 1 < records.len() {
        (
            PlayState { stage: PlayStage::Playing(i + 1), context: ctx },
            PlayStep::Run(record_command(records[i + 1], container_of(ctx), code_of(ctx))),
        )
    } else {
        (
            PlayState { stage: PlayStage::Killing, context: ctx },
            PlayStep::Kill(plain(seq!["rm"@, "-f"@, container_of(ctx)]), None),
        )
    }
}

/// One step of a play: starting the container records its id and goes to
/// the first step; each step that succeeds goes to the next, the first that
/// fails stops the tape; the container is removed at the end either way.
pub open spec fn play_step(records: Seq<Record>, s: PlayState, outcome: Result<Seq<char>, Seq<char>>) -> (
    PlayState,
    PlayStep,
) {
    match s.stage {
        PlayStage::Initializing => after_step(records, start_record(s.context, outcome).0, -1),
        PlayStage::Playing(i) => match record_verdict(records[i], outcome) {
            Err(e) => (
                PlayState { stage: PlayStage::Killing, context: s.context },
                PlayStep::Kill(plain(seq!["rm"@, "-f"@, container_of(s.context)]), Some(e)),
            ),
            Ok(()) => after_step(records, s.context, i),
        },
        PlayStage::Killing => (PlayState { stage: PlayStage::Finished, context: s.context }, PlayStep::Done),
        _ => (s, PlayStep::Done),
    }
}

/// An outcome the play can take: starting and removing the container must
/// succeed, as a player stops with a panic where the starting or removing
/// step fails (`start_record` and `kill_record` give the steps' results).
pub open spec fn play_outcome_ok(s: PlayState, outcome: Result<Seq<char>, Seq<char>>) -> bool {
    match s.stage {
        PlayStage::Initializing => outcome is Ok,
        PlayStage::Killing => outcome is Ok,
        PlayStage::Playing(_) => true,
        _ => false,
    }
}

/// What a play asks for next.
pub enum PlayAction {
    Start(DockerCommand),
    Run(RecordCommand),
    Kill(DockerCommand, Option<String>),
    Done,
}

impl View for PlayAction {
    type V = PlayStep;

    open spec fn view(&self) -> PlayStep {
        match self {
            PlayAction::Start(c) => PlayStep::Start(c@),
            PlayAction::Run(c) => PlayStep::Run(c@),
            PlayAction::Kill(c, f) => PlayStep::Kill(
                c@,
                match f {
                    Some(e) => Some(e@),
                    None => None,
                },
            ),
            PlayAction::Done => PlayStep::Done,
        }
    }
}

enum PlayPhase {
    Idle,
    Initializing,
    Playing(usize),
    Killing,
    Finished,
}

/// Plays the steps of a tape for a submission, in a container of its own.
pub struct TapePlayer<T: Tape> {
    tape: T,
    context_map: ContextMap,
    phase: PlayPhase,
}

impl<T: Tape> View for TapePlayer<T> {
    type V = PlayState;

    closed spec fn view(&self) -> PlayState {
        PlayState {
            stage: match self.phase {
                PlayPhase::Idle => PlayStage::Idle,
                PlayPhase::Initializing => PlayStage::Initializing,
                PlayPhase::Playing(i) => PlayStage::Playing(i as int),
                PlayPhase::Killing => PlayStage::Killing,
                PlayPhase::Finished => PlayStage::Finished,
            },
            context: self.context_map@,
        }
    }
}

impl<T: Tape> TapePlayer<T> {
    /// A player of `tape` with an empty context.
    pub fn new(tape: T) -> (r: TapePlayer<T>)
        ensures
            r@ == (PlayState { stage: PlayStage::Idle, context: Map::empty() }),
            r.records() == tape.recorded(),
            r.well_formed(),
    {
        TapePlayer { tape, context_map: ContextMap::new(), phase: PlayPhase::Idle }
    }

    /// The steps the player plays.
    pub closed spec fn records(&self) -> Seq<Record> {
        self.tape.recorded()
    }

    /// The stage agrees with the context and the tape.
    pub closed spec fn well_formed(&self) -> bool {
        &&& self.context_map@.contains_key("code"@) || self.phase is Idle
        &&& self.context_map@.contains_key("code"@) ==> self.context_map@["code"@] is Submission
        &&& match self.phase {
            PlayPhase::Playing(i) => i < self.tape.recorded().len() && context_ready(self.context_map@),
            PlayPhase::Killing => context_ready(self.context_map@),
            _ => true,
        }
    }

    /// Starts playing the tape for `code` in a container of `image_id`: the
    /// submission is put into the context and the container is started.
    pub fn play(&mut self, code: Code, image_id: &str) -> (r: PlayAction)
        requires
            old(self).well_formed(),
            old(self)@.stage is Idle || old(self)@.stage is Finished,
        ensures
            final(self)@ == (PlayState {
                stage: PlayStage::Initializing,
                context: old(self)@.context.insert("code"@, ContextEntry::Submission(code)),
            }),
            exists|id: Seq<char>|
                is_uuid_v4_text(id) && r@ == PlayStep::Start(
                    run_container_command(image_id@, "code_runner_"@ + id),
                ),
            final(self).records() == old(self).records(),
            final(self).well_formed(),
    {
        self.context_map.set_val("code", ContextValue::Submission(code));
        self.phase = PlayPhase::Initializing;
        PlayAction::Start(CommonRecord::init(image_id))
    }

    /// Whether an outcome can be taken in the current stage.
    pub fn accepts(&self, outcome: &Result<String, String>) -> (r: bool)
        ensures
            r == play_outcome_ok(
                self@,
                outcome_view(*outcome),
            ),
    {
        match self.phase {
            PlayPhase::Initializing => outcome.is_ok(),
            PlayPhase::Killing => outcome.is_ok(),
            PlayPhase::Playing(_) => true,
            _ => false,
        }
    }

    fn container_id(&self) -> (r: String)
        requires
            context_ready(self.context_map@),
        ensures
            r@ == container_of(self.context_map@),
    {
        match self.context_map.get_val("container_id") {
            ContextValue::Text(t) => t.clone(),
            _ => String::new(),
        }
    }

    fn go_on(&mut self, done: Option<usize>) -> (r: PlayAction)
        requires
            context_ready(old(self).context_map@),
            done matches Some(i) ==> i < old(self).tape.recorded().len(),
            old(self).well_formed() || old(self).phase is Initializing,
        ensures
            (final(self)@, r@) == after_step(
                old(self).tape.recorded(),
                old(self).context_map@,
                match done {
                    Some(i) => i as int,
                    None => -1,
                },
            ),
            final(self).tape == old(self).tape,
            final(self).well_formed(),
    {
        let records = self.tape.get_iter();
        let n = records.len();
        let next: usize = match done {
            Some(i) => i + 1,
            None => 0,
        };
        let id = self.container_id();
        if next < n {
            let command = match self.context_map.get_val("code") {
                ContextValue::Submission(code) => record_command_of(&records[next], id.as_str(), code),
                _ => {
                    assert(false);
                    RecordCommand::Once(CommonRecord::kill(id.as_str()))
                },
            };
            self.phase = PlayPhase::Playing(next);
            PlayAction::Run(command)
        } else {
            self.phase = PlayPhase::Killing;
            PlayAction::Kill(CommonRecord::kill(id.as_str()), None)
        }
    }

    /// Takes the outcome of what the play asked for, and gives what it asks
    /// for next.
    pub fn next(&mut self, outcome: Result<String, String>) -> (r: PlayAction)
        requires
            old(self).well_formed(),
            play_outcome_ok(
                old(self)@,
                outcome_view(outcome),
            ),
        ensures
            (final(self)@, r@) == play_step(
                old(self).records(),
                old(self)@,
                outcome_view(outcome),
            ),
            final(self).records() == old(self).records(),
            final(self).well_formed(),
    {
        match self.phase {
            PlayPhase::Initializing => {
                proof {
                    reveal_strlit("code");
                    reveal_strlit("container_id");
                    assert("code"@.len() != "container_id"@.len());
                }
                let started = CommonRecord::started(&mut self.context_map, outcome);
                assert(started is Ok);
                self.go_on(None)
            },
            PlayPhase::Playing(i) => {
                let verdict = record_verdict_of(&self.tape.get_iter()[i], outcome);
                match verdict {
                    Err(e) => {
                        let id = self.container_id();
                        self.phase = PlayPhase::Killing;
                        PlayAction::Kill(CommonRecord::kill(id.as_str()), Some(e))
                    },
                    Ok(()) => self.go_on(Some(i)),
                }
            },
            PlayPhase::Killing => {
                let killed = CommonRecord::killed(outcome);
                assert(killed is Ok);
                self.phase = PlayPhase::Finished;
                PlayAction::Done
            },
            _ => PlayAction::Done,
        }
    }
}

/// A play runs the steps of the tape in their order: after step `i`
/// succeeds comes step `i + 1`, or, after the last, the removal of the
/// container.
pub proof fn law_play_in_order(records: Seq<Record>, s: PlayState, outcome: Result<Seq<char>, Seq<char>>, i: int)
    requires
        s.stage == PlayStage::Playing(i),
        0 <= i < records.len(),
        record_verdict(records[i], outcome) is Ok,
    ensures
        i + 1 < records.len() ==> play_step(records, s, outcome) == (
            PlayState { stage: PlayStage::Playing(i + 1), context: s.context },
            PlayStep::Run(record_command(records[i + 1], container_of(s.context), code_of(s.context))),
        ),
        i + 1 == records.len() ==> play_step(records, s, outcome).1 == PlayStep::Kill(
            plain(seq!["rm"@, "-f"@, container_of(s.context)]),
            None,
        ),
{
}

/// The first step that fails stops the tape: no later step runs, the
/// container is removed next and the failure is reported with it.
pub proof fn law_play_stops_at_failure(records: Seq<Record>, s: PlayState, outcome: Result<Seq<char>, Seq<char>>, i: int, e: Seq<char>)
    requires
        s.stage == PlayStage::Playing(i),
        0 <= i < records.len(),
        record_verdict(records[i], outcome) == Err::<(), Seq<char>>(e),
    ensures
        play_step(records, s, outcome) == (
            PlayState { stage: PlayStage::Killing, context: s.context },
            PlayStep::Kill(plain(seq!["rm"@, "-f"@, container_of(s.context)]), Some(e)),
        ),
{
}

/// A play is done only right after its container was removed.
pub proof fn law_play_done_after_removal(records: Seq<Record>, s: PlayState, outcome: Result<Seq<char>, Seq<char>>)
    requires
        s.stage is Initializing || s.stage is Playing || s.stage is Killing,
        play_step(records, s, outcome).1 is Done,
    ensures
        s.stage is Killing,
{
}

/// What playing a submission gave.
pub struct PlayResult {
    code: Code,
    status: String,
    output: String,
}

} // verus!
