//! The tape that compiles and runs a Java submission.
use vstd::prelude::*;

use crate::common::docker_command::{build_container_exec_command, exec_in, CommandView, DockerCommand};
use crate::common::Code;
use crate::tape::{Record, Tape};
use crate::text::{concat, decimal, decimal_text, str_texts};

verus! {

/// Writing, compiling and running `Main.java`.
pub struct JavaTape {
    records: Vec<Record>,
}

impl JavaTape {
    /// The tape with its three steps: write the code, compile it, run it.
    pub fn new() -> (r: JavaTape)
        ensures
            r.recorded() == seq![Record::WriteCode, Record::CompileMain, Record::RunMain],
    {
        let mut records: Vec<Record> = Vec::new();
        records.push(Record::WriteCode);
        records.push(Record::CompileMain);
        records.push(Record::RunMain);
        assert(records@ =~= seq![Record::WriteCode, Record::CompileMain, Record::RunMain]);
        JavaTape { records }
    }
}

impl Tape for JavaTape {
    closed spec fn recorded(&self) -> Seq<Record> {
        self.records@
    }

    fn add(&mut self, record: Record) {
        self.records.push(record);
    }

    fn get_iter(&self) -> (r: &Vec<Record>) {
        &self.records
    }
}

/// How a step's command is run: once, twice (where the step runs it once
/// for nothing and once for its result), or under a time limit in ms.
pub enum RecordCommand {
    Once(DockerCommand),
    Twice(DockerCommand),
    Timed(DockerCommand, u64),
}

/// The content of a `RecordCommand`.
pub enum RecordCommandView {
    Once(CommandView),
    Twice(CommandView),
    Timed(CommandView, u64),
}

impl View for RecordCommand {
    type V = RecordCommandView;

    open spec fn view(&self) -> RecordCommandView {
        match self {
            RecordCommand::Once(c) => RecordCommandView::Once(c@),
            RecordCommand::Twice(c) => RecordCommandView::Twice(c@),
            RecordCommand::Timed(c, t) => RecordCommandView::Timed(c@, *t),
        }
    }
}

/// The command of a step, for the container and the submission of a play.
pub open spec fn record_command(record: Record, container_id: Seq<char>, code: Code) -> RecordCommandView {
    match record {
        Record::WriteCode => RecordCommandView::Twice(
            exec_in(container_id, seq!["echo '"@ + code.code_string@ + "' > Main.java"@]),
        ),
        Record::CompileMain => RecordCommandView::Once(
            exec_in(container_id, seq!["javac -encoding utf-8 Main.java"@]),
        ),
        Record::RunMain => RecordCommandView::Timed(
            exec_in(
                container_id,
                seq![
                    "echo '"@ + code.input@ + "' | java -Xmx"@ + decimal(code.memory_limit as nat)
                        + "m Main"@,
                ],
            ),
            code.time_limit,
        ),
    }
}

fn exec_line(container_id: &str, line: String) -> (r: DockerCommand)
    ensures
        r@ == exec_in(container_id@, seq![line@]),
{
    let l = line.as_str();
    let mut one: Vec<&str> = Vec::new();
    one.push(l);
    let r = build_container_exec_command(container_id, one);
    assert(str_texts(seq![l]) =~= seq![line@]);
    r
}

/// The command that writes the code to `Main.java`.
pub fn write_code(container_id: &str, code: &Code) -> (r: RecordCommand)
    ensures
        r@ == record_command(Record::WriteCode, container_id@, *code),
{
    let line = concat("echo '", code.code_string.as_str()).concat("' > Main.java");
    RecordCommand::Twice(exec_line(container_id, line))
}

/// The command that compiles `Main.java`.
pub fn compile_main(container_id: &str) -> (r: RecordCommand)
    ensures
        forall|code: Code| r@ == record_command(Record::CompileMain, container_id@, code),
{
    RecordCommand::Once(exec_line(container_id, "javac -encoding utf-8 Main.java".to_owned()))
}

/// The command that runs `Main` on the input, with the memory limit in MB
/// and the time limit in ms.
pub fn run_main(container_id: &str, code: &Code) -> (r: RecordCommand)
    ensures
        r@ == record_command(Record::RunMain, container_id@, *code),
{
    let line = concat("echo '", code.input.as_str()).concat("' | java -Xmx").concat(
        decimal_text(code.memory_limit).as_str(),
    ).concat("m Main");
    assert(line@ =~= "echo '"@ + code.input@ + "' | java -Xmx"@ + decimal(code.memory_limit as nat) + "m Main"@);
    RecordCommand::Timed(exec_line(container_id, line), code.time_limit)
}

/// The command of any step.
pub fn record_command_of(record: &Record, container_id: &str, code: &Code) -> (r: RecordCommand)
    ensures
        r@ == record_command(*record, container_id@, *code),
{
    match record {
        Record::WriteCode => write_code(container_id, code),
        Record::CompileMain => compile_main(container_id),
        Record::RunMain => run_main(container_id, code),
    }
}

/// Whether a step succeeded, from the outcome of its command: compiling
/// fails where `javac` printed anything, even when it exited successfully.
pub open spec fn record_verdict(record: Record, outcome: Result<Seq<char>, Seq<char>>) -> Result<
    (),
    Seq<char>,
> {
    match outcome {
        Err(e) => Err(e),
        Ok(out) => match record {
            Record::CompileMain => if out.len() > 0 {
                Err(out)
            } else {
                Ok(())
            },
            _ => Ok(()),
        },
    }
}

/// A step whose command failed fails with the command's error, whatever
/// the step; a step whose command succeeded succeeds, except compiling,
/// which fails with what the compiler printed where it printed anything.
pub proof fn law_failed_command_fails_step(record: Record, outcome: Result<Seq<char>, Seq<char>>)
    ensures
        outcome matches Err(e) ==> record_verdict(record, outcome) == Err::<(), Seq<char>>(e),
        outcome matches Ok(out) ==> (record_verdict(record, outcome) is Ok <==> !(record is CompileMain
            && out.len() > 0)),
        outcome matches Ok(out) ==> (record_verdict(record, outcome) is Err ==> record_verdict(
            record,
            outcome,
        ) == Err::<(), Seq<char>>(out)),
{
}

/// Whether a step succeeded.
pub fn record_verdict_of(record: &Record, outcome: Result<String, String>) -> (r: Result<(), String>)
    ensures
        match (r, record_verdict(
            *record,
            match outcome {
                Ok(s) => Ok(s@),
                Err(e) => Err(e@),
            },
        )) {
            (Ok(()), Ok(())) => true,
            (Err(a), Err(b)) => a@ == b,
            _ => false,
        },
{
    match outcome {
        Err(e) => Err(e),
        Ok(out) => match record {
            Record::CompileMain => if out.as_str().unicode_len() > 0 {
                Err(out)
            } else {
                Ok(())
            },
            _ => Ok(()),
        },
    }
}

} // verus!
