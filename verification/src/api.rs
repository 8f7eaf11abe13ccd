//! The answers of the web interface: every request is answered with a
//! message, an optional payload and a code, 0 for success and -1 for failure.
use vstd::prelude::*;

use crate::common::docker_command::{build_image, build_image_command, plain, CommandView, DockerCommand};
use crate::common::util::{fresh_uuid_text, is_uuid_v4_text};
use crate::common::RunResult;
use crate::path::{join_path, join_path_text};
use crate::service::image::{image_id_from_build_output, image_id_of};
use crate::text::{
    byte_len, can_slice, concat, is_boundary, split, split_by, texts, trim, trimmed, utf8_bytes,
};

verus! {

/// An answer: a message, a payload where there is one, and a code.
pub struct RestResponse<T> {
    msg: String,
    data: Option<T>,
    code: i32,
}

/// The content of an answer.
pub struct RestView<T> {
    pub msg: Seq<char>,
    pub data: Option<T>,
    pub code: int,
}

impl<T> View for RestResponse<T> {
    type V = RestView<T>;

    closed spec fn view(&self) -> RestView<T> {
        RestView { msg: self.msg@, data: self.data, code: self.code as int }
    }
}

impl<T> RestResponse<T> {
    /// Success with a payload, under the message `succeed`.
    pub fn ok(data: T) -> (r: Self)
        ensures
            r@ == (RestView { msg: "succeed"@, data: Some(data), code: 0 }),
    {
        RestResponse { msg: "succeed".to_owned(), data: Some(data), code: 0 }
    }

    /// Success with a message and no payload.
    pub fn ok_msg(msg: String) -> (r: Self)
        ensures
            r@ == (RestView::<T> { msg: msg@, data: None, code: 0 }),
    {
        RestResponse { msg, data: None, code: 0 }
    }

    /// Failure with a message and no payload.
    pub fn err(msg: String) -> (r: Self)
        ensures
            r@ == (RestView::<T> { msg: msg@, data: None, code: -1 }),
    {
        RestResponse { msg, data: None, code: -1 }
    }

    /// The message.
    pub fn msg(&self) -> (r: &String)
        ensures
            r@ == self@.msg,
    {
        &self.msg
    }

    /// The payload, where there is one.
    pub fn data(&self) -> (r: &Option<T>)
        ensures
            *r == self@.data,
    {
        &self.data
    }

    /// The code: 0 for success, -1 for failure.
    pub fn code(&self) -> (r: i32)
        ensures
            r == self@.code,
    {
        self.code
    }

    /// The message, the payload and the code, taken apart.
    pub fn into_parts(self) -> (r: (String, Option<T>, i32))
        ensures
            r.0@ == self@.msg,
            r.1 == self@.data,
            r.2 == self@.code,
    {
        (self.msg, self.data, self.code)
    }
}

/// The answer to a request that failed inside the server.
pub fn default() -> (r: RestResponse<()>)
    ensures
        r@ == (RestView::<()> { msg: "server error"@, data: None, code: -1 }),
{
    RestResponse::err("server error".to_owned())
}

/// `docker image ls --filter=reference=<repository> --format={{.Tag}}`.
pub open spec fn languages_command_view(repository_name: Seq<char>) -> CommandView {
    plain(
        seq!["image"@, "ls"@, "--filter=reference="@ + repository_name, "--format={{.Tag}}"@],
    )
}

/// The command that lists the tags, that is the languages, of a repository.
pub fn languages_command(repository_name: &str) -> (r: DockerCommand)
    ensures
        r@ == languages_command_view(repository_name@),
{
    let mut ws: Vec<String> = Vec::new();
    ws.push("image".to_owned());
    ws.push("ls".to_owned());
    ws.push(concat("--filter=reference=", repository_name));
    ws.push("--format={{.Tag}}".to_owned());
    let r = DockerCommand { current_dir: None, args: ws };
    assert(r@.args =~= languages_command_view(repository_name@).args);
    r
}

/// The lines that hold more than whitespace, as they are.
pub open spec fn nonblank_lines(lines: Seq<Seq<char>>) -> Seq<Seq<char>>
    decreases lines.len(),
{
    if lines.len() == 0 {
        Seq::empty()
    } else {
        let before = nonblank_lines(lines.drop_last());
        if trim(lines.last()).len() > 0 {
            before.push(lines.last())
        } else {
            before
        }
    }
}

/// The lines of a listing that hold more than whitespace.
pub open spec fn is_nonblank(line: Seq<char>) -> bool {
    trim(line).len() > 0
}

proof fn lemma_nonblank_is_filter(lines: Seq<Seq<char>>, pred: spec_fn(Seq<char>) -> bool)
    requires
        forall|l: Seq<char>| #[trigger] pred(l) == is_nonblank(l),
    ensures
        nonblank_lines(lines) == lines.filter(pred),
    decreases lines.len(),
{
    reveal(Seq::filter);
    if lines.len() > 0 {
        lemma_nonblank_is_filter(lines.drop_last(), pred);
        assert(pred(lines.last()) == is_nonblank(lines.last()));
    }
}

/// The languages of a listing are its lines that hold more than
/// whitespace: every such line is listed, each listed one is such a line
/// of the listing, and they come in the listing's order, as they are (the
/// listing filtered by that test).
pub proof fn law_languages_are_nonblank_lines(lines: Seq<Seq<char>>)
    ensures
        nonblank_lines(lines) == lines.filter(|l: Seq<char>| is_nonblank(l)),
        forall|i: int|
            0 <= i < lines.len() && is_nonblank(lines[i]) ==> #[trigger] nonblank_lines(
                lines,
            ).contains(lines[i]),
        forall|j: int|
            0 <= j < nonblank_lines(lines).len() ==> is_nonblank(#[trigger] nonblank_lines(lines)[j])
                && lines.contains(nonblank_lines(lines)[j]),
        nonblank_lines(lines).len() <= lines.len(),
    decreases lines.len(),
{
    let pred = |l: Seq<char>| is_nonblank(l);
    lemma_nonblank_is_filter(lines, pred);
    if lines.len() > 0 {
        let rest = lines.drop_last();
        law_languages_are_nonblank_lines(rest);
        let before = nonblank_lines(rest);
        let out = nonblank_lines(lines);
        assert forall|i: int|
            0 <= i < lines.len() && is_nonblank(lines[i]) implies #[trigger] out.contains(lines[i]) by {
            if i < lines.len() - 1 {
                assert(rest[i] == lines[i]);
                assert(before.contains(rest[i]));
                let k = choose|k: int| 0 <= k < before.len() && before[k] == rest[i];
                assert(out[k] == lines[i]);
            } else {
                assert(out[out.len() - 1] == lines[i]);
            }
        }
        assert forall|j: int| 0 <= j < out.len() implies is_nonblank(#[trigger] out[j])
            && lines.contains(out[j]) by {
            if j < before.len() {
                assert(out[j] == before[j]);
                assert(rest.contains(before[j]));
                let k = choose|k: int| 0 <= k < rest.len() && rest[k] == before[j];
                assert(lines[k] == out[j]);
            } else {
                assert(out[j] == lines.last());
                assert(lines[lines.len() - 1] == out[j]);
            }
        }
    }
}

/// A text without the separator splits into itself alone.
proof fn lemma_split_whole(s: Seq<char>, sep: char)
    requires
        !s.contains(sep),
    ensures
        split(s, sep) == seq![s],
    decreases s.len(),
{
    if s.len() == 0 {
        assert(s =~= Seq::<char>::empty());
        assert(split(s, sep) =~= seq![s]);
    } else {
        let t = s.drop_last();
        assert(!t.contains(sep)) by {
            if t.contains(sep) {
                let k = choose|k: int| 0 <= k < t.len() && t[k] == sep;
                assert(s[k] == sep);
            }
        }
        lemma_split_whole(t, sep);
        assert(s.last() != sep) by {
            assert(s[s.len() - 1] == s.last());
        }
        assert(t.push(s.last()) =~= s);
        let before = split(t, sep);
        assert(before.len() == 1 && before.last() == t);
        assert(before.update(0, t.push(s.last())) =~= seq![s]);
        assert(split(s, sep) == before.update(before.len() - 1, before.last().push(s.last())));
    }
}

/// A listing of one line that holds more than whitespace lists exactly
/// that line.
pub proof fn law_one_line_listing(output: Seq<char>)
    requires
        !output.contains('\n'),
        is_nonblank(output),
    ensures
        nonblank_lines(split(output, '\n')) == seq![output],
{
    lemma_split_whole(output, '\n');
    let lines = seq![output];
    assert(lines.drop_last() =~= Seq::<Seq<char>>::empty());
    assert(nonblank_lines(lines.drop_last()) == Seq::<Seq<char>>::empty());
    assert(lines.last() == output);
    assert(trim(output).len() > 0);
    assert(Seq::<Seq<char>>::empty().push(output) =~= seq![output]);
}

/// The answer that lists the languages that a tag listing names: its
/// lines that hold more than whitespace.
pub fn languages(output: &str) -> (r: RestResponse<Vec<String>>)
    ensures
        r@.code == 0,
        r@.msg == "succeed"@,
        r@.data is Some,
        texts(r@.data->Some_0@) == nonblank_lines(split(output@, '\n')),
{
    let lines = split_by(output, '\n');
    let mut res: Vec<String> = Vec::new();
    let mut i: usize = 0;
    assert(texts(res@) =~= nonblank_lines(texts(lines@).subrange(0, 0)));
    while i < lines.len()
        invariant
            i <= lines@.len(),
            texts(lines@) == split(output@, '\n'),
            texts(res@) == nonblank_lines(texts(lines@).subrange(0, i as int)),
        decreases lines@.len() - i,
    {
        let ghost seen = texts(lines@).subrange(0, i + 1);
        assert(seen.drop_last() =~= texts(lines@).subrange(0, i as int));
        assert(seen.last() == lines@[i as int]@);
        let t = trimmed(lines[i].as_str());
        if !t.as_str().is_empty() {
            let ghost prev = res@;
            res.push(lines[i].clone());
            assert(texts(res@) =~= texts(prev).push(lines@[i as int]@));
        }
        i = i + 1;
    }
    assert(texts(lines@).subrange(0, lines@.len() as int) =~= texts(lines@));
    RestResponse::ok(res)
}

/// The answer to removing a language, from the outcome of removing its image.
pub fn remove_language(outcome: Result<String, String>) -> (r: RestResponse<()>)
    ensures
        match outcome {
            Ok(_) => r@ == (RestView { msg: "succeed"@, data: Some(()), code: 0 }),
            Err(e) => r@ == (RestView::<()> { msg: e@, data: None, code: -1 }),
        },
{
    match outcome {
        Err(e) => RestResponse::err(e),
        Ok(_) => RestResponse::ok(()),
    }
}

/// The answer to running code, from the run's result.
pub fn run_code(result: Result<RunResult, String>) -> (r: RestResponse<RunResult>)
    ensures
        match result {
            Ok(v) => r@ == (RestView { msg: "succeed"@, data: Some(v), code: 0 }),
            Err(e) => r@ == (RestView::<RunResult> { msg: e@, data: None, code: -1 }),
        },
{
    match result {
        Err(e) => RestResponse::err(e),
        Ok(v) => RestResponse::ok(v),
    }
}

} // verus!

verus! {

/// The directory that uploads go to.
pub open spec fn upload_dir() -> Seq<char> {
    "/tmp/code_runner"@
}

/// Where adding a language stands.
pub enum UploadStage {
    Preparing,
    Saving,
    Extracting,
    Building,
    RemovingArchive(Seq<char>),
    RemovingDirectory(Seq<char>),
    Finished,
}

/// What adding a language asks for next.
pub enum UploadStep {
    CreateDir(Seq<char>),
    Save(Seq<char>),
    Extract(Seq<char>, Seq<char>),
    Docker(CommandView),
    RemoveFile(Seq<char>),
    RemoveDir(Seq<char>),
    Respond(RestView<()>),
}

/// Where adding a language stands, and the places it uses: the uploaded
/// archive and the directory that its Dockerfile is in.
pub struct UploadState {
    pub stage: UploadStage,
    pub archive: Seq<char>,
    pub pwd: Seq<char>,
}

/// The state and request that adding a language starts with, for an
/// upload saved under `name`.
pub open spec fn upload_start(language_id: Seq<char>, name: Seq<char>) -> (UploadState, UploadStep) {
    (
        UploadState {
            stage: UploadStage::Preparing,
            archive: join_path(upload_dir(), name),
            pwd: join_path(upload_dir(), language_id),
        },
        UploadStep::CreateDir(upload_dir()),
    )
}

/// An outcome can be read: the output of a successful build can be cut
/// after seven bytes.
pub open spec fn upload_outcome_ok(s: UploadState, outcome: Result<Seq<char>, Seq<char>>) -> bool {
    match (s.stage, outcome) {
        (UploadStage::Building, Ok(out)) => can_slice(out, 7, utf8_bytes(out).len() as int),
        _ => true,
    }
}

/// One step of adding a language: what comes next after each outcome.
pub open spec fn upload_step(
    language_id: Seq<char>,
    repository_name: Seq<char>,
    s: UploadState,
    outcome: Result<Seq<char>, Seq<char>>,
) -> (UploadState, UploadStep) {
    let moved = |stage: UploadStage| UploadState { stage, archive: s.archive, pwd: s.pwd };
    let respond = |r: RestView<()>| (moved(UploadStage::Finished), UploadStep::Respond(r));
    match s.stage {
        UploadStage::Preparing => (moved(UploadStage::Saving), UploadStep::Save(s.archive)),
        UploadStage::Saving => match outcome {
            Err(e) => respond(RestView { msg: "cannot save file "@ + e, data: None, code: -1 }),
            Ok(_) => (moved(UploadStage::Extracting), UploadStep::Extract(s.archive, upload_dir())),
        },
        UploadStage::Extracting => match outcome {
            Err(e) => respond(RestView { msg: "cannot extract "@ + e, data: None, code: -1 }),
            Ok(_) => (
                moved(UploadStage::Building),
                UploadStep::Docker(build_image_command(s.pwd, repository_name, language_id)),
            ),
        },
        UploadStage::Building => match outcome {
            Err(e) => respond(RestView { msg: e, data: None, code: -1 }),
            Ok(out) => (
                moved(UploadStage::RemovingArchive(trim(image_id_of(out)))),
                UploadStep::RemoveFile(s.archive),
            ),
        },
        UploadStage::RemovingArchive(id) => match outcome {
            Err(e) => respond(RestView { msg: e, data: None, code: 0 }),
            Ok(_) => (moved(UploadStage::RemovingDirectory(id)), UploadStep::RemoveDir(s.pwd)),
        },
        UploadStage::RemovingDirectory(id) => match outcome {
            Err(e) => respond(RestView { msg: e, data: None, code: 0 }),
            Ok(_) => respond(RestView { msg: id, data: None, code: 0 }),
        },
        UploadStage::Finished => (s, UploadStep::Respond(RestView { msg: Seq::empty(), data: None, code: -1 })),
    }
}

/// What adding a language asks for next.
pub enum UploadAction {
    CreateDir(String),
    Save(String),
    Extract(String, String),
    Docker(DockerCommand),
    RemoveFile(String),
    RemoveDir(String),
    Respond(RestResponse<()>),
}

impl View for UploadAction {
    type V = UploadStep;

    open spec fn view(&self) -> UploadStep {
        match self {
            UploadAction::CreateDir(d) => UploadStep::CreateDir(d@),
            UploadAction::Save(p) => UploadStep::Save(p@),
            UploadAction::Extract(a, d) => UploadStep::Extract(a@, d@),
            UploadAction::Docker(c) => UploadStep::Docker(c@),
            UploadAction::RemoveFile(p) => UploadStep::RemoveFile(p@),
            UploadAction::RemoveDir(p) => UploadStep::RemoveDir(p@),
            UploadAction::Respond(r) => UploadStep::Respond(r@),
        }
    }
}

enum UploadPhase {
    Preparing,
    Saving,
    Extracting,
    Building,
    RemovingArchive(String),
    RemovingDirectory(String),
    Finished,
}

/// Adding the language of an uploaded archive: save it, unpack it, build
/// the image from its directory, clean up, answer.
pub struct NewLanguage {
    language_id: String,
    repository_name: String,
    archive: String,
    pwd: String,
    phase: UploadPhase,
}

impl View for NewLanguage {
    type V = UploadState;

    closed spec fn view(&self) -> UploadState {
        UploadState {
            stage: match self.phase {
                UploadPhase::Preparing => UploadStage::Preparing,
                UploadPhase::Saving => UploadStage::Saving,
                UploadPhase::Extracting => UploadStage::Extracting,
                UploadPhase::Building => UploadStage::Building,
                UploadPhase::RemovingArchive(id) => UploadStage::RemovingArchive(id@),
                UploadPhase::RemovingDirectory(id) => UploadStage::RemovingDirectory(id@),
                UploadPhase::Finished => UploadStage::Finished,
            },
            archive: self.archive@,
            pwd: self.pwd@,
        }
    }
}

/// Starts adding the language `language_id` to the repository: the upload
/// is saved under a fresh random UUID in the upload directory.
pub fn new_language(language_id: String, repository_name: String) -> (r: (NewLanguage, UploadAction))
    ensures
        exists|name: Seq<char>|
            is_uuid_v4_text(name) && (r.0@, r.1@) == upload_start(language_id@, name),
        r.0.language() == language_id@,
        r.0.repository() == repository_name@,
{
    let dir = "/tmp/code_runner";
    let name = fresh_uuid_text();
    let archive = join_path_text(dir, name.as_str());
    let pwd = join_path_text(dir, language_id.as_str());
    let r = (
        NewLanguage { language_id, repository_name, archive, pwd, phase: UploadPhase::Preparing },
        UploadAction::CreateDir(dir.to_owned()),
    );
    assert((r.0@, r.1@) == upload_start(r.0.language_id@, name@));
    r
}

impl NewLanguage {
    /// The language being added.
    pub closed spec fn language(&self) -> Seq<char> {
        self.language_id@
    }

    /// The repository its image goes to.
    pub closed spec fn repository(&self) -> Seq<char> {
        self.repository_name@
    }

    /// Whether an outcome can be read in the current stage.
    pub fn accepts(&self, outcome: &Result<String, String>) -> (r: bool)
        ensures
            r == upload_outcome_ok(
                self@,
                match outcome {
                    Ok(s) => Ok(s@),
                    Err(e) => Err(e@),
                },
            ),
    {
        match (&self.phase, outcome) {
            (UploadPhase::Building, Ok(out)) => {
                let o = out.as_str();
                let n = byte_len(o);
                n >= 7 && is_boundary(o, 7) && is_boundary(o, n)
            },
            _ => true,
        }
    }

    fn respond(&mut self, r: RestResponse<()>) -> (a: UploadAction)
        ensures
            final(self)@ == (UploadState {
                stage: UploadStage::Finished,
                archive: old(self)@.archive,
                pwd: old(self)@.pwd,
            }),
            a@ == UploadStep::Respond(r@),
            final(self).language() == old(self).language(),
            final(self).repository() == old(self).repository(),
    {
        self.phase = UploadPhase::Finished;
        UploadAction::Respond(r)
    }

    /// Takes the outcome of what was asked for, and gives what comes next.
    pub fn next(&mut self, outcome: Result<String, String>) -> (r: UploadAction)
        requires
            !(old(self)@.stage is Finished),
            upload_outcome_ok(
                old(self)@,
                match outcome {
                    Ok(s) => Ok(s@),
                    Err(e) => Err(e@),
                },
            ),
        ensures
            (final(self)@, r@) == upload_step(
                old(self).language(),
                old(self).repository(),
                old(self)@,
                match outcome {
                    Ok(s) => Ok(s@),
                    Err(e) => Err(e@),
                },
            ),
            final(self).language() == old(self).language(),
            final(self).repository() == old(self).repository(),
    {
        let mut phase = UploadPhase::Finished;
        std::mem::swap(&mut phase, &mut self.phase);
        match phase {
            UploadPhase::Preparing => {
                self.phase = UploadPhase::Saving;
                UploadAction::Save(self.archive.clone())
            },
            UploadPhase::Saving => match outcome {
                Err(e) => self.respond(RestResponse::err(concat("cannot save file ", e.as_str()))),
                Ok(_) => {
                    self.phase = UploadPhase::Extracting;
                    UploadAction::Extract(self.archive.clone(), "/tmp/code_runner".to_owned())
                },
            },
            UploadPhase::Extracting => match outcome {
                Err(e) => self.respond(RestResponse::err(concat("cannot extract ", e.as_str()))),
                Ok(_) => {
                    self.phase = UploadPhase::Building;
                    UploadAction::Docker(
                        build_image(
                            self.pwd.as_str(),
                            self.repository_name.as_str(),
                            self.language_id.as_str(),
                        ),
                    )
                },
            },
            UploadPhase::Building => match outcome {
                Err(e) => self.respond(RestResponse::err(e)),
                Ok(out) => {
                    let id = image_id_from_build_output(out.as_str());
                    self.phase = UploadPhase::RemovingArchive(id);
                    UploadAction::RemoveFile(self.archive.clone())
                },
            },
            UploadPhase::RemovingArchive(id) => match outcome {
                Err(e) => self.respond(RestResponse::ok_msg(e)),
                Ok(_) => {
                    self.phase = UploadPhase::RemovingDirectory(id);
                    UploadAction::RemoveDir(self.pwd.clone())
                },
            },
            UploadPhase::RemovingDirectory(id) => match outcome {
                Err(e) => self.respond(RestResponse::ok_msg(e)),
                Ok(_) => self.respond(RestResponse::ok_msg(id)),
            },
            UploadPhase::Finished => self.respond(RestResponse::err(String::new())),
        }
    }
}

/// How far adding a language has come.
pub open spec fn upload_rank(stage: UploadStage) -> nat {
    match stage {
        UploadStage::Preparing => 0,
        UploadStage::Saving => 1,
        UploadStage::Extracting => 2,
        UploadStage::Building => 3,
        UploadStage::RemovingArchive(_) => 4,
        UploadStage::RemovingDirectory(_) => 5,
        UploadStage::Finished => 6,
    }
}

/// Adding a language always moves on and ends with an answer after at most
/// six outcomes; it answers exactly when it finishes.
pub proof fn law_upload_progresses(
    language_id: Seq<char>,
    repository_name: Seq<char>,
    s: UploadState,
    outcome: Result<Seq<char>, Seq<char>>,
)
    requires
        !(s.stage is Finished),
    ensures
        upload_rank(upload_step(language_id, repository_name, s, outcome).0.stage) > upload_rank(
            s.stage,
        ),
        upload_step(language_id, repository_name, s, outcome).0.stage is Finished
            <==> upload_step(language_id, repository_name, s, outcome).1 is Respond,
{
}

/// The answer to adding a language reports success exactly when its image
/// was built: a failure to save, unpack or build is answered with -1, and
/// once the image is built, failing to clean up still reports success, with
/// the cleanup's message in place of the image id.
pub proof fn law_upload_success_iff_built(
    language_id: Seq<char>,
    repository_name: Seq<char>,
    s: UploadState,
    outcome: Result<Seq<char>, Seq<char>>,
    answer: RestView<()>,
)
    requires
        !(s.stage is Finished),
        upload_step(language_id, repository_name, s, outcome).1 == UploadStep::Respond(answer),
    ensures
        answer.code == 0 <==> (s.stage is RemovingArchive || s.stage is RemovingDirectory),
        answer.code == -1 <==> (s.stage is Saving || s.stage is Extracting || s.stage is Building),
        answer.data is None,
        (s.stage is RemovingDirectory && outcome is Ok) ==> answer.msg == s.stage->RemovingDirectory_0,
{
}

/// The image is built from the directory named by the language inside the
/// upload directory, after the archive was saved and unpacked there.
pub proof fn law_upload_builds_in_language_dir(
    language_id: Seq<char>,
    repository_name: Seq<char>,
    name: Seq<char>,
    s: UploadState,
    o: Seq<char>,
)
    requires
        s.stage is Extracting,
        s.pwd == upload_start(language_id, name).0.pwd,
    ensures
        upload_step(language_id, repository_name, s, Ok(o)).1 == UploadStep::Docker(
            build_image_command(join_path(upload_dir(), language_id), repository_name, language_id),
        ),
{
}

} // verus!
