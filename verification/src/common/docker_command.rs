//! The docker command lines that the service runs, as data: the program is
//! always `docker`, with these arguments, in this working directory.
use vstd::prelude::*;

use crate::common::util::{fresh_uuid_text, is_uuid_v4_text};
use crate::text::{concat, str_texts, texts};

verus! {

/// A `docker` invocation: its arguments and, where it is set, the directory
/// it runs in.
pub struct DockerCommand {
    pub current_dir: Option<String>,
    pub args: Vec<String>,
}

/// The mathematical content of a `DockerCommand`.
pub struct CommandView {
    pub current_dir: Option<Seq<char>>,
    pub args: Seq<Seq<char>>,
}

impl View for DockerCommand {
    type V = CommandView;

    open spec fn view(&self) -> CommandView {
        CommandView {
            current_dir: match self.current_dir {
                Some(d) => Some(d@),
                None => None,
            },
            args: texts(self.args@),
        }
    }
}

impl DockerCommand {
    /// The program that the command runs.
    pub fn get_program(&self) -> (r: &'static str)
        ensures
            r@ == "docker"@,
    {
        "docker"
    }
}

/// A command line without a working directory.
pub open spec fn plain(args: Seq<Seq<char>>) -> CommandView {
    CommandView { current_dir: None, args }
}

/// `docker container exec <container> sh -c <args..>`.
pub open spec fn exec_in(container_id: Seq<char>, args: Seq<Seq<char>>) -> CommandView {
    plain(seq!["container"@, "exec"@, container_id, "sh"@, "-c"@] + args)
}

/// `<repository>:<tag>`, the name of an image.
pub open spec fn image_ref(repository_name: Seq<char>, tag: Seq<char>) -> Seq<char> {
    repository_name + ":"@ + tag
}

fn text_vec(args: &Vec<&str>) -> (r: Vec<String>)
    ensures
        texts(r@) == str_texts(args@),
{
    let mut out: Vec<String> = Vec::new();
    let mut i: usize = 0;
    while i < args.len()
        invariant
            i <= args@.len(),
            texts(out@) =~= str_texts(args@.subrange(0, i as int)),
        decreases args@.len() - i,
    {
        let ghost prev = out@;
        out.push(args[i].to_owned());
        assert(texts(out@) =~= texts(prev).push(args@[i as int]@));
        assert(args@.subrange(0, i + 1) =~= args@.subrange(0, i as int).push(args@[i as int]));
        i = i + 1;
    }
    assert(args@.subrange(0, args@.len() as int) =~= args@);
    out
}

/// A command line of literal and given words.
fn words(ws: Vec<String>) -> (r: DockerCommand)
    ensures
        r@ == plain(texts(ws@)),
{
    DockerCommand { current_dir: None, args: ws }
}

/// The command that runs `sh -c` with `args` inside a running container.
pub fn build_container_exec_command(container_id: &str, args: Vec<&str>) -> (r: DockerCommand)
    ensures
        r@ == exec_in(container_id@, str_texts(args@)),
{
    let mut ws: Vec<String> = Vec::new();
    ws.push("container".to_owned());
    ws.push("exec".to_owned());
    ws.push(container_id.to_owned());
    ws.push("sh".to_owned());
    ws.push("-c".to_owned());
    let mut rest = text_vec(&args);
    ws.append(&mut rest);
    let r = words(ws);
    assert(r@.args =~= exec_in(container_id@, str_texts(args@)).args);
    r
}

/// The command that prints a file of a container.
pub fn read_container_file(container_id: &str, filename: &str) -> (r: DockerCommand)
    ensures
        r@ == exec_in(container_id@, seq!["cat "@ + filename@]),
{
    let line = concat("cat ", filename);
    let l = line.as_str();
    let mut one: Vec<&str> = Vec::new();
    one.push(l);
    let r = build_container_exec_command(container_id, one);
    assert(str_texts(seq![l]) =~= seq!["cat "@ + filename@]);
    r
}

/// The command that removes a container, stopping it first.
pub fn kill_container(container_id: &str) -> (r: DockerCommand)
    ensures
        r@ == plain(seq!["rm"@, "-f"@, container_id@]),
{
    let mut ws: Vec<String> = Vec::new();
    ws.push("rm".to_owned());
    ws.push("-f".to_owned());
    ws.push(container_id.to_owned());
    let r = words(ws);
    assert(r@.args =~= seq!["rm"@, "-f"@, container_id@]);
    r
}

/// The command that makes a file of a container executable.
pub fn add_executable_for_file(container_id: &str, script_name: &str) -> (r: DockerCommand)
    ensures
        r@ == exec_in(container_id@, seq!["chmod +x "@ + script_name@]),
{
    let line = concat("chmod +x ", script_name);
    let l = line.as_str();
    let mut one: Vec<&str> = Vec::new();
    one.push(l);
    let r = build_container_exec_command(container_id, one);
    assert(str_texts(seq![l]) =~= seq!["chmod +x "@ + script_name@]);
    r
}

/// `docker container run --rm --detach --interactive --name=<name> <image>`.
pub open spec fn run_container_command(image_id: Seq<char>, container_name: Seq<char>) -> CommandView {
    plain(
        seq![
            "container"@,
            "run"@,
            "--rm"@,
            "--detach"@,
            "--interactive"@,
            "--name="@ + container_name,
            image_id,
        ],
    )
}

/// The command that starts a detached container of `image_id`, named by
/// `code_prefix` followed by a fresh random UUID.
pub fn run_container(image_id: &str, code_prefix: &str) -> (r: DockerCommand)
    ensures
        exists|id: Seq<char>|
            is_uuid_v4_text(id) && r@ == run_container_command(image_id@, code_prefix@ + id),
{
    let id = fresh_uuid_text();
    let name = concat(code_prefix, id.as_str());
    let mut ws: Vec<String> = Vec::new();
    ws.push("container".to_owned());
    ws.push("run".to_owned());
    ws.push("--rm".to_owned());
    ws.push("--detach".to_owned());
    ws.push("--interactive".to_owned());
    ws.push(concat("--name=", name.as_str()));
    ws.push(image_id.to_owned());
    let r = words(ws);
    assert(r@ == run_container_command(image_id@, code_prefix@ + id@)) by {
        assert(r@.args =~= run_container_command(image_id@, code_prefix@ + id@).args);
    }
    r
}

/// The shell line that writes `content` to a file: `echo '<content>' > <file>`.
pub open spec fn echo_line(content: Seq<char>, filename: Seq<char>) -> Seq<char> {
    "echo '"@ + content + "' > "@ + filename
}

/// The command that writes a text to a file of a container.
pub fn copy_str_to_container(container_id: &str, filename: &str, content: &str) -> (r:
    DockerCommand)
    ensures
        r@ == exec_in(container_id@, seq![echo_line(content@, filename@)]),
{
    let line = concat("echo '", content).concat("' > ").concat(filename);
    let l = line.as_str();
    let mut one: Vec<&str> = Vec::new();
    one.push(l);
    let r = build_container_exec_command(container_id, one);
    assert(str_texts(seq![l]) =~= seq![echo_line(content@, filename@)]);
    r
}

/// The command that copies a host file into a container.
pub fn copy_file_to_container(container_id: &str, filename: &str, file_path: &str) -> (r:
    DockerCommand)
    ensures
        r@ == plain(seq!["cp"@, file_path@, container_id@ + ":"@ + filename@]),
{
    let mut ws: Vec<String> = Vec::new();
    ws.push("cp".to_owned());
    ws.push(file_path.to_owned());
    ws.push(concat(container_id, ":").concat(filename));
    let r = words(ws);
    assert(r@.args =~= seq!["cp"@, file_path@, container_id@ + ":"@ + filename@]);
    r
}

/// `docker image build --quiet --tag=<repository>:<language> .` in `pwd`.
pub open spec fn build_image_command(pwd: Seq<char>, repository_name: Seq<char>, language_id: Seq<
    char,
>) -> CommandView {
    CommandView {
        current_dir: Some(pwd),
        args: seq![
            "image"@,
            "build"@,
            "--quiet"@,
            "--tag="@ + image_ref(repository_name, language_id),
            "."@,
        ],
    }
}

/// The command that builds the image of a language from the Dockerfile in `pwd`.
pub fn build_image(pwd: &str, repository_name: &str, language_id: &str) -> (r: DockerCommand)
    ensures
        r@ == build_image_command(pwd@, repository_name@, language_id@),
{
    let mut ws: Vec<String> = Vec::new();
    ws.push("image".to_owned());
    ws.push("build".to_owned());
    ws.push("--quiet".to_owned());
    ws.push(concat("--tag=", repository_name).concat(":").concat(language_id));
    ws.push(".".to_owned());
    let r = DockerCommand { current_dir: Some(pwd.to_owned()), args: ws };
    assert(r@.args[3] =~= "--tag="@ + image_ref(repository_name@, language_id@));
    assert(r@.args =~= build_image_command(pwd@, repository_name@, language_id@).args);
    r
}

/// The command that removes the image of a language.
pub fn remove_image(repository_name: &str, language_id: &str) -> (r: DockerCommand)
    ensures
        r@ == plain(seq!["image"@, "rm"@, image_ref(repository_name@, language_id@)]),
{
    let mut ws: Vec<String> = Vec::new();
    ws.push("image".to_owned());
    ws.push("rm".to_owned());
    ws.push(concat(repository_name, ":").concat(language_id));
    let r = words(ws);
    assert(r@.args =~= seq!["image"@, "rm"@, image_ref(repository_name@, language_id@)]);
    r
}

} // verus!
