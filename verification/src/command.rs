//! Programs that are run and what is made of their output.

use vstd::prelude::*;
use vstd::string::*;
use vstd::utf8::*;

use crate::text::{decimal, decimal_text, lossy_text, text_from_lossy};

verus! {

/// What can go wrong while something is gathered.
#[derive(Debug)]
pub enum Error {
    /// The operating system refused.
    Io { not_found: bool, message: String },
    /// A program's output is not text.
    InvalidString { source: std::string::FromUtf8Error },
    /// A program failed: what it wrote, and its wait status.
    Status { stdout: String, stderr: String, status: i32 },
    /// A program's output is text, but not the JSON that was asked for.
    Json { message: String },
    /// The graphics driver refused.
    Nvidia { message: String },
}

/// A program and what it is given.
#[derive(Debug, PartialEq)]
pub struct CommandLine {
    pub program: String,
    pub args: Vec<String>,
}

/// The texts of some strings.
pub open spec fn texts(strings: Seq<String>) -> Seq<Seq<char>> {
    Seq::new(strings.len(), |i: int| strings[i]@)
}

impl CommandLine {
    /// The words of the command line, the program first.
    pub open spec fn words(self) -> Seq<Seq<char>> {
        seq![self.program@] + texts(self.args@)
    }

    fn new(program: &str) -> (command: Self)
        ensures
            command.words() == seq![program@],
    {
        let command = CommandLine { program: program.to_owned(), args: Vec::new() };
        assert(command.words() =~= seq![program@]);
        command
    }

    fn arg(&mut self, arg: String)
        ensures
            final(self).words() == old(self).words().push(arg@),
    {
        self.args.push(arg);
        assert(self.words() =~= old(self).words().push(arg@));
    }

    fn word(&mut self, arg: &str)
        ensures
            final(self).words() == old(self).words().push(arg@),
    {
        self.arg(arg.to_owned());
    }
}

/// The words that ask docker for a container's name, inside an LXC container where the process
/// is in one.
pub open spec fn docker_inspect_words(lxc_vm_id: Option<u32>, container_id: Seq<char>) -> Seq<
    Seq<char>,
> {
    let prefix = match lxc_vm_id {
        Some(id) => seq!["pct"@, "exec"@, decimal(id as nat), "--"@, "docker"@],
        None => seq!["docker"@],
    };
    prefix + seq!["inspect"@, "--format"@, "{{.Name}}"@, container_id]
}

/// How docker is asked for a container's name.
pub fn docker_inspect(lxc_vm_id: Option<u32>, container_id: &str) -> (command: CommandLine)
    ensures
        command.words() == docker_inspect_words(lxc_vm_id, container_id@),
{
    let mut command = match lxc_vm_id {
        Some(id) => {
            let mut command = CommandLine::new("pct");
            command.word("exec");
            command.arg(decimal_text(id as u64));
            command.word("--");
            command.word("docker");
            assert(command.words() =~= seq![
                "pct"@,
                "exec"@,
                decimal(id as nat),
                "--"@,
                "docker"@,
            ]);
            command
        },
        None => CommandLine::new("docker"),
    };
    command.word("inspect");
    command.word("--format");
    command.word("{{.Name}}");
    command.word(container_id);
    assert(command.words() =~= docker_inspect_words(lxc_vm_id, container_id@));
    command
}

/// The words that ask the Proxmox shell about a node.
pub open spec fn pvesh_words(node: Seq<char>, ty: Seq<char>) -> Seq<Seq<char>> {
    seq!["pvesh"@, "get"@, "/nodes/"@ + node + "/"@ + ty, "--output-format"@, "json"@]
}

/// How the Proxmox shell is asked about a node.
pub fn pvesh_get(node: &str, ty: &str) -> (command: CommandLine)
    ensures
        command.words() == pvesh_words(node@, ty@),
{
    let mut path = "/nodes/".to_owned();
    path.append(node);
    path.append("/");
    path.append(ty);
    let mut command = CommandLine::new("pvesh");
    command.word("get");
    command.arg(path);
    command.word("--output-format");
    command.word("json");
    assert(command.words() =~= pvesh_words(node@, ty@));
    command
}

/// What a finished program left behind.
#[derive(Debug, PartialEq)]
pub struct Output {
    /// Whether the program says that it succeeded.
    pub success: bool,
    /// Its wait status.
    pub status: i32,
    pub stdout: Vec<u8>,
    pub stderr: Vec<u8>,
}

/// The error for a program that failed: all it wrote, with what is not text replaced.
pub open spec fn is_failure_of(error: Error, output: Output) -> bool {
    match error {
        Error::Status { stdout, stderr, status } => {
            &&& stdout@ == lossy_text(output.stdout@)
            &&& stderr@ == lossy_text(output.stderr@)
            &&& valid_utf8(output.stdout@) ==> stdout@ == decode_utf8(output.stdout@)
            &&& valid_utf8(output.stderr@) ==> stderr@ == decode_utf8(output.stderr@)
            &&& status == output.status
        },
        _ => false,
    }
}

fn failure(output: Output) -> (error: Error)
    ensures
        is_failure_of(error, output),
{
    Error::Status {
        stdout: text_from_lossy(output.stdout.as_slice()),
        stderr: text_from_lossy(output.stderr.as_slice()),
        status: output.status,
    }
}

/// The text that a program wrote.
///
/// A program that failed, and one whose output is not text, are errors.
pub fn output_text(output: Output) -> (text: Result<String, Error>)
    ensures
        match text {
            Ok(text) => output.success && valid_utf8(output.stdout@) && text@ == decode_utf8(
                output.stdout@,
            ),
            Err(Error::InvalidString { .. }) => output.success && !valid_utf8(output.stdout@),
            Err(error) => !output.success && is_failure_of(error, output),
        },
{
    if !output.success {
        return Err(failure(output));
    }
    match String::from_utf8(output.stdout) {
        Ok(text) => Ok(text),
        Err(source) => Err(Error::InvalidString { source }),
    }
}

/// A container's name in what docker writes: without one slash before it and one line feed after
/// it.
pub open spec fn bare_name(stdout: Seq<u8>) -> Seq<u8> {
    let rest = if stdout.len() > 0 && stdout[0] == 47 {
        stdout.skip(1)
    } else {
        stdout
    };
    if rest.len() > 0 && rest.last() == 10 {
        rest.drop_last()
    } else {
        rest
    }
}

/// The container's name that docker wrote.
pub fn container_name(output: Output) -> (name: Result<String, Error>)
    ensures
        match name {
            Ok(name) => output.success && valid_utf8(bare_name(output.stdout@)) && name@
                == decode_utf8(bare_name(output.stdout@)),
            Err(Error::InvalidString { .. }) => output.success && !valid_utf8(
                bare_name(output.stdout@),
            ),
            Err(error) => !output.success && is_failure_of(error, output),
        },
{
    if !output.success {
        return Err(failure(output));
    }
    let mut stdout: Vec<u8> = output.stdout;
    if stdout.len() > 0 && stdout[0] == 47 {
        let ghost before = stdout@;
        stdout.remove(0);
        assert(stdout@ =~= before.skip(1));
    }
    if stdout.len() > 0 && stdout[stdout.len() - 1] == 10 {
        let ghost before = stdout@;
        stdout.pop();
        assert(stdout@ =~= before.drop_last());
    }
    assert(stdout@ =~= bare_name(output.stdout@));
    match String::from_utf8(stdout) {
        Ok(name) => Ok(name),
        Err(source) => Err(Error::InvalidString { source }),
    }
}

/// Docker is asked about the container that is meant, in the LXC container that is meant: the last
/// word is the container's id, and inside an LXC container the same words are run there, by its
/// number.
pub proof fn law_docker_is_asked_where_it_runs(vm_id: u32, container_id: Seq<char>)
    ensures
        docker_inspect_words(None, container_id) == seq![
            "docker"@,
            "inspect"@,
            "--format"@,
            "{{.Name}}"@,
            container_id,
        ],
        docker_inspect_words(Some(vm_id), container_id) == seq![
            "pct"@,
            "exec"@,
            decimal(vm_id as nat),
            "--"@,
        ] + docker_inspect_words(None, container_id),
{
    assert(docker_inspect_words(None, container_id) =~= seq![
        "docker"@,
        "inspect"@,
        "--format"@,
        "{{.Name}}"@,
        container_id,
    ]);
    assert(docker_inspect_words(Some(vm_id), container_id) =~= seq![
        "pct"@,
        "exec"@,
        decimal(vm_id as nat),
        "--"@,
    ] + docker_inspect_words(None, container_id));
}

/// The Proxmox shell is asked for what is wanted of the node that is meant, as JSON.
pub proof fn law_shell_is_asked_for_json(node: Seq<char>, ty: Seq<char>)
    ensures
        pvesh_words(node, ty).len() == 5,
        pvesh_words(node, ty)[0] == "pvesh"@ && pvesh_words(node, ty)[1] == "get"@,
        pvesh_words(node, ty)[2] == "/nodes/"@ + node + "/"@ + ty,
        pvesh_words(node, ty)[3] == "--output-format"@ && pvesh_words(node, ty)[4] == "json"@,
{
}

/// Docker writes a slash, the name and a line feed, and what is left is the name, whatever it is.
/// A name that has neither is left as it is.
pub proof fn law_name_is_found_in_what_docker_writes(name: Seq<u8>)
    ensures
        bare_name(seq![47u8] + name + seq![10u8]) == name,
        name.len() > 0 && name[0] != 47 ==> bare_name(name.push(10)) == name,
        name.len() > 0 && name[0] != 47 && name.last() != 10 ==> bare_name(name) == name,
        name.len() > 0 && name.last() != 10 ==> bare_name(seq![47u8] + name) == name,
{
    let written = seq![47u8] + name + seq![10u8];
    assert(written.skip(1) =~= name.push(10));
    assert(name.push(10).drop_last() =~= name);
    assert((seq![47u8] + name).skip(1) =~= name);
}

/// A program that failed is reported with all that it wrote and with its status.
pub proof fn law_failure_says_what_was_written(error: Error, output: Output)
    requires
        is_failure_of(error, output),
    ensures
        error is Status,
        error->status == output.status,
        error->stdout@ == lossy_text(output.stdout@),
        error->stderr@ == lossy_text(output.stderr@),
{
}

} // verus!
