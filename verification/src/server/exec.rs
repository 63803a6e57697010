//! Running commands in sandboxes, and telling how they went.
use crate::error::{outcome, Complaint, Error, ErrorView, Fault};
use crate::metadata::{copy_texts, Metadata, MetadataView, SandboxMetadata, SandboxView};
use crate::number::{format_i32, is_digit, lemma_written, signed};
use crate::os::linux::{
    base_env, entry_args, env_with, exec_sandbox, law_command_starts_with_four_variables,
    law_last_entry_sets_the_variable, law_unset_variable_stays, sets, CommandPlan,
};
use crate::outside::{lossy, lossy_text};
use crate::path::joined;
use crate::server::api::{E2eRunRequest, E2eRunResponse, ExecResponse, ExecView};
use crate::server::lifecycle::{by_id, sandbox_by_id};
use crate::table::{lemma_position_is, lookup};
use crate::text::{
    bare, glue, glue3, is_white, law_bare_drops_white, law_replaced_once, replace, replaced, same,
    trim,
};
use vstd::prelude::*;

verus! {

/// Checks that there is a command.
pub fn check_command(cmd: &Vec<String>) -> (r: Result<(), Error>)
    ensures
        outcome(r) == if cmd@.len() == 0 {
            Err::<(), ErrorView>(ErrorView::Plain(Fault::EmptyCommand))
        } else {
            Ok(())
        },
{
    if cmd.len() == 0 {
        Err(Error::Plain(Fault::EmptyCommand))
    } else {
        Ok(())
    }
}

/// The environment of the snapshot that a sandbox was started from; empty where the snapshot is not
/// on record, or has none.
pub open spec fn snapshot_env(m: MetadataView, sandbox: SandboxView) -> Seq<Seq<char>> {
    match lookup(m.snapshots, sandbox.snapshot_id) {
        Some(snapshot) => match snapshot.env {
            Some(env) => env,
            None => Seq::empty(),
        },
        None => Seq::empty(),
    }
}

/// The environment of the snapshot that a sandbox was started from.
pub fn env_of_snapshot(metadata: &Metadata, sandbox: &SandboxMetadata) -> (r: Vec<String>)
    ensures
        r.deep_view() == snapshot_env(metadata.deep_view(), sandbox.deep_view()),
{
    if let Some(snapshot) = metadata.snapshots.get(sandbox.snapshot_id.as_str()) {
        if let Some(env) = &snapshot.env {
            return copy_texts(env);
        }
    }
    let none: Vec<String> = Vec::new();
    proof {
        assert(none.deep_view() =~= Seq::<Seq<char>>::empty());
    }
    none
}

/// Whether the plan runs `cmd` in the sandbox with the environment entries.
pub open spec fn runs_in(
    plan: CommandPlan,
    sandbox: SandboxView,
    cmd: Seq<Seq<char>>,
    env: Seq<Seq<char>>,
) -> bool {
    &&& plan.program@ == if sandbox.pid is Some {
        "nsenter"@
    } else {
        "chroot"@
    }
    &&& plan.args.deep_view() == entry_args(sandbox.pid, sandbox.dir) + cmd
    &&& plan.env.deep_view() == if sandbox.pid is Some {
        Some(env_with(base_env(), env))
    } else {
        None
    }
    &&& plan.cgroup_procs.deep_view() == if sandbox.pid is Some {
        Some("/sys/fs/cgroup/moulin/"@ + sandbox.id + "/cgroup.procs"@)
    } else {
        None
    }
}

/// Whether the result is the plan to run `cmd` in the sandbox with this id, with the environment of
/// its snapshot, or the failure to find the sandbox.
pub open spec fn plans(
    r: Result<CommandPlan, Error>,
    m: MetadataView,
    id: Seq<char>,
    cmd: Seq<Seq<char>>,
) -> bool {
    match by_id(m, id) {
        Ok(sandbox) => r matches Ok(plan) && runs_in(plan, sandbox, cmd, snapshot_env(m, sandbox)),
        Err(e) => r matches Err(f) && f.deep_view() == e,
    }
}

/// Plans a command in the sandbox with this id.
pub fn handle_exec(metadata: &Metadata, id: &str, cmd: &Vec<String>) -> (r: Result<
    CommandPlan,
    Error,
>)
    ensures
        cmd@.len() == 0 ==> (r matches Err(e) && e.deep_view() == ErrorView::Plain(
            Fault::EmptyCommand,
        )),
        cmd@.len() > 0 ==> plans(r, metadata.deep_view(), id@, cmd.deep_view()),
{
    if let Err(e) = check_command(cmd) {
        return Err(e);
    }
    let sandbox = match sandbox_by_id(metadata, id) {
        Ok(s) => s,
        Err(e) => {
            return Err(e);
        },
    };
    let env = env_of_snapshot(metadata, sandbox);
    Ok(exec_sandbox(sandbox, cmd, &env))
}

/// The usual name of a signal; `SIG` and its number where it is not among the known ones.
pub open spec fn name_of_signal(sig: i32) -> Seq<char> {
    if sig == 1 {
        "SIGHUP"@
    } else if sig == 2 {
        "SIGINT"@
    } else if sig == 6 {
        "SIGABRT"@
    } else if sig == 9 {
        "SIGKILL"@
    } else if sig == 11 {
        "SIGSEGV"@
    } else if sig == 13 {
        "SIGPIPE"@
    } else if sig == 14 {
        "SIGALRM"@
    } else if sig == 15 {
        "SIGTERM"@
    } else {
        "SIG"@ + signed(sig as int)
    }
}

/// The name of a signal.
pub fn signal_name(sig: i32) -> (r: String)
    ensures
        r@ == name_of_signal(sig),
{
    match sig {
        1 => "SIGHUP".to_owned(),
        2 => "SIGINT".to_owned(),
        6 => "SIGABRT".to_owned(),
        9 => "SIGKILL".to_owned(),
        11 => "SIGSEGV".to_owned(),
        13 => "SIGPIPE".to_owned(),
        14 => "SIGALRM".to_owned(),
        15 => "SIGTERM".to_owned(),
        _ => {
            let n = format_i32(sig);
            glue("SIG", n.as_str())
        },
    }
}

/// How a process has ended: its exit code, or the signal that killed it; and what it has written.
#[derive(Debug)]
pub struct ProcessOutput {
    pub code: Option<i32>,
    pub signal: Option<i32>,
    pub stdout: Vec<u8>,
    pub stderr: Vec<u8>,
}

/// The name of the signal that killed a process; none where it has exited.
pub open spec fn killed_by(code: Option<i32>, signal: Option<i32>) -> Option<Seq<char>> {
    match (code, signal) {
        (None, Some(sig)) => Some(name_of_signal(sig)),
        _ => None,
    }
}

/// Whether a process was killed for want of memory: known of one that `SIGKILL` ended, where the
/// kernel's count is known before and after it.
pub open spec fn memory_kill(
    signal: Option<Seq<char>>,
    before: Option<u64>,
    after: Option<u64>,
) -> Option<bool> {
    match (before, after) {
        (Some(b), Some(a)) => if signal == Some("SIGKILL"@) {
            Some(a > b)
        } else {
            None
        },
        _ => None,
    }
}

/// What is said of a process that was killed for want of memory.
pub open spec fn memory_note() -> Seq<char> {
    "\n[moulin] Process was OOM-killed: memory usage exceeded the sandbox limit."@
}

/// How a command went.
pub open spec fn told_output(
    code: Option<i32>,
    signal: Option<i32>,
    stdout: Seq<u8>,
    stderr: Seq<u8>,
    oom_before: Option<u64>,
    oom_after: Option<u64>,
) -> ExecView {
    let name = killed_by(code, signal);
    let oom_killed = memory_kill(name, oom_before, oom_after);
    ExecView {
        stdout: lossy(stdout),
        stderr: if oom_killed == Some(true) {
            lossy(stderr) + memory_note()
        } else {
            lossy(stderr)
        },
        exit_code: match code {
            Some(n) => n,
            None => -1i32,
        },
        signal: name,
        oom_killed,
    }
}

/// The name of the signal that killed a process.
pub fn ending_signal(code: Option<i32>, signal: Option<i32>) -> (r: Option<String>)
    ensures
        r.deep_view() == killed_by(code, signal),
{
    match (code, signal) {
        (None, Some(sig)) => Some(signal_name(sig)),
        _ => None,
    }
}

/// Whether the kernel's count is to be read again after a process.
pub fn wants_second_count(code: Option<i32>, signal: Option<i32>) -> (r: bool)
    ensures
        r == (killed_by(code, signal) == Some("SIGKILL"@)),
{
    match ending_signal(code, signal) {
        Some(name) => same(name.as_str(), "SIGKILL"),
        None => false,
    }
}

/// How a command went, in the texts `stdout` and `stderr` that its output reads as.
pub fn tell_exec(
    code: Option<i32>,
    signal: Option<i32>,
    stdout: String,
    stderr: String,
    oom_before: Option<u64>,
    oom_after: Option<u64>,
) -> (r: ExecResponse)
    ensures
        ({
            let name = killed_by(code, signal);
            let oom_killed = memory_kill(name, oom_before, oom_after);
            r.deep_view() == (ExecView {
                stdout: stdout@,
                stderr: if oom_killed == Some(true) {
                    stderr@ + memory_note()
                } else {
                    stderr@
                },
                exit_code: match code {
                    Some(n) => n,
                    None => -1i32,
                },
                signal: name,
                oom_killed,
            })
        }),
{
    let signal_text = ending_signal(code, signal);
    let oom_killed: Option<bool> = if wants_second_count(code, signal) {
        match (oom_before, oom_after) {
            (Some(before), Some(after)) => Some(after > before),
            _ => None,
        }
    } else {
        None
    };
    let mut text = stderr;
    if let Some(killed) = oom_killed {
        if killed {
            text.append(
                "\n[moulin] Process was OOM-killed: memory usage exceeded the sandbox limit.",
            );
        }
    }
    let exit_code: i32 = match code {
        Some(n) => n,
        None => -1,
    };
    ExecResponse { stdout, stderr: text, exit_code, signal: signal_text, oom_killed }
}

/// How a command went. `oom_before` and `oom_after` are how often the kernel had killed a process
/// of the sandbox for want of memory before and after it; the second counts only where
/// `wants_second_count` asks for it.
pub fn exec_response(output: &ProcessOutput, oom_before: Option<u64>, oom_after: Option<u64>) -> (r:
    ExecResponse)
    ensures
        r.deep_view() == told_output(
            output.code,
            output.signal,
            output.stdout@,
            output.stderr@,
            oom_before,
            oom_after,
        ),
{
    let stdout = lossy_text(output.stdout.as_slice());
    let stderr = lossy_text(output.stderr.as_slice());
    tell_exec(output.code, output.signal, stdout, stderr, oom_before, oom_after)
}

/// A process is said to be killed for want of memory only where `SIGKILL` has ended it and the
/// kernel's count has grown; the note in its error output says the same.
pub proof fn law_memory_kill_is_told(
    code: Option<i32>,
    signal: Option<i32>,
    stdout: Seq<u8>,
    stderr: Seq<u8>,
    before: Option<u64>,
    after: Option<u64>,
)
    ensures
        ({
            let r = told_output(code, signal, stdout, stderr, before, after);
            &&& r.oom_killed == Some(true) ==> code is None && signal == Some(9i32) && before is Some
                && after is Some && after->0 > before->0
            &&& code is None && signal == Some(9i32) && before is Some && after is Some && after->0
                > before->0 ==> r.oom_killed == Some(true)
            &&& r.oom_killed == Some(true) ==> r.stderr == lossy(stderr) + memory_note()
            &&& r.oom_killed != Some(true) ==> r.stderr == lossy(stderr)
            &&& code is Some ==> r.signal is None && r.oom_killed is None && r.exit_code == code->0
        }),
{
    if let Some(sig) = signal {
        lemma_one_kill_signal(sig);
    }
}

/// No other signal goes by the name of `SIGKILL`.
proof fn lemma_one_kill_signal(sig: i32)
    ensures
        name_of_signal(sig) == "SIGKILL"@ ==> sig == 9,
{
    reveal_strlit("SIGHUP");
    reveal_strlit("SIGINT");
    reveal_strlit("SIGABRT");
    reveal_strlit("SIGKILL");
    reveal_strlit("SIGSEGV");
    reveal_strlit("SIGPIPE");
    reveal_strlit("SIGALRM");
    reveal_strlit("SIGTERM");
    reveal_strlit("SIG");
    reveal_strlit("-");
    let n = signed(sig as int);
    lemma_written(if sig < 0 {
        (-sig) as nat
    } else {
        sig as nat
    }, 10);
    assert(n[0] == '-' || is_digit(n[0], 10));
    assert(("SIG"@ + n)[3] == n[0]);
    assert("SIGKILL"@[3] == 'K');
}

/// Where streamed output comes from.
#[derive(Debug, Clone, Copy, PartialEq, Eq, Structural)]
pub enum StreamSource {
    Stdout,
    Stderr,
}

/// An event of a stream.
#[derive(Debug)]
pub struct StreamEvent {
    pub event: String,
    pub data: String,
}

/// What came of reading output.
#[derive(Debug)]
pub enum Read {
    /// These bytes; none at the end.
    Bytes(Vec<u8>),
    Failed,
}

/// The name of the events of a source.
pub open spec fn source_name(source: StreamSource) -> Seq<char> {
    match source {
        StreamSource::Stdout => "stdout"@,
        StreamSource::Stderr => "stderr"@,
    }
}

/// The event that streams what was read; none where the stream of this source ends.
pub fn stream_step(source: StreamSource, read: &Read) -> (r: Option<StreamEvent>)
    ensures
        match read {
            Read::Bytes(bytes) => if bytes@.len() > 0 {
                r matches Some(e) && e.event@ == source_name(source) && e.data@ == lossy(bytes@)
            } else {
                r is None
            },
            Read::Failed => r is None,
        },
{
    match read {
        Read::Bytes(bytes) => {
            if bytes.len() == 0 {
                return None;
            }
            let event = match source {
                StreamSource::Stdout => "stdout".to_owned(),
                StreamSource::Stderr => "stderr".to_owned(),
            };
            Some(StreamEvent { event, data: lossy_text(bytes.as_slice()) })
        },
        Read::Failed => None,
    }
}

/// The event that ends a stream: the exit code, or minus one where a signal has ended the process
/// or its end is not known.
pub fn exit_event(code: Option<i32>) -> (r: StreamEvent)
    ensures
        r.event@ == "exit"@,
        r.data@ == signed(
            match code {
                Some(n) => n as int,
                None => -1,
            },
        ),
{
    let n: i32 = match code {
        Some(n) => n,
        None => -1,
    };
    StreamEvent { event: "exit".to_owned(), data: format_i32(n) }
}

// Shell commands

/// Whether a text has nothing but white space.
pub open spec fn blank(s: Seq<char>) -> bool {
    bare(s).len() == 0
}

/// Checks that there is a shell command.
pub fn check_shell_command(command: &str) -> (r: Result<(), Error>)
    ensures
        outcome(r) == if blank(command@) {
            Err::<(), ErrorView>(ErrorView::Plain(Fault::CommandRequired))
        } else {
            Ok(())
        },
{
    if trim(command).as_str().is_empty() {
        Err(Error::Plain(Fault::CommandRequired))
    } else {
        Ok(())
    }
}

/// What the shell is given: the command, after a change to the directory where one is named.
pub open spec fn shell_text(command: Seq<char>, cwd: Option<Seq<char>>) -> Seq<char> {
    match cwd {
        Some(dir) => if blank(dir) {
            command
        } else {
            "cd \""@ + replaced(dir, '"', "\\\""@) + "\" && "@ + command
        },
        None => command,
    }
}

/// The shell command that runs `command` in the directory `cwd`.
pub fn shell_command(command: &str, cwd: &Option<String>) -> (r: Vec<String>)
    ensures
        r.deep_view() == seq!["sh"@, "-lc"@, shell_text(command@, cwd.deep_view())],
{
    let mut text = command.to_owned();
    if let Some(dir) = cwd {
        if !trim(dir.as_str()).as_str().is_empty() {
            let escaped = replace(dir.as_str(), '"', "\\\"");
            let start = glue3("cd \"", escaped.as_str(), "\" && ");
            text = glue(start.as_str(), command);
        }
    }
    let ghost tv = text@;
    let mut r: Vec<String> = Vec::new();
    r.push("sh".to_owned());
    r.push("-lc".to_owned());
    r.push(text);
    proof {
        assert(r.deep_view() =~= seq!["sh"@, "-lc"@, tv]);
    }
    r
}

/// Plans a shell command in the sandbox with this id.
pub fn handle_toolbox_execute(
    metadata: &Metadata,
    sandbox_id: &str,
    command: &str,
    cwd: &Option<String>,
) -> (r: Result<CommandPlan, Error>)
    ensures
        blank(command@) ==> (r matches Err(e) && e.deep_view() == ErrorView::Plain(
            Fault::CommandRequired,
        )),
        !blank(command@) ==> plans(
            r,
            metadata.deep_view(),
            sandbox_id@,
            seq!["sh"@, "-lc"@, shell_text(command@, cwd.deep_view())],
        ),
{
    if let Err(e) = check_shell_command(command) {
        return Err(e);
    }
    let cmd = shell_command(command, cwd);
    proof {
        assert(cmd.deep_view().len() == cmd@.len());
    }
    handle_exec(metadata, sandbox_id, &cmd)
}

/// How a shell command went: its exit code, and what it has written, the output before the errors.
#[derive(Debug)]
pub struct ToolboxResult {
    pub exit_code: i32,
    pub result: String,
}

/// How a shell command went.
pub fn toolbox_result(output: &ProcessOutput) -> (r: ToolboxResult)
    ensures
        r.exit_code == match output.code {
            Some(n) => n,
            None => -1i32,
        },
        r.result@ == lossy(output.stdout@) + lossy(output.stderr@),
{
    let stdout = lossy_text(output.stdout.as_slice());
    let stderr = lossy_text(output.stderr.as_slice());
    let exit_code: i32 = match output.code {
        Some(n) => n,
        None => -1,
    };
    ToolboxResult { exit_code, result: glue(stdout.as_str(), stderr.as_str()) }
}

// End-to-end tests

/// The command that runs the end-to-end tests.
pub open spec fn e2e_words(client_only: bool, test: Option<Seq<char>>) -> Seq<Seq<char>> {
    let start = seq!["node"@, "test/run_e2e.js"@];
    let middle = if client_only {
        start.push("--client"@)
    } else {
        start
    };
    match test {
        Some(t) => if blank(t) {
            middle
        } else {
            middle.push("--test="@ + bare(t))
        },
        None => middle,
    }
}

/// How a run of the end-to-end tests went, which took so many milliseconds.
pub fn e2e_response(command: Vec<String>, output: &ProcessOutput, duration_ms: u64) -> (r:
    E2eRunResponse)
    ensures
        r.command.deep_view() == command.deep_view(),
        r.exit_code == match output.code {
            Some(n) => n,
            None => -1i32,
        },
        r.stdout@ == lossy(output.stdout@),
        r.stderr@ == lossy(output.stderr@),
        r.duration_ms == duration_ms,
{
    let exit_code: i32 = match output.code {
        Some(n) => n,
        None => -1,
    };
    E2eRunResponse {
        command,
        exit_code,
        stdout: lossy_text(output.stdout.as_slice()),
        stderr: lossy_text(output.stderr.as_slice()),
        duration_ms,
    }
}

/// The command that runs the end-to-end tests, the program first.
pub fn handle_run_e2e(request: &E2eRunRequest) -> (r: Vec<String>)
    ensures
        r.deep_view() == e2e_words(request.client_only, request.test.deep_view()),
        r@.len() >= 2,
{
    let mut r: Vec<String> = Vec::new();
    r.push("node".to_owned());
    r.push("test/run_e2e.js".to_owned());
    if request.client_only {
        r.push("--client".to_owned());
    }
    proof {
        assert(r.deep_view() =~= e2e_words(request.client_only, None));
    }
    if let Some(test) = &request.test {
        let t = trim(test.as_str());
        if !t.as_str().is_empty() {
            let ghost before = r.deep_view();
            let arg = glue("--test=", t.as_str());
            let ghost av = arg@;
            r.push(arg);
            proof {
                assert(r.deep_view() =~= before.push(av));
            }
        }
    }
    r
}

/// Whatever command is planned for a running sandbox whose snapshot is on record: it sees every
/// variable that the snapshot sets, with the value that the last entry for it gives.
pub proof fn law_command_sees_the_snapshot(
    r: Result<CommandPlan, Error>,
    m: MetadataView,
    id: Seq<char>,
    cmd: Seq<Seq<char>>,
    env: Seq<Seq<char>>,
    i: int,
    key: Seq<char>,
    value: Seq<char>,
)
    requires
        plans(r, m, id, cmd),
        lookup(m.sandboxes, id) matches Some(sandbox) && sandbox.pid is Some && (lookup(
            m.snapshots,
            sandbox.snapshot_id,
        ) matches Some(snapshot) && snapshot.env == Some(env)),
        0 <= i < env.len(),
        env[i] == key + seq!['='] + value,
        forall|k: int| 0 <= k < key.len() ==> #[trigger] key[k] != '=',
        forall|j: int| i < j < env.len() ==> !sets(#[trigger] env[j], key),
    ensures
        r matches Ok(plan) && plan.env.deep_view() matches Some(all) && lookup(all, key) == Some(
            value,
        ),
{
    law_last_entry_sets_the_variable(base_env(), env, i, key, value);
}

/// A command in a running sandbox sees a search path and a home also where its snapshot sets none,
/// is not on record or has no environment, and sees no variable besides those.
pub proof fn law_command_sees_nothing_else(
    r: Result<CommandPlan, Error>,
    m: MetadataView,
    id: Seq<char>,
    cmd: Seq<Seq<char>>,
    key: Seq<char>,
)
    requires
        plans(r, m, id, cmd),
        lookup(m.sandboxes, id) matches Some(sandbox) && sandbox.pid is Some && (lookup(
            m.snapshots,
            sandbox.snapshot_id,
        ) matches Some(snapshot) ==> (snapshot.env matches Some(env) ==> forall|j: int|
            0 <= j < env.len() ==> !sets(#[trigger] env[j], key))),
    ensures
        r matches Ok(plan) && plan.env.deep_view() matches Some(all) && lookup(all, key) == if key
            == "PATH"@ {
            Some("/usr/local/sbin:/usr/local/bin:/usr/sbin:/usr/bin:/sbin:/bin"@)
        } else if key == "HOME"@ {
            Some("/root"@)
        } else if key == "TMPDIR"@ {
            Some("/tmp"@)
        } else if key == "TERM"@ {
            Some("xterm"@)
        } else {
            None
        },
{
    let sandbox = lookup(m.sandboxes, id)->0;
    law_unset_variable_stays(base_env(), snapshot_env(m, sandbox), key);
    law_command_starts_with_four_variables();
    if key != "PATH"@ && key != "HOME"@ && key != "TMPDIR"@ && key != "TERM"@ {
        lemma_position_is(base_env(), key, 4);
    }
}

/// A command is run as it is given, behind what leads into the sandbox: the namespaces of its process
/// where that is known, and then the process counts as one of the sandbox; else its file tree. A
/// sandbox that is not on record is told by its id.
pub proof fn law_command_is_run_in_the_sandbox(
    r: Result<CommandPlan, Error>,
    m: MetadataView,
    id: Seq<char>,
    cmd: Seq<Seq<char>>,
)
    requires
        plans(r, m, id, cmd),
    ensures
        match lookup(m.sandboxes, id) {
            Some(sandbox) => r matches Ok(plan) && match sandbox.pid {
                Some(pid) => {
                    &&& plan.program@ == "nsenter"@
                    &&& plan.args.deep_view() == seq!["-a"@, "-t"@, signed(pid as int)] + cmd
                    &&& plan.env is Some
                    &&& plan.cgroup_procs.deep_view() == Some(
                        "/sys/fs/cgroup/moulin/"@ + sandbox.id + "/cgroup.procs"@,
                    )
                },
                None => {
                    &&& plan.program@ == "chroot"@
                    &&& plan.args.deep_view() == seq![joined(sandbox.dir, "merged"@)] + cmd
                    &&& plan.env is None
                    &&& plan.cgroup_procs is None
                },
            },
            None => r matches Err(e) && e.deep_view() == ErrorView::About(
                Complaint::SandboxNotFound,
                id,
            ),
        },
{
}

/// A shell command runs as it is written where no directory, or a blank one, is named, and else
/// after a change to that directory, whose double quotes are escaped one by one.
pub proof fn law_shell_changes_directory(command: Seq<char>, dir: Seq<char>, a: Seq<char>, b: Seq<char>)
    requires
        dir == a + seq!['"'] + b,
        forall|k: int| 0 <= k < a.len() ==> #[trigger] a[k] != '"',
        forall|k: int| 0 <= k < b.len() ==> #[trigger] b[k] != '"',
    ensures
        shell_text(command, None) == command,
        blank(a) ==> shell_text(command, Some(a)) == command,
        !blank(a) ==> shell_text(command, Some(a)) == "cd \""@ + a + "\" && "@ + command,
        !blank(dir) ==> shell_text(command, Some(dir)) == "cd \""@ + (a + "\\\""@ + b) + "\" && "@
            + command,
{
    law_replaced_once(a, '"', b, "\\\""@);
}

/// The end of a process is told as it was: the exit code, or minus one and the name of the signal;
/// and its output is told whole, in its own fields.
pub proof fn law_end_is_told(
    code: Option<i32>,
    signal: Option<i32>,
    stdout: Seq<u8>,
    stderr: Seq<u8>,
    before: Option<u64>,
    after: Option<u64>,
)
    ensures
        ({
            let r = told_output(code, signal, stdout, stderr, before, after);
            &&& code matches Some(n) ==> r.exit_code == n && r.signal is None
            &&& code is None ==> r.exit_code == -1
            &&& code is None && signal is Some ==> r.signal == Some(name_of_signal(signal->0))
            &&& signal is None ==> r.signal is None
            &&& r.stdout == lossy(stdout)
            &&& r.stderr.take(lossy(stderr).len() as int) == lossy(stderr)
            &&& before is None || after is None || code is Some || signal != Some(9i32) ==> r.oom_killed
                is None
            &&& code is None && signal == Some(9i32) && before is Some && after is Some ==> r.oom_killed
                == Some(after->0 > before->0)
        }),
{
    let r = told_output(code, signal, stdout, stderr, before, after);
    if let Some(sig) = signal {
        lemma_one_kill_signal(sig);
    }
    assert(r.stderr.take(lossy(stderr).len() as int) =~= lossy(stderr));
}

/// The signals that have a name are told by it, and every other by its number.
pub proof fn law_signals_have_names(a: i32)
    ensures
        name_of_signal(1) == "SIGHUP"@,
        name_of_signal(2) == "SIGINT"@,
        name_of_signal(6) == "SIGABRT"@,
        name_of_signal(9) == "SIGKILL"@,
        name_of_signal(11) == "SIGSEGV"@,
        name_of_signal(13) == "SIGPIPE"@,
        name_of_signal(14) == "SIGALRM"@,
        name_of_signal(15) == "SIGTERM"@,
        a != 1 && a != 2 && a != 6 && a != 9 && a != 11 && a != 13 && a != 14 && a != 15
            ==> name_of_signal(a) == "SIG"@ + signed(a as int),
{
}

/// The end-to-end tests are run by their script, for the client alone where that is asked for, and
/// for one test where one is named, without the white space around its name.
pub proof fn law_e2e_words(test: Seq<char>, blank_text: Seq<char>, client_only: bool)
    requires
        test.len() > 0 && !is_white(test[0]) && !is_white(test.last()),
        forall|i: int| 0 <= i < blank_text.len() ==> is_white(#[trigger] blank_text[i]),
    ensures
        ({
            let start = if client_only {
                seq!["node"@, "test/run_e2e.js"@, "--client"@]
            } else {
                seq!["node"@, "test/run_e2e.js"@]
            };
            &&& e2e_words(client_only, None) == start
            &&& e2e_words(client_only, Some(blank_text)) == start
            &&& e2e_words(client_only, Some(blank_text + test + blank_text)) == start.push(
                "--test="@ + test,
            )
        }),
{
    law_bare_drops_white(blank_text, test, blank_text);
    let none = Seq::<char>::empty();
    law_bare_drops_white(blank_text, none, none);
    assert(blank_text + none + none =~= blank_text);
    assert(seq!["node"@, "test/run_e2e.js"@].push("--client"@) =~= seq![
        "node"@,
        "test/run_e2e.js"@,
        "--client"@,
    ]);
}

/// A text is blank just where every character of it is white space.
pub proof fn law_blank_is_all_white(s: Seq<char>)
    ensures
        blank(s) <==> forall|i: int| 0 <= i < s.len() ==> is_white(#[trigger] s[i]),
{
    let none = Seq::<char>::empty();
    if forall|i: int| 0 <= i < s.len() ==> is_white(#[trigger] s[i]) {
        law_bare_drops_white(s, none, none);
        assert(s + none + none =~= s);
    }
    if exists|i: int| 0 <= i < s.len() && !is_white(#[trigger] s[i]) {
        let i = choose|i: int| 0 <= i < s.len() && !is_white(#[trigger] s[i]);
        lemma_not_blank(s, i);
    }
}

/// A text with a character that is not white space is not blank.
proof fn lemma_not_blank(s: Seq<char>, i: int)
    requires
        0 <= i < s.len(),
        !is_white(s[i]),
    ensures
        bare(s).len() > 0,
    decreases s.len(),
{
    if is_white(s[0]) {
        let t = s.drop_first();
        assert(t[i - 1] == s[i]);
        lemma_not_blank(t, i - 1);
        assert(bare(s) == bare(t));
    } else if is_white(s.last()) {
        let t = s.drop_last();
        assert(t[i] == s[i]);
        lemma_not_blank(t, i);
        assert(t[0] == s[0]);
        assert(bare(s) == bare(t));
    } else {
        let none = Seq::<char>::empty();
        law_bare_drops_white(none, s, none);
        assert(none + s + none =~= s);
    }
}

/// What a process has written is streamed under the name of where it was written; and the note on a
/// process that was killed for want of memory is a line of its own.
pub proof fn law_streams_have_names()
    ensures
        source_name(StreamSource::Stdout) == "stdout"@,
        source_name(StreamSource::Stderr) == "stderr"@,
        memory_note()
            == "\n[moulin] Process was OOM-killed: memory usage exceeded the sandbox limit."@,
{
}

} // verus!
