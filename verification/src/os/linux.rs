//! Sandboxes on Linux: what they use, how commands get into them, and what ends them.
use crate::metadata::SandboxMetadata;
use crate::number::{
    decimal, format_i32, is_digit, law_written_reads_back, lemma_written, parse_u64, signed, written,
};
use crate::overlay::OverlayMount;
use crate::path::{join, joined};
use crate::server::api::{SandboxRuntimeStatsResponse, ServerInfoResponse};
use crate::server::paths::merged_of;
use crate::table::{law_put_is_found, lookup, put, StringMap};
use crate::text::{
    after_prefix, bare, cut_once, glue3, law_bare_drops_white, law_cut_at_the_first,
    lemma_first_of, lines, lines_of, same, split_once, split_whitespace, starts, strip_prefix, trim,
    words, Class,
};
use vstd::prelude::*;

verus! {

/// What the server runs on.
pub fn get_server_info() -> (r: ServerInfoResponse)
    ensures
        r.os@ == "linux"@,
        !r.degraded_mode,
        r.supports_image_exec,
{
    ServerInfoResponse { os: "linux", degraded_mode: false, supports_image_exec: true }
}

/// The directory of the control group of a sandbox.
pub open spec fn cgroup_dir(id: Seq<char>) -> Seq<char> {
    joined("/sys/fs/cgroup/moulin"@, id)
}

/// The file of a control group.
pub fn cgroup_file(id: &str, name: &str) -> (r: String)
    ensures
        r@ == joined(cgroup_dir(id@), name@),
{
    let dir = join("/sys/fs/cgroup/moulin", id);
    join(dir.as_str(), name)
}

/// The number in a text, as 64 bits.
pub open spec fn count_of(s: Seq<char>) -> Option<u64> {
    match decimal(s) {
        Some(n) => Some(n as u64),
        None => None,
    }
}

/// The number that a file holds between white space; none where it cannot be read.
pub open spec fn file_count(content: Option<Seq<char>>) -> Option<u64> {
    match content {
        Some(s) => count_of(bare(s)),
        None => None,
    }
}

/// The limit in a text: `max` stands for none.
pub open spec fn limit_of(s: Seq<char>) -> Option<u64> {
    if s == "max"@ {
        None
    } else {
        count_of(s)
    }
}

/// The limit that a file holds between white space; none where it cannot be read.
pub open spec fn file_limit(content: Option<Seq<char>>) -> Option<u64> {
    match content {
        Some(s) => limit_of(bare(s)),
        None => None,
    }
}

/// Reads the number that a file holds.
pub fn read_u64_file(content: &Option<String>) -> (r: Option<u64>)
    ensures
        r == file_count(content.deep_view()),
{
    match content {
        Some(s) => parse_u64(trim(s.as_str()).as_str()),
        None => None,
    }
}

/// Reads a limit.
pub fn parse_limit_value(raw: &str) -> (r: Option<u64>)
    ensures
        r == limit_of(raw@),
{
    if same(raw, "max") {
        None
    } else {
        parse_u64(raw)
    }
}

/// Reads the limit that a file holds.
pub fn read_limit_file(content: &Option<String>) -> (r: Option<u64>)
    ensures
        r == file_limit(content.deep_view()),
{
    match content {
        Some(s) => parse_limit_value(trim(s.as_str()).as_str()),
        None => None,
    }
}

/// What follows `prefix` in the first line that starts with it.
pub open spec fn first_entry(all: Seq<Seq<char>>, prefix: Seq<char>) -> Option<Seq<char>>
    decreases all.len(),
{
    if all.len() == 0 {
        None
    } else {
        match after_prefix(all[0], prefix) {
            Some(rest) => Some(rest),
            None => first_entry(all.drop_first(), prefix),
        }
    }
}

/// What follows `prefix` in the first line of a file that starts with it.
pub open spec fn file_entry(content: Option<Seq<char>>, prefix: Seq<char>) -> Option<Seq<char>> {
    match content {
        Some(s) => first_entry(lines_of(s), prefix),
        None => None,
    }
}

/// Finds what follows `prefix` in the first line that starts with it.
pub fn find_entry(content: &Option<String>, prefix: &str) -> (r: Option<String>)
    ensures
        r.deep_view() == file_entry(content.deep_view(), prefix@),
{
    let text = match content {
        Some(s) => s,
        None => {
            return None;
        },
    };
    let all = lines(text.as_str());
    let ghost s = all.deep_view();
    let mut i: usize = 0;
    proof {
        assert(s.skip(0) =~= s);
    }
    while i < all.len()
        invariant
            i <= all@.len(),
            s == all.deep_view(),
            first_entry(s.skip(i as int), prefix@) == file_entry(content.deep_view(), prefix@),
        decreases all@.len() - i,
    {
        proof {
            assert(s.skip(i as int)[0] == all@[i as int]@);
            assert(s.skip(i as int).drop_first() =~= s.skip(i + 1));
        }
        if let Some(rest) = strip_prefix(all[i].as_str(), prefix) {
            return Some(rest);
        }
        i = i + 1;
    }
    None
}

/// The number in what follows `prefix` in the first line of a file that starts with it.
pub open spec fn entry_count(content: Option<Seq<char>>, prefix: Seq<char>) -> Option<u64> {
    match file_entry(content, prefix) {
        Some(s) => count_of(bare(s)),
        None => None,
    }
}

/// Reads the number in an entry.
fn read_entry(content: &Option<String>, prefix: &str) -> (r: Option<u64>)
    ensures
        r == entry_count(content.deep_view(), prefix@),
{
    match find_entry(content, prefix) {
        Some(s) => parse_u64(trim(s.as_str()).as_str()),
        None => None,
    }
}

/// How often the kernel has killed a process of the sandbox for want of memory, from the events of
/// its control group.
pub fn read_oom_kill_count(events: &Option<String>) -> (r: Option<u64>)
    ensures
        r == entry_count(events.deep_view(), "oom_kill "@),
{
    read_entry(events, "oom_kill ")
}

/// The kibibytes of memory that the status of a process tells.
pub open spec fn resident_kib(status: Option<Seq<char>>) -> Option<u64> {
    match file_entry(status, "VmRSS:"@) {
        Some(rest) => if words(rest).len() > 0 {
            count_of(words(rest)[0])
        } else {
            None
        },
        None => None,
    }
}

/// The bytes of memory that the status of a process tells.
pub open spec fn resident_bytes(status: Option<Seq<char>>) -> Option<u64> {
    match resident_kib(status) {
        Some(kib) => Some((kib * 1024) as u64),
        None => None,
    }
}

/// Whether the bytes of memory that the status tells fit in 64 bits.
pub open spec fn resident_fits(status: Option<Seq<char>>) -> bool {
    resident_kib(status) matches Some(kib) ==> kib * 1024 <= u64::MAX
}

/// Reads the kibibytes of memory that the status of a process tells.
pub fn read_resident_kib(status: &Option<String>) -> (r: Option<u64>)
    ensures
        r == resident_kib(status.deep_view()),
{
    match find_entry(status, "VmRSS:") {
        Some(rest) => {
            let w = split_whitespace(rest.as_str());
            if w.len() > 0 {
                proof {
                    assert(w.deep_view()[0] == w@[0]@);
                }
                parse_u64(w[0].as_str())
            } else {
                None
            }
        },
        None => None,
    }
}

/// Reads the bytes of memory that the status of a process tells.
pub fn read_proc_rss_bytes(status: &Option<String>) -> (r: Option<u64>)
    requires
        resident_fits(status.deep_view()),
    ensures
        r == resident_bytes(status.deep_view()),
{
    match read_resident_kib(status) {
        Some(kib) => Some(kib * 1024),
        None => None,
    }
}

/// The file with the status of a process.
pub fn status_path(pid: i32) -> (r: String)
    ensures
        r@ == "/proc/"@ + signed(pid as int) + "/status"@,
{
    let n = format_i32(pid);
    glue3("/proc/", n.as_str(), "/status")
}

/// What the files of a control group hold, and the status of the process of its sandbox; none where
/// a file cannot be read.
#[derive(Debug)]
pub struct UsageFiles {
    pub memory_current: Option<String>,
    pub memory_peak: Option<String>,
    pub memory_max: Option<String>,
    pub pids_current: Option<String>,
    pub pids_max: Option<String>,
    pub cpu_max: Option<String>,
    pub cpu_stat: Option<String>,
    pub memory_events: Option<String>,
    pub status: Option<String>,
}

/// The word at position `i` of what a file holds.
pub open spec fn file_word(content: Option<Seq<char>>, i: int) -> Option<Seq<char>> {
    match content {
        Some(s) => if i < words(bare(s)).len() {
            Some(words(bare(s))[i])
        } else {
            None
        },
        None => None,
    }
}

/// What a sandbox uses, as the files tell it.
pub open spec fn usage(files: UsageFiles) -> SandboxRuntimeStatsResponse {
    SandboxRuntimeStatsResponse {
        memory_current_bytes: file_count(files.memory_current.deep_view()),
        memory_peak_bytes: file_count(files.memory_peak.deep_view()),
        process_resident_bytes: resident_bytes(files.status.deep_view()),
        cpu_usage_usec: entry_count(files.cpu_stat.deep_view(), "usage_usec "@),
        pids_current: file_count(files.pids_current.deep_view()),
        memory_limit_bytes: file_limit(files.memory_max.deep_view()),
        cpu_quota: match file_word(files.cpu_max.deep_view(), 0) {
            Some(s) => limit_of(s),
            None => None,
        },
        cpu_period: match file_word(files.cpu_max.deep_view(), 1) {
            Some(s) => count_of(s),
            None => None,
        },
        pids_limit: file_limit(files.pids_max.deep_view()),
        oom_kill_count: entry_count(files.memory_events.deep_view(), "oom_kill "@),
    }
}

/// What a sandbox uses. The status of its process is given where the process is known.
pub fn get_sandbox_metrics(files: &UsageFiles) -> (r: SandboxRuntimeStatsResponse)
    requires
        resident_fits(files.status.deep_view()),
    ensures
        r == usage(*files),
{
    let mut cpu_quota: Option<u64> = None;
    let mut cpu_period: Option<u64> = None;
    if let Some(s) = &files.cpu_max {
        let w = split_whitespace(trim(s.as_str()).as_str());
        if w.len() > 0 {
            proof {
                assert(w.deep_view()[0] == w@[0]@);
            }
            cpu_quota = parse_limit_value(w[0].as_str());
        }
        if w.len() > 1 {
            proof {
                assert(w.deep_view()[1] == w@[1]@);
            }
            cpu_period = parse_u64(w[1].as_str());
        }
    }
    SandboxRuntimeStatsResponse {
        memory_current_bytes: read_u64_file(&files.memory_current),
        memory_peak_bytes: read_u64_file(&files.memory_peak),
        process_resident_bytes: read_proc_rss_bytes(&files.status),
        cpu_usage_usec: read_entry(&files.cpu_stat, "usage_usec "),
        pids_current: read_u64_file(&files.pids_current),
        memory_limit_bytes: read_limit_file(&files.memory_max),
        cpu_quota,
        cpu_period,
        pids_limit: read_limit_file(&files.pids_max),
        oom_kill_count: read_oom_kill_count(&files.memory_events),
    }
}

/// The mount of a sandbox that is to be undone when it ends.
pub fn destroy_sandbox_os(sandbox: &SandboxMetadata, merged_dir: &str) -> (r: OverlayMount)
    ensures
        r.lower_dirs@.len() == 0,
        r.upper_dir@ == joined(sandbox.dir@, "upper"@),
        r.work_dir@ == joined(sandbox.dir@, "work"@),
        r.merged_dir@ == merged_dir@,
{
    OverlayMount::new(
        Vec::new(),
        join(sandbox.dir.as_str(), "upper"),
        join(sandbox.dir.as_str(), "work"),
        merged_dir.to_owned(),
    )
}

/// A command on the host.
pub struct CommandPlan {
    pub program: String,
    pub args: Vec<String>,
    /// The whole environment, or none where the one of the server is kept.
    pub env: Option<StringMap<String>>,
    /// The file that the process is written to, so that it counts as one of the sandbox.
    pub cgroup_procs: Option<String>,
}

/// The environment that every command in a sandbox starts with.
pub open spec fn base_env() -> Seq<(Seq<char>, Seq<char>)> {
    seq![
        ("PATH"@, "/usr/local/sbin:/usr/local/bin:/usr/sbin:/usr/bin:/sbin:/bin"@),
        ("HOME"@, "/root"@),
        ("TMPDIR"@, "/tmp"@),
        ("TERM"@, "xterm"@),
    ]
}

/// The environment with the entries of the form `key=value` put in, in order.
pub open spec fn env_with(
    env: Seq<(Seq<char>, Seq<char>)>,
    entries: Seq<Seq<char>>,
) -> Seq<(Seq<char>, Seq<char>)>
    decreases entries.len(),
{
    if entries.len() == 0 {
        env
    } else {
        let before = env_with(env, entries.drop_last());
        match cut_once(entries.last(), Class::Only('=')) {
            Some((key, value)) => put(before, key, value),
            None => before,
        }
    }
}

/// The environment of a command in a sandbox.
pub fn command_env(entries: &Vec<String>) -> (r: StringMap<String>)
    ensures
        r.deep_view() == env_with(base_env(), entries.deep_view()),
{
    let mut env: StringMap<String> = StringMap::new();
    proof {
        reveal_strlit("PATH");
        reveal_strlit("HOME");
        reveal_strlit("TMPDIR");
        reveal_strlit("TERM");
        reveal_with_fuel(crate::table::position, 4);
    }
    env.insert(
        "PATH".to_owned(),
        "/usr/local/sbin:/usr/local/bin:/usr/sbin:/usr/bin:/sbin:/bin".to_owned(),
    );
    env.insert("HOME".to_owned(), "/root".to_owned());
    env.insert("TMPDIR".to_owned(), "/tmp".to_owned());
    env.insert("TERM".to_owned(), "xterm".to_owned());
    let ghost s = entries.deep_view();
    let mut i: usize = 0;
    proof {
        assert("PATH"@[0] == 'P' && "HOME"@[0] == 'H' && "TMPDIR"@[1] == 'M' && "TERM"@[1] == 'E');
        assert("TMPDIR"@[0] == 'T' && "TERM"@[0] == 'T');
        assert(env.deep_view() =~= base_env());
        assert(s.take(0) =~= Seq::<Seq<char>>::empty());
    }
    while i < entries.len()
        invariant
            i <= entries@.len(),
            s == entries.deep_view(),
            env.deep_view() == env_with(base_env(), s.take(i as int)),
        decreases entries@.len() - i,
    {
        proof {
            assert(s.take(i + 1).drop_last() =~= s.take(i as int));
            assert(s.take(i + 1).last() == entries@[i as int]@);
        }
        if let Some((key, value)) = split_once(entries[i].as_str(), Class::Only('=')) {
            env.insert(key, value);
        }
        i = i + 1;
    }
    proof {
        assert(s.take(s.len() as int) =~= s);
    }
    env
}

/// The arguments that lead into a sandbox, before those of the command.
pub open spec fn entry_args(pid: Option<i32>, dir: Seq<char>) -> Seq<Seq<char>> {
    match pid {
        Some(pid) => seq!["-a"@, "-t"@, signed(pid as int)],
        None => seq![merged_of(dir)],
    }
}

/// The command that runs `cmd` in a sandbox: through the namespaces of its process where that is
/// known, else with its files as the root directory.
pub fn exec_sandbox(sandbox: &SandboxMetadata, cmd: &Vec<String>, env_vars: &Vec<String>) -> (r:
    CommandPlan)
    ensures
        r.program@ == if sandbox.pid is Some {
            "nsenter"@
        } else {
            "chroot"@
        },
        r.args.deep_view() == entry_args(sandbox.pid, sandbox.dir@) + cmd.deep_view(),
        r.env.deep_view() == if sandbox.pid is Some {
            Some(env_with(base_env(), env_vars.deep_view()))
        } else {
            None
        },
        r.cgroup_procs.deep_view() == if sandbox.pid is Some {
            Some("/sys/fs/cgroup/moulin/"@ + sandbox.id@ + "/cgroup.procs"@)
        } else {
            None
        },
{
    let mut args: Vec<String> = Vec::new();
    let mut rest = cmd.clone();
    let ghost cv = cmd.deep_view();
    proof {
        assert(rest.deep_view() =~= cv);
    }
    if let Some(pid) = sandbox.pid {
        args.push("-a".to_owned());
        args.push("-t".to_owned());
        args.push(format_i32(pid));
        args.append(&mut rest);
        proof {
            assert(args.deep_view() =~= entry_args(sandbox.pid, sandbox.dir@) + cv);
        }
        CommandPlan {
            program: "nsenter".to_owned(),
            args,
            env: Some(command_env(env_vars)),
            cgroup_procs: Some(
                glue3("/sys/fs/cgroup/moulin/", sandbox.id.as_str(), "/cgroup.procs"),
            ),
        }
    } else {
        args.push(join(sandbox.dir.as_str(), "merged"));
        args.append(&mut rest);
        proof {
            assert(args.deep_view() =~= entry_args(sandbox.pid, sandbox.dir@) + cv);
        }
        CommandPlan { program: "chroot".to_owned(), args, env: None, cgroup_procs: None }
    }
}

/// Whether a text sets the variable: it starts with the key and an equals sign.
pub open spec fn sets(entry: Seq<char>, key: Seq<char>) -> bool {
    entry.len() > key.len() && entry.take(key.len() as int) == key && entry[key.len() as int] == '='
}

/// An entry that does not set a variable leaves it as it was.
proof fn lemma_other_entry(env: Seq<(Seq<char>, Seq<char>)>, entry: Seq<char>, key: Seq<char>)
    requires
        !sets(entry, key),
    ensures
        cut_once(entry, Class::Only('=')) matches Some((k, v)) ==> lookup(put(env, k, v), key)
            == lookup(env, key),
{
    lemma_first_of(entry, Class::Only('='));
    if let Some((k, v)) = cut_once(entry, Class::Only('=')) {
        if k == key {
            assert(sets(entry, key));
        }
        law_put_is_found(env, k, v, key);
    }
}

/// A variable that is set by no entry keeps the value that it had, or stays unset.
pub proof fn law_unset_variable_stays(
    env: Seq<(Seq<char>, Seq<char>)>,
    entries: Seq<Seq<char>>,
    key: Seq<char>,
)
    requires
        forall|j: int| 0 <= j < entries.len() ==> !sets(#[trigger] entries[j], key),
    ensures
        lookup(env_with(env, entries), key) == lookup(env, key),
    decreases entries.len(),
{
    if entries.len() > 0 {
        let before = entries.drop_last();
        assert forall|j: int| 0 <= j < before.len() implies !sets(#[trigger] before[j], key) by {
            assert(before[j] == entries[j]);
        }
        law_unset_variable_stays(env, before, key);
        assert(!sets(entries[entries.len() - 1], key));
        lemma_other_entry(env_with(env, before), entries.last(), key);
    }
}

/// A variable has the value that the last entry that sets it gives it, equals signs and all.
pub proof fn law_last_entry_sets_the_variable(
    env: Seq<(Seq<char>, Seq<char>)>,
    entries: Seq<Seq<char>>,
    i: int,
    key: Seq<char>,
    value: Seq<char>,
)
    requires
        0 <= i < entries.len(),
        entries[i] == key + seq!['='] + value,
        forall|k: int| 0 <= k < key.len() ==> #[trigger] key[k] != '=',
        forall|j: int| i < j < entries.len() ==> !sets(#[trigger] entries[j], key),
    ensures
        lookup(env_with(env, entries), key) == Some(value),
    decreases entries.len(),
{
    let before = entries.drop_last();
    if i == entries.len() - 1 {
        law_cut_at_the_first(key, '=', value, Class::Only('='));
        law_put_is_found(env_with(env, before), key, value, key);
    } else {
        assert(before[i] == entries[i]);
        assert forall|j: int| i < j < before.len() implies !sets(#[trigger] before[j], key) by {
            assert(before[j] == entries[j]);
        }
        law_last_entry_sets_the_variable(env, before, i, key, value);
        assert(!sets(entries[entries.len() - 1], key));
        lemma_other_entry(env_with(env, before), entries.last(), key);
    }
}

/// A command starts with a search path, a home, a place for temporary files and a terminal.
pub proof fn law_command_starts_with_four_variables()
    ensures
        lookup(base_env(), "PATH"@) == Some(
            "/usr/local/sbin:/usr/local/bin:/usr/sbin:/usr/bin:/sbin:/bin"@,
        ),
        lookup(base_env(), "HOME"@) == Some("/root"@),
        lookup(base_env(), "TMPDIR"@) == Some("/tmp"@),
        lookup(base_env(), "TERM"@) == Some("xterm"@),
        base_env().len() == 4,
{
    reveal_strlit("PATH");
    reveal_strlit("HOME");
    reveal_strlit("TMPDIR");
    reveal_strlit("TERM");
    assert("PATH"@[0] == 'P' && "HOME"@[0] == 'H' && "TMPDIR"@[1] == 'M' && "TERM"@[1] == 'E');
    assert("TMPDIR"@[0] == 'T' && "TERM"@[0] == 'T');
    crate::table::lemma_position_is(base_env(), "PATH"@, 0);
    crate::table::lemma_position_is(base_env(), "HOME"@, 1);
    crate::table::lemma_position_is(base_env(), "TMPDIR"@, 2);
    crate::table::lemma_position_is(base_env(), "TERM"@, 3);
}

/// A number in a file of a control group is read as the decimal number between the white space
/// around it, a limit is none where it reads `max`, and the number of an entry is the one behind the
/// name in the first line that starts with it.
pub proof fn law_usage_is_read(
    blank: Seq<char>,
    n: u64,
    tail: Seq<char>,
    before: Seq<Seq<char>>,
    name: Seq<char>,
    after: Seq<Seq<char>>,
)
    requires
        forall|i: int| 0 <= i < blank.len() ==> crate::text::is_white(#[trigger] blank[i]),
        forall|i: int| 0 <= i < tail.len() ==> crate::text::is_white(#[trigger] tail[i]),
        forall|i: int| 0 <= i < before.len() ==> !starts(#[trigger] before[i], name),
    ensures
        file_count(Some(blank + written(n as nat, 10) + tail)) == Some(n),
        file_limit(Some(blank + written(n as nat, 10) + tail)) == Some(n),
        file_limit(Some(blank + "max"@ + tail)) is None,
        file_count(None) is None && file_limit(None) is None,
        first_entry(before.push(name + tail) + after, name) == Some(tail),
        first_entry(before, name) is None,
{
    lemma_written(n as nat, 10);
    let w = written(n as nat, 10);
    assert forall|i: int| 0 <= i < w.len() implies !crate::text::is_white(#[trigger] w[i]) by {
        assert(is_digit(w[i], 10));
    }
    law_bare_drops_white(blank, w, tail);
    law_written_reads_back(n as nat, 10, u64::MAX as nat);
    reveal_strlit("max");
    assert(is_digit(w[0], 10));
    assert("max"@[0] == 'm');
    law_bare_drops_white(blank, "max"@, tail);
    lemma_first_entry(before, name, tail, after);
}

/// The first line with the name is found.
proof fn lemma_first_entry(
    before: Seq<Seq<char>>,
    name: Seq<char>,
    tail: Seq<char>,
    after: Seq<Seq<char>>,
)
    requires
        forall|i: int| 0 <= i < before.len() ==> !starts(#[trigger] before[i], name),
    ensures
        first_entry(before.push(name + tail) + after, name) == Some(tail),
        first_entry(before, name) is None,
    decreases before.len(),
{
    let all = before.push(name + tail) + after;
    if before.len() == 0 {
        assert(all[0] == name + tail);
        assert((name + tail).take(name.len() as int) =~= name);
        assert((name + tail).skip(name.len() as int) =~= tail);
    } else {
        let rest = before.drop_first();
        assert forall|i: int| 0 <= i < rest.len() implies !starts(#[trigger] rest[i], name) by {
            assert(rest[i] == before[i + 1]);
        }
        assert(!starts(before[0], name));
        lemma_first_entry(rest, name, tail, after);
        assert(all[0] == before[0]);
        assert(all.drop_first() =~= rest.push(name + tail) + after);
    }
}

/// Every figure comes from its own file: the number that the file holds is the one that is told, and
/// a process that is told to hold so many kibibytes holds 1024 times as many bytes.
pub proof fn law_figures_come_from_their_files(files: UsageFiles, n: Seq<u64>)
    requires
        n.len() == 9,
        n[2] * 1024 <= u64::MAX,
        files.memory_current.deep_view() == Some(written(n[0] as nat, 10)),
        files.memory_peak.deep_view() == Some(written(n[1] as nat, 10)),
        file_entry(files.status.deep_view(), "VmRSS:"@) matches Some(rest) && words(rest) == seq![
            written(n[2] as nat, 10),
            "kB"@,
        ],
        file_entry(files.cpu_stat.deep_view(), "usage_usec "@) == Some(written(n[3] as nat, 10)),
        files.pids_current.deep_view() == Some(written(n[4] as nat, 10)),
        files.memory_max.deep_view() == Some(written(n[5] as nat, 10)),
        files.cpu_max.deep_view() matches Some(s) && words(bare(s)) == seq![
            "max"@,
            written(n[6] as nat, 10),
        ],
        files.pids_max.deep_view() == Some(written(n[7] as nat, 10)),
        file_entry(files.memory_events.deep_view(), "oom_kill "@) == Some(written(n[8] as nat, 10)),
    ensures
        usage(files) == (SandboxRuntimeStatsResponse {
            memory_current_bytes: Some(n[0]),
            memory_peak_bytes: Some(n[1]),
            process_resident_bytes: Some((n[2] * 1024) as u64),
            cpu_usage_usec: Some(n[3]),
            pids_current: Some(n[4]),
            memory_limit_bytes: Some(n[5]),
            cpu_quota: None,
            cpu_period: Some(n[6]),
            pids_limit: Some(n[7]),
            oom_kill_count: Some(n[8]),
        }),
{
    let none = Seq::<char>::empty();
    assert forall|i: int| 0 <= i < 9 implies {
        &&& #[trigger] bare(written(n[i] as nat, 10)) == written(n[i] as nat, 10)
        &&& count_of(written(n[i] as nat, 10)) == Some(n[i])
        &&& limit_of(written(n[i] as nat, 10)) == Some(n[i])
    } by {
        let w = written(n[i] as nat, 10);
        law_usage_is_read(none, n[i], none, Seq::empty(), none, Seq::empty());
        assert(none + w + none =~= w);
        lemma_written(n[i] as nat, 10);
        assert forall|k: int| 0 <= k < w.len() implies !crate::text::is_white(#[trigger] w[k]) by {
            assert(is_digit(w[k], 10));
        }
        law_bare_drops_white(none, w, none);
    }
    assert(bare(written(n[0] as nat, 10)) == written(n[0] as nat, 10));
    assert(bare(written(n[1] as nat, 10)) == written(n[1] as nat, 10));
    assert(bare(written(n[2] as nat, 10)) == written(n[2] as nat, 10));
    assert(bare(written(n[3] as nat, 10)) == written(n[3] as nat, 10));
    assert(bare(written(n[4] as nat, 10)) == written(n[4] as nat, 10));
    assert(bare(written(n[5] as nat, 10)) == written(n[5] as nat, 10));
    assert(bare(written(n[6] as nat, 10)) == written(n[6] as nat, 10));
    assert(bare(written(n[7] as nat, 10)) == written(n[7] as nat, 10));
    assert(bare(written(n[8] as nat, 10)) == written(n[8] as nat, 10));
}

/// The control group of a sandbox is named by its id, below that of the program.
pub proof fn law_control_group_goes_by_id(id: Seq<char>)
    requires
        id.len() > 0,
        id[0] != '/',
    ensures
        cgroup_dir(id) == "/sys/fs/cgroup/moulin/"@ + id,
{
    reveal_strlit("/sys/fs/cgroup/moulin");
    reveal_strlit("/");
    reveal_strlit("/sys/fs/cgroup/moulin/");
    assert("/sys/fs/cgroup/moulin"@ + "/"@ =~= "/sys/fs/cgroup/moulin/"@);
}

} // verus!
