//! What sandboxes use and how commands get into them; mounts, copies and the records.
use moulin::metadata::{
    get_metadata_dir, get_volumes_dir, metadata_path, register_snapshot, Metadata, SandboxMetadata,
};
use moulin::os::linux::{
    cgroup_file, command_env, destroy_sandbox_os, exec_sandbox, get_sandbox_metrics, get_server_info,
    parse_limit_value, read_limit_file, read_oom_kill_count, read_proc_rss_bytes, read_resident_kib,
    read_u64_file, status_path, UsageFiles,
};
use moulin::os::macos::{
    build_instruction, failure_text, find_packages, get_cache_key_ext, is_skipped, rewrite_command,
    step_dir, LibraryEntry,
};
use moulin::overlay::OverlayMount;
use moulin::sandbox::{
    enforced_limits, limits_or_default, sandbox_cpu_cores, sandbox_disk_gib, sandbox_memory_gib,
    size_limits, ResourceLimits,
};
use moulin::snapshot::{
    get_bases_dir, get_build_artifacts_dir, get_cache_dir, get_data_dir, get_sandboxes_dir,
    get_snapshots_dir, hardlink_copy, CopyAction, CopyEvent, CopyStep, DirItem, EntryKind, TreeCopy,
};
use moulin::table::StringMap;

fn some(s: &str) -> Option<String> {
    Some(s.to_string())
}

fn sandbox(id: &str, pid: Option<i32>) -> SandboxMetadata {
    SandboxMetadata {
        id: id.to_string(),
        snapshot_id: String::new(),
        created_at: "t".to_string(),
        dir: format!("/s/{}", id),
        pid,
        ip: None,
        resources: ResourceLimits::default(),
        mounts: Vec::new(),
        name: None,
        state: "started".to_string(),
        user: None,
        env: StringMap::new(),
        labels: StringMap::new(),
        public: false,
        target: None,
        network_block_all: false,
        network_allow_list: None,
        auto_stop_interval: None,
        auto_archive_interval: None,
        auto_delete_interval: None,
        updated_at: None,
    }
}

#[test]
fn the_server_runs_on_linux() {
    let info = get_server_info();
    assert_eq!((info.os, info.degraded_mode, info.supports_image_exec), ("linux", false, true));
}

#[test]
fn files_hold_numbers_and_limits() {
    assert_eq!(read_u64_file(&some("4096\n")), Some(4096));
    assert_eq!(read_u64_file(&some("max\n")), None);
    assert_eq!(read_u64_file(&None), None);
    assert_eq!(read_limit_file(&some(" max \n")), None);
    assert_eq!(read_limit_file(&some("512\n")), Some(512));
    assert_eq!(parse_limit_value("max"), None);
    assert_eq!(parse_limit_value("7"), Some(7));
    assert_eq!(parse_limit_value("x"), None);
}

#[test]
fn kills_for_want_of_memory_are_counted() {
    assert_eq!(read_oom_kill_count(&some("low 0\noom 3\noom_kill 2\noom_kill 9\n")), Some(2));
    assert_eq!(read_oom_kill_count(&some("oom_kill x\noom_kill 9\n")), None);
    assert_eq!(read_oom_kill_count(&some("oom 1\n")), None);
    assert_eq!(read_oom_kill_count(&None), None);
}

#[test]
fn resident_memory_is_told_in_bytes() {
    let status = some("Name:\tx\nVmRSS:\t    2048 kB\nVmSwap: 1 kB\n");
    assert_eq!(read_resident_kib(&status), Some(2048));
    assert_eq!(read_proc_rss_bytes(&status), Some(2_097_152));
    assert_eq!(read_proc_rss_bytes(&some("VmRSS:\n")), None);
    assert_eq!(read_proc_rss_bytes(&some("Name: x\n")), None);
    assert_eq!(status_path(42), "/proc/42/status");
}

#[test]
fn usage_is_read_from_the_control_group() {
    let files = UsageFiles {
        memory_current: some("100\n"),
        memory_peak: some("200\n"),
        memory_max: some("max\n"),
        pids_current: some("3\n"),
        pids_max: some("512\n"),
        cpu_max: some("50000 100000\n"),
        cpu_stat: some("usage_usec 77\nuser_usec 1\n"),
        memory_events: some("oom_kill 1\n"),
        status: some("VmRSS: 1 kB\n"),
    };
    let r = get_sandbox_metrics(&files);
    assert_eq!(r.memory_current_bytes, Some(100));
    assert_eq!(r.memory_peak_bytes, Some(200));
    assert_eq!(r.memory_limit_bytes, None);
    assert_eq!(r.pids_current, Some(3));
    assert_eq!(r.pids_limit, Some(512));
    assert_eq!((r.cpu_quota, r.cpu_period), (Some(50_000), Some(100_000)));
    assert_eq!(r.cpu_usage_usec, Some(77));
    assert_eq!(r.oom_kill_count, Some(1));
    assert_eq!(r.process_resident_bytes, Some(1024));
    assert_eq!(cgroup_file("id", "memory.max"), "/sys/fs/cgroup/moulin/id/memory.max");
}

#[test]
fn usage_of_a_sandbox_without_files_is_unknown() {
    let files = UsageFiles {
        memory_current: None,
        memory_peak: None,
        memory_max: None,
        pids_current: None,
        pids_max: None,
        cpu_max: some("max 100000"),
        cpu_stat: None,
        memory_events: None,
        status: None,
    };
    let r = get_sandbox_metrics(&files);
    assert_eq!((r.cpu_quota, r.cpu_period), (None, Some(100_000)));
    assert_eq!(r.memory_current_bytes, None);
    assert_eq!(r.process_resident_bytes, None);
}

#[test]
fn commands_enter_through_the_process_of_the_sandbox() {
    let cmd = vec!["ls".to_string(), "-l".to_string()];
    let env = vec!["A=1".to_string(), "HOME=/x".to_string(), "broken".to_string()];
    let plan = exec_sandbox(&sandbox("id", Some(42)), &cmd, &env);
    assert_eq!(plan.program, "nsenter");
    assert_eq!(plan.args, vec!["-a", "-t", "42", "ls", "-l"]);
    assert_eq!(plan.cgroup_procs, some("/sys/fs/cgroup/moulin/id/cgroup.procs"));
    let env = plan.env.unwrap();
    assert_eq!(env.len(), 5);
    assert_eq!(env.get("HOME"), Some(&"/x".to_string()));
    assert_eq!(env.get("A"), Some(&"1".to_string()));
    assert_eq!(env.get("TERM"), Some(&"xterm".to_string()));
    assert_eq!(env.get("TMPDIR"), Some(&"/tmp".to_string()));
    assert_eq!(command_env(&Vec::new()).len(), 4);
}

#[test]
fn commands_enter_through_the_files_where_no_process_is_known() {
    let plan = exec_sandbox(&sandbox("id", None), &vec!["ls".to_string()], &Vec::new());
    assert_eq!(plan.program, "chroot");
    assert_eq!(plan.args, vec!["/s/id/merged", "ls"]);
    assert!(plan.env.is_none() && plan.cgroup_procs.is_none());
}

#[test]
fn a_sandbox_that_ends_leaves_its_mount() {
    let m = destroy_sandbox_os(&sandbox("id", None), "/s/id/merged");
    assert_eq!((m.upper_dir.as_str(), m.work_dir.as_str()), ("/s/id/upper", "/s/id/work"));
    assert_eq!(m.merged_dir, "/s/id/merged");
    assert!(m.lower_dirs.is_empty());
}

#[test]
fn the_top_layer_is_named_first() {
    let mount = |lower: &[&str]| {
        OverlayMount::new(
            lower.iter().map(|s| s.to_string()).collect(),
            "/u".to_string(),
            "/w".to_string(),
            "/m".to_string(),
        )
    };
    assert_eq!(
        mount(&["/l1", "/l2", "/l3"]).options("/e"),
        "lowerdir=/l3:/l2:/l1,upperdir=/u,workdir=/w"
    );
    assert_eq!(mount(&["/l1"]).options("/e"), "lowerdir=/l1,upperdir=/u,workdir=/w");
    assert_eq!(mount(&[]).options("/e"), "lowerdir=/e,upperdir=/u,workdir=/w");
}

#[test]
fn directories_of_the_program() {
    assert_eq!(get_data_dir("/root"), "/root/.moulin");
    assert_eq!(get_bases_dir("/root"), "/root/.moulin/bases");
    assert_eq!(get_cache_dir("/root"), "/root/.moulin/cache");
    assert_eq!(get_build_artifacts_dir("/root"), "/root/.moulin/build-artifacts");
    assert_eq!(get_snapshots_dir("/root"), "/root/.moulin/snapshots");
    assert_eq!(get_sandboxes_dir("/root"), "/root/.moulin/sandboxes");
    assert_eq!(get_volumes_dir("/root"), "/root/.moulin/volumes");
    assert_eq!(get_metadata_dir("/root"), "/root/.moulin/metadata");
    assert_eq!(metadata_path("/root"), "/root/.moulin/metadata/state.json");
}

#[test]
fn a_registered_snapshot_is_found() {
    let mut m = Metadata::default();
    let add = |m: &mut Metadata, path: &str, name: Option<String>| {
        register_snapshot(m, path.to_string(), None, Some(vec!["sh".to_string()]), None, name, None)
    };
    let one = add(&mut m, "/one", None);
    let two = add(&mut m, "/two", some("n"));
    assert_ne!(one, two);
    assert_eq!(one.len(), 36);
    let s = m.snapshots.get(&one).unwrap();
    assert_eq!((s.id.as_str(), s.path.as_str()), (one.as_str(), "/one"));
    assert_eq!(s.cmd, Some(vec!["sh".to_string()]));
    assert_eq!(m.snapshots.get(&two).unwrap().name, some("n"));
    assert!(m.snapshots.get("three").is_none());
}

#[test]
fn limits_have_defaults() {
    let d = limits_or_default(None);
    assert_eq!(d.memory_bytes, Some(1_073_741_824));
    assert_eq!((d.cpu_quota, d.cpu_period), (Some(100_000), Some(100_000)));
    assert_eq!((d.pids_max, d.disk_bytes), (Some(512), Some(2_147_483_648)));
    let partial = ResourceLimits {
        memory_bytes: Some(536_870_912),
        cpu_quota: None,
        cpu_period: None,
        pids_max: Some(128),
        disk_bytes: None,
    };
    assert_eq!(limits_or_default(Some(partial)), partial);
    let e = enforced_limits(&partial);
    assert_eq!((e.memory_bytes, e.pids_max), (Some(536_870_912), Some(128)));
    assert_eq!((e.cpu_quota, e.disk_bytes), (Some(100_000), Some(2_147_483_648)));
}

#[test]
fn sizes_that_were_asked_for_are_shown() {
    let r = size_limits(Some(2), Some(4), Some(10));
    assert_eq!(sandbox_cpu_cores(&r), 2);
    assert_eq!(sandbox_memory_gib(&r), 4);
    assert_eq!(sandbox_disk_gib(&r), 10);
    assert_eq!((r.cpu_quota, r.cpu_period), (Some(200_000), Some(100_000)));
    let huge = size_limits(Some(u64::MAX), Some(u64::MAX), None);
    assert_eq!((huge.cpu_quota, huge.memory_bytes), (Some(u64::MAX), Some(u64::MAX)));
    assert_eq!(huge.disk_bytes, Some(2_147_483_648));
}

#[test]
fn sizes_are_at_least_one() {
    let none = ResourceLimits {
        memory_bytes: None,
        cpu_quota: None,
        cpu_period: None,
        pids_max: None,
        disk_bytes: None,
    };
    assert_eq!(sandbox_cpu_cores(&none), 1);
    assert_eq!(sandbox_memory_gib(&none), 1);
    assert_eq!(sandbox_disk_gib(&none), 2);
    let half = ResourceLimits { cpu_quota: Some(50_000), cpu_period: Some(100_000), ..none };
    assert_eq!(sandbox_cpu_cores(&half), 1);
    let odd = ResourceLimits { cpu_quota: Some(5), cpu_period: Some(0), memory_bytes: Some(1), ..none };
    assert_eq!((sandbox_cpu_cores(&odd), sandbox_memory_gib(&odd)), (1, 1));
    let many = ResourceLimits { cpu_quota: Some(250_000), cpu_period: Some(100_000), ..none };
    assert_eq!(sandbox_cpu_cores(&many), 2);
}

fn item(name: &str, kind: EntryKind) -> DirItem {
    DirItem { name: name.as_bytes().to_vec(), kind }
}

fn shown(bytes: &[u8]) -> String {
    String::from_utf8(bytes.to_vec()).unwrap()
}

fn tell(action: &CopyAction) -> String {
    match action {
        CopyAction::MakeDir { dst, like } => format!(
            "dir {} {}",
            shown(dst),
            like.as_ref().map(|l| shown(l)).unwrap_or("-".to_string())
        ),
        CopyAction::List(src) => format!("list {}", shown(src)),
        CopyAction::MakeLink { src, dst } => format!("link {} {}", shown(src), shown(dst)),
        CopyAction::HardLink { src, dst } => format!("name {} {}", shown(src), shown(dst)),
        CopyAction::CopyFile { src, dst } => format!("copy {} {}", shown(src), shown(dst)),
    }
}

fn entries(dir: &str) -> Vec<DirItem> {
    match dir {
        "/a" => vec![item("x", EntryKind::File), item("d", EntryKind::Dir), item("l", EntryKind::Symlink)],
        "/a/d" => vec![item("y", EntryKind::File), item("z", EntryKind::File)],
        _ => Vec::new(),
    }
}

/// Copies the tree at `/a` to `/b`; `crossing` are the files that lie on another file system.
fn walk(crossing: &[&str]) -> Vec<String> {
    let mut told = Vec::new();
    let mut step = hardlink_copy(b"/a".to_vec(), b"/b".to_vec());
    loop {
        let (copy, action): (TreeCopy, CopyAction) = match step {
            CopyStep::Do { copy, action } => (copy, action),
            CopyStep::Done => return told,
            CopyStep::Fail(e) => panic!("{}", e.message()),
        };
        told.push(tell(&action));
        let event = match &action {
            CopyAction::List(src) => CopyEvent::Listed(entries(&shown(src))),
            CopyAction::HardLink { src, .. } if crossing.contains(&shown(src).as_str()) => {
                CopyEvent::Failed { code: Some(18), text: "cross-device".to_string() }
            }
            _ => CopyEvent::Done,
        };
        step = copy.advance(event);
    }
}

#[test]
fn a_tree_is_copied_to_the_same_places() {
    assert_eq!(
        walk(&[]),
        vec![
            "dir /b -",
            "list /a",
            "name /a/x /b/x",
            "dir /b/d /a/d",
            "list /a/d",
            "name /a/d/y /b/d/y",
            "name /a/d/z /b/d/z",
            "link /a/l /b/l",
        ]
    );
}

#[test]
fn a_tree_on_another_file_system_is_copied_in_full() {
    assert_eq!(
        walk(&["/a/x", "/a/d/y", "/a/d/z"]),
        vec![
            "dir /b -",
            "list /a",
            "name /a/x /b/x",
            "copy /a/x /b/x",
            "list /a",
            "copy /a/x /b/x",
            "dir /b/d /a/d",
            "list /a/d",
            "copy /a/d/y /b/d/y",
            "copy /a/d/z /b/d/z",
            "link /a/l /b/l",
        ]
    );
}

#[test]
fn a_directory_on_another_file_system_is_walked_through_again() {
    let told = walk(&["/a/d/z"]);
    assert_eq!(told.iter().filter(|t| *t == "list /a/d").count(), 2);
    assert_eq!(told.last().unwrap(), "link /a/l /b/l");
    assert!(told.contains(&"name /a/x /b/x".to_string()));
    assert!(told.contains(&"copy /a/d/y /b/d/y".to_string()));
}

#[test]
fn any_other_failure_ends_a_copy() {
    let first = match hardlink_copy(b"/a/".to_vec(), b"/b".to_vec()) {
        CopyStep::Do { copy, .. } => copy,
        _ => panic!("a start"),
    };
    match first.advance(CopyEvent::Failed { code: Some(18), text: "no".to_string() }) {
        CopyStep::Fail(e) => assert_eq!(e.message(), "no"),
        _ => panic!("a failure"),
    }
}

#[test]
fn commands_of_another_system_are_passed_over() {
    for cmd in ["apt-get install x", "dpkg -i x", "apt update"] {
        assert!(is_skipped(cmd));
        let step = build_instruction(cmd, "/m", "/", &Vec::new(), &Vec::new());
        assert!(step.is_none());
    }
    // The text alone counts, wherever it stands.
    assert!(is_skipped("adapt x"));
    assert!(!is_skipped("npm install"));
}

#[test]
fn commands_are_led_into_the_image() {
    assert_eq!(rewrite_command("echo > /usr/x && cat /etc/y", "/m"), "echo > /m/usr/x && cat /m/etc/y");
    assert_eq!(rewrite_command("pip3 install x", "/m"), "python3 -m pip install x");
    assert_eq!(rewrite_command("pip install x", "/m"), "python3 -m pip install x");
    assert_eq!(
        rewrite_command("a && pip install x && pip3 install y", "/m"),
        "a && python3 -m pip install x && python3 -m pip install y"
    );
    assert_eq!(rewrite_command("npm install --ignore-scripts", "/m"), "npm install");
    assert_eq!(step_dir("/", "/m"), "/m");
    assert_eq!(step_dir("//app", "/m"), "/m/app");
}

#[test]
fn build_steps_see_the_packages_of_the_image() {
    let libraries = vec![
        LibraryEntry { name: "node".to_string(), path: "/m/l/node".to_string(), has_packages: true },
        LibraryEntry { name: "python3".to_string(), path: "/m/l/python3".to_string(), has_packages: false },
        LibraryEntry { name: "python3.9".to_string(), path: "/m/l/python3.9".to_string(), has_packages: true },
    ];
    assert_eq!(find_packages(&libraries), some("/m/l/python3.9/site-packages"));
    assert_eq!(find_packages(&Vec::new()), None);
    let env = vec!["A=1".to_string(), "PUPPETEER_SKIP_CHROMIUM_DOWNLOAD=1".to_string(), "x".to_string()];
    let step = build_instruction("python3 x.py", "/m", "/app", &env, &libraries).unwrap();
    assert_eq!((step.command.as_str(), step.dir.as_str()), ("python3 x.py", "/m/app"));
    assert_eq!(step.env.len(), 3);
    assert_eq!(step.env.get("PYTHONPATH"), Some(&"/m/l/python3.9/site-packages".to_string()));
    let step = build_instruction("pip install y", "/m", "/", &env, &libraries).unwrap();
    assert!(step.env.contains_key("PIP_TARGET") && !step.env.contains_key("PYTHONPATH"));
}

#[test]
fn failed_build_steps_are_told() {
    assert_eq!(failure_text("make", ""), "macOS build command failed: make");
    assert_eq!(failure_text("make", "no"), "macOS build command failed: make stderr: no");
    assert_eq!(get_cache_key_ext(&b"Python 3.12.1\n".to_vec()), "Python 3.12.1");
}
