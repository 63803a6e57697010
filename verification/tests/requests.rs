//! Commands, files, listings, images and addresses.
use moulin::build::cache::{BuildCachePruneMode, BuildCacheScope};
use moulin::error::Error;
use moulin::metadata::{Metadata, MountConfig, SandboxMetadata, SnapshotMetadata, VolumeMetadata};
use moulin::path::is_under;
use moulin::sandbox::ResourceLimits;
use moulin::server::api::{
    cache_entries, default_client_only, reply, BuildCachePruneRequest, E2eRunRequest,
    SandboxRuntimeStatsResponse,
};
use moulin::server::daytona::{
    count_or, filter_sandboxes, handle_daytona_list_sandboxes,
    handle_daytona_list_sandboxes_paginated, handle_daytona_preview_lookup,
    handle_daytona_preview_url, handle_daytona_signed_preview_url,
    handle_daytona_toolbox_proxy_url, parse_label_filter, parse_states, request_base_url,
    sandbox_matches_filter, sandbox_to_daytona_value, token_lifetime, SandboxFilter,
};
use moulin::server::exec::{
    check_command, check_shell_command, env_of_snapshot, exec_response, exit_event, handle_exec,
    e2e_response, handle_run_e2e, handle_toolbox_execute, shell_command, signal_name, stream_step, toolbox_result,
    wants_second_count, ProcessOutput, Read, StreamSource,
};
use moulin::server::files::{
    accept_upload, decode_upload, deleted_message, encode_download, extract_toolbox_upload_index,
    field_kind, file_info_value, file_part, folder_mode, handle_toolbox_bulk_download, is_file_field,
    listed_path, multipart_body, open_file, open_move, parent_dir, required_file, uploaded_message,
    written_message, FieldContent, FieldKind, FilePart, FileStat, Purpose, Uploads,
};
use moulin::server::images::{
    build_snapshot_from_paths, extract_snapshot_config, handle_build_cache_prune, handle_image_list,
    handle_sandbox_info, handle_toolbox_work_dir, image_definition, image_path, images_root_dir,
    inline_build_dir, new_inline_build_dir, resolve_image_dir, resumed_message, suspended_message,
    ImageEntry,
};
use moulin::server::lifecycle::record_sandbox;
use moulin::server::paths::{
    is_readonly_mount, resolve_file_path, resolve_sandbox_path, Answer, Question, Resolution,
};
use moulin::server::web::{
    error_json, failure_status, forwarded_status, handle_proxy, handle_sandbox_url,
    proxy_to_sandbox, routes, success_status, unreachable_answer, Endpoint, Method, ProxyStep,
    Stumble, BODY_LIMIT, PORT,
};
use moulin::table::StringMap;

fn some(s: &str) -> Option<String> {
    Some(s.to_string())
}

fn sandbox(id: &str) -> SandboxMetadata {
    SandboxMetadata {
        id: id.to_string(),
        snapshot_id: "snap".to_string(),
        created_at: "t0".to_string(),
        dir: format!("/s/{}", id),
        pid: None,
        ip: None,
        resources: ResourceLimits::default(),
        mounts: Vec::new(),
        name: None,
        state: "started".to_string(),
        user: None,
        env: StringMap::new(),
        labels: StringMap::new(),
        public: false,
        target: None,
        network_block_all: false,
        network_allow_list: None,
        auto_stop_interval: None,
        auto_archive_interval: None,
        auto_delete_interval: None,
        updated_at: None,
    }
}

fn mount(volume: &str, path: &str, subpath: Option<&str>, readonly: bool) -> MountConfig {
    MountConfig {
        volume_id: volume.to_string(),
        mount_path: path.to_string(),
        subpath: subpath.map(|s| s.to_string()),
        readonly,
    }
}

/// Records with the sandbox `a`, in which a volume is mounted twice.
fn records() -> Metadata {
    let mut m = Metadata::default();
    m.volumes.insert(
        "v".to_string(),
        VolumeMetadata {
            id: "v".to_string(),
            name: "data".to_string(),
            path: "/vol/v".to_string(),
            created_at: "t".to_string(),
        },
    );
    let mut s = sandbox("a");
    s.mounts.push(mount("v", "/data", None, false));
    s.mounts.push(mount("v", "/ro/", Some("sub"), true));
    s.mounts.push(mount("gone", "/lost", None, false));
    record_sandbox(&mut m, &s);
    m.snapshots.insert(
        "snap".to_string(),
        SnapshotMetadata {
            id: "snap".to_string(),
            path: "/p".to_string(),
            created_at: "t".to_string(),
            entrypoint: None,
            cmd: None,
            env: Some(vec!["A=1".to_string()]),
            name: None,
            description: None,
        },
    );
    m
}

fn message<T>(r: Result<T, Error>) -> String {
    match r {
        Ok(_) => panic!("no failure"),
        Err(e) => e.message(),
    }
}

/// A file system: what is there, and where symbolic links lead.
struct Host {
    there: Vec<&'static str>,
    real: Vec<(&'static str, &'static str)>,
    links: Vec<(&'static str, &'static str)>,
}

impl Host {
    fn answer(&self, q: Question) -> Answer {
        match q {
            Question::Exists(p) => Answer::Flag(self.there.contains(&p.as_str())),
            Question::Canonicalize(p) => {
                match self.real.iter().find(|(from, _)| *from == p) {
                    Some((_, to)) => Answer::Path(to.to_string()),
                    None if self.there.contains(&p.as_str()) => Answer::Path(p),
                    None => Answer::Failed("not found".to_string()),
                }
            }
            Question::IsSymlink(p) => Answer::Flag(self.links.iter().any(|(from, _)| *from == p)),
            Question::ReadLink(p) => {
                let (_, to) = self.links.iter().find(|(from, _)| *from == p).unwrap();
                Answer::Path(to.to_string())
            }
        }
    }

    fn run(&self, start: Resolution) -> Result<String, String> {
        let mut at = start;
        loop {
            match at {
                Resolution::Done(p) => return Ok(p),
                Resolution::Refused(e) => return Err(e.message()),
                Resolution::Ask(r) => {
                    let q = r.question();
                    at = r.advance(self.answer(q));
                }
            }
        }
    }
}

fn plain_host() -> Host {
    Host { there: vec!["/m", "/m/etc", "/m/etc/passwd"], real: Vec::new(), links: Vec::new() }
}

fn resolved(host: &Host, path: &str) -> Result<String, String> {
    host.run(resolve_sandbox_path("/m", path))
}

#[test]
fn a_resolved_path_lies_in_the_root() {
    let host = plain_host();
    for (path, expected) in [
        ("/etc/passwd", "/m/etc/passwd"),
        ("etc/passwd", "/m/etc/passwd"),
        ("/etc/new/file", "/m/etc/new/file"),
        ("new", "/m/new"),
        ("///etc", "/m/etc"),
    ] {
        let found = resolved(&host, path).unwrap();
        assert_eq!(found, expected);
        assert!(is_under(&found, "/m"));
    }
}

#[test]
fn two_dots_are_refused() {
    for path in ["..", "/..", "a/../b", "//../etc", "a/.."] {
        assert_eq!(
            resolved(&plain_host(), path),
            Err("Path contains '..' traversal component".to_string())
        );
    }
    assert_eq!(resolved(&plain_host(), "a..b"), Ok("/m/a..b".to_string()));
}

#[test]
fn links_do_not_lead_out_of_the_root() {
    let host = Host {
        there: vec!["/m", "/m/out", "/m/in", "/real"],
        real: vec![("/m", "/real"), ("/m/out", "/etc"), ("/m/in", "/real/x")],
        links: Vec::new(),
    };
    assert_eq!(
        resolved(&host, "out"),
        Err("Resolved path escapes sandbox root (possible symlink attack)".to_string())
    );
    assert_eq!(
        resolved(&host, "out/new"),
        Err("Resolved path escapes sandbox root (possible symlink attack)".to_string())
    );
    assert_eq!(resolved(&host, "in"), Ok("/real/x".to_string()));
    assert_eq!(resolved(&host, "in/new"), Ok("/real/x/new".to_string()));
}

#[test]
fn a_link_that_appears_late_is_followed_before_it_is_trusted() {
    let mut host = Host {
        there: vec!["/m", "/m/l", "/etc/passwd", "/m/x/t"],
        real: vec![("/m/l", "/m/x/l")],
        links: vec![("/m/x/l", "/etc/passwd")],
    };
    assert_eq!(
        resolved(&host, "l"),
        Err("Symlink target escapes sandbox root".to_string())
    );
    host.links = vec![("/m/x/l", "t")];
    assert_eq!(resolved(&host, "l"), Ok("/m/x/l".to_string()));
}

#[test]
fn a_link_to_nothing_does_not_lead_out_of_the_root() {
    let mut host = Host {
        there: vec!["/m", "/m/d", "/out", "/", "/m/../out"],
        real: vec![("/m/../out", "/out")],
        links: Vec::new(),
    };
    let out = Err("Symlink target escapes sandbox root".to_string());
    for (link, target, path) in [
        ("/m/l", "/out/x", "/l"),
        ("/m/l", "/out/x", "/l/below"),
        ("/m/l", "../out/x", "l"),
        ("/m/d/l", "/none/at/all", "d/l/"),
        ("/m/l", "none/../../out/x", "/l"),
    ] {
        host.links = vec![(link, target)];
        assert_eq!(resolved(&host, path), out);
    }
    for (link, target, path, expected) in [
        ("/m/l", "/m/x", "/l", "/m/l"),
        ("/m/l", "d/x/y", "/l", "/m/l"),
        ("/m/d/l", "x", "/d/l/below", "/m/d/l/below"),
        ("/m/l", "l", "/l", "/m/l"),
        ("/m/l", "none/../x", "/l", "/m/l"),
        ("/m/d/l", "none/../../x", "/d/l", "/m/d/l"),
        ("/m/l", "/none/../m/x", "/l", "/m/l"),
    ] {
        host.links = vec![(link, target)];
        assert_eq!(resolved(&host, path), Ok(expected.to_string()));
    }
    host.links = vec![("/m/l", "k"), ("/m/k", "/out/x")];
    assert_eq!(resolved(&host, "/l"), out);
    host.links = vec![("/m/l", "k/y"), ("/m/k", "d/x")];
    assert_eq!(resolved(&host, "/l"), Ok("/m/l".to_string()));
}

/// Answers for `/m` with the links `l`, `lx`, `lxx` and so on, `hops` and one more of them: each leads
/// to the next, and the last one to `end`.
fn chained(q: Question, hops: usize, end: &str) -> Answer {
    let is_link = |p: &str| {
        p.starts_with("/m/l") && p.len() <= 4 + hops && p[4..].chars().all(|c| c == 'x')
    };
    match q {
        Question::Exists(p) => Answer::Flag(p == "/m" || p == "/out"),
        Question::Canonicalize(p) => Answer::Path(p),
        Question::IsSymlink(p) => Answer::Flag(is_link(&p)),
        Question::ReadLink(p) if p.len() == 4 + hops => Answer::Path(end.to_string()),
        Question::ReadLink(p) => Answer::Path(format!("{}x", p)),
    }
}

fn end_of_chain(hops: usize, end: &str) -> (Result<String, String>, usize) {
    let mut at = resolve_sandbox_path("/m", "l");
    let mut read = 0;
    loop {
        match at {
            Resolution::Done(p) => return (Ok(p), read),
            Resolution::Refused(e) => return (Err(e.message()), read),
            Resolution::Ask(r) => {
                let q = r.question();
                if matches!(q, Question::ReadLink(_)) {
                    read += 1;
                }
                at = r.advance(chained(q, hops, end));
            }
        }
    }
}

#[test]
fn long_chains_of_links_are_followed_to_their_end() {
    let out = Err("Symlink target escapes sandbox root".to_string());
    for hops in [0, 1, 39, 40, 41, 100] {
        assert_eq!(end_of_chain(hops, "/m/none"), (Ok("/m/l".to_string()), hops + 1));
        assert_eq!(end_of_chain(hops, "/m/l"), (Ok("/m/l".to_string()), hops + 1));
        assert_eq!(end_of_chain(hops, "/out/x"), (out.clone(), hops + 1));
    }
}

#[test]
fn a_path_without_anything_there_is_refused() {
    let host = Host { there: Vec::new(), real: Vec::new(), links: Vec::new() };
    assert_eq!(
        resolved(&host, "x"),
        Err("No existing ancestor directory found".to_string())
    );
    let failing = Host { there: vec!["/m/x"], real: Vec::new(), links: Vec::new() };
    assert_eq!(resolved(&failing, "x"), Err("not found".to_string()));
    let above = host.run(resolve_sandbox_path("..", "x"));
    assert_eq!(above, Err("Missing file name component".to_string()));
}

fn located(path: &str) -> Result<String, String> {
    let m = records();
    let host = Host { there: vec!["/s/a/merged"], real: Vec::new(), links: Vec::new() };
    host.run(resolve_file_path(m.sandboxes.get("a").unwrap(), &m, path))
}

#[test]
fn a_mounted_path_lies_in_the_volume() {
    for (path, expected) in [
        ("/data", "/vol/v"),
        ("/data/", "/vol/v"),
        ("/data/x/y", "/vol/v/x/y"),
        ("/ro/x", "/vol/v/sub/x"),
        ("/ro", "/vol/v/sub"),
        ("/data//x", "/vol/v/x"),
    ] {
        let found = located(path).unwrap();
        assert_eq!(found, expected);
        assert!(is_under(&found, "/vol/v"));
    }
    assert_eq!(located("/data/../x"), Err("Path contains '..' traversal component".to_string()));
    assert_eq!(located("/lost/x"), Err("Volume gone not found".to_string()));
}

#[test]
fn an_absolute_subpath_stays_in_the_volume() {
    let mut m = records();
    let mut s = sandbox("b");
    s.mounts.push(mount("v", "/abs", Some("/etc"), false));
    s.mounts.push(mount("v", "/top", Some("//"), false));
    record_sandbox(&mut m, &s);
    let host = plain_host();
    for (path, expected) in [
        ("/abs/passwd", "/vol/v/etc/passwd"),
        ("/abs", "/vol/v/etc"),
        ("/top/x", "/vol/v/x"),
        ("/top", "/vol/v"),
    ] {
        let found = host.run(resolve_file_path(&s, &m, path)).unwrap();
        assert_eq!(found, expected);
        assert!(is_under(&found, "/vol/v"));
    }
}

#[test]
fn one_mount_decides() {
    assert_eq!(located("/database"), Ok("/s/a/merged/database".to_string()));
    let m = records();
    let s = m.sandboxes.get("a").unwrap();
    assert!(is_readonly_mount(s, "/ro") && is_readonly_mount(s, "/ro/x/"));
    assert!(!is_readonly_mount(s, "/data/x") && !is_readonly_mount(s, "/rooms"));
    let mut both = sandbox("b");
    both.mounts.push(mount("v", "/d", None, true));
    both.mounts.push(mount("v", "/d/e", None, false));
    assert!(is_readonly_mount(&both, "/d/e/f"));
    let mut inner = sandbox("c");
    inner.mounts.push(mount("v", "/data", None, false));
    inner.mounts.push(mount("w", "/data/ro", None, true));
    assert!(is_readonly_mount(&inner, "/data/ro/x") && is_readonly_mount(&inner, "/data/ro"));
    assert!(!is_readonly_mount(&inner, "/data/rox") && !is_readonly_mount(&inner, "/data"));
}

fn opening(path: &str, purpose: Purpose) -> Result<String, String> {
    let host = Host { there: vec!["/s/a/merged"], real: Vec::new(), links: Vec::new() };
    host.run(open_file(&records(), "a", path, purpose))
}

#[test]
fn what_can_only_be_read_is_not_changed() {
    for (purpose, text) in [
        (Purpose::Write, "Cannot write to read-only volume mount"),
        (Purpose::Delete, "Cannot delete from read-only volume mount"),
        (Purpose::Upload, "Cannot upload to read-only volume mount"),
        (Purpose::BulkUpload, "Cannot upload to read-only volume mount: /ro/x"),
        (Purpose::CreateFolder, "Cannot create folder in read-only volume mount"),
    ] {
        assert_eq!(opening("/ro/x", purpose), Err(text.to_string()));
        assert_eq!(opening("/data/x", purpose), Ok("/vol/v/x".to_string()));
    }
    assert_eq!(opening("/data/x", Purpose::Read), Ok("/vol/v/x".to_string()));
    assert_eq!(opening("/ro/x", Purpose::Read), Ok("/vol/v/sub/x".to_string()));
    let host = plain_host();
    assert_eq!(
        host.run(open_file(&records(), "zz", "/x", Purpose::Read)),
        Err("Sandbox zz not found".to_string())
    );
}

#[test]
fn nothing_is_moved_into_or_out_of_what_can_only_be_read() {
    let m = records();
    let refused = "Cannot move files into or out of a read-only volume mount";
    assert_eq!(message(open_move(&m, "a", "/ro/x", "/data/x")), refused);
    assert_eq!(message(open_move(&m, "a", "/data/x", "/ro/x")), refused);
    assert_eq!(message(open_move(&m, "b", "/x", "/y")), "Sandbox b not found");
    let plan = open_move(&m, "a", "/data/x", "/data/y").unwrap();
    assert!(matches!(plan.source, Resolution::Done(p) if p == "/vol/v/x"));
    assert!(matches!(plan.destination, Resolution::Done(p) if p == "/vol/v/y"));
}

#[test]
fn an_upload_gives_back_what_was_downloaded() {
    for bytes in [Vec::new(), vec![0u8], vec![0, 255, 16], (0..=255u8).collect::<Vec<u8>>()] {
        let data = encode_download(&bytes);
        assert_eq!(decode_upload(&data).unwrap(), bytes);
        assert_eq!(encode_download(&decode_upload(&data).unwrap()), data);
    }
    assert_eq!(encode_download(&vec![0, 255, 16]), "AP8Q");
    assert_eq!(encode_download(&vec![0, 1, 2, 3, 4, 5, 6, 7]), "AAECAwQFBgc=");
    assert_eq!(decode_upload("AP8Q").unwrap(), vec![0, 255, 16]);
    assert!(message(decode_upload("***")).starts_with("Invalid base64 data: "));
    assert_eq!(message(accept_upload(Err("x".to_string()))), "Invalid base64 data: x");
}

#[test]
fn files_are_told_by_messages() {
    assert_eq!(written_message("/a"), "File /a written successfully");
    assert_eq!(deleted_message("/a"), "File /a deleted successfully");
    assert_eq!(uploaded_message("/a", 10535055), "File /a uploaded successfully (10535055 bytes)");
    assert_eq!(listed_path(&None), ".");
    assert_eq!(listed_path(&some("/x")), "/x");
    assert_eq!(parent_dir("/a/b"), some("/a"));
    assert_eq!(parent_dir("/"), None);
}

#[test]
fn folder_modes_are_octal() {
    assert_eq!(folder_mode("0755"), Some(0o755));
    assert_eq!(folder_mode("700"), Some(0o700));
    assert_eq!(folder_mode("000"), None);
    assert_eq!(folder_mode("rwx"), None);
    assert_eq!(folder_mode("0o755"), None);
}

#[test]
fn a_file_is_told() {
    let stat = FileStat {
        is_dir: false,
        size: 5,
        modified_secs: 1_700_000_000,
        modified_nanos: 0,
        mode: 0o100640,
        uid: 0,
        gid: 1000,
    };
    let info = file_info_value("/m/etc/passwd", &stat);
    assert_eq!((info.name.as_str(), info.is_dir, info.size), ("passwd", false, 5));
    assert_eq!(info.mod_time, "2023-11-14T22:13:20+00:00");
    assert_eq!((info.mode.as_str(), info.permissions.as_str()), ("-rw-r--r--", "0640"));
    assert_eq!((info.owner.as_str(), info.group.as_str()), ("0", "1000"));
    let dir = file_info_value("/", &FileStat { is_dir: true, mode: 0o40755, ..stat });
    assert_eq!((dir.name.as_str(), dir.mode.as_str(), dir.permissions.as_str()), ("", "drwxr-xr-x", "0755"));
}

#[test]
fn a_reply_holds_every_file() {
    let parts = vec![
        file_part("/a", Ok(vec![1, 2])),
        file_part("/b", Err(Error::Outside("gone".to_string()))),
    ];
    let body = multipart_body("B", &parts);
    let mut expected = b"--B\r\nContent-Disposition: form-data; name=\"file\"; filename=\"/a\"\r\nContent-Type: application/octet-stream\r\n\r\n\x01\x02\r\n".to_vec();
    expected.extend_from_slice(b"--B\r\nContent-Disposition: form-data; name=\"error\"; filename=\"/b\"\r\nContent-Type: text/plain\r\n\r\ngone\r\n--B--\r\n");
    assert_eq!(body, expected);
    let none: Vec<FilePart> = Vec::new();
    assert_eq!(multipart_body("B", &none), b"--B--\r\n".to_vec());
    let reply = handle_toolbox_bulk_download(&parts);
    let boundary = reply.content_type.strip_prefix("multipart/form-data; boundary=").unwrap();
    assert!(boundary.starts_with("boundary") && boundary.len() == 40 && !boundary.contains('-'));
    assert_eq!(reply.body, multipart_body(boundary, &parts));
}

#[test]
fn upload_fields_are_sorted_out() {
    assert_eq!(extract_toolbox_upload_index("files[0].path"), some("0"));
    assert_eq!(extract_toolbox_upload_index("files[a]b]"), some("a"));
    assert_eq!(extract_toolbox_upload_index("files[0"), None);
    assert_eq!(extract_toolbox_upload_index("file"), None);
    assert!(field_kind("files[0].path") == FieldKind::Path);
    assert!(field_kind("files[0].file") == FieldKind::File);
    assert!(field_kind("files[0].x") == FieldKind::Other);
    assert!(is_file_field(&some("file")) && !is_file_field(&some("files")) && !is_file_field(&None));
    assert_eq!(required_file(Some(vec![1])).unwrap(), vec![1]);
    assert_eq!(message(required_file(None)), "file is required");
}

#[test]
fn uploads_come_out_by_index() {
    let mut u = Uploads::new();
    u.add("10", FieldContent::Path("/ten".to_string()));
    u.add("2", FieldContent::File(vec![2]));
    u.add("10", FieldContent::File(vec![10]));
    u.add("2", FieldContent::Path("/old".to_string()));
    u.add("2", FieldContent::Path("/two".to_string()));
    let all = u.finish().unwrap();
    assert_eq!(all.len(), 2);
    assert_eq!((all[0].path.as_str(), all[0].bytes.clone()), ("/ten", vec![10]));
    assert_eq!((all[1].path.as_str(), all[1].bytes.clone()), ("/two", vec![2]));
}

#[test]
fn incomplete_uploads_are_refused() {
    assert_eq!(message(Uploads::new().finish()), "No files uploaded");
    let mut u = Uploads::new();
    u.add("b", FieldContent::Nothing);
    u.add("a", FieldContent::Path("/x".to_string()));
    assert_eq!(message(u.finish()), "files[a].file is required");
    let mut u = Uploads::new();
    u.add("a", FieldContent::File(Vec::new()));
    assert_eq!(message(u.finish()), "files[a].path is required");
}

#[test]
fn commands_need_words() {
    assert_eq!(message(check_command(&Vec::new())), "Command cannot be empty");
    assert_eq!(message(handle_exec(&records(), "none", &Vec::new())), "Command cannot be empty");
    assert_eq!(message(check_shell_command(" \n")), "command is required");
    assert_eq!(message(handle_toolbox_execute(&records(), "none", " ", &None)), "command is required");
    assert!(check_shell_command("ls").is_ok());
}

#[test]
fn commands_see_the_environment_of_the_snapshot() {
    let mut m = records();
    assert_eq!(env_of_snapshot(&m, m.sandboxes.get("a").unwrap()), vec!["A=1"]);
    let mut s = sandbox("p");
    s.pid = Some(7);
    record_sandbox(&mut m, &s);
    let plan = handle_exec(&m, "p", &vec!["ls".to_string()]).unwrap();
    assert_eq!((plan.program.as_str(), plan.args.len()), ("nsenter", 4));
    assert_eq!(plan.env.unwrap().get("A"), Some(&"1".to_string()));
    s.id = "q".to_string();
    s.snapshot_id = "unknown".to_string();
    record_sandbox(&mut m, &s);
    let plan = handle_exec(&m, "q", &vec!["ls".to_string()]).unwrap();
    assert_eq!(plan.env.unwrap().get("A"), None);
    assert_eq!(message(handle_exec(&m, "z", &vec!["ls".to_string()])), "Sandbox z not found");
}

#[test]
fn shell_commands_change_the_directory() {
    assert_eq!(shell_command("ls", &None), vec!["sh", "-lc", "ls"]);
    assert_eq!(shell_command("ls", &some("  ")), vec!["sh", "-lc", "ls"]);
    assert_eq!(shell_command("ls", &some("/a b")), vec!["sh", "-lc", "cd \"/a b\" && ls"]);
    assert_eq!(shell_command("ls", &some("a\"b")), vec!["sh", "-lc", "cd \"a\\\"b\" && ls"]);
    let plan = handle_toolbox_execute(&records(), "a", "ls", &some("/x")).unwrap();
    assert_eq!(plan.args, vec!["/s/a/merged", "sh", "-lc", "cd \"/x\" && ls"]);
}

fn output(code: Option<i32>, signal: Option<i32>) -> ProcessOutput {
    ProcessOutput { code, signal, stdout: b"out".to_vec(), stderr: vec![b'e', 0xff] }
}

#[test]
fn a_kill_for_want_of_memory_is_told() {
    let r = exec_response(&output(None, Some(9)), Some(1), Some(2));
    assert_eq!((r.exit_code, r.signal, r.oom_killed), (-1, some("SIGKILL"), Some(true)));
    assert_eq!(
        r.stderr,
        "e\u{fffd}\n[moulin] Process was OOM-killed: memory usage exceeded the sandbox limit."
    );
    assert!(wants_second_count(None, Some(9)));
    let r = exec_response(&output(None, Some(9)), Some(2), Some(2));
    assert_eq!((r.oom_killed, r.stderr.as_str()), (Some(false), "e\u{fffd}"));
    let r = exec_response(&output(None, Some(9)), None, Some(2));
    assert_eq!(r.oom_killed, None);
}

#[test]
fn other_endings_are_told() {
    let r = exec_response(&output(Some(3), None), Some(1), Some(2));
    assert_eq!((r.stdout.as_str(), r.exit_code, r.signal, r.oom_killed), ("out", 3, None, None));
    let r = exec_response(&output(None, Some(15)), Some(1), Some(2));
    assert_eq!((r.signal, r.oom_killed), (some("SIGTERM"), None));
    let r = exec_response(&output(None, None), Some(1), Some(2));
    assert_eq!((r.exit_code, r.signal), (-1, None));
    assert!(!wants_second_count(Some(9), Some(9)) && !wants_second_count(None, Some(11)));
    let t = toolbox_result(&output(None, Some(9)));
    assert_eq!((t.exit_code, t.result.as_str()), (-1, "oute\u{fffd}"));
}

#[test]
fn signals_have_names() {
    for (n, name) in [
        (1, "SIGHUP"),
        (2, "SIGINT"),
        (6, "SIGABRT"),
        (9, "SIGKILL"),
        (11, "SIGSEGV"),
        (13, "SIGPIPE"),
        (14, "SIGALRM"),
        (15, "SIGTERM"),
        (3, "SIG3"),
        (-4, "SIG-4"),
    ] {
        assert_eq!(signal_name(n), name);
    }
}

#[test]
fn output_is_streamed_until_it_ends() {
    let e = stream_step(StreamSource::Stdout, &Read::Bytes(b"hi".to_vec())).unwrap();
    assert_eq!((e.event.as_str(), e.data.as_str()), ("stdout", "hi"));
    let e = stream_step(StreamSource::Stderr, &Read::Bytes(vec![0xff])).unwrap();
    assert_eq!((e.event.as_str(), e.data.as_str()), ("stderr", "\u{fffd}"));
    assert!(stream_step(StreamSource::Stdout, &Read::Bytes(Vec::new())).is_none());
    assert!(stream_step(StreamSource::Stdout, &Read::Failed).is_none());
    assert_eq!((exit_event(Some(2)).event, exit_event(Some(2)).data), ("exit".to_string(), "2".to_string()));
    assert_eq!(exit_event(None).data, "-1");
}

#[test]
fn end_to_end_tests_are_run_by_node() {
    let words = |client_only: bool, test: Option<&str>| {
        handle_run_e2e(&E2eRunRequest { client_only, test: test.map(|t| t.to_string()) })
    };
    assert_eq!(words(false, None), vec!["node", "test/run_e2e.js"]);
    assert_eq!(words(true, Some(" x ")), vec!["node", "test/run_e2e.js", "--client", "--test=x"]);
    assert_eq!(words(true, Some(" ")), vec!["node", "test/run_e2e.js", "--client"]);
    assert!(default_client_only());
}

#[test]
fn a_run_of_the_tests_is_told() {
    let output = ProcessOutput {
        code: Some(3),
        signal: None,
        stdout: b"out".to_vec(),
        stderr: vec![b'e', 0xff],
    };
    let told = e2e_response(vec!["node".to_string()], &output, 17);
    assert_eq!(told.command, vec!["node"]);
    assert_eq!((told.exit_code, told.duration_ms), (3, 17));
    assert_eq!((told.stdout.as_str(), told.stderr.as_str()), ("out", "e\u{fffd}"));
    let killed = ProcessOutput { code: None, signal: Some(9), ..output };
    assert_eq!(e2e_response(Vec::new(), &killed, 0).exit_code, -1);
}

#[test]
fn addresses_follow_the_headers() {
    assert_eq!(request_base_url(&None, &None), "http://localhost:3000");
    assert_eq!(request_base_url(&some("https"), &some("h.io")), "https://h.io");
}

#[test]
fn a_sandbox_is_told_to_a_client() {
    let mut s = sandbox("a");
    s.resources.cpu_quota = Some(300_000);
    let d = sandbox_to_daytona_value(&s, "http://h");
    assert_eq!((d.id.as_str(), d.name.as_str(), d.organization_id.as_str()), ("a", "a", "local"));
    assert_eq!((d.cpu, d.gpu, d.memory, d.disk), (3, 0, 1, 2));
    assert_eq!((d.snapshot.as_str(), d.state.as_str()), ("snap", "started"));
    assert_eq!((d.created_at.as_str(), d.updated_at.as_str()), ("t0", "t0"));
    assert_eq!(d.toolbox_proxy_url, "http://h/toolbox");
    assert_eq!((d.daemon_version.as_str(), d.runner_id.as_str()), ("local", "local"));
    s.name = some("n");
    s.updated_at = some("t1");
    s.mounts.push(mount("v", "/d", None, true));
    let d = sandbox_to_daytona_value(&s, "http://h");
    assert_eq!((d.name.as_str(), d.updated_at.as_str(), d.volumes.len()), ("n", "t1", 1));
}

#[test]
fn labels_are_read_from_json() {
    let t = parse_label_filter(&some("{\"b\":\"2\",\"a\":\"1\",\"a\":\"3\"}")).unwrap();
    assert_eq!((t.len(), t.get("a"), t.get("b")), (2, Some(&"3".to_string()), Some(&"2".to_string())));
    assert_eq!(parse_label_filter(&None).unwrap().len(), 0);
    assert_eq!(parse_label_filter(&some(" ")).unwrap().len(), 0);
    assert!(parse_label_filter(&some("[]")).is_err());
    assert!(parse_label_filter(&some("{\"a\":1}")).is_err());
    assert_eq!(parse_states(&some(" started, ,stopped ")), vec!["started", "stopped"]);
    assert!(parse_states(&None).is_empty() && parse_states(&some("")).is_empty());
}

fn filter(labels: &[(&str, &str)], states: &[&str], name: Option<&str>) -> SandboxFilter {
    let mut table = StringMap::new();
    for (k, v) in labels {
        table.insert(k.to_string(), v.to_string());
    }
    SandboxFilter {
        labels: table,
        states: states.iter().map(|s| s.to_string()).collect(),
        name: name.map(|n| n.to_string()),
    }
}

fn many() -> Metadata {
    let mut m = Metadata::default();
    for (i, at) in ["2026-01-03", "2026-01-01", "2026-01-05", "2026-01-02", "2026-01-04"].iter().enumerate() {
        let mut s = sandbox(&format!("s{}", i));
        s.created_at = at.to_string();
        s.labels.insert("even".to_string(), (i % 2 == 0).to_string());
        if i == 4 {
            s.state = "stopped".to_string();
            s.name = some("last");
        }
        record_sandbox(&mut m, &s);
    }
    m
}

#[test]
fn a_listing_is_exact() {
    let m = many();
    let ids = |f: &SandboxFilter| -> Vec<String> {
        filter_sandboxes(&m, f).into_iter().map(|s| s.id).collect()
    };
    assert_eq!(ids(&filter(&[], &[], None)).len(), 5);
    assert_eq!(ids(&filter(&[("even", "true")], &[], None)), vec!["s0", "s2", "s4"]);
    assert_eq!(ids(&filter(&[("even", "true")], &["started"], None)), vec!["s0", "s2"]);
    assert_eq!(ids(&filter(&[], &["stopped", "gone"], None)), vec!["s4"]);
    assert_eq!(ids(&filter(&[], &[], Some("last"))), vec!["s4"]);
    assert_eq!(ids(&filter(&[], &[], Some("s1"))), vec!["s1"]);
    assert!(ids(&filter(&[("even", "true"), ("x", "y")], &[], None)).is_empty());
    for f in [filter(&[("even", "false")], &[], None), filter(&[], &["started"], None)] {
        for i in 0..m.sandboxes.len() {
            let s = m.sandboxes.value_at(i);
            assert_eq!(ids(&f).contains(&s.id), sandbox_matches_filter(s, &f));
        }
    }
    assert_eq!(handle_daytona_list_sandboxes(&m, &filter(&[], &[], None), "b").len(), 5);
}

#[test]
fn pages_cover_all() {
    let m = many();
    let none = filter(&[], &[], None);
    let mut seen = Vec::new();
    for page in 1..=3usize {
        let p = handle_daytona_list_sandboxes_paginated(&m, &none, Some(page), Some(2), "b");
        assert_eq!((p.total, p.total_pages, p.page), (5, 3, page));
        assert!(p.items.len() <= 2);
        seen.extend(p.items.into_iter().map(|d| d.created_at));
    }
    assert_eq!(seen, vec!["2026-01-05", "2026-01-04", "2026-01-03", "2026-01-02", "2026-01-01"]);
    let past = handle_daytona_list_sandboxes_paginated(&m, &none, Some(4), Some(2), "b");
    assert!(past.items.is_empty());
    let odd = handle_daytona_list_sandboxes_paginated(&m, &none, Some(0), Some(0), "b");
    assert_eq!((odd.page, odd.items.len(), odd.total_pages), (1, 1, 5));
    let all = handle_daytona_list_sandboxes_paginated(&m, &none, None, None, "b");
    assert_eq!((all.items.len(), all.total_pages), (5, 1));
    let empty = handle_daytona_list_sandboxes_paginated(&Metadata::default(), &none, None, None, "b");
    assert_eq!((empty.total, empty.total_pages), (0, 0));
    assert_eq!((count_or(None, 20), count_or(Some(0), 20), count_or(Some(7), 20)), (20, 1, 7));
}

#[test]
fn a_token_leads_back() {
    let mut m = records();
    let mut s = sandbox("00000000-0000-4000-8000-000000000000");
    s.name = some("n");
    record_sandbox(&mut m, &s);
    let p = handle_daytona_signed_preview_url(&m, "n", 8080, "http://h").unwrap();
    assert_eq!(p.url, format!("http://h/api/sandbox/{}/proxy/8080", s.id));
    assert_eq!(p.token.len(), 36 + 1 + 36);
    assert_eq!(handle_daytona_preview_lookup(&p.token).unwrap(), s.id);
    let p = handle_daytona_preview_url(&m, "n", 80, "http://h").unwrap();
    assert_eq!((p.token.as_str(), p.port, p.sandbox_id.as_str()), (s.id.as_str(), 80, s.id.as_str()));
    assert_eq!(handle_daytona_preview_lookup(&p.token).unwrap(), s.id);
    assert_eq!(message(handle_daytona_preview_lookup(".x")), "Invalid preview token");
    assert_eq!(message(handle_daytona_preview_lookup("")), "Invalid preview token");
    assert_eq!(message(handle_daytona_preview_url(&m, "x", 1, "b")), "Sandbox x not found");
    assert_eq!(message(handle_daytona_signed_preview_url(&m, "x", 1, "b")), "Sandbox x not found");
    assert_eq!((token_lifetime(None), token_lifetime(Some(5))), (60, 5));
    assert_eq!(handle_daytona_toolbox_proxy_url(&m, "n", "http://h").unwrap(), "http://h/toolbox");
    assert_eq!(message(handle_daytona_toolbox_proxy_url(&m, "x", "b")), "Sandbox x not found");
}

#[test]
fn an_image_lies_in_its_directory() {
    assert_eq!(images_root_dir("/p"), "/p/images");
    assert_eq!(image_path("/p", "python").unwrap(), "/p/images/python");
    assert!(is_under(&image_path("/p", ".").unwrap(), "/p/images"));
    for name in ["", "a/b", "..", "a..b"] {
        assert_eq!(message(image_path("/p", name)), format!("Invalid image name: {}", name));
    }
    assert_eq!(resolve_image_dir("/p", "x", true, true).unwrap(), "/p/images/x");
    assert_eq!(message(resolve_image_dir("/p", "x", false, false)), "Image x not found");
    assert_eq!(message(resolve_image_dir("/p", "x", true, false)), "Image x is missing Dockerfile");
    assert_eq!(message(resolve_image_dir("/p", "a/b", false, false)), "Invalid image name: a/b");
}

#[test]
fn image_definitions_are_listed_by_name() {
    let entry = |name: &str, is_dir: bool, dockerfile: Option<&str>| ImageEntry {
        name: name.to_string(),
        dir: format!("/p/images/{}", name),
        is_dir,
        dockerfile: dockerfile.map(|d| d.to_string()),
    };
    let all = vec![
        entry("vue", true, Some("FROM v")),
        entry("notes", true, None),
        entry("file", false, Some("FROM f")),
        entry("nginx", true, Some("FROM n")),
    ];
    let listed = handle_image_list(&all);
    assert_eq!(listed.len(), 2);
    assert_eq!((listed[0].name.as_str(), listed[1].name.as_str()), ("nginx", "vue"));
    assert_eq!(listed[0].dockerfile_path, "/p/images/nginx/Dockerfile");
    assert_eq!(listed[0].context_path, "/p/images/nginx");
    assert_eq!(image_definition("n", "/d", "c").dockerfile_content, "c");
}

#[test]
fn a_built_snapshot_keeps_how_it_is_run() {
    let c = extract_snapshot_config("FROM a\nENV A=1\nCMD x\nENV B=2\nENTRYPOINT [\"e\"]\nCMD [\"y\",\"z\"]\n");
    assert_eq!(c.entrypoint, Some(vec!["e".to_string()]));
    assert_eq!(c.cmd, Some(vec!["y".to_string(), "z".to_string()]));
    assert_eq!(c.env, Some(vec!["A=1".to_string(), "B=2".to_string()]));
    let none = extract_snapshot_config("FROM a\n");
    assert!(none.entrypoint.is_none() && none.cmd.is_none() && none.env.is_none());
    let mut m = Metadata::default();
    let r = build_snapshot_from_paths(&mut m, "/snap".to_string(), "FROM a\nENV A=1\n", some("n"), None);
    assert_eq!(r.snapshot_path, "/snap");
    let s = m.snapshots.get(&r.snapshot_id).unwrap();
    assert_eq!((s.name.clone(), s.env.clone()), (some("n"), Some(vec!["A=1".to_string()])));
    assert_eq!(inline_build_dir("/tmp", "u"), "/tmp/moulin-daytona-build-u");
    assert_eq!(new_inline_build_dir("/tmp").len(), "/tmp/moulin-daytona-build-".len() + 36);
}

#[test]
fn pruning_goes_by_what_is_asked_for() {
    let mode = |clear_all: bool, key: Option<&str>, md5: Option<&str>| {
        handle_build_cache_prune(BuildCachePruneRequest {
            clear_all,
            cache_key: key.map(|s| s.to_string()),
            dockerfile_md5: md5.map(|s| s.to_string()),
        })
    };
    assert!(matches!(mode(true, Some("k"), Some("m")), BuildCachePruneMode::ClearAll));
    assert!(matches!(mode(false, Some("k"), Some("m")),
        BuildCachePruneMode::Scope(BuildCacheScope::CacheKey(k)) if k == "k"));
    assert!(matches!(mode(false, None, Some("m")),
        BuildCachePruneMode::Scope(BuildCacheScope::DockerfileMd5(d)) if d == "m"));
    assert!(matches!(mode(false, None, None), BuildCachePruneMode::RemoveMissingOnly));
    assert!(cache_entries(&Vec::new()).is_empty());
}

#[test]
fn small_replies() {
    let m = records();
    let stats = SandboxRuntimeStatsResponse {
        memory_current_bytes: Some(1),
        memory_peak_bytes: None,
        process_resident_bytes: None,
        cpu_usage_usec: None,
        pids_current: None,
        memory_limit_bytes: None,
        cpu_quota: None,
        cpu_period: None,
        pids_limit: None,
        oom_kill_count: None,
    };
    let info = handle_sandbox_info(&m, "a", stats).unwrap();
    assert_eq!((info.id.as_str(), info.stats.memory_current_bytes), ("a", Some(1)));
    assert_eq!(message(handle_sandbox_info(&m, "b", stats)), "Sandbox b not found");
    assert_eq!(suspended_message("a"), "Suspended sandbox a");
    assert_eq!(resumed_message("a"), "Resumed sandbox a");
    assert_eq!(handle_toolbox_work_dir(&m, "a").unwrap(), "/");
    assert_eq!(message(handle_toolbox_work_dir(&m, "b")), "Sandbox b not found");
}

#[test]
fn replies_hold_data_or_an_error() {
    let good = reply::<String>(Ok("x".to_string()));
    assert_eq!((good.success, good.data, good.error), (true, some("x"), None));
    let bad = reply::<String>(Err(Error::Outside("y".to_string())));
    assert_eq!((bad.success, bad.data, bad.error), (false, None, some("y")));
}

#[test]
fn every_address_is_answered_once() {
    let all = routes();
    assert_eq!(all.len(), 53);
    for (i, a) in all.iter().enumerate() {
        for b in &all[i + 1..] {
            assert!(a.method != b.method || a.path != b.path);
        }
    }
    let has = |method: Method, path: &str| all.iter().any(|r| r.method == method && r.path == path);
    assert!(has(Method::Delete, "/api/sandbox/{id_or_name}"));
    assert!(has(Method::Post, "/api/start") && has(Method::Put, "/api/sandbox/{id_or_name}/labels"));
    assert_eq!((PORT, BODY_LIMIT), (3000, 50 * 1024 * 1024));
}

#[test]
fn failures_are_told_by_status() {
    for (endpoint, panicked, records, refused) in [
        (Endpoint::DaytonaGetSandbox, 500, 500, 404),
        (Endpoint::DaytonaToolboxProxyUrl, 500, 500, 404),
        (Endpoint::ToolboxWorkDir, 500, 500, 404),
        (Endpoint::DaytonaListSandboxes, 500, 500, 400),
        (Endpoint::DaytonaListSandboxesPaginated, 500, 500, 400),
        (Endpoint::DaytonaDeleteSandbox, 500, 404, 404),
        (Endpoint::DaytonaCreateSandbox, 500, 400, 400),
        (Endpoint::DaytonaPreviewLookup, 500, 400, 400),
        (Endpoint::ToolboxMoveFile, 500, 400, 400),
        (Endpoint::FileRead, 200, 200, 200),
        (Endpoint::Start, 200, 200, 200),
    ] {
        assert_eq!(failure_status(endpoint, Stumble::Panicked), panicked);
        assert_eq!(failure_status(endpoint, Stumble::Records), records);
        assert_eq!(failure_status(endpoint, Stumble::Refused), refused);
    }
    let reply = error_json(
        Endpoint::ToolboxExecute,
        Stumble::Refused,
        &Error::Plain(moulin::error::Fault::CommandRequired),
    );
    assert_eq!((reply.status, reply.message.as_str()), (400, "command is required"));
    assert_eq!(success_status(Endpoint::ToolboxDeleteFile), 204);
    assert_eq!(success_status(Endpoint::ToolboxMoveFile), 200);
}

#[test]
fn requests_are_passed_on_to_the_sandbox() {
    let mut m = records();
    let mut s = sandbox("p");
    s.ip = some("10.200.0.2");
    record_sandbox(&mut m, &s);
    let known = Some(m);
    let told = |id: &str, path: &str| match proxy_to_sandbox(&known, id, 8080, path) {
        ProxyStep::Forward(url) => url,
        ProxyStep::Answer { status, body } => format!("{} {}", status, body),
    };
    assert_eq!(told("p", ""), "http://10.200.0.2:8080/");
    assert_eq!(told("p", "a/b"), "http://10.200.0.2:8080/a/b");
    assert_eq!(told("a", "x"), "http://127.0.0.1:8080/x");
    assert_eq!(told("z", ""), "404 Sandbox z not found");
    match proxy_to_sandbox(&None, "a", 1, "") {
        ProxyStep::Answer { status, body } => {
            assert_eq!((status, body.as_str()), (500, "Failed to load metadata"))
        }
        ProxyStep::Forward(_) => panic!("nothing is known"),
    }
    match unreachable_answer("refused".to_string()) {
        ProxyStep::Answer { status, body } => {
            assert_eq!((status, body.as_str()), (502, "Proxy error: refused"))
        }
        ProxyStep::Forward(_) => panic!("an answer"),
    }
    assert_eq!(handle_proxy("//a/"), "a/");
    assert_eq!((forwarded_status(204), forwarded_status(99), forwarded_status(1000)), (204, 502, 502));
}

#[test]
fn the_address_of_a_port_follows_the_host() {
    let m = records();
    assert_eq!(
        handle_sandbox_url(&m, "a", 80, &some("h:1")).unwrap(),
        "http://h:1/api/sandbox/a/proxy/80"
    );
    assert_eq!(
        handle_sandbox_url(&m, "a", 80, &None).unwrap(),
        "http://localhost:3000/api/sandbox/a/proxy/80"
    );
    assert_eq!(message(handle_sandbox_url(&m, "b", 80, &None)), "Sandbox b not found");
}
