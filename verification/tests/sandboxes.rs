//! Making, changing and removing sandboxes, snapshots and volumes.
use moulin::metadata::{
    register_snapshot, touch_build_artifact, Metadata, MountConfig, SandboxMetadata, SnapshotMetadata,
    VolumeMetadata,
};
use moulin::path::is_under;
use moulin::sandbox::ResourceLimits;
use moulin::server::api::{
    DaytonaCreateSandboxRequest, DaytonaVolumeMountRequest, SandboxCreateOptions, StartRequest,
};
use moulin::server::lifecycle::{
    asked_mounts, bind_mount, bind_mounts, change_sandbox, change_sandbox_at, delete_sandbox,
    delete_snapshot, delete_volume, destroyed_message, find_sandbox_by_id_or_name, find_snapshot,
    handle_daytona_create_sandbox, handle_start, idle_command, image_for_language, list_all,
    list_volumes, merged_dir_of, newest_snapshot, plan_sandbox_as, plan_snapshot, plan_volume,
    record_sandbox, record_snapshot, record_volume, record_volume_at,
    resolve_snapshot_for_daytona_create, sandbox_by_id, sandbox_name_matches, sandbox_named,
    snapshot_id_at, start_sandbox_instance, started_at, started_now, volume_deleted_message, Change,
    SnapshotChoice, VolumePlan, Wanted,
};
use moulin::table::StringMap;

fn some(s: &str) -> Option<String> {
    Some(s.to_string())
}

fn sandbox(id: &str, name: Option<&str>) -> SandboxMetadata {
    SandboxMetadata {
        id: id.to_string(),
        snapshot_id: "snap".to_string(),
        created_at: "t0".to_string(),
        dir: format!("/s/{}", id),
        pid: None,
        ip: None,
        resources: ResourceLimits::default(),
        mounts: Vec::new(),
        name: name.map(|n| n.to_string()),
        state: "started".to_string(),
        user: None,
        env: StringMap::new(),
        labels: StringMap::new(),
        public: false,
        target: None,
        network_block_all: false,
        network_allow_list: None,
        auto_stop_interval: None,
        auto_archive_interval: None,
        auto_delete_interval: None,
        updated_at: None,
    }
}

fn snapshot(id: &str, path: &str, at: &str, name: Option<&str>) -> SnapshotMetadata {
    SnapshotMetadata {
        id: id.to_string(),
        path: path.to_string(),
        created_at: at.to_string(),
        entrypoint: None,
        cmd: None,
        env: None,
        name: name.map(|n| n.to_string()),
        description: None,
    }
}

fn mount(volume: &str, path: &str, subpath: Option<&str>, readonly: bool) -> MountConfig {
    MountConfig {
        volume_id: volume.to_string(),
        mount_path: path.to_string(),
        subpath: subpath.map(|s| s.to_string()),
        readonly,
    }
}

fn with_volume(id: &str) -> Metadata {
    let mut m = Metadata::default();
    m.volumes.insert(
        id.to_string(),
        VolumeMetadata {
            id: id.to_string(),
            name: "data".to_string(),
            path: format!("/v/{}", id),
            created_at: "t0".to_string(),
        },
    );
    m
}

fn request() -> DaytonaCreateSandboxRequest {
    DaytonaCreateSandboxRequest {
        name: None,
        snapshot: None,
        user: None,
        env: StringMap::new(),
        labels: StringMap::new(),
        public: None,
        network_block_all: None,
        network_allow_list: None,
        target: None,
        cpu: None,
        gpu: None,
        memory: None,
        disk: None,
        auto_stop_interval: None,
        auto_archive_interval: None,
        auto_delete_interval: None,
        volumes: Vec::new(),
        dockerfile_content: None,
    }
}

fn message<T>(r: Result<T, moulin::error::Error>) -> String {
    match r {
        Ok(_) => panic!("no failure"),
        Err(e) => e.message(),
    }
}

#[test]
fn accepted_mounts_are_sound() {
    let m = with_volume("v1");
    let all = vec![mount("v1", "/data", None, false), mount("v1", "/ro", Some("a/b"), true)];
    let bound = bind_mounts(&m, &all).unwrap();
    assert_eq!(bound.len(), 2);
    assert_eq!((bound[0].host_path.as_str(), bound[0].container_path.as_str()), ("/v/v1", "/data"));
    assert_eq!((bound[1].host_path.as_str(), bound[1].readonly), ("/v/v1/a/b", true));
    for (subpath, expected) in [("", "/v/v1"), ("/etc", "/v/v1/etc"), ("//", "/v/v1")] {
        let host_path = bind_mount(&m, &mount("v1", "/x", Some(subpath), false)).unwrap().host_path;
        assert_eq!(host_path, expected);
        assert!(is_under(&host_path, "/v/v1"));
    }
}

#[test]
fn mounts_are_refused_for_what_is_wrong_with_the_first() {
    let m = with_volume("v1");
    let told = |mc: MountConfig| message(bind_mount(&m, &mc));
    assert_eq!(told(mount("v2", "data", None, false)), "Volume v2 not found");
    assert_eq!(told(mount("v1", "data", None, false)), "mount_path must be absolute: data");
    assert_eq!(told(mount("v1", "", None, false)), "mount_path must be absolute: ");
    assert_eq!(told(mount("v1", "/a..b", None, false)), "mount_path must not contain '..': /a..b");
    assert_eq!(told(mount("v1", "/a", Some("x/../y"), false)), "subpath must not contain '..'");
    assert!(bind_mount(&m, &mount("v1", "/a", Some("x..y"), false)).is_ok());
    let all = vec![
        mount("v1", "/a", None, false),
        mount("v1", "b", None, false),
        mount("v2", "/c", None, false),
    ];
    assert_eq!(message(bind_mounts(&m, &all)), "mount_path must be absolute: b");
}

#[test]
fn a_sandbox_has_a_directory_of_its_own() {
    let empty = Metadata::default();
    let snap = || "/snap".to_string();
    let plan =
        plan_sandbox_as(&empty, "/root", snap(), "id".to_string(), &Vec::new()).unwrap();
    assert_eq!(plan.dir, "/root/.moulin/sandboxes/id");
    assert_eq!(plan.overlay.lower_dirs, vec!["/snap"]);
    assert_eq!(plan.overlay.upper_dir, "/root/.moulin/sandboxes/id/upper");
    assert_eq!(plan.overlay.work_dir, "/root/.moulin/sandboxes/id/work");
    assert_eq!(plan.overlay.merged_dir, "/root/.moulin/sandboxes/id/merged");
    let a = start_sandbox_instance(&empty, "/root", snap(), &Vec::new()).unwrap();
    let b = start_sandbox_instance(&empty, "/root", snap(), &Vec::new()).unwrap();
    assert_ne!(a.dir, b.dir);
    assert_eq!(a.dir, format!("/root/.moulin/sandboxes/{}", a.id));
    assert!(is_under(&a.overlay.merged_dir, "/root/.moulin/sandboxes"));
    for place in [&a.overlay.upper_dir, &a.overlay.work_dir, &a.overlay.merged_dir] {
        assert!(is_under(place, &a.dir));
        assert!(!is_under(place, &b.dir));
    }
    assert_eq!(a.id.len(), 36);
    let bad = vec![mount("none", "/a", None, false)];
    let refused = start_sandbox_instance(&empty, "/root", snap(), &bad);
    assert_eq!(message(refused), "Volume none not found");
    assert_eq!(idle_command(), vec!["tail", "-f", "/dev/null"]);
}

#[test]
fn a_started_sandbox_is_found() {
    let mut m = Metadata::default();
    let plan = plan_sandbox_as(&m, "/root", "/snap".to_string(), "id".to_string(), &Vec::new()).unwrap();
    let mut options = SandboxCreateOptions::default();
    options.name = some("box");
    options.public = true;
    options.auto_stop_interval = Some(15);
    let s = started_at(
        &plan,
        "snap".to_string(),
        ResourceLimits::default(),
        vec![mount("v", "/d", None, true)],
        options,
        "t1".to_string(),
        "t2".to_string(),
    );
    assert_eq!((s.state.as_str(), s.created_at.as_str(), s.updated_at.clone()), ("started", "t1", some("t2")));
    record_sandbox(&mut m, &s);
    record_sandbox(&mut m, &sandbox("other", None));
    let found = sandbox_by_id(&m, "id").unwrap();
    assert_eq!(found.dir, "/root/.moulin/sandboxes/id");
    assert_eq!((found.name.clone(), found.public, found.auto_stop_interval), (some("box"), true, Some(15)));
    assert_eq!((found.pid, found.ip.clone(), found.mounts.len()), (None, None, 1));
    assert_eq!(sandbox_named(&m, "box").unwrap().id, "id");
    assert_eq!(sandbox_by_id(&m, "other").unwrap().id, "other");
    assert_eq!(message(sandbox_by_id(&m, "box")), "Sandbox box not found");
    let now = started_now(
        &plan,
        String::new(),
        ResourceLimits::default(),
        Vec::new(),
        SandboxCreateOptions::default(),
    );
    assert!(now.created_at.ends_with("+00:00"));
}

#[test]
fn a_request_is_taken_apart() {
    let mut r = request();
    r.cpu = Some(2);
    r.memory = Some(4);
    r.name = some("n");
    r.public = Some(true);
    r.labels.insert("k".to_string(), "v".to_string());
    r.volumes.push(DaytonaVolumeMountRequest {
        volume_id: "v1".to_string(),
        mount_path: "/d".to_string(),
        subpath: some("s"),
        readonly: true,
    });
    assert_eq!(asked_mounts(&r.volumes).len(), 1);
    let asked = handle_daytona_create_sandbox(r);
    assert_eq!(asked.resources.cpu_quota, Some(200_000));
    assert_eq!(asked.resources.memory_bytes, Some(4_294_967_296));
    assert_eq!(asked.resources.disk_bytes, Some(2_147_483_648));
    assert_eq!((asked.options.name.clone(), asked.options.public), (some("n"), true));
    assert!(!asked.options.network_block_all);
    assert_eq!(asked.options.labels.get("k"), Some(&"v".to_string()));
    let mc = &asked.mounts[0];
    assert_eq!((mc.volume_id.as_str(), mc.subpath.clone(), mc.readonly), ("v1", some("s"), true));
}

#[test]
fn a_request_for_a_path_takes_the_newest_snapshot_there() {
    let mut m = Metadata::default();
    for s in [
        snapshot("a", "/p", "2026-01-01", None),
        snapshot("b", "/p/", "2026-01-03", None),
        snapshot("c", "/q", "2026-01-09", None),
        snapshot("d", "/p", "2026-01-02", None),
    ] {
        m.snapshots.insert(s.id.clone(), s);
    }
    assert_eq!(snapshot_id_at(&m, "/p"), "b");
    assert_eq!(snapshot_id_at(&m, "/none"), "");
    let asked = handle_start(
        &m,
        StartRequest { snapshot: "/p".to_string(), resources: None, mounts: vec![mount("v", "/d", None, false)] },
    );
    assert_eq!((asked.snapshot_path.as_str(), asked.snapshot_id.as_str()), ("/p", "b"));
    assert_eq!(asked.resources, ResourceLimits::default());
    assert_eq!(asked.mounts.len(), 1);
    assert_eq!((asked.options.name, asked.options.public), (None, false));
}

#[test]
fn the_newest_is_newest() {
    let mut m = Metadata::default();
    for (id, at) in [("a", "2026-03-01"), ("b", "2026-03-03"), ("c", "2026-03-02")] {
        m.snapshots.insert(id.to_string(), snapshot(id, "/x", at, Some("img")));
    }
    let newest = newest_snapshot(&m.snapshots, &Wanted::Named("img")).unwrap();
    assert_eq!(newest.id, "b");
    for i in 0..m.snapshots.len() {
        assert!(m.snapshots.value_at(i).created_at <= newest.created_at);
    }
    assert_eq!(find_snapshot(&m.snapshots, &Wanted::Named("img")).unwrap().id, "a");
    assert!(newest_snapshot(&m.snapshots, &Wanted::Named("none")).is_none());
    m.snapshots.insert("d".to_string(), snapshot("d", "/x", "2026-03-03", Some("img")));
    assert_eq!(newest_snapshot(&m.snapshots, &Wanted::Named("img")).unwrap().id, "d");
}

fn choice(m: &Metadata, r: &DaytonaCreateSandboxRequest, exists: bool) -> String {
    match resolve_snapshot_for_daytona_create(m, r, exists) {
        Ok(SnapshotChoice::Use { id, path }) => format!("use {} {}", id, path),
        Ok(SnapshotChoice::BuildFile { dockerfile, name, description }) => {
            format!("file {} {:?} {}", dockerfile, name, description)
        }
        Ok(SnapshotChoice::BuildImage { image, description }) => format!("image {} {}", image, description),
        Err(e) => e.message(),
    }
}

#[test]
fn a_snapshot_is_named_by_id_or_name_or_path() {
    let mut m = Metadata::default();
    m.snapshots.insert("a".to_string(), snapshot("a", "/pa", "1", Some("base")));
    m.snapshots.insert("b".to_string(), snapshot("b", "/pb", "2", Some("a")));
    let mut r = request();
    r.dockerfile_content = some("FROM x");
    for (reference, exists, expected) in [
        ("a", false, "use a /pa"),
        ("base", false, "use a /pa"),
        ("/pb", true, "use b /pb"),
        ("/new", true, "use  /new"),
        ("/new", false, "Snapshot /new not found"),
    ] {
        r.snapshot = some(reference);
        assert_eq!(choice(&m, &r, exists), expected);
    }
}

#[test]
fn a_dockerfile_comes_before_the_language() {
    let mut r = request();
    r.name = some("n");
    r.dockerfile_content = some("FROM x");
    assert_eq!(
        choice(&Metadata::default(), &r, false),
        "file FROM x Some(\"n\") Built from Daytona buildInfo"
    );
}

#[test]
fn the_language_names_the_image() {
    let mut m = Metadata::default();
    let mut r = request();
    assert_eq!(choice(&m, &r, false), "image python Auto-built for Daytona compatibility");
    r.labels.insert("code-toolbox-language".to_string(), "typescript".to_string());
    assert_eq!(choice(&m, &r, false), "image nextjs Auto-built for Daytona compatibility");
    m.snapshots.insert("a".to_string(), snapshot("a", "/pa", "2", Some("nextjs")));
    m.snapshots.insert("b".to_string(), snapshot("b", "/pb", "1", Some("nextjs")));
    assert_eq!(choice(&m, &r, false), "use a /pa");
    for (language, image) in [
        ("typescript", "nextjs"),
        ("javascript", "nextjs"),
        ("node", "nextjs"),
        ("vue", "vue3-vite"),
        ("vue3", "vue3-vite"),
        ("vite", "vue3-vite"),
        ("analysis", "data-analysis"),
        ("data-analysis", "data-analysis"),
        ("puppeteer", "puppeteer"),
        ("nginx", "nginx"),
        ("python", "python"),
        ("Python", "python"),
        ("", "python"),
    ] {
        assert_eq!(image_for_language(language), image);
    }
}

#[test]
fn sandboxes_go_by_id_or_name() {
    let mut m = Metadata::default();
    record_sandbox(&mut m, &sandbox("a", Some("b")));
    record_sandbox(&mut m, &sandbox("b", None));
    assert!(sandbox_name_matches(&sandbox("a", Some("n")), "n"));
    assert!(!sandbox_name_matches(&sandbox("a", None), "n"));
    assert_eq!(find_sandbox_by_id_or_name(&m, "b").unwrap().id, "a");
    assert!(find_sandbox_by_id_or_name(&m, "c").is_none());
    assert_eq!(message(sandbox_named(&m, "c")), "Sandbox c not found");
}

#[test]
fn stopping_and_starting_keeps_the_rest() {
    let mut m = Metadata::default();
    record_sandbox(&mut m, &sandbox("a", Some("n")));
    let s = change_sandbox_at(&mut m, "a", Change::Stop, "t1".to_string()).unwrap();
    assert_eq!((s.state.as_str(), s.updated_at.clone()), ("stopped", some("t1")));
    assert_eq!(sandbox_by_id(&m, "a").unwrap().state, "stopped");
    let s = change_sandbox_at(&mut m, "a", Change::Start, "t2".to_string()).unwrap();
    assert_eq!((s.state.as_str(), s.updated_at.clone()), ("started", some("t2")));
    assert_eq!((s.name, s.created_at, s.dir), (some("n"), "t0".to_string(), "/s/a".to_string()));
    let mut labels = StringMap::new();
    labels.insert("k".to_string(), "v".to_string());
    let s = change_sandbox(&mut m, "a", Change::Labels(labels)).unwrap();
    assert_eq!(s.labels.get("k"), Some(&"v".to_string()));
    assert_eq!(s.state, "started");
    assert!(s.updated_at.unwrap().ends_with("+00:00"));
    assert_eq!(message(change_sandbox(&mut m, "x", Change::Stop)), "Sandbox x not found");
}

#[test]
fn a_deleted_sandbox_is_gone() {
    let mut m = Metadata::default();
    record_sandbox(&mut m, &sandbox("a", Some("n")));
    record_sandbox(&mut m, &sandbox("b", None));
    assert_eq!(delete_sandbox(&mut m, "n").unwrap().id, "a");
    assert!(sandbox_by_id(&m, "a").is_err());
    assert!(sandbox_by_id(&m, "b").is_ok());
    assert_eq!(message(delete_sandbox(&mut m, "n")), "Sandbox n not found");
    assert_eq!(destroyed_message("a"), "Destroyed sandbox a");
}

#[test]
fn everything_is_listed() {
    let mut m = with_volume("v");
    record_sandbox(&mut m, &sandbox("a", None));
    m.snapshots.insert("s".to_string(), snapshot("s", "/s", "1", None));
    assert_eq!(merged_dir_of(&m, "a").unwrap(), "/s/a/merged");
    assert_eq!(message(merged_dir_of(&m, "b")), "Sandbox b not found");
    let all = list_all(m);
    assert_eq!((all.snapshots.len(), all.sandboxes.len(), all.volumes.len()), (1, 1, 1));
}

#[test]
fn a_snapshot_of_a_sandbox_is_recorded() {
    let mut m = Metadata::default();
    record_sandbox(&mut m, &sandbox("a", None));
    assert_eq!(message(plan_snapshot(&m, "/root", "b")), "Sandbox b not found");
    let plan = plan_snapshot(&m, "/root", "a").unwrap();
    assert_eq!(plan.source, "/s/a/merged");
    assert_eq!(plan.path, format!("/root/.moulin/snapshots/{}", plan.id));
    record_snapshot(&mut m, &plan);
    let s = m.snapshots.get(&plan.id).unwrap();
    assert_eq!((s.path.clone(), s.name.clone(), s.env.clone()), (plan.path.clone(), None, None));
}

#[test]
fn a_used_snapshot_stays() {
    let mut m = Metadata::default();
    record_sandbox(&mut m, &sandbox("a", None));
    m.snapshots.insert("snap".to_string(), snapshot("snap", "/s", "1", None));
    assert_eq!(
        message(delete_snapshot(&mut m, "snap")),
        "Snapshot snap is in use by at least one sandbox"
    );
    assert!(m.snapshots.contains_key("snap"));
}

#[test]
fn a_deleted_snapshot_is_gone() {
    let mut m = Metadata::default();
    m.snapshots.insert("s".to_string(), snapshot("s", "/s", "1", None));
    m.snapshots.insert("t".to_string(), snapshot("t", "/t", "1", None));
    assert_eq!(delete_snapshot(&mut m, "s").unwrap().path, "/s");
    assert!(!m.snapshots.contains_key("s") && m.snapshots.contains_key("t"));
    assert_eq!(message(delete_snapshot(&mut m, "s")), "Snapshot s not found");
}

#[test]
fn a_new_volume_is_found() {
    let mut m = Metadata::default();
    let plan = plan_volume("/root");
    assert_eq!(plan.path, format!("/root/.moulin/volumes/{}", plan.id));
    let v = record_volume(&mut m, plan, "data".to_string());
    assert_eq!(v.name, "data");
    assert!(v.created_at.ends_with("+00:00"));
    assert_eq!(m.volumes.get(&v.id).unwrap().path, v.path);
    let plan = VolumePlan { id: "w".to_string(), path: "/v/w".to_string() };
    let w = record_volume_at(&mut m, plan, "more".to_string(), "t1".to_string());
    assert_eq!((w.id.as_str(), w.created_at.as_str()), ("w", "t1"));
    let listed: Vec<String> = list_volumes(&m).into_iter().map(|v| v.name).collect();
    assert_eq!(listed, vec!["data", "more"]);
    assert!(bind_mount(&m, &mount("w", "/d", None, false)).is_ok());
}

#[test]
fn a_mounted_volume_stays() {
    let mut m = with_volume("v1");
    let mut s = sandbox("a", None);
    s.mounts.push(mount("v1", "/d", None, false));
    record_sandbox(&mut m, &sandbox("z", None));
    record_sandbox(&mut m, &s);
    assert_eq!(message(delete_volume(&mut m, "v1")), "Volume v1 is in use by sandbox a");
    assert!(m.volumes.contains_key("v1"));
}

#[test]
fn a_deleted_volume_is_gone() {
    let mut m = with_volume("v1");
    assert_eq!(delete_volume(&mut m, "v1").unwrap().path, "/v/v1");
    assert!(!m.volumes.contains_key("v1"));
    assert_eq!(message(delete_volume(&mut m, "v1")), "Volume v1 not found");
    assert_eq!(volume_deleted_message("v1"), "Deleted volume v1");
}

fn mounts_are_kept(m: &Metadata) -> bool {
    (0..m.sandboxes.len()).all(|i| {
        m.sandboxes.value_at(i).mounts.iter().all(|c| m.volumes.contains_key(&c.volume_id))
    })
}

#[test]
fn mounts_keep_their_volumes() {
    let mut m = with_volume("v1");
    let spare = VolumePlan { id: "v2".to_string(), path: "/vols/v2".to_string() };
    record_volume_at(&mut m, spare, "spare".to_string(), "t1".to_string());
    let mounts = vec![mount("v1", "/data", None, false)];
    let plan = plan_sandbox_as(&m, "/h", "/snap".to_string(), "a".to_string(), &mounts).unwrap();
    let options = SandboxCreateOptions::default();
    let limits = ResourceLimits::default();
    let started = started_now(&plan, "snap".to_string(), limits, mounts, options);
    record_sandbox(&mut m, &started);
    record_sandbox(&mut m, &sandbox("b", None));
    assert!(mounts_are_kept(&m));
    assert!(delete_volume(&mut m, "v1").is_err());
    assert!(delete_volume(&mut m, "v2").is_ok());
    assert!(mounts_are_kept(&m));
    assert!(change_sandbox(&mut m, "a", Change::Stop).is_ok());
    assert!(mounts_are_kept(&m));
    assert!(delete_sandbox(&mut m, "b").is_ok());
    assert!(mounts_are_kept(&m));
    assert_eq!(m.volumes.len(), 1);
    assert!(delete_sandbox(&mut m, "a").is_ok());
    assert!(delete_volume(&mut m, "v1").is_ok());
    assert_eq!(m.volumes.len(), 0);
}

#[test]
fn times_on_record_are_times() {
    let is_time = |text: &str| chrono::DateTime::parse_from_rfc3339(text).is_ok();
    let mut m = with_volume("v1");
    let spare = VolumePlan { id: "v2".to_string(), path: "/vols/v2".to_string() };
    let volume = record_volume(&mut m, spare, "spare".to_string());
    assert!(is_time(&volume.created_at));
    let snap = "/snap".to_string();
    let plan = plan_sandbox_as(&m, "/h", snap, "a".to_string(), &Vec::new()).unwrap();
    let options = SandboxCreateOptions::default();
    let limits = ResourceLimits::default();
    let started = started_now(&plan, "snap".to_string(), limits, Vec::new(), options);
    assert!(is_time(&started.created_at) && is_time(started.updated_at.as_ref().unwrap()));
    record_sandbox(&mut m, &sandbox("b", None));
    let changed = change_sandbox(&mut m, "b", Change::Stop).unwrap();
    assert!(is_time(changed.updated_at.as_ref().unwrap()));
    let id = register_snapshot(&mut m, "/p".to_string(), None, None, None, None, None);
    assert!(is_time(&m.snapshots.get(&id).unwrap().created_at));
    let taken = plan_snapshot(&m, "/h", "b").unwrap();
    record_snapshot(&mut m, &taken);
    assert!(is_time(&m.snapshots.get(&taken.id).unwrap().created_at));
    let text = |s: &str| s.to_string();
    touch_build_artifact(&mut m, text("k"), text("d"), text("c"), text("/a"));
    assert!(is_time(&m.build_artifacts.get("k").unwrap().last_used_at));
}
