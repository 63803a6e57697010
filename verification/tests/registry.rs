//! Image references, the answers of registries, and pulling images.
use moulin::build::pull::{pull_image_from, Action, Event, Phase, Pull, PullStep};
use moulin::build::registry::{
    after_pull, bearer, blob_url, check_fetched, choose_manifest, follow_redirects, layer_file,
    manifest_url, parse_www_authenticate, pull_image, registry_request, registry_request_retry,
    target_arch, token_url, Attempt, Fetched, ImageReference, Manifest, ManifestDescriptor,
    ManifestLayer, MirrorStep, Next, Platform, Reply, Retry, MAX_REQUEST_ATTEMPTS,
};
use moulin::error::{Error, Fault};

fn parsed(s: &str, mirror: Option<&str>) -> (String, String, String) {
    let r = ImageReference::parse(s, &mirror.map(|m| m.to_string())).unwrap();
    (r.registry, r.repo, r.tag)
}

fn three(a: &str, b: &str, c: &str) -> (String, String, String) {
    (a.to_string(), b.to_string(), c.to_string())
}

#[test]
fn short_references_come_from_the_first_mirror() {
    let first = "docker.m.daocloud.io";
    assert_eq!(parsed("alpine:3.19", None), three(first, "library/alpine", "3.19"));
    assert_eq!(parsed("alpine", None), three(first, "library/alpine", "latest"));
    assert_eq!(parsed("nginx/unit:latest", None), three(first, "library/nginx/unit", "latest"));
    assert_eq!(parsed("alpine", Some("m.local")), three("m.local", "library/alpine", "latest"));
    assert_eq!(parsed("", None), three(first, "library/", "latest"));
}

#[test]
fn a_named_registry_is_kept() {
    for mirror in [None, Some("m.local")] {
        assert_eq!(parsed("myregistry.io/myapp:v1", mirror), three("myregistry.io", "myapp", "v1"));
        assert_eq!(parsed("localhost:5000/a/b", mirror), three("localhost:5000", "a/b", "latest"));
        assert_eq!(parsed("r.io/a:1:2", mirror), three("r.io", "a", "1:2"));
    }
}

#[test]
fn mirrors_are_the_one_that_is_set_or_the_default_ones() {
    assert_eq!(ImageReference::get_mirrors(&None), vec!["docker.m.daocloud.io", "docker.1ms.run"]);
    let set = Some("m.local".to_string());
    assert_eq!(ImageReference::get_mirrors(&set), vec!["m.local"]);
    assert_eq!(ImageReference::get_mirror(&None), "docker.m.daocloud.io");
    assert_eq!(ImageReference::get_mirror(&set), "m.local");
}

#[test]
fn challenges_are_read() {
    assert_eq!(
        parse_www_authenticate(
            "Bearer realm=\"https://auth.docker.io/token\",service=\"registry.docker.io\",scope=\"repository:library/nginx:pull\""
        ),
        Some(three(
            "https://auth.docker.io/token",
            "registry.docker.io",
            "repository:library/nginx:pull"
        ))
    );
    assert_eq!(parse_www_authenticate("Bearer realm=a, realm=b"), Some(three("b", "", "")));
    assert_eq!(parse_www_authenticate("Bearer service=x"), None);
    assert_eq!(parse_www_authenticate("Basic realm=x"), None);
}

#[test]
fn a_challenge_reads_back_in_any_order() {
    let (r, s, c) = ("realm=\"r x\"", "service=\"s=1\"", "scope=\"\"");
    for all in [[r, s, c], [r, c, s], [s, r, c], [s, c, r], [c, r, s], [c, s, r]] {
        for glue in [",", ", "] {
            let text = all.join(glue);
            let read = parse_www_authenticate(&format!("Bearer {}", text));
            assert_eq!(read, Some(three("r x", "s=1", "")));
            assert_eq!(parse_www_authenticate(&text), None);
        }
    }
    let read = parse_www_authenticate(&format!("Bearer {}, {}", c, r));
    assert_eq!(read, Some(three("r x", "", "")));
    assert_eq!(parse_www_authenticate(&format!("Bearer {},{}", s, c)), None);
    assert_eq!(parse_www_authenticate("Bearer "), None);
}

#[test]
fn token_addresses_hold_what_is_known() {
    assert_eq!(token_url("https://a", "s", "r:x:pull"), "https://a?service=s&scope=r:x:pull");
    assert_eq!(token_url("https://a", "", "x"), "https://a?scope=x");
    assert_eq!(token_url("https://a", "s", ""), "https://a?service=s&");
    assert_eq!(token_url("https://a", "", ""), "https://a?");
    assert_eq!(bearer("abc"), "Bearer abc");
}

fn reply(status: u16, auth: Option<&str>, location: Option<&str>) -> Reply {
    Reply {
        status,
        www_authenticate: auth.map(|s| s.to_string()),
        location: location.map(|s| s.to_string()),
    }
}

#[test]
fn a_refusal_with_a_challenge_asks_for_a_token() {
    match registry_request("https://r/x", &reply(401, Some("Bearer realm=https://t"), None)) {
        Next::FetchToken(url) => assert_eq!(url, "https://t?"),
        other => panic!("{:?}", other),
    }
    for auth in [None, Some("Basic x"), Some("Bearer service=s")] {
        match registry_request("https://r/x", &reply(401, auth, None)) {
            Next::Fail(e) => {
                assert_eq!(e.message(), "Registry returned 401 Unauthorized for https://r/x")
            }
            other => panic!("{:?}", other),
        }
    }
}

#[test]
fn redirections_are_followed_or_fail() {
    match follow_redirects(&reply(307, None, Some("https://cdn/x"))) {
        Next::Follow(to) => assert_eq!(to, "https://cdn/x"),
        other => panic!("{:?}", other),
    }
    match registry_request("u", &reply(302, None, None)) {
        Next::Fail(e) => assert_eq!(e.message(), "3xx redirect without Location header"),
        other => panic!("{:?}", other),
    }
    for status in [200, 299, 400, 401, 404, 500] {
        assert!(matches!(follow_redirects(&reply(status, None, Some("x"))), Next::Accept));
    }
}

#[test]
fn three_attempts_are_made() {
    assert_eq!(MAX_REQUEST_ATTEMPTS, 3);
    for (attempt, delay) in [(0u32, 2u64), (1, 4)] {
        let failed = Attempt::Failed(Error::Outside("x".to_string()));
        match registry_request_retry("u", attempt, failed) {
            Retry::Again { delay_secs } => assert_eq!(delay_secs, delay),
            other => panic!("{:?}", other),
        }
    }
    let last = Attempt::Answered { status: 503, shown: "503 Service Unavailable".to_string() };
    match registry_request_retry("https://r/x", 2, last) {
        Retry::GiveUp(e) => assert_eq!(e.message(), "HTTP 503 Service Unavailable for https://r/x"),
        other => panic!("{:?}", other),
    }
    match registry_request_retry("u", 2, Attempt::Failed(Error::Outside("reset".to_string()))) {
        Retry::GiveUp(e) => assert_eq!(e.message(), "reset"),
        other => panic!("{:?}", other),
    }
}

#[test]
fn only_missing_files_and_failing_servers_are_worth_another_attempt() {
    for (status, again) in
        [(200, false), (299, false), (400, false), (403, false), (404, true), (500, true), (599, true)]
    {
        let r = registry_request_retry("u", 0, Attempt::Answered { status, shown: String::new() });
        assert_eq!(matches!(r, Retry::Again { .. }), again);
        assert_eq!(matches!(r, Retry::Accept), !again);
    }
}

#[test]
fn an_image_of_a_mirror_is_tried_at_all_of_them() {
    let image = ImageReference::parse("alpine", &None).unwrap();
    let plan = pull_image(&image, ImageReference::get_mirrors(&None));
    assert_eq!(plan.registries, vec!["docker.m.daocloud.io", "docker.1ms.run"]);
    assert!(plan.clean);
    assert!(matches!(after_pull(&plan, 0, Ok(())), MirrorStep::Done));
    match after_pull(&plan, 0, Err(Error::Outside("a".to_string()))) {
        MirrorStep::Next(registry) => assert_eq!(registry, "docker.1ms.run"),
        other => panic!("{:?}", other),
    }
    match after_pull(&plan, 1, Err(Error::Outside("b".to_string()))) {
        MirrorStep::GiveUp(e) => assert_eq!(e.message(), "b"),
        other => panic!("{:?}", other),
    }
    let own = ImageReference::parse("r.io/a", &None).unwrap();
    let plan = pull_image(&own, ImageReference::get_mirrors(&None));
    assert_eq!(plan.registries, vec!["r.io"]);
    assert!(!plan.clean);
    let set = Some("m.local".to_string());
    let image = ImageReference::parse("alpine", &set).unwrap();
    let plan = pull_image(&image, ImageReference::get_mirrors(&set));
    assert_eq!((plan.registries, plan.clean), (vec!["m.local".to_string()], false));
}

fn descriptor(digest: &str, platform: Option<(&str, &str)>) -> ManifestDescriptor {
    ManifestDescriptor {
        digest: digest.to_string(),
        platform: platform
            .map(|(a, o)| Platform { architecture: a.to_string(), os: o.to_string() }),
    }
}

#[test]
fn the_manifest_of_the_platform_is_chosen() {
    let all = vec![
        descriptor("d0", None),
        descriptor("d1", Some(("amd64", "windows"))),
        descriptor("d2", Some(("arm64", "linux"))),
        descriptor("d3", Some(("amd64", "linux"))),
        descriptor("d4", Some(("amd64", "linux"))),
    ];
    assert_eq!(choose_manifest(&all, "x86_64"), Some("d3".to_string()));
    assert_eq!(choose_manifest(&all, "aarch64"), Some("d2".to_string()));
    assert_eq!(choose_manifest(&all, "riscv64"), Some("d0".to_string()));
    assert_eq!(choose_manifest(&Vec::new(), "x86_64"), None);
    assert_eq!(target_arch("x86_64"), "amd64");
    assert_eq!(target_arch("aarch64"), "arm64");
    assert_eq!(target_arch("s390x"), "s390x");
}

#[test]
fn failures_to_fetch_are_told() {
    assert!(check_fetched(Fetched::ResolvedManifest, 204, "204 No Content").is_ok());
    let told = |what: Fetched| check_fetched(what, 403, "403 Forbidden").unwrap_err().message();
    assert_eq!(
        told(Fetched::Manifest { url: "https://r" }),
        "Failed to fetch manifest: HTTP 403 Forbidden from https://r"
    );
    assert_eq!(
        told(Fetched::ResolvedManifest),
        "Failed to fetch resolved manifest: HTTP 403 Forbidden"
    );
    assert_eq!(
        told(Fetched::Layer { digest: "sha256:1" }),
        "Failed to download layer sha256:1: HTTP 403 Forbidden"
    );
}

#[test]
fn addresses_of_manifests_and_layers() {
    assert_eq!(manifest_url("r", "library/a", "1"), "https://r/v2/library/a/manifests/1");
    assert_eq!(blob_url("r", "library/a", "sha256:x"), "https://r/v2/library/a/blobs/sha256:x");
    assert_eq!(layer_file("sha256:0123456789abcdef"), "layer-01234567.tar.gz");
}

fn step(p: Pull, e: Event) -> PullStep {
    p.advance(e)
}

fn parts(s: PullStep) -> (Pull, Action) {
    match s {
        PullStep::Do { pull, action } => (pull, action),
        PullStep::Done => panic!("done"),
        PullStep::Fail(e) => panic!("{}", e.message()),
    }
}

fn answered(status: u16, auth: Option<&str>, location: Option<&str>) -> Event {
    Event::Replied { reply: reply(status, auth, location), shown: format!("{} x", status) }
}

fn manifest(layers: &[&str], manifests: Vec<ManifestDescriptor>) -> Event {
    Event::Manifest(Manifest {
        layers: layers.iter().map(|d| ManifestLayer { digest: d.to_string() }).collect(),
        manifests,
    })
}

#[test]
fn a_pull_fetches_token_manifests_and_layers_in_order() {
    let (p, a) = parts(pull_image_from("r", "library/a", "1", "x86_64"));
    match a {
        Action::Send { url, accept, token } => {
            assert_eq!(url, "https://r/v2/library/a/manifests/1");
            assert!(accept.contains("manifest.list.v2+json"));
            assert_eq!(token, None);
        }
        _ => panic!("a request"),
    }
    let (p, a) = parts(step(p, answered(401, Some("Bearer realm=https://t,service=s"), None)));
    assert!(matches!(&a, Action::FetchToken(url) if url == "https://t?service=s&"));
    let (p, a) = parts(step(p, Event::Token("tok".to_string())));
    assert!(matches!(&a, Action::Send { token: Some(t), .. } if t == "tok"));
    let (p, a) = parts(step(p, answered(200, None, None)));
    assert!(matches!(a, Action::ReadManifest));
    let list = vec![
        descriptor("sha256:other", Some(("arm64", "linux"))),
        descriptor("sha256:mine", Some(("amd64", "linux"))),
    ];
    let (p, a) = parts(step(p, manifest(&[], list)));
    match a {
        Action::Send { url, accept, token } => {
            assert_eq!(url, "https://r/v2/library/a/manifests/sha256:mine");
            assert!(!accept.contains("manifest.list"));
            assert_eq!(token, Some("tok".to_string()));
        }
        _ => panic!("a request"),
    }
    let (p, _) = parts(step(p, answered(200, None, None)));
    let (p, a) = parts(step(p, manifest(&["sha256:l1", "sha256:l2"], Vec::new())));
    assert!(matches!(&a, Action::Send { url, accept, .. }
        if url == "https://r/v2/library/a/blobs/sha256:l1" && accept == "*/*"));
    let (p, a) = parts(step(p, answered(307, None, Some("https://cdn/l1"))));
    assert!(matches!(&a, Action::Follow(to) if to == "https://cdn/l1"));
    let (p, a) = parts(step(p, answered(200, None, None)));
    assert!(matches!(&a, Action::SaveLayer(d) if d == "sha256:l1"));
    let (p, a) = parts(step(p, Event::Saved));
    assert!(matches!(&a, Action::Send { url, token: Some(t), .. }
        if url.ends_with("sha256:l2") && t == "tok"));
    let (p, _) = parts(step(p, answered(200, None, None)));
    assert!(matches!(step(p, Event::Saved), PullStep::Done));
}

#[test]
fn a_pull_gives_up_after_three_attempts() {
    let (mut p, _) = parts(pull_image_from("r", "a", "1", "x86_64"));
    for delay in [2u64, 4] {
        let (q, a) = parts(step(p, answered(404, None, None)));
        assert!(matches!(a, Action::Wait(n) if n == delay));
        assert!(q.phase == Phase::Pause && q.attempt < MAX_REQUEST_ATTEMPTS);
        let (q, a) = parts(step(q, Event::Waited));
        assert!(matches!(a, Action::Send { .. }));
        p = q;
    }
    match step(p, answered(404, None, None)) {
        PullStep::Fail(e) => assert_eq!(e.message(), "HTTP 404 x for https://r/v2/a/manifests/1"),
        _ => panic!("the last attempt"),
    }
}

#[test]
fn a_pull_ends_at_once_where_another_attempt_is_no_use() {
    let (p, _) = parts(pull_image_from("r", "a", "1", "x86_64"));
    match step(p, answered(403, None, None)) {
        PullStep::Fail(e) => assert_eq!(
            e.message(),
            "Failed to fetch manifest: HTTP 403 x from https://r/v2/a/manifests/1"
        ),
        _ => panic!("a failure"),
    }
    let (p, _) = parts(pull_image_from("r", "a", "1", "x86_64"));
    let (p, _) = parts(step(p, answered(200, None, None)));
    match step(p, Event::Failed("no JSON".to_string())) {
        PullStep::Fail(e) => assert_eq!(e.message(), "no JSON"),
        _ => panic!("a failure"),
    }
}

#[test]
fn a_pull_tries_again_without_an_answer_or_a_token() {
    let (p, _) = parts(pull_image_from("r", "a", "1", "x86_64"));
    let (p, a) = parts(step(p, Event::Failed("reset".to_string())));
    assert!(matches!(a, Action::Wait(2)));
    let (p, _) = parts(step(p, Event::Waited));
    let (p, a) = parts(step(p, answered(401, None, None)));
    assert!(matches!(a, Action::Wait(4)));
    let (p, _) = parts(step(p, Event::Waited));
    match step(p, answered(302, None, None)) {
        PullStep::Fail(Error::Plain(f)) => assert!(f == Fault::NoLocation),
        _ => panic!("the last attempt"),
    }
}

#[test]
fn an_image_without_layers_is_there_at_once() {
    let (p, _) = parts(pull_image_from("r", "a", "1", "x86_64"));
    let (p, _) = parts(step(p, answered(200, None, None)));
    assert!(matches!(step(p, manifest(&[], Vec::new())), PullStep::Done));
}
