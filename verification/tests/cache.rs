//! The cache of build results, and the steps of a build.
use moulin::build::cache::{
    build_artifact_path, compute_build_cache_key, compute_context_hash, compute_dockerfile_md5,
    directories_to_remove, finish_publish, hash_directory, list_build_artifacts, matches_scope,
    name_artifact, persist_build_artifact_metadata, prune_build_artifacts, prune_stale_build_artifact,
    publish_build_artifact, resolve_cached_build_artifact, staging_dir, BuildCachePruneMode,
    BuildCacheScope, ContextEntry, ContextNode, PublishEnd, PublishStep,
};
use moulin::build::parser::parse_dockerfile;
use moulin::build::registry::ImageReference;
use moulin::build::steps::{base_key, layer_key, BuildState, StepPlan};
use moulin::metadata::{touch_build_artifact, touch_build_artifact_at, Metadata};
use moulin::path::is_under;

fn dir(path: &str) -> ContextEntry {
    ContextEntry { path: path.as_bytes().to_vec(), node: ContextNode::Dir }
}

fn file(path: &str, content: &str) -> ContextEntry {
    ContextEntry {
        path: path.as_bytes().to_vec(),
        node: ContextNode::File { size: content.len() as u64, content: content.as_bytes().to_vec() },
    }
}

fn link(path: &str, target: &str) -> ContextEntry {
    ContextEntry {
        path: path.as_bytes().to_vec(),
        node: ContextNode::Symlink(target.as_bytes().to_vec()),
    }
}

fn touch(m: &mut Metadata, key: &str, md5: &str, now: &str) {
    touch_build_artifact_at(
        m,
        key.to_string(),
        md5.to_string(),
        "context".to_string(),
        format!("/artifacts/{}", key),
        now.to_string(),
    );
}

fn three() -> Metadata {
    let mut m = Metadata::default();
    touch(&mut m, "k2", "m1", "t1");
    touch(&mut m, "k1", "m1", "t2");
    touch(&mut m, "k3", "m2", "t3");
    m
}

fn keys(m: &Metadata) -> Vec<String> {
    (0..m.build_artifacts.len()).map(|i| m.build_artifacts.key_at(i).clone()).collect()
}

#[test]
fn dockerfile_digest_is_md5() {
    assert_eq!(compute_dockerfile_md5(b""), "d41d8cd98f00b204e9800998ecf8427e");
    assert_eq!(compute_dockerfile_md5(b"FROM alpine:3.19\n"), "ad198bf5f9cbb9aa97731d6206071e08");
}

#[test]
fn context_digest_follows_the_walk() {
    let entries = vec![file("a.txt", "yo!"), link("link", "a/x"), file("a/x", "hi"), dir("a")];
    assert_eq!(
        hash_directory(vec![file("a.txt", "yo!"), link("link", "a/x"), file("a/x", "hi"), dir("a")]),
        b"dir:afile:a/x\x02\0\0\0\0\0\0\0hifile:a.txt\x03\0\0\0\0\0\0\0yo!symlink:linka/x".to_vec()
    );
    assert_eq!(
        compute_context_hash(entries),
        "67499f47d9f8f881b92b90ca4b5040d48ee44bd9ddd543bfb310d4b08eaeeb20"
    );
    assert_eq!(
        compute_context_hash(Vec::new()),
        "e3b0c44298fc1c149afbf4c8996fb92427ae41e4649b934ca495991b7852b855"
    );
}

#[test]
fn context_digest_ignores_the_order_of_the_listing() {
    let one = compute_context_hash(vec![dir("a"), file("a/x", "hi"), file("a.txt", "yo!")]);
    let two = compute_context_hash(vec![file("a.txt", "yo!"), file("a/x", "hi"), dir("a")]);
    assert_eq!(one, two);
    assert_ne!(one, compute_context_hash(vec![dir("a"), file("a/x", "ho"), file("a.txt", "yo!")]));
}

#[test]
fn context_digest_replaces_what_is_no_text() {
    let odd = vec![ContextEntry { path: vec![b'f', 0xff], node: ContextNode::Dir }];
    assert_eq!(hash_directory(odd), "dir:f\u{fffd}".as_bytes().to_vec());
}

#[test]
fn sizes_are_eight_bytes_with_the_lowest_first() {
    let big = vec![ContextEntry {
        path: vec![b'f'],
        node: ContextNode::File { size: 0x0102030405060708, content: Vec::new() },
    }];
    assert_eq!(hash_directory(big), b"file:f\x08\x07\x06\x05\x04\x03\x02\x01".to_vec());
}

#[test]
fn key_depends_on_all_that_it_names() {
    let md5 = "ad198bf5f9cbb9aa97731d6206071e08";
    let hash = "e3b0c44298fc1c149afbf4c8996fb92427ae41e4649b934ca495991b7852b855";
    assert_eq!(compute_build_cache_key(md5, hash, &None), "c712868b5ffa37a509dca54b9c2303a6");
    assert_eq!(
        compute_build_cache_key(md5, hash, &Some("Python 3.12.1".to_string())),
        "f63a177413d3eda42ab114998a306e52"
    );
}

#[test]
fn artifact_lies_in_its_directory() {
    let a = name_artifact("/root", "m", "h", &None);
    assert_eq!(a.snapshot_path, format!("/root/.moulin/build-artifacts/{}", a.cache_key));
    assert_eq!(build_artifact_path("/root", "k"), "/root/.moulin/build-artifacts/k");
    assert!(is_under(&a.snapshot_path, "/root/.moulin/build-artifacts"));
    assert_eq!((a.dockerfile_md5.as_str(), a.context_hash.as_str()), ("m", "h"));
    assert_eq!(a.cache_key.len(), 32);
}

#[test]
fn artifact_that_is_there_is_used_and_recorded() {
    let mut m = Metadata::default();
    let answer = resolve_cached_build_artifact(&mut m, name_artifact("/root", "m", "h", &None), true);
    let a = answer.artifact.unwrap();
    assert!(answer.changed);
    let known = m.build_artifacts.get(&a.cache_key).unwrap();
    assert_eq!(known.snapshot_path, a.snapshot_path);
    assert_eq!(known.created_at, known.last_used_at);
    assert!(known.created_at.contains('T') && known.created_at.ends_with("+00:00"));
}

#[test]
fn artifact_that_is_gone_is_forgotten() {
    let mut m = three();
    let mut gone = name_artifact("/root", "m", "h", &None);
    gone.cache_key = "k1".to_string();
    let answer = resolve_cached_build_artifact(&mut m, gone, false);
    assert!(answer.artifact.is_none() && answer.changed);
    assert_eq!(keys(&m), vec!["k2", "k3"]);
    assert!(!prune_stale_build_artifact(&mut m, "k1"));
    assert!(prune_stale_build_artifact(&mut m, "k2"));
    let unknown = name_artifact("/root", "m", "h", &None);
    assert!(!resolve_cached_build_artifact(&mut m, unknown, false).changed);
}

#[test]
fn artifact_keeps_its_origin() {
    let mut m = three();
    touch_build_artifact_at(
        &mut m,
        "k1".to_string(),
        "other".to_string(),
        "new context".to_string(),
        "/new".to_string(),
        "t9".to_string(),
    );
    let a = m.build_artifacts.get("k1").unwrap();
    assert_eq!((a.dockerfile_md5.as_str(), a.created_at.as_str()), ("m1", "t2"));
    assert_eq!((a.context_hash.as_str(), a.last_used_at.as_str()), ("new context", "t9"));
    assert_eq!(a.snapshot_path, "/new");
    assert_eq!(m.build_artifacts.get("k2").unwrap().last_used_at, "t1");
    assert_eq!(m.build_artifacts.len(), 3);
}

#[test]
fn use_is_recorded_with_the_time() {
    let mut m = Metadata::default();
    touch_build_artifact(
        &mut m,
        "k".to_string(),
        "m".to_string(),
        "h".to_string(),
        "/p".to_string(),
    );
    persist_build_artifact_metadata(&mut m, &name_artifact("/root", "m", "h", &None));
    assert_eq!(m.build_artifacts.len(), 2);
    assert!(m.build_artifacts.get("k").unwrap().last_used_at.len() > 20);
}

#[test]
fn publishing_stages_what_is_not_there() {
    let a = name_artifact("/root", "m", "h", &None);
    let key = a.cache_key.clone();
    match publish_build_artifact(a, "/root", false) {
        PublishStep::Stage { artifact, staging } => {
            let start = format!("/root/.moulin/build-artifacts/{}.tmp-", key);
            assert!(staging.starts_with(&start));
            assert_eq!(staging.len(), start.len() + 36);
            assert_eq!(artifact.cache_key, key);
        }
        PublishStep::Record(_) => panic!("not there yet"),
    }
    assert_eq!(staging_dir("/r", "k", "u"), "/r/.moulin/build-artifacts/k.tmp-u");
    let a = name_artifact("/root", "m", "h", &None);
    assert!(matches!(publish_build_artifact(a, "/root", true), PublishStep::Record(_)));
}

#[test]
fn a_lost_race_is_no_failure() {
    assert!(matches!(finish_publish(Ok(()), true), PublishEnd::Record));
    assert!(matches!(finish_publish(Err("x".to_string()), true), PublishEnd::DropStaging));
    match finish_publish(Err("no space".to_string()), false) {
        PublishEnd::Fail(e) => assert_eq!(e.message(), "no space"),
        _ => panic!("a failure"),
    }
}

#[test]
fn artifacts_are_listed_by_key() {
    let listed: Vec<String> =
        list_build_artifacts(three()).into_iter().map(|a| a.cache_key).collect();
    assert_eq!(listed, vec!["k1", "k2", "k3"]);
}

#[test]
fn scopes_go_by_key_or_digest() {
    let m = three();
    let a = m.build_artifacts.get("k1").unwrap();
    assert!(matches_scope("k1", a, &BuildCacheScope::CacheKey("k1".to_string())));
    assert!(!matches_scope("k1", a, &BuildCacheScope::CacheKey("m1".to_string())));
    assert!(matches_scope("k1", a, &BuildCacheScope::DockerfileMd5("m1".to_string())));
    assert!(!matches_scope("k1", a, &BuildCacheScope::DockerfileMd5("m2".to_string())));
}

#[test]
fn pruning_splits_the_records() {
    let mut m = three();
    let out = prune_build_artifacts(
        &mut m,
        &BuildCachePruneMode::RemoveMissingOnly,
        &vec![true, false, true],
    );
    assert_eq!(out.len(), 1);
    assert_eq!(out[0].cache_key, "k1");
    assert_eq!(keys(&m), vec!["k2", "k3"]);
    assert!(directories_to_remove(&BuildCachePruneMode::RemoveMissingOnly, &out).is_empty());

    let mut m = three();
    let mode = BuildCachePruneMode::Scope(BuildCacheScope::DockerfileMd5("m1".to_string()));
    let out = prune_build_artifacts(&mut m, &mode, &vec![true, true, true]);
    assert_eq!(directories_to_remove(&mode, &out), vec!["/artifacts/k2", "/artifacts/k1"]);
    assert_eq!(keys(&m), vec!["k3"]);

    let mut m = three();
    let mode = BuildCachePruneMode::Scope(BuildCacheScope::CacheKey("k9".to_string()));
    assert!(prune_build_artifacts(&mut m, &mode, &vec![false, false, false]).is_empty());
    assert_eq!(m.build_artifacts.len(), 3);
}

#[test]
fn clearing_leaves_nothing() {
    let mut m = three();
    let out = prune_build_artifacts(&mut m, &BuildCachePruneMode::ClearAll, &vec![true, false, true]);
    assert_eq!(out.len(), 3);
    assert_eq!(m.build_artifacts.len(), 0);
    assert_eq!(directories_to_remove(&BuildCachePruneMode::ClearAll, &out).len(), 3);
}

#[test]
fn layers_are_named_by_what_they_stand_on() {
    assert_eq!(
        layer_key(&vec!["/b/base".to_string()], "RUN apk add python3"),
        "9598b46aa1c013c6cb71e5005e58f6dda9c20c11fb14103308add449d3bd4dc2"
    );
    let image = ImageReference::parse("alpine:3.19", &None).unwrap();
    assert_eq!(
        base_key(&image),
        "base-3fa816d9721c278782c96f372306ae36208edf50a952b30afc096e5d958a8bbf"
    );
}

#[test]
fn steps_of_a_build_are_planned_in_order() {
    let all = parse_dockerfile(
        "FROM alpine:3.19\nWORKDIR /app\nENV A=1\nRUN make\nCOPY app.py /app/\nADD x y\nUSER u\n",
    );
    let mut state = BuildState::new();
    match state.plan("/h", &None, &all[0]).unwrap() {
        StepPlan::Base { image, dir } => {
            assert_eq!(dir, format!("/h/.moulin/bases/{}", base_key(&image)));
            state.add_layer(dir);
        }
        other => panic!("{:?}", other),
    }
    assert!(matches!(state.plan("/h", &None, &all[1]), Ok(StepPlan::Note)));
    assert!(matches!(state.plan("/h", &None, &all[2]), Ok(StepPlan::Note)));
    assert_eq!((state.workdir.as_str(), state.env.clone()), ("/app", vec!["A=1".to_string()]));
    match state.plan("/h", &None, &all[3]).unwrap() {
        StepPlan::Run { command, layer } => {
            assert_eq!(command, "make");
            let key = layer_key(&state.lower_dirs, "RUN make");
            assert_eq!(layer, format!("/h/.moulin/cache/{}", key));
        }
        other => panic!("{:?}", other),
    }
    let copy = state.plan("/h", &None, &all[4]).unwrap();
    match &copy {
        StepPlan::Copy { src, dst, layer } => {
            assert_eq!((src.as_str(), dst.as_str()), ("app.py", "app/"));
            assert!(layer.ends_with(&layer_key(&state.lower_dirs, "COPY app.py /app/")));
        }
        other => panic!("{:?}", other),
    }
    assert!(matches!(state.plan("/h", &None, &all[5]), Ok(StepPlan::Copy { .. })));
    assert!(matches!(state.plan("/h", &None, &all[6]), Ok(StepPlan::Note)));
    assert_eq!(state.lower_dirs.len(), 1);
}

#[test]
fn a_layer_is_found_again_on_the_same_layers_only() {
    let run = parse_dockerfile("RUN make\n");
    let mut one = BuildState::new();
    one.add_layer("/b".to_string());
    let mut two = BuildState::new();
    two.add_layer("/b".to_string());
    two.env.push("X=1".to_string());
    let mut three = BuildState::new();
    three.add_layer("/c".to_string());
    let layer = |s: &mut BuildState| match s.plan("/h", &None, &run[0]).unwrap() {
        StepPlan::Run { layer, .. } => layer,
        other => panic!("{:?}", other),
    };
    assert_eq!(layer(&mut one), layer(&mut two));
    assert_ne!(layer(&mut one), layer(&mut three));
}
