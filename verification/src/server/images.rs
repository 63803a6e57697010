//! Image definitions, and snapshots that are built from them.
use crate::build::cache::{BuildCachePruneMode, BuildCacheScope, PruneView, ScopeView};
use crate::build::parser::{dockerfile, parse_dockerfile, Instruction, InstructionView};
use crate::error::{about, outcome, Complaint, Error, ErrorView};
use crate::metadata::{
    copy_text, register_snapshot, with_snapshot, Metadata, SnapshotView,
};
use crate::order::{law_sorting_orders, law_texts_are_ordered, precedes, sort, sorted, Keyed};
use crate::outside::{clock_text, uuid_text};
use crate::path::{
    climbs, join, joined, law_join_stays_inside, names_from, parts, under,
};
use crate::server::api::{
    BuildCachePruneRequest, BuildResponse, ImageDefinitionResponse, ImageDefinitionView,
    SandboxInfoResponse, SandboxRuntimeStatsResponse,
};
use crate::server::lifecycle::{by_id, sandbox_by_id};
use crate::text::{
    contains_class, contains_text, glue, glue3, has_text, holds, lemma_first_of, lemma_one_piece,
    pieces, Class,
};
use vstd::prelude::*;

verus! {

/// The directory of the image definitions of the project at `root`.
pub fn images_root_dir(root: &str) -> (r: String)
    ensures
        r@ == joined(root@, "images"@),
{
    join(root, "images")
}

/// Whether a name can be the name of an image: it is not empty, has no slash and no two dots in a
/// row.
pub open spec fn image_name(name: Seq<char>) -> bool {
    name.len() > 0 && !holds(name, Class::Only('/')) && !has_text(name, ".."@)
}

/// The directory of an image definition.
pub open spec fn image_dir(root: Seq<char>, name: Seq<char>) -> Seq<char> {
    joined(joined(root, "images"@), name)
}

/// The directory of an image definition, of which `is_dir` says whether it is there and
/// `has_dockerfile` whether it has a Dockerfile.
pub open spec fn image_at(
    root: Seq<char>,
    name: Seq<char>,
    is_dir: bool,
    has_dockerfile: bool,
) -> Result<Seq<char>, ErrorView> {
    if !image_name(name) {
        Err(ErrorView::About(Complaint::InvalidImageName, name))
    } else if !is_dir {
        Err(ErrorView::About(Complaint::ImageNotFound, name))
    } else if !has_dockerfile {
        Err(ErrorView::About(Complaint::ImageWithoutDockerfile, name))
    } else {
        Ok(image_dir(root, name))
    }
}

/// The directory where an image definition is looked for; only a proper name is.
pub fn image_path(root: &str, name: &str) -> (r: Result<String, Error>)
    ensures
        outcome(r) == image_at(root@, name@, true, true),
{
    if name.is_empty() || contains_class(name, Class::Only('/')) || contains_text(name, "..") {
        return Err(about(Complaint::InvalidImageName, name));
    }
    let dir = images_root_dir(root);
    Ok(join(dir.as_str(), name))
}

/// The directory of an image definition.
pub fn resolve_image_dir(root: &str, name: &str, is_dir: bool, has_dockerfile: bool) -> (r: Result<
    String,
    Error,
>)
    ensures
        outcome(r) == image_at(root@, name@, is_dir, has_dockerfile),
{
    let path = match image_path(root, name) {
        Ok(path) => path,
        Err(e) => {
            return Err(e);
        },
    };
    if !is_dir {
        return Err(about(Complaint::ImageNotFound, name));
    }
    if !has_dockerfile {
        return Err(about(Complaint::ImageWithoutDockerfile, name));
    }
    Ok(path)
}

/// The directory of an image definition lies in the directory of all of them, and no two dots lead
/// out of it.
pub proof fn law_image_lies_in_its_directory(root: Seq<char>, name: Seq<char>)
    requires
        image_name(name),
    ensures
        under(parts(image_dir(root, name)), parts(joined(root, "images"@))),
        !parts(image_dir(root, name)).names.skip(
            parts(joined(root, "images"@)).names.len() as int,
        ).contains(".."@),
{
    let class = Class::Only('/');
    let base = joined(root, "images"@);
    reveal_strlit("images");
    reveal_strlit("..");
    lemma_first_of(name, class);
    lemma_one_piece(name, class);
    if climbs(name) {
        assert(name == ".."@);
        assert(name.subrange(0, 2) =~= ".."@);
        assert(crate::text::stands_at(name, ".."@, 0));
    }
    law_join_stays_inside(base, name);
    let extra = names_from(pieces(name, class), true);
    assert((parts(base).names + extra).skip(parts(base).names.len() as int) =~= extra);
}

/// An entry of the directory of image definitions: where it lies, whether it is a directory, and
/// its Dockerfile where it has one.
#[derive(Debug)]
pub struct ImageEntry {
    pub name: String,
    pub dir: String,
    pub is_dir: bool,
    pub dockerfile: Option<String>,
}

/// An image definition.
pub open spec fn definition(name: Seq<char>, dir: Seq<char>, content: Seq<char>) -> ImageDefinitionView {
    ImageDefinitionView {
        name,
        dockerfile_path: joined(dir, "Dockerfile"@),
        context_path: dir,
        dockerfile_content: content,
    }
}

/// Tells an image definition.
pub fn image_definition(name: &str, dir: &str, content: &str) -> (r: ImageDefinitionResponse)
    ensures
        r.deep_view() == definition(name@, dir@, content@),
{
    ImageDefinitionResponse {
        name: name.to_owned(),
        dockerfile_path: join(dir, "Dockerfile"),
        context_path: dir.to_owned(),
        dockerfile_content: content.to_owned(),
    }
}

/// The image definitions among the entries: the directories with a Dockerfile.
pub open spec fn definitions(entries: Seq<ImageEntry>) -> Seq<ImageDefinitionView>
    decreases entries.len(),
{
    if entries.len() == 0 {
        Seq::empty()
    } else {
        let before = definitions(entries.drop_last());
        let e = entries.last();
        match e.dockerfile {
            Some(content) => if e.is_dir {
                before.push(definition(e.name@, e.dir@, content@))
            } else {
                before
            },
            None => before,
        }
    }
}

/// Tells the image definitions by their names.
pub fn handle_image_list(entries: &Vec<ImageEntry>) -> (r: Vec<ImageDefinitionResponse>)
    ensures
        r.deep_view() == sorted::<ImageDefinitionResponse>(definitions(entries@), false),
{
    let mut all: Vec<ImageDefinitionResponse> = Vec::new();
    let mut i: usize = 0;
    proof {
        assert(entries@.take(0) =~= Seq::<ImageEntry>::empty());
        assert(all.deep_view() =~= Seq::<ImageDefinitionView>::empty());
    }
    while i < entries.len()
        invariant
            i <= entries@.len(),
            all.deep_view() == definitions(entries@.take(i as int)),
        decreases entries@.len() - i,
    {
        proof {
            assert(entries@.take(i + 1).drop_last() =~= entries@.take(i as int));
        }
        let ghost before = all.deep_view();
        let e = &entries[i];
        if e.is_dir {
            if let Some(content) = &e.dockerfile {
                all.push(image_definition(e.name.as_str(), e.dir.as_str(), content.as_str()));
                proof {
                    assert(all.deep_view() =~= before.push(
                        definition(e.name@, e.dir@, content@),
                    ));
                }
            }
        }
        i = i + 1;
    }
    proof {
        assert(entries@.take(entries@.len() as int) =~= entries@);
    }
    sort(all, false)
}

// What a Dockerfile says about running the image

/// How an image is run.
#[derive(Debug)]
pub struct SnapshotConfig {
    pub entrypoint: Option<Vec<String>>,
    pub cmd: Option<Vec<String>>,
    pub env: Option<Vec<String>>,
}

/// The mathematical value of a `SnapshotConfig`, with the environment as a list.
#[verifier::ext_equal]
pub struct ConfigView {
    pub entrypoint: Option<Seq<Seq<char>>>,
    pub cmd: Option<Seq<Seq<char>>>,
    pub env: Seq<Seq<char>>,
}

/// How an image is run that these instructions build: the last entry point and command count, and
/// all variables.
pub open spec fn config_of(all: Seq<InstructionView>) -> ConfigView
    decreases all.len(),
{
    if all.len() == 0 {
        ConfigView { entrypoint: None, cmd: None, env: Seq::empty() }
    } else {
        let before = config_of(all.drop_last());
        match all.last() {
            InstructionView::Env { key, value } => ConfigView {
                env: before.env.push(key + "="@ + value),
                ..before
            },
            InstructionView::Entrypoint(v) => ConfigView { entrypoint: Some(v), ..before },
            InstructionView::Cmd(v) => ConfigView { cmd: Some(v), ..before },
            _ => before,
        }
    }
}

/// A list, or nothing where it is empty.
pub open spec fn unless_empty(s: Seq<Seq<char>>) -> Option<Seq<Seq<char>>> {
    if s.len() == 0 {
        None
    } else {
        Some(s)
    }
}

/// How an image is run that these instructions build.
pub fn config_from(all: &Vec<Instruction>) -> (r: SnapshotConfig)
    ensures
        r.entrypoint.deep_view() == config_of(all.deep_view()).entrypoint,
        r.cmd.deep_view() == config_of(all.deep_view()).cmd,
        r.env.deep_view() == unless_empty(config_of(all.deep_view()).env),
{
    let ghost s = all.deep_view();
    let mut entrypoint: Option<Vec<String>> = None;
    let mut cmd: Option<Vec<String>> = None;
    let mut env: Vec<String> = Vec::new();
    let mut i: usize = 0;
    proof {
        assert(s.take(0) =~= Seq::<InstructionView>::empty());
        assert(env.deep_view() =~= Seq::<Seq<char>>::empty());
    }
    while i < all.len()
        invariant
            i <= all@.len(),
            s == all.deep_view(),
            entrypoint.deep_view() == config_of(s.take(i as int)).entrypoint,
            cmd.deep_view() == config_of(s.take(i as int)).cmd,
            env.deep_view() == config_of(s.take(i as int)).env,
        decreases all@.len() - i,
    {
        proof {
            assert(s.take(i + 1).drop_last() =~= s.take(i as int));
            assert(s.take(i + 1).last() == all@[i as int].deep_view());
        }
        let ghost before = env.deep_view();
        match &all[i] {
            Instruction::Env { key, value } => {
                let entry = glue3(key.as_str(), "=", value.as_str());
                let ghost ev = entry@;
                env.push(entry);
                proof {
                    assert(env.deep_view() =~= before.push(ev));
                }
            },
            Instruction::Entrypoint(v) => {
                entrypoint = Some(crate::metadata::copy_texts(v));
            },
            Instruction::Cmd(v) => {
                cmd = Some(crate::metadata::copy_texts(v));
            },
            _ => {},
        }
        i = i + 1;
    }
    proof {
        assert(s.take(s.len() as int) =~= s);
    }
    let env = if env.len() == 0 {
        None
    } else {
        Some(env)
    };
    SnapshotConfig { entrypoint, cmd, env }
}

/// How an image is run that a Dockerfile builds.
pub fn extract_snapshot_config(content: &str) -> (r: SnapshotConfig)
    ensures
        r.entrypoint.deep_view() == config_of(dockerfile(content@)).entrypoint,
        r.cmd.deep_view() == config_of(dockerfile(content@)).cmd,
        r.env.deep_view() == unless_empty(config_of(dockerfile(content@)).env),
{
    let all = parse_dockerfile(content);
    config_from(&all)
}

/// The snapshot that a build has made.
pub open spec fn built_snapshot(
    id: Seq<char>,
    path: Seq<char>,
    now: Seq<char>,
    content: Seq<char>,
    name: Option<Seq<char>>,
    description: Option<Seq<char>>,
) -> SnapshotView {
    let config = config_of(dockerfile(content));
    SnapshotView {
        id,
        path,
        created_at: now,
        entrypoint: config.entrypoint,
        cmd: config.cmd,
        env: unless_empty(config.env),
        name,
        description,
    }
}

/// Puts the snapshot on record that a build of the Dockerfile has made at `snapshot_path`.
pub fn build_snapshot_from_paths(
    metadata: &mut Metadata,
    snapshot_path: String,
    content: &str,
    name: Option<String>,
    description: Option<String>,
) -> (r: BuildResponse)
    ensures
        r.snapshot_path@ == snapshot_path@,
        uuid_text(r.snapshot_id@),
        exists|now: Seq<char>|
            clock_text(now) && final(metadata).deep_view() == with_snapshot(
                old(metadata).deep_view(),
                #[trigger] built_snapshot(
                    r.snapshot_id@,
                    snapshot_path@,
                    now,
                    content@,
                    name.deep_view(),
                    description.deep_view(),
                ),
            ),
{
    let config = extract_snapshot_config(content);
    let ghost before = metadata.deep_view();
    let ghost nv = name.deep_view();
    let ghost dv = description.deep_view();
    let path = snapshot_path.clone();
    let snapshot_id = register_snapshot(
        metadata,
        path,
        config.entrypoint,
        config.cmd,
        config.env,
        name,
        description,
    );
    proof {
        let now = choose|now: Seq<char>|
            #[trigger] clock_text(now) && metadata.deep_view() == with_snapshot(
                before,
                (SnapshotView {
                    id: snapshot_id@,
                    path: snapshot_path@,
                    created_at: now,
                    entrypoint: config.entrypoint.deep_view(),
                    cmd: config.cmd.deep_view(),
                    env: config.env.deep_view(),
                    name: nv,
                    description: dv,
                }),
            );
        assert(built_snapshot(snapshot_id@, snapshot_path@, now, content@, nv, dv) == (SnapshotView {
            id: snapshot_id@,
            path: snapshot_path@,
            created_at: now,
            entrypoint: config.entrypoint.deep_view(),
            cmd: config.cmd.deep_view(),
            env: config.env.deep_view(),
            name: nv,
            description: dv,
        }));
    }
    BuildResponse { snapshot_path, snapshot_id }
}

/// The directory of a build from a Dockerfile that came with a request.
pub fn inline_build_dir(temp: &str, unique: &str) -> (r: String)
    ensures
        r@ == joined(temp@, "moulin-daytona-build-"@ + unique@),
{
    let name = glue("moulin-daytona-build-", unique);
    join(temp, name.as_str())
}

/// The directory of a build from a Dockerfile that came with a request, under an id of its own.
pub fn new_inline_build_dir(temp: &str) -> (r: String)
    ensures
        exists|unique: Seq<char>|
            uuid_text(unique) && r@ == #[trigger] joined(
                temp@,
                "moulin-daytona-build-"@ + unique,
            ),
{
    let unique = crate::outside::new_id();
    inline_build_dir(temp, unique.as_str())
}

/// What a request asks to be removed from the cache: everything, else what has a key, else what has
/// a digest, else what is no longer there.
pub open spec fn asked_prune(
    clear_all: bool,
    cache_key: Option<Seq<char>>,
    dockerfile_md5: Option<Seq<char>>,
) -> PruneView {
    if clear_all {
        PruneView::ClearAll
    } else {
        match cache_key {
            Some(key) => PruneView::Scope(ScopeView::CacheKey(key)),
            None => match dockerfile_md5 {
                Some(md5) => PruneView::Scope(ScopeView::DockerfileMd5(md5)),
                None => PruneView::RemoveMissingOnly,
            },
        }
    }
}

/// What a request asks to be removed from the cache.
pub fn handle_build_cache_prune(request: BuildCachePruneRequest) -> (r: BuildCachePruneMode)
    ensures
        r.deep_view() == asked_prune(
            request.clear_all,
            request.cache_key.deep_view(),
            request.dockerfile_md5.deep_view(),
        ),
{
    if request.clear_all {
        BuildCachePruneMode::ClearAll
    } else if let Some(key) = request.cache_key {
        BuildCachePruneMode::Scope(BuildCacheScope::CacheKey(key))
    } else if let Some(md5) = request.dockerfile_md5 {
        BuildCachePruneMode::Scope(BuildCacheScope::DockerfileMd5(md5))
    } else {
        BuildCachePruneMode::RemoveMissingOnly
    }
}

// Small replies

/// Tells a sandbox and what it uses.
pub fn handle_sandbox_info(metadata: &Metadata, id: &str, stats: SandboxRuntimeStatsResponse) -> (r:
    Result<SandboxInfoResponse, Error>)
    ensures
        match by_id(metadata.deep_view(), id@) {
            Ok(s) => r matches Ok(i) && i.id@ == s.id && i.ip.deep_view() == s.ip && i.pid == s.pid
                && i.resources == s.resources && i.stats == stats,
            Err(e) => r matches Err(f) && f.deep_view() == e,
        },
{
    match sandbox_by_id(metadata, id) {
        Ok(s) => Ok(
            SandboxInfoResponse {
                id: s.id.clone(),
                ip: copy_text(&s.ip),
                pid: s.pid,
                resources: s.resources,
                stats,
            },
        ),
        Err(e) => Err(e),
    }
}

/// The message that tells that a sandbox sleeps.
pub fn suspended_message(id: &str) -> (r: String)
    ensures
        r@ == "Suspended sandbox "@ + id@,
{
    glue("Suspended sandbox ", id)
}

/// The message that tells that a sandbox runs again.
pub fn resumed_message(id: &str) -> (r: String)
    ensures
        r@ == "Resumed sandbox "@ + id@,
{
    glue("Resumed sandbox ", id)
}

/// The directory that commands in a sandbox start in.
pub fn handle_toolbox_work_dir(metadata: &Metadata, id: &str) -> (r: Result<String, Error>)
    ensures
        outcome(r) == match by_id(metadata.deep_view(), id@) {
            Ok(_) => Ok::<Seq<char>, ErrorView>("/"@),
            Err(e) => Err(e),
        },
{
    match sandbox_by_id(metadata, id) {
        Ok(_) => Ok("/".to_owned()),
        Err(e) => Err(e),
    }
}

/// A name can be the name of an image just where it is not empty, no character of it is a slash, and
/// no two characters in a row are dots.
pub proof fn law_image_names(name: Seq<char>)
    ensures
        image_name(name) <==> name.len() > 0 && (forall|i: int|
            0 <= i < name.len() ==> #[trigger] name[i] != '/') && (forall|i: int, j: int|
            0 <= i < name.len() && j == i + 1 && j < name.len() ==> !(#[trigger] name[i] == '.'
                && #[trigger] name[j] == '.')),
{
    let slash = Class::Only('/');
    reveal_strlit("..");
    lemma_first_of(name, slash);
    if !holds(name, slash) {
        assert forall|i: int| 0 <= i < name.len() implies #[trigger] name[i] != '/' by {
            assert(!slash.has(name[i]));
        }
    } else {
        assert(name[crate::text::first_of(name, slash)] == '/');
    }
    if has_text(name, ".."@) {
        let i = choose|i: int| crate::text::stands_at(name, ".."@, i);
        let s = name.subrange(i, i + 2);
        assert(s[0] == name[i] && s[1] == name[i + 1]);
        assert(name[i] == '.' && name[i + 1] == '.');
    } else {
        assert forall|i: int, j: int| 0 <= i < name.len() && j == i + 1 && j < name.len() implies !(
        #[trigger] name[i] == '.' && #[trigger] name[j] == '.') by {
            if name[i] == '.' && name[j] == '.' {
                assert(name.subrange(i, i + 2) =~= ".."@);
                assert(crate::text::stands_at(name, ".."@, i));
            }
        }
    }
}

/// An image is found where its name is proper, its directory is there and has a Dockerfile; of what
/// is missing the first is told, with the name.
pub proof fn law_image_is_found_or_told(
    root: Seq<char>,
    name: Seq<char>,
    is_dir: bool,
    has_dockerfile: bool,
)
    ensures
        image_at(root, name, is_dir, has_dockerfile) is Ok <==> image_name(name) && is_dir
            && has_dockerfile,
        image_at(root, name, is_dir, has_dockerfile) matches Ok(dir) ==> dir == joined(
            joined(root, "images"@),
            name,
        ),
        image_at(root, name, is_dir, has_dockerfile) matches Err(e) ==> e == ErrorView::About(
            if !image_name(name) {
                Complaint::InvalidImageName
            } else if !is_dir {
                Complaint::ImageNotFound
            } else {
                Complaint::ImageWithoutDockerfile
            },
            name,
        ),
{
}

/// Every directory with a Dockerfile is listed as it is, and nothing else is.
pub proof fn law_every_image_is_listed(entries: Seq<ImageEntry>, i: int, k: int)
    ensures
        ({
            let all = definitions(entries);
            &&& 0 <= i < entries.len() && entries[i].is_dir && entries[i].dockerfile is Some ==> exists|
                j: int,
            |
                0 <= j < all.len() && #[trigger] all[j] == (ImageDefinitionView {
                    name: entries[i].name@,
                    dockerfile_path: joined(entries[i].dir@, "Dockerfile"@),
                    context_path: entries[i].dir@,
                    dockerfile_content: entries[i].dockerfile->0@,
                })
            &&& 0 <= k < all.len() ==> exists|j: int|
                0 <= j < entries.len() && (#[trigger] entries[j]).is_dir && entries[j].dockerfile is Some
                    && all[k].name == entries[j].name@ && all[k].context_path == entries[j].dir@
                    && all[k].dockerfile_path == joined(entries[j].dir@, "Dockerfile"@)
                    && all[k].dockerfile_content == entries[j].dockerfile->0@
            &&& all.len() <= entries.len()
            &&& sorted::<ImageDefinitionResponse>(all, false).to_multiset() == all.to_multiset()
        }),
    decreases entries.len(),
{
    let all = definitions(entries);
    law_sorting_orders::<ImageDefinitionResponse>(all, false);
    if entries.len() > 0 {
        let rest = entries.drop_last();
        let n = entries.len() - 1;
        let before = definitions(rest);
        law_every_image_is_listed(rest, i, k);
        if 0 <= i < n && entries[i].is_dir && entries[i].dockerfile is Some {
            assert(rest[i] == entries[i]);
            let j = choose|j: int|
                0 <= j < before.len() && #[trigger] before[j] == (ImageDefinitionView {
                    name: entries[i].name@,
                    dockerfile_path: joined(entries[i].dir@, "Dockerfile"@),
                    context_path: entries[i].dir@,
                    dockerfile_content: entries[i].dockerfile->0@,
                });
            assert(all[j] == before[j]);
        }
        if i == n && entries[n].is_dir && entries[n].dockerfile is Some {
            assert(all[before.len() as int] == all.last());
        }
        if 0 <= k < before.len() {
            assert(all[k] == before[k]);
            let j = choose|j: int|
                0 <= j < rest.len() && (#[trigger] rest[j]).is_dir && rest[j].dockerfile is Some
                    && before[k].name == rest[j].name@ && before[k].context_path == rest[j].dir@
                    && before[k].dockerfile_path == joined(rest[j].dir@, "Dockerfile"@)
                    && before[k].dockerfile_content == rest[j].dockerfile->0@;
            assert(entries[j] == rest[j]);
        } else if k == before.len() && k < all.len() {
            assert(entries[n].is_dir);
        }
    }
}

/// Image definitions are listed by their names: the first character that differs decides, and a name
/// comes before one that it starts.
pub proof fn law_images_are_listed_by_name(a: ImageDefinitionView, b: ImageDefinitionView, k: int)
    ensures
        0 <= k < a.name.len() && k < b.name.len() && a.name.take(k) == b.name.take(k) && (
        a.name[k] as int) < b.name[k] as int ==> precedes(
            ImageDefinitionResponse::key_of(a),
            ImageDefinitionResponse::key_of(b),
        ),
        a.name.len() < b.name.len() && b.name.take(a.name.len() as int) == a.name ==> precedes(
            ImageDefinitionResponse::key_of(a),
            ImageDefinitionResponse::key_of(b),
        ),
{
    law_texts_are_ordered(a.name, b.name, k);
}

/// Of several entry points the last counts, and of several commands the last; an image without one
/// has none.
pub proof fn law_last_command_counts(
    before: Seq<InstructionView>,
    v: Seq<Seq<char>>,
    after: Seq<InstructionView>,
)
    ensures
        (forall|i: int| 0 <= i < after.len() ==> !(#[trigger] after[i] is Cmd)) ==> config_of(
            before.push(InstructionView::Cmd(v)) + after,
        ).cmd == Some(v),
        (forall|i: int| 0 <= i < after.len() ==> !(#[trigger] after[i] is Entrypoint)) ==> config_of(
            before.push(InstructionView::Entrypoint(v)) + after,
        ).entrypoint == Some(v),
        (forall|i: int| 0 <= i < after.len() ==> !(#[trigger] after[i] is Cmd)) ==> config_of(after).cmd
            is None,
        (forall|i: int| 0 <= i < after.len() ==> !(#[trigger] after[i] is Entrypoint)) ==> config_of(
            after,
        ).entrypoint is None,
    decreases after.len(),
{
    let a = before.push(InstructionView::Cmd(v));
    let b = before.push(InstructionView::Entrypoint(v));
    if after.len() == 0 {
        assert(a + after =~= a);
        assert(b + after =~= b);
    } else {
        let rest = after.drop_last();
        law_last_command_counts(before, v, rest);
        assert((a + after).drop_last() =~= a + rest);
        assert((b + after).drop_last() =~= b + rest);
        assert((a + after).last() == after.last() && (b + after).last() == after.last());
        if forall|i: int| 0 <= i < after.len() ==> !(#[trigger] after[i] is Cmd) {
            assert forall|i: int| 0 <= i < rest.len() implies !(#[trigger] rest[i] is Cmd) by {
                assert(rest[i] == after[i]);
            }
            assert(!(after[after.len() - 1] is Cmd));
        }
        if forall|i: int| 0 <= i < after.len() ==> !(#[trigger] after[i] is Entrypoint) {
            assert forall|i: int| 0 <= i < rest.len() implies !(#[trigger] rest[i] is Entrypoint) by {
                assert(rest[i] == after[i]);
            }
            assert(!(after[after.len() - 1] is Entrypoint));
        }
    }
}

/// Every variable that a Dockerfile sets is kept, in order: one more instruction adds one where it is
/// `ENV`, and none where it is not.
pub proof fn law_every_variable_is_kept(all: Seq<InstructionView>, one: InstructionView)
    ensures
        config_of(Seq::<InstructionView>::empty()).env.len() == 0,
        match one {
            InstructionView::Env { key, value } => config_of(all.push(one)).env == config_of(
                all,
            ).env.push(key + "="@ + value),
            _ => config_of(all.push(one)).env == config_of(all).env,
        },
{
    assert(all.push(one).drop_last() =~= all);
}

/// The snapshot of a build keeps the path, the name and the description that it is given, and what its
/// Dockerfile says of running it; without variables it has no environment.
pub proof fn law_built_snapshot_runs_as_it_says(
    id: Seq<char>,
    path: Seq<char>,
    now: Seq<char>,
    content: Seq<char>,
    name: Option<Seq<char>>,
    description: Option<Seq<char>>,
)
    ensures
        ({
            let s = built_snapshot(id, path, now, content, name, description);
            let config = config_of(dockerfile(content));
            &&& s.id == id && s.path == path && s.created_at == now
            &&& s.name == name && s.description == description
            &&& s.entrypoint == config.entrypoint && s.cmd == config.cmd
            &&& config.env.len() == 0 ==> s.env is None
            &&& config.env.len() > 0 ==> s.env == Some(config.env)
        }),
{
}

/// A request to prune is taken at its widest word: all, else one key, else one digest, else what is
/// no longer there.
pub proof fn law_widest_word_counts(key: Seq<char>, md5: Seq<char>, other: Option<Seq<char>>)
    ensures
        asked_prune(true, Some(key), other) == PruneView::ClearAll,
        asked_prune(true, None, other) == PruneView::ClearAll,
        asked_prune(false, Some(key), other) == PruneView::Scope(ScopeView::CacheKey(key)),
        asked_prune(false, None, Some(md5)) == PruneView::Scope(ScopeView::DockerfileMd5(md5)),
        asked_prune(false, None, None) == PruneView::RemoveMissingOnly,
{
}

} // verus!
