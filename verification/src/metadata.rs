//! What is known of snapshots, sandboxes, volumes and build artifacts.
use crate::order::{codes, is_before, law_texts_are_ordered, precedes, Keyed};
use crate::outside::{clock_text, new_id, now_text, uuid_text};
use crate::path::{join, joined};
use crate::sandbox::ResourceLimits;
use crate::table::{law_put_is_found, lookup, put, StringMap};
use vstd::prelude::*;

verus! {

/// A copy of an optional text.
pub fn copy_text(s: &Option<String>) -> (r: Option<String>)
    ensures
        r.deep_view() == s.deep_view(),
{
    match s {
        Some(t) => Some(t.clone()),
        None => None,
    }
}

/// A copy of a list of texts.
pub fn copy_texts(v: &Vec<String>) -> (r: Vec<String>)
    ensures
        r.deep_view() == v.deep_view(),
{
    let r = v.clone();
    proof {
        assert(r.deep_view() =~= v.deep_view());
    }
    r
}

/// A copy of an optional list of texts.
pub fn copy_list(s: &Option<Vec<String>>) -> (r: Option<Vec<String>>)
    ensures
        r.deep_view() == s.deep_view(),
{
    match s {
        Some(v) => Some(copy_texts(v)),
        None => None,
    }
}

/// A root file system that sandboxes can be started from.
pub struct SnapshotMetadata {
    pub id: String,
    /// Where it lies on the host.
    pub path: String,
    pub created_at: String,
    pub entrypoint: Option<Vec<String>>,
    pub cmd: Option<Vec<String>>,
    pub env: Option<Vec<String>>,
    pub name: Option<String>,
    pub description: Option<String>,
}

/// The mathematical value of a `SnapshotMetadata`.
#[verifier::ext_equal]
pub struct SnapshotView {
    pub id: Seq<char>,
    pub path: Seq<char>,
    pub created_at: Seq<char>,
    pub entrypoint: Option<Seq<Seq<char>>>,
    pub cmd: Option<Seq<Seq<char>>>,
    pub env: Option<Seq<Seq<char>>>,
    pub name: Option<Seq<char>>,
    pub description: Option<Seq<char>>,
}

impl DeepView for SnapshotMetadata {
    type V = SnapshotView;

    open spec fn deep_view(&self) -> SnapshotView {
        SnapshotView {
            id: self.id@,
            path: self.path@,
            created_at: self.created_at@,
            entrypoint: self.entrypoint.deep_view(),
            cmd: self.cmd.deep_view(),
            env: self.env.deep_view(),
            name: self.name.deep_view(),
            description: self.description.deep_view(),
        }
    }
}

impl Clone for SnapshotMetadata {
    fn clone(&self) -> (r: Self)
        ensures
            r.deep_view() == self.deep_view(),
    {
        SnapshotMetadata {
            id: self.id.clone(),
            path: self.path.clone(),
            created_at: self.created_at.clone(),
            entrypoint: copy_list(&self.entrypoint),
            cmd: copy_list(&self.cmd),
            env: copy_list(&self.env),
            name: copy_text(&self.name),
            description: copy_text(&self.description),
        }
    }
}

/// A directory of the host that sandboxes can share.
pub struct VolumeMetadata {
    pub id: String,
    pub name: String,
    /// Where it lies on the host.
    pub path: String,
    pub created_at: String,
}

/// The mathematical value of a `VolumeMetadata`.
#[verifier::ext_equal]
pub struct VolumeView {
    pub id: Seq<char>,
    pub name: Seq<char>,
    pub path: Seq<char>,
    pub created_at: Seq<char>,
}

impl DeepView for VolumeMetadata {
    type V = VolumeView;

    open spec fn deep_view(&self) -> VolumeView {
        VolumeView {
            id: self.id@,
            name: self.name@,
            path: self.path@,
            created_at: self.created_at@,
        }
    }
}

impl Clone for VolumeMetadata {
    fn clone(&self) -> (r: Self)
        ensures
            r.deep_view() == self.deep_view(),
    {
        VolumeMetadata {
            id: self.id.clone(),
            name: self.name.clone(),
            path: self.path.clone(),
            created_at: self.created_at.clone(),
        }
    }
}

/// A volume mounted in a sandbox.
pub struct MountConfig {
    /// The volume.
    pub volume_id: String,
    /// Where it appears in the sandbox: an absolute path.
    pub mount_path: String,
    /// The directory inside the volume that is mounted; the whole volume where absent. It counts
    /// from the volume, also where it starts with a slash.
    pub subpath: Option<String>,
    /// Whether it can only be read.
    pub readonly: bool,
}

/// The mathematical value of a `MountConfig`.
#[verifier::ext_equal]
pub struct MountView {
    pub volume_id: Seq<char>,
    pub mount_path: Seq<char>,
    pub subpath: Option<Seq<char>>,
    pub readonly: bool,
}

impl DeepView for MountConfig {
    type V = MountView;

    open spec fn deep_view(&self) -> MountView {
        MountView {
            volume_id: self.volume_id@,
            mount_path: self.mount_path@,
            subpath: self.subpath.deep_view(),
            readonly: self.readonly,
        }
    }
}

impl Clone for MountConfig {
    fn clone(&self) -> (r: Self)
        ensures
            r.deep_view() == self.deep_view(),
    {
        MountConfig {
            volume_id: self.volume_id.clone(),
            mount_path: self.mount_path.clone(),
            subpath: copy_text(&self.subpath),
            readonly: self.readonly,
        }
    }
}

/// A copy of a list of mounts.
pub fn copy_mounts(v: &Vec<MountConfig>) -> (r: Vec<MountConfig>)
    ensures
        r.deep_view() == v.deep_view(),
{
    let mut r: Vec<MountConfig> = Vec::new();
    let mut i: usize = 0;
    while i < v.len()
        invariant
            i <= v@.len(),
            r@.len() == i,
            forall|j: int| 0 <= j < i ==> (#[trigger] r@[j]).deep_view() == v@[j].deep_view(),
        decreases v@.len() - i,
    {
        r.push(v[i].clone());
        i = i + 1;
    }
    proof {
        assert(r.deep_view() =~= v.deep_view());
    }
    r
}

/// A sandbox.
pub struct SandboxMetadata {
    pub id: String,
    /// The snapshot that it was started from; empty where that is not on record.
    pub snapshot_id: String,
    pub created_at: String,
    /// Its directory on the host.
    pub dir: String,
    /// The process that commands enter the sandbox through.
    pub pid: Option<i32>,
    pub ip: Option<String>,
    pub resources: ResourceLimits,
    pub mounts: Vec<MountConfig>,
    pub name: Option<String>,
    /// `started` or `stopped`.
    pub state: String,
    pub user: Option<String>,
    pub env: StringMap<String>,
    pub labels: StringMap<String>,
    pub public: bool,
    pub target: Option<String>,
    pub network_block_all: bool,
    pub network_allow_list: Option<String>,
    pub auto_stop_interval: Option<u32>,
    pub auto_archive_interval: Option<u32>,
    pub auto_delete_interval: Option<u32>,
    pub updated_at: Option<String>,
}

/// The mathematical value of a `SandboxMetadata`.
#[verifier::ext_equal]
pub struct SandboxView {
    pub id: Seq<char>,
    pub snapshot_id: Seq<char>,
    pub created_at: Seq<char>,
    pub dir: Seq<char>,
    pub pid: Option<i32>,
    pub ip: Option<Seq<char>>,
    pub resources: ResourceLimits,
    pub mounts: Seq<MountView>,
    pub name: Option<Seq<char>>,
    pub state: Seq<char>,
    pub user: Option<Seq<char>>,
    pub env: Seq<(Seq<char>, Seq<char>)>,
    pub labels: Seq<(Seq<char>, Seq<char>)>,
    pub public: bool,
    pub target: Option<Seq<char>>,
    pub network_block_all: bool,
    pub network_allow_list: Option<Seq<char>>,
    pub auto_stop_interval: Option<u32>,
    pub auto_archive_interval: Option<u32>,
    pub auto_delete_interval: Option<u32>,
    pub updated_at: Option<Seq<char>>,
}

impl DeepView for SandboxMetadata {
    type V = SandboxView;

    open spec fn deep_view(&self) -> SandboxView {
        SandboxView {
            id: self.id@,
            snapshot_id: self.snapshot_id@,
            created_at: self.created_at@,
            dir: self.dir@,
            pid: self.pid,
            ip: self.ip.deep_view(),
            resources: self.resources,
            mounts: self.mounts.deep_view(),
            name: self.name.deep_view(),
            state: self.state@,
            user: self.user.deep_view(),
            env: self.env.deep_view(),
            labels: self.labels.deep_view(),
            public: self.public,
            target: self.target.deep_view(),
            network_block_all: self.network_block_all,
            network_allow_list: self.network_allow_list.deep_view(),
            auto_stop_interval: self.auto_stop_interval,
            auto_archive_interval: self.auto_archive_interval,
            auto_delete_interval: self.auto_delete_interval,
            updated_at: self.updated_at.deep_view(),
        }
    }
}

impl Clone for SandboxMetadata {
    fn clone(&self) -> (r: Self)
        ensures
            r.deep_view() == self.deep_view(),
    {
        SandboxMetadata {
            id: self.id.clone(),
            snapshot_id: self.snapshot_id.clone(),
            created_at: self.created_at.clone(),
            dir: self.dir.clone(),
            pid: self.pid,
            ip: copy_text(&self.ip),
            resources: self.resources,
            mounts: copy_mounts(&self.mounts),
            name: copy_text(&self.name),
            state: self.state.clone(),
            user: copy_text(&self.user),
            env: self.env.clone(),
            labels: self.labels.clone(),
            public: self.public,
            target: copy_text(&self.target),
            network_block_all: self.network_block_all,
            network_allow_list: copy_text(&self.network_allow_list),
            auto_stop_interval: self.auto_stop_interval,
            auto_archive_interval: self.auto_archive_interval,
            auto_delete_interval: self.auto_delete_interval,
            updated_at: copy_text(&self.updated_at),
        }
    }
}

/// A build result that later builds can use again.
pub struct BuildArtifactMetadata {
    pub cache_key: String,
    pub dockerfile_md5: String,
    pub context_hash: String,
    /// Where it lies on the host.
    pub snapshot_path: String,
    pub created_at: String,
    pub last_used_at: String,
}

/// The mathematical value of a `BuildArtifactMetadata`.
#[verifier::ext_equal]
pub struct ArtifactView {
    pub cache_key: Seq<char>,
    pub dockerfile_md5: Seq<char>,
    pub context_hash: Seq<char>,
    pub snapshot_path: Seq<char>,
    pub created_at: Seq<char>,
    pub last_used_at: Seq<char>,
}

impl DeepView for BuildArtifactMetadata {
    type V = ArtifactView;

    open spec fn deep_view(&self) -> ArtifactView {
        ArtifactView {
            cache_key: self.cache_key@,
            dockerfile_md5: self.dockerfile_md5@,
            context_hash: self.context_hash@,
            snapshot_path: self.snapshot_path@,
            created_at: self.created_at@,
            last_used_at: self.last_used_at@,
        }
    }
}

impl Clone for BuildArtifactMetadata {
    fn clone(&self) -> (r: Self)
        ensures
            r.deep_view() == self.deep_view(),
    {
        BuildArtifactMetadata {
            cache_key: self.cache_key.clone(),
            dockerfile_md5: self.dockerfile_md5.clone(),
            context_hash: self.context_hash.clone(),
            snapshot_path: self.snapshot_path.clone(),
            created_at: self.created_at.clone(),
            last_used_at: self.last_used_at.clone(),
        }
    }
}

impl Keyed for BuildArtifactMetadata {
    open spec fn key_of(item: ArtifactView) -> Seq<int> {
        codes(item.cache_key)
    }

    fn stands_before(&self, other: &Self) -> (r: bool) {
        is_before(self.cache_key.as_str(), other.cache_key.as_str())
    }
}

impl Keyed for SandboxMetadata {
    open spec fn key_of(item: SandboxView) -> Seq<int> {
        codes(item.created_at)
    }

    fn stands_before(&self, other: &Self) -> (r: bool) {
        is_before(self.created_at.as_str(), other.created_at.as_str())
    }
}

/// Everything that is on record, each table under the ids of its entries.
pub struct Metadata {
    pub snapshots: StringMap<SnapshotMetadata>,
    pub sandboxes: StringMap<SandboxMetadata>,
    pub build_artifacts: StringMap<BuildArtifactMetadata>,
    pub volumes: StringMap<VolumeMetadata>,
}

/// The mathematical value of a `Metadata`.
#[verifier::ext_equal]
pub struct MetadataView {
    pub snapshots: Seq<(Seq<char>, SnapshotView)>,
    pub sandboxes: Seq<(Seq<char>, SandboxView)>,
    pub build_artifacts: Seq<(Seq<char>, ArtifactView)>,
    pub volumes: Seq<(Seq<char>, VolumeView)>,
}

impl DeepView for Metadata {
    type V = MetadataView;

    open spec fn deep_view(&self) -> MetadataView {
        MetadataView {
            snapshots: self.snapshots.deep_view(),
            sandboxes: self.sandboxes.deep_view(),
            build_artifacts: self.build_artifacts.deep_view(),
            volumes: self.volumes.deep_view(),
        }
    }
}

/// Nothing on record.
pub open spec fn no_metadata() -> MetadataView {
    MetadataView {
        snapshots: Seq::empty(),
        sandboxes: Seq::empty(),
        build_artifacts: Seq::empty(),
        volumes: Seq::empty(),
    }
}

impl Default for Metadata {
    fn default() -> (r: Self)
        ensures
            r.deep_view() == no_metadata(),
    {
        Metadata {
            snapshots: StringMap::new(),
            sandboxes: StringMap::new(),
            build_artifacts: StringMap::new(),
            volumes: StringMap::new(),
        }
    }
}

/// The directory of the volumes of the user whose home directory is `home`.
pub fn get_volumes_dir(home: &str) -> (r: String)
    ensures
        r@ == joined(home@, ".moulin/volumes"@),
{
    join(home, ".moulin/volumes")
}

/// The directory of the records.
pub fn get_metadata_dir(home: &str) -> (r: String)
    ensures
        r@ == joined(home@, ".moulin/metadata"@),
{
    join(home, ".moulin/metadata")
}

/// The file of the records.
pub fn metadata_path(home: &str) -> (r: String)
    ensures
        r@ == joined(joined(home@, ".moulin/metadata"@), "state.json"@),
{
    let dir = get_metadata_dir(home);
    join(dir.as_str(), "state.json")
}

/// The snapshots with one more of them.
pub open spec fn with_snapshot(
    m: MetadataView,
    snapshot: SnapshotView,
) -> MetadataView {
    MetadataView { snapshots: put(m.snapshots, snapshot.id, snapshot), ..m }
}

/// Puts a snapshot on record under its id.
pub fn add_snapshot(metadata: &mut Metadata, snapshot: SnapshotMetadata)
    ensures
        final(metadata).deep_view() == with_snapshot(
            old(metadata).deep_view(),
            snapshot.deep_view(),
        ),
{
    metadata.snapshots.insert(snapshot.id.clone(), snapshot);
}

/// Puts a new snapshot on record under an id of its own, and returns the id.
pub fn register_snapshot(
    metadata: &mut Metadata,
    path: String,
    entrypoint: Option<Vec<String>>,
    cmd: Option<Vec<String>>,
    env: Option<Vec<String>>,
    name: Option<String>,
    description: Option<String>,
) -> (r: String)
    ensures
        uuid_text(r@),
        exists|now: Seq<char>|
            #[trigger] clock_text(now) && final(metadata).deep_view() == with_snapshot(
                old(metadata).deep_view(),
                (SnapshotView {
                    id: r@,
                    path: path@,
                    created_at: now,
                    entrypoint: entrypoint.deep_view(),
                    cmd: cmd.deep_view(),
                    env: env.deep_view(),
                    name: name.deep_view(),
                    description: description.deep_view(),
                }),
            ),
{
    let id = new_id();
    let created_at = now_text();
    let snapshot = SnapshotMetadata {
        id: id.clone(),
        path,
        created_at,
        entrypoint,
        cmd,
        env,
        name,
        description,
    };
    add_snapshot(metadata, snapshot);
    id
}

/// The record of an artifact that is used at the time `now`: an artifact that is on record keeps
/// its Dockerfile digest and the time at which it was made.
pub open spec fn touched(
    m: MetadataView,
    cache_key: Seq<char>,
    dockerfile_md5: Seq<char>,
    context_hash: Seq<char>,
    snapshot_path: Seq<char>,
    now: Seq<char>,
) -> MetadataView {
    let artifact = match lookup(m.build_artifacts, cache_key) {
        Some(known) => ArtifactView { snapshot_path, context_hash, last_used_at: now, ..known },
        None => ArtifactView {
            cache_key,
            dockerfile_md5,
            context_hash,
            snapshot_path,
            created_at: now,
            last_used_at: now,
        },
    };
    MetadataView { build_artifacts: put(m.build_artifacts, cache_key, artifact), ..m }
}

/// Records that an artifact is used at the time `now`.
pub fn touch_build_artifact_at(
    metadata: &mut Metadata,
    cache_key: String,
    dockerfile_md5: String,
    context_hash: String,
    snapshot_path: String,
    now: String,
)
    ensures
        final(metadata).deep_view() == touched(
            old(metadata).deep_view(),
            cache_key@,
            dockerfile_md5@,
            context_hash@,
            snapshot_path@,
            now@,
        ),
{
    let artifact = match metadata.build_artifacts.get(cache_key.as_str()) {
        Some(known) => BuildArtifactMetadata {
            cache_key: known.cache_key.clone(),
            dockerfile_md5: known.dockerfile_md5.clone(),
            context_hash,
            snapshot_path,
            created_at: known.created_at.clone(),
            last_used_at: now,
        },
        None => BuildArtifactMetadata {
            cache_key: cache_key.clone(),
            dockerfile_md5,
            context_hash,
            snapshot_path,
            created_at: now.clone(),
            last_used_at: now,
        },
    };
    metadata.build_artifacts.insert(cache_key, artifact);
}

/// Records that an artifact is used now.
pub fn touch_build_artifact(
    metadata: &mut Metadata,
    cache_key: String,
    dockerfile_md5: String,
    context_hash: String,
    snapshot_path: String,
)
    ensures
        exists|now: Seq<char>|
            clock_text(now) && final(metadata).deep_view() == #[trigger] touched(
                old(metadata).deep_view(),
                cache_key@,
                dockerfile_md5@,
                context_hash@,
                snapshot_path@,
                now,
            ),
{
    let now = now_text();
    touch_build_artifact_at(
        metadata,
        cache_key,
        dockerfile_md5,
        context_hash,
        snapshot_path,
        now,
    );
}

/// A snapshot that was put on record is found under its id; the others, and everything else that
/// is on record, stay.
pub proof fn law_registered_snapshot_is_found(m: MetadataView, snapshot: SnapshotView, other: Seq<char>)
    ensures
        lookup(with_snapshot(m, snapshot).snapshots, snapshot.id) == Some(snapshot),
        other != snapshot.id ==> lookup(with_snapshot(m, snapshot).snapshots, other) == lookup(
            m.snapshots,
            other,
        ),
        with_snapshot(m, snapshot).sandboxes == m.sandboxes,
        with_snapshot(m, snapshot).volumes == m.volumes,
        with_snapshot(m, snapshot).build_artifacts == m.build_artifacts,
{
    law_put_is_found(m.snapshots, snapshot.id, snapshot, other);
}

/// Using an artifact again moves its last use and nothing that was set when it was made; the other
/// artifacts stay.
pub proof fn law_artifact_keeps_its_origin(
    m: MetadataView,
    cache_key: Seq<char>,
    dockerfile_md5: Seq<char>,
    context_hash: Seq<char>,
    snapshot_path: Seq<char>,
    now: Seq<char>,
    other: Seq<char>,
)
    ensures
        ({
            let after = touched(m, cache_key, dockerfile_md5, context_hash, snapshot_path, now);
            let artifact = lookup(after.build_artifacts, cache_key);
            &&& artifact is Some
            &&& artifact->0.last_used_at == now
            &&& artifact->0.snapshot_path == snapshot_path
            &&& artifact->0.context_hash == context_hash
            &&& lookup(m.build_artifacts, cache_key) matches Some(known) ==> {
                &&& artifact->0.created_at == known.created_at
                &&& artifact->0.dockerfile_md5 == known.dockerfile_md5
                &&& artifact->0.cache_key == known.cache_key
            }
            &&& lookup(m.build_artifacts, cache_key) is None ==> {
                &&& artifact->0.created_at == now
                &&& artifact->0.dockerfile_md5 == dockerfile_md5
                &&& artifact->0.cache_key == cache_key
            }
            &&& other != cache_key ==> lookup(after.build_artifacts, other) == lookup(
                m.build_artifacts,
                other,
            )
            &&& after.snapshots == m.snapshots
            &&& after.sandboxes == m.sandboxes
            &&& after.volumes == m.volumes
        }),
{
    let artifact = match lookup(m.build_artifacts, cache_key) {
        Some(known) => ArtifactView { snapshot_path, context_hash, last_used_at: now, ..known },
        None => ArtifactView {
            cache_key,
            dockerfile_md5,
            context_hash,
            snapshot_path,
            created_at: now,
            last_used_at: now,
        },
    };
    law_put_is_found(m.build_artifacts, cache_key, artifact, other);
}

/// Sandboxes stand in the order of the times at which they were made, as texts, and artifacts in the
/// order of their keys: the first character that differs decides, and a text comes before one that it
/// starts.
pub proof fn law_listing_goes_by_text(
    s: SandboxView,
    t: SandboxView,
    a: ArtifactView,
    b: ArtifactView,
    k: int,
)
    ensures
        0 <= k < s.created_at.len() && k < t.created_at.len() && s.created_at.take(k)
            == t.created_at.take(k) && (s.created_at[k] as int) < t.created_at[k] as int ==> precedes(
            SandboxMetadata::key_of(s),
            SandboxMetadata::key_of(t),
        ),
        s.created_at.len() < t.created_at.len() && t.created_at.take(s.created_at.len() as int)
            == s.created_at ==> precedes(SandboxMetadata::key_of(s), SandboxMetadata::key_of(t)),
        0 <= k < a.cache_key.len() && k < b.cache_key.len() && a.cache_key.take(k) == b.cache_key.take(
            k,
        ) && (a.cache_key[k] as int) < b.cache_key[k] as int ==> precedes(
            BuildArtifactMetadata::key_of(a),
            BuildArtifactMetadata::key_of(b),
        ),
        a.cache_key.len() < b.cache_key.len() && b.cache_key.take(a.cache_key.len() as int)
            == a.cache_key ==> precedes(
            BuildArtifactMetadata::key_of(a),
            BuildArtifactMetadata::key_of(b),
        ),
{
    law_texts_are_ordered(s.created_at, t.created_at, k);
    law_texts_are_ordered(a.cache_key, b.cache_key, k);
}

/// Nothing is on record at first.
pub proof fn law_nothing_is_on_record_at_first(id: Seq<char>)
    ensures
        lookup(no_metadata().snapshots, id) is None,
        lookup(no_metadata().sandboxes, id) is None,
        lookup(no_metadata().volumes, id) is None,
        lookup(no_metadata().build_artifacts, id) is None,
{
}

/// The records are seen whole, each field as it is.
pub proof fn law_records_are_seen_whole(
    snapshot: SnapshotMetadata,
    volume: VolumeMetadata,
    mount: MountConfig,
    artifact: BuildArtifactMetadata,
    m: Metadata,
)
    ensures
        ({
            let v = snapshot.deep_view();
            &&& v.id == snapshot.id@ && v.path == snapshot.path@ && v.created_at
                == snapshot.created_at@
            &&& v.entrypoint == snapshot.entrypoint.deep_view() && v.cmd == snapshot.cmd.deep_view()
            &&& v.env == snapshot.env.deep_view()
            &&& v.name == snapshot.name.deep_view() && v.description
                == snapshot.description.deep_view()
        }),
        ({
            let v = volume.deep_view();
            v.id == volume.id@ && v.name == volume.name@ && v.path == volume.path@ && v.created_at
                == volume.created_at@
        }),
        ({
            let v = mount.deep_view();
            v.volume_id == mount.volume_id@ && v.mount_path == mount.mount_path@ && v.subpath
                == mount.subpath.deep_view() && v.readonly == mount.readonly
        }),
        ({
            let v = artifact.deep_view();
            &&& v.cache_key == artifact.cache_key@ && v.dockerfile_md5 == artifact.dockerfile_md5@
            &&& v.context_hash == artifact.context_hash@ && v.snapshot_path
                == artifact.snapshot_path@
            &&& v.created_at == artifact.created_at@ && v.last_used_at == artifact.last_used_at@
        }),
        ({
            let v = m.deep_view();
            &&& v.snapshots == m.snapshots.deep_view() && v.sandboxes == m.sandboxes.deep_view()
            &&& v.volumes == m.volumes.deep_view() && v.build_artifacts
                == m.build_artifacts.deep_view()
        }),
{
}

/// A sandbox is seen whole, each field as it is.
pub proof fn law_sandbox_is_seen_whole(s: SandboxMetadata)
    ensures
        ({
            let v = s.deep_view();
            &&& v.id == s.id@ && v.snapshot_id == s.snapshot_id@ && v.created_at == s.created_at@
            &&& v.dir == s.dir@ && v.pid == s.pid && v.ip == s.ip.deep_view()
            &&& v.resources == s.resources && v.mounts == s.mounts.deep_view()
            &&& v.name == s.name.deep_view() && v.state == s.state@ && v.user == s.user.deep_view()
            &&& v.env == s.env.deep_view() && v.labels == s.labels.deep_view()
            &&& v.public == s.public && v.target == s.target.deep_view()
            &&& v.network_block_all == s.network_block_all
            &&& v.network_allow_list == s.network_allow_list.deep_view()
            &&& v.auto_stop_interval == s.auto_stop_interval
            &&& v.auto_archive_interval == s.auto_archive_interval
            &&& v.auto_delete_interval == s.auto_delete_interval
            &&& v.updated_at == s.updated_at.deep_view()
        }),
{
}

} // verus!
