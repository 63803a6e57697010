//! What requests and replies hold.
use crate::error::{told, Error};
use crate::metadata::{
    ArtifactView, BuildArtifactMetadata, MountConfig, SandboxMetadata, SnapshotMetadata,
    VolumeMetadata, VolumeView,
};
use crate::order::{codes, is_before, Keyed};
use crate::sandbox::ResourceLimits;
use crate::table::StringMap;
use vstd::prelude::*;

verus! {

/// What the handlers share.
#[derive(Clone, Copy)]
pub struct AppState {}

/// A reply: what was asked for, or what went wrong.
#[derive(Debug)]
pub struct ApiResponse<T> {
    pub success: bool,
    pub data: Option<T>,
    pub error: Option<String>,
}

/// The reply that a result makes.
pub open spec fn replies<T>(reply: ApiResponse<T>, r: Result<T, Error>) -> bool {
    match r {
        Ok(data) => {
            &&& reply.success
            &&& reply.data == Some(data)
            &&& reply.error is None
        },
        Err(e) => {
            &&& !reply.success
            &&& reply.data is None
            &&& reply.error matches Some(text) && text@ == told(e.deep_view())
        },
    }
}

/// Makes a reply of a result.
pub fn reply<T>(r: Result<T, Error>) -> (reply: ApiResponse<T>)
    ensures
        replies(reply, r),
{
    match r {
        Ok(data) => ApiResponse { success: true, data: Some(data), error: None },
        Err(e) => ApiResponse { success: false, data: None, error: Some(e.message()) },
    }
}

/// Asks for a build.
#[derive(Debug)]
pub struct BuildRequest {
    pub dockerfile: String,
    pub context: String,
    pub name: Option<String>,
    pub description: Option<String>,
}

/// Tells the snapshot that was made.
#[derive(Debug)]
pub struct BuildResponse {
    pub snapshot_path: String,
    pub snapshot_id: String,
}

impl DeepView for BuildResponse {
    type V = (Seq<char>, Seq<char>);

    open spec fn deep_view(&self) -> (Seq<char>, Seq<char>) {
        (self.snapshot_path@, self.snapshot_id@)
    }
}

/// Asks for a sandbox.
pub struct StartRequest {
    pub snapshot: String,
    pub resources: Option<ResourceLimits>,
    pub mounts: Vec<MountConfig>,
}

/// Tells the sandbox that was started.
#[derive(Debug)]
pub struct StartResponse {
    pub sandbox_id: String,
}

/// What a new sandbox is told about itself.
pub struct SandboxCreateOptions {
    pub name: Option<String>,
    pub user: Option<String>,
    pub env: StringMap<String>,
    pub labels: StringMap<String>,
    pub public: bool,
    pub target: Option<String>,
    pub network_block_all: bool,
    pub network_allow_list: Option<String>,
    pub auto_stop_interval: Option<u32>,
    pub auto_archive_interval: Option<u32>,
    pub auto_delete_interval: Option<u32>,
}

/// The mathematical value of `SandboxCreateOptions`.
#[verifier::ext_equal]
pub struct OptionsView {
    pub name: Option<Seq<char>>,
    pub user: Option<Seq<char>>,
    pub env: Seq<(Seq<char>, Seq<char>)>,
    pub labels: Seq<(Seq<char>, Seq<char>)>,
    pub public: bool,
    pub target: Option<Seq<char>>,
    pub network_block_all: bool,
    pub network_allow_list: Option<Seq<char>>,
    pub auto_stop_interval: Option<u32>,
    pub auto_archive_interval: Option<u32>,
    pub auto_delete_interval: Option<u32>,
}

impl DeepView for SandboxCreateOptions {
    type V = OptionsView;

    open spec fn deep_view(&self) -> OptionsView {
        OptionsView {
            name: self.name.deep_view(),
            user: self.user.deep_view(),
            env: self.env.deep_view(),
            labels: self.labels.deep_view(),
            public: self.public,
            target: self.target.deep_view(),
            network_block_all: self.network_block_all,
            network_allow_list: self.network_allow_list.deep_view(),
            auto_stop_interval: self.auto_stop_interval,
            auto_archive_interval: self.auto_archive_interval,
            auto_delete_interval: self.auto_delete_interval,
        }
    }
}

/// Nothing said about a sandbox.
pub open spec fn no_options() -> OptionsView {
    OptionsView {
        name: None,
        user: None,
        env: Seq::empty(),
        labels: Seq::empty(),
        public: false,
        target: None,
        network_block_all: false,
        network_allow_list: None,
        auto_stop_interval: None,
        auto_archive_interval: None,
        auto_delete_interval: None,
    }
}

impl Default for SandboxCreateOptions {
    fn default() -> (r: Self)
        ensures
            r.deep_view() == no_options(),
    {
        SandboxCreateOptions {
            name: None,
            user: None,
            env: StringMap::new(),
            labels: StringMap::new(),
            public: false,
            target: None,
            network_block_all: false,
            network_allow_list: None,
            auto_stop_interval: None,
            auto_archive_interval: None,
            auto_delete_interval: None,
        }
    }
}

/// Asks for a volume in a new sandbox.
pub struct DaytonaVolumeMountRequest {
    pub volume_id: String,
    pub mount_path: String,
    pub subpath: Option<String>,
    pub readonly: bool,
}

/// Asks for a sandbox, with all that can be said of it.
pub struct DaytonaCreateSandboxRequest {
    pub name: Option<String>,
    pub snapshot: Option<String>,
    pub user: Option<String>,
    pub env: StringMap<String>,
    pub labels: StringMap<String>,
    pub public: Option<bool>,
    pub network_block_all: Option<bool>,
    pub network_allow_list: Option<String>,
    pub target: Option<String>,
    pub cpu: Option<u64>,
    pub gpu: Option<u64>,
    pub memory: Option<u64>,
    pub disk: Option<u64>,
    pub auto_stop_interval: Option<u32>,
    pub auto_archive_interval: Option<u32>,
    pub auto_delete_interval: Option<u32>,
    pub volumes: Vec<DaytonaVolumeMountRequest>,
    /// The Dockerfile to build the sandbox from.
    pub dockerfile_content: Option<String>,
}

/// Asks for a snapshot of a sandbox in an archive.
#[derive(Debug)]
pub struct SnapshotRequest {
    pub sandbox_id: String,
    pub output: String,
}

/// Asks for a command to be run.
#[derive(Debug)]
pub struct ExecRequest {
    pub cmd: Vec<String>,
    pub stream: bool,
}

/// Tells how a command went.
#[derive(Debug)]
pub struct ExecResponse {
    pub stdout: String,
    pub stderr: String,
    pub exit_code: i32,
    pub signal: Option<String>,
    pub oom_killed: Option<bool>,
}

/// The mathematical value of an `ExecResponse`.
#[verifier::ext_equal]
pub struct ExecView {
    pub stdout: Seq<char>,
    pub stderr: Seq<char>,
    pub exit_code: i32,
    pub signal: Option<Seq<char>>,
    pub oom_killed: Option<bool>,
}

impl DeepView for ExecResponse {
    type V = ExecView;

    open spec fn deep_view(&self) -> ExecView {
        ExecView {
            stdout: self.stdout@,
            stderr: self.stderr@,
            exit_code: self.exit_code,
            signal: self.signal.deep_view(),
            oom_killed: self.oom_killed,
        }
    }
}

/// Tells what the server runs on.
#[derive(Debug)]
pub struct ServerInfoResponse {
    pub os: &'static str,
    pub degraded_mode: bool,
    pub supports_image_exec: bool,
}

/// Tells what a sandbox uses. The share of the processor is not measured.
#[derive(Debug, Clone, Copy, PartialEq, Eq)]
pub struct SandboxRuntimeStatsResponse {
    pub memory_current_bytes: Option<u64>,
    pub memory_peak_bytes: Option<u64>,
    pub process_resident_bytes: Option<u64>,
    pub cpu_usage_usec: Option<u64>,
    pub pids_current: Option<u64>,
    pub memory_limit_bytes: Option<u64>,
    pub cpu_quota: Option<u64>,
    pub cpu_period: Option<u64>,
    pub pids_limit: Option<u64>,
    pub oom_kill_count: Option<u64>,
}

/// Tells a sandbox, its limits and what it uses.
#[derive(Debug)]
pub struct SandboxInfoResponse {
    pub id: String,
    pub ip: Option<String>,
    pub pid: Option<i32>,
    pub resources: ResourceLimits,
    pub stats: SandboxRuntimeStatsResponse,
}

/// Asks for the cache of builds to be pruned.
#[derive(Debug)]
pub struct BuildCachePruneRequest {
    pub dockerfile_md5: Option<String>,
    pub cache_key: Option<String>,
    pub clear_all: bool,
}

/// Tells an artifact of the cache.
#[derive(Debug)]
pub struct BuildCacheEntryResponse {
    pub cache_key: String,
    pub dockerfile_md5: String,
    pub context_hash: String,
    pub snapshot_path: String,
    pub created_at: String,
    pub last_used_at: String,
}

impl DeepView for BuildCacheEntryResponse {
    type V = ArtifactView;

    open spec fn deep_view(&self) -> ArtifactView {
        ArtifactView {
            cache_key: self.cache_key@,
            dockerfile_md5: self.dockerfile_md5@,
            context_hash: self.context_hash@,
            snapshot_path: self.snapshot_path@,
            created_at: self.created_at@,
            last_used_at: self.last_used_at@,
        }
    }
}

/// Tells the artifacts.
pub fn cache_entries(artifacts: &Vec<BuildArtifactMetadata>) -> (r: Vec<BuildCacheEntryResponse>)
    ensures
        r.deep_view() == artifacts.deep_view(),
{
    let mut r: Vec<BuildCacheEntryResponse> = Vec::new();
    let mut i: usize = 0;
    while i < artifacts.len()
        invariant
            i <= artifacts@.len(),
            r@.len() == i,
            forall|j: int|
                0 <= j < i ==> (#[trigger] r@[j]).deep_view() == artifacts@[j].deep_view(),
        decreases artifacts@.len() - i,
    {
        let a = &artifacts[i];
        r.push(
            BuildCacheEntryResponse {
                cache_key: a.cache_key.clone(),
                dockerfile_md5: a.dockerfile_md5.clone(),
                context_hash: a.context_hash.clone(),
                snapshot_path: a.snapshot_path.clone(),
                created_at: a.created_at.clone(),
                last_used_at: a.last_used_at.clone(),
            },
        );
        i = i + 1;
    }
    proof {
        assert(r.deep_view() =~= artifacts.deep_view());
    }
    r
}

/// Asks for a file to be written.
#[derive(Debug)]
pub struct FileWriteRequest {
    pub path: String,
    pub content: String,
}

/// Asks for a file to be deleted.
#[derive(Debug)]
pub struct FileDeleteRequest {
    pub path: String,
}

/// Asks for a file to be written from its Base64 form.
#[derive(Debug)]
pub struct FileUploadRequest {
    pub path: String,
    pub data: String,
}

/// Asks for a file in Base64 form.
#[derive(Debug)]
pub struct FileDownloadQuery {
    pub path: String,
}

/// Asks for the text of a file.
#[derive(Debug)]
pub struct FileReadQuery {
    pub path: String,
}

/// Asks for a volume.
#[derive(Debug)]
pub struct VolumeCreateRequest {
    pub name: String,
}

/// Tells a volume.
#[derive(Debug)]
pub struct VolumeResponse {
    pub id: String,
    pub name: String,
    pub path: String,
    pub created_at: String,
}

impl DeepView for VolumeResponse {
    type V = VolumeView;

    open spec fn deep_view(&self) -> VolumeView {
        VolumeView {
            id: self.id@,
            name: self.name@,
            path: self.path@,
            created_at: self.created_at@,
        }
    }
}

/// Tells an image definition.
#[derive(Debug)]
pub struct ImageDefinitionResponse {
    pub name: String,
    pub dockerfile_path: String,
    pub context_path: String,
    pub dockerfile_content: String,
}

/// The mathematical value of an `ImageDefinitionResponse`.
#[verifier::ext_equal]
pub struct ImageDefinitionView {
    pub name: Seq<char>,
    pub dockerfile_path: Seq<char>,
    pub context_path: Seq<char>,
    pub dockerfile_content: Seq<char>,
}

impl DeepView for ImageDefinitionResponse {
    type V = ImageDefinitionView;

    open spec fn deep_view(&self) -> ImageDefinitionView {
        ImageDefinitionView {
            name: self.name@,
            dockerfile_path: self.dockerfile_path@,
            context_path: self.context_path@,
            dockerfile_content: self.dockerfile_content@,
        }
    }
}

impl Keyed for ImageDefinitionResponse {
    open spec fn key_of(item: ImageDefinitionView) -> Seq<int> {
        codes(item.name)
    }

    fn stands_before(&self, other: &Self) -> (r: bool) {
        is_before(self.name.as_str(), other.name.as_str())
    }
}

/// Asks for the Dockerfile of an image to be replaced.
#[derive(Debug)]
pub struct ImageDockerfileUpdateRequest {
    pub content: String,
}

/// Tells the snapshot that was deleted.
#[derive(Debug)]
pub struct SnapshotDeleteResponse {
    pub id: String,
    pub path: String,
}

impl DeepView for SnapshotDeleteResponse {
    type V = (Seq<char>, Seq<char>);

    open spec fn deep_view(&self) -> (Seq<char>, Seq<char>) {
        (self.id@, self.path@)
    }
}

/// Asks for a snapshot of a sandbox in a directory.
#[derive(Debug)]
pub struct SandboxSnapshotCreateRequest {
    pub sandbox_id: String,
}

/// Asks for a run of the end-to-end tests.
#[derive(Debug)]
pub struct E2eRunRequest {
    pub client_only: bool,
    pub test: Option<String>,
}

/// Tells how a run of the end-to-end tests went.
#[derive(Debug)]
pub struct E2eRunResponse {
    pub command: Vec<String>,
    pub exit_code: i32,
    pub stdout: String,
    pub stderr: String,
    pub duration_ms: u64,
}

/// Whether the end-to-end tests run against a client only where a request does not say.
pub fn default_client_only() -> (r: bool)
    ensures
        r,
{
    true
}

/// Tells everything that is on record but for the artifacts.
pub struct ListResponse {
    pub snapshots: Vec<SnapshotMetadata>,
    pub sandboxes: Vec<SandboxMetadata>,
    pub volumes: Vec<VolumeMetadata>,
}

/// A reply tells success with what was asked for, or failure with the sentence for it, and never
/// both.
pub proof fn law_reply_tells_one_thing<T>(reply: ApiResponse<T>, r: Result<T, Error>)
    requires
        replies(reply, r),
    ensures
        reply.success <==> r is Ok,
        reply.data is Some <==> r is Ok,
        reply.error is Some <==> r is Err,
        r matches Ok(data) ==> reply.data == Some(data),
        r matches Err(e) ==> reply.error->0@ == told(e.deep_view()),
{
}

} // verus!
