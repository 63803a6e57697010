//! The addresses that the server answers to, and what it passes on to sandboxes.
use crate::error::{about, outcome, told, Complaint, Error, ErrorView, Fault};
use crate::metadata::{Metadata, SandboxView};
use crate::number::{format_u64, law_written_is_one_to_one, written};
use crate::server::daytona::{proxy_address, proxy_url};
use crate::server::lifecycle::{by_id, sandbox_by_id};
use crate::table::has_key;
use crate::text::{glue, glue3, trim_start, trimmed_start, Class};
use vstd::prelude::*;

verus! {

/// The port that the server listens on.
pub const PORT: u16 = 3000;

/// The largest request that the server takes: 50 MiB.
pub const BODY_LIMIT: usize = 52_428_800;

/// What a client wants to do.
#[derive(Debug, Clone, Copy, PartialEq, Eq, Structural)]
pub enum Method {
    Get,
    Post,
    Put,
    Delete,
}

/// What the server does.
#[derive(Debug, Clone, Copy, PartialEq, Eq, Structural)]
pub enum Endpoint {
    AdminPage,
    Info,
    ImageList,
    ImageDockerfileUpdate,
    ImageBuild,
    Build,
    BuildCacheList,
    BuildCachePrune,
    DaytonaListSandboxes,
    DaytonaCreateSandbox,
    DaytonaListSandboxesPaginated,
    DaytonaGetSandbox,
    DaytonaDeleteSandbox,
    DaytonaStartSandbox,
    DaytonaStopSandbox,
    DaytonaReplaceSandboxLabels,
    DaytonaToolboxProxyUrl,
    DaytonaPreviewUrl,
    DaytonaSignedPreviewUrl,
    DaytonaPreviewLookup,
    ToolboxExecute,
    ToolboxListFiles,
    ToolboxDeleteFile,
    ToolboxGetFileInfo,
    ToolboxDownloadFile,
    ToolboxCreateFolder,
    ToolboxMoveFile,
    ToolboxUploadFile,
    ToolboxBulkUpload,
    ToolboxBulkDownload,
    ToolboxWorkDir,
    Start,
    Snapshot,
    SnapshotCreateFromSandbox,
    SnapshotDelete,
    List,
    RunE2e,
    SandboxInfo,
    Exec,
    FileRead,
    FileWrite,
    FileDelete,
    FileUpload,
    FileDownload,
    Suspend,
    Resume,
    VolumeCreate,
    VolumeList,
    VolumeDelete,
    ProxyRoot,
    Proxy,
    SandboxUrl,
}

/// An address that the server answers to, and what it does there.
#[derive(Debug, Clone, Copy)]
pub struct Route {
    pub method: Method,
    pub path: &'static str,
    pub endpoint: Endpoint,
}

impl DeepView for Route {
    type V = (Method, Seq<char>, Endpoint);

    open spec fn deep_view(&self) -> (Method, Seq<char>, Endpoint) {
        (self.method, self.path@, self.endpoint)
    }
}

/// A route.
fn route(method: Method, path: &'static str, endpoint: Endpoint) -> (r: Route)
    ensures
        r.deep_view() == (method, path@, endpoint),
{
    Route { method, path, endpoint }
}

/// Everything that the server answers to.
pub open spec fn route_table() -> Seq<(Method, Seq<char>, Endpoint)> {
    seq![
        (Method::Get, "/"@, Endpoint::AdminPage),
        (Method::Get, "/admin"@, Endpoint::AdminPage),
        (Method::Get, "/api/info"@, Endpoint::Info),
        (Method::Get, "/api/images"@, Endpoint::ImageList),
        (Method::Post, "/api/images/{name}/dockerfile"@, Endpoint::ImageDockerfileUpdate),
        (Method::Post, "/api/images/{name}/build"@, Endpoint::ImageBuild),
        (Method::Post, "/api/build"@, Endpoint::Build),
        (Method::Get, "/api/build-cache"@, Endpoint::BuildCacheList),
        (Method::Post, "/api/build-cache/prune"@, Endpoint::BuildCachePrune),
        (Method::Get, "/api/sandbox"@, Endpoint::DaytonaListSandboxes),
        (Method::Post, "/api/sandbox"@, Endpoint::DaytonaCreateSandbox),
        (Method::Get, "/api/sandbox/paginated"@, Endpoint::DaytonaListSandboxesPaginated),
        (Method::Get, "/api/sandbox/{id_or_name}"@, Endpoint::DaytonaGetSandbox),
        (Method::Delete, "/api/sandbox/{id_or_name}"@, Endpoint::DaytonaDeleteSandbox),
        (Method::Post, "/api/sandbox/{id_or_name}/start"@, Endpoint::DaytonaStartSandbox),
        (Method::Post, "/api/sandbox/{id_or_name}/stop"@, Endpoint::DaytonaStopSandbox),
        (Method::Put, "/api/sandbox/{id_or_name}/labels"@, Endpoint::DaytonaReplaceSandboxLabels),
        (Method::Get, "/api/sandbox/{id_or_name}/toolbox-proxy-url"@, Endpoint::DaytonaToolboxProxyUrl),
        (Method::Get, "/api/sandbox/{id_or_name}/ports/{port}/preview-url"@, Endpoint::DaytonaPreviewUrl),
        (Method::Get, "/api/sandbox/{id_or_name}/ports/{port}/signed-preview-url"@, Endpoint::DaytonaSignedPreviewUrl),
        (Method::Get, "/preview/{token}/{port}/sandbox-id"@, Endpoint::DaytonaPreviewLookup),
        (Method::Post, "/toolbox/{sandbox_id}/process/execute"@, Endpoint::ToolboxExecute),
        (Method::Get, "/toolbox/{sandbox_id}/files"@, Endpoint::ToolboxListFiles),
        (Method::Delete, "/toolbox/{sandbox_id}/files"@, Endpoint::ToolboxDeleteFile),
        (Method::Get, "/toolbox/{sandbox_id}/files/info"@, Endpoint::ToolboxGetFileInfo),
        (Method::Get, "/toolbox/{sandbox_id}/files/download"@, Endpoint::ToolboxDownloadFile),
        (Method::Post, "/toolbox/{sandbox_id}/files/folder"@, Endpoint::ToolboxCreateFolder),
        (Method::Post, "/toolbox/{sandbox_id}/files/move"@, Endpoint::ToolboxMoveFile),
        (Method::Post, "/toolbox/{sandbox_id}/files/upload"@, Endpoint::ToolboxUploadFile),
        (Method::Post, "/toolbox/{sandbox_id}/files/bulk-upload"@, Endpoint::ToolboxBulkUpload),
        (Method::Post, "/toolbox/{sandbox_id}/files/bulk-download"@, Endpoint::ToolboxBulkDownload),
        (Method::Get, "/toolbox/{sandbox_id}/work-dir"@, Endpoint::ToolboxWorkDir),
        (Method::Post, "/api/start"@, Endpoint::Start),
        (Method::Post, "/api/snapshot"@, Endpoint::Snapshot),
        (Method::Post, "/api/snapshots/from-sandbox"@, Endpoint::SnapshotCreateFromSandbox),
        (Method::Delete, "/api/snapshots/{id}"@, Endpoint::SnapshotDelete),
        (Method::Get, "/api/list"@, Endpoint::List),
        (Method::Post, "/api/e2e"@, Endpoint::RunE2e),
        (Method::Get, "/api/sandbox/{id}/info"@, Endpoint::SandboxInfo),
        (Method::Post, "/api/sandbox/{id}/exec"@, Endpoint::Exec),
        (Method::Get, "/api/sandbox/{id}/file"@, Endpoint::FileRead),
        (Method::Post, "/api/sandbox/{id}/file"@, Endpoint::FileWrite),
        (Method::Delete, "/api/sandbox/{id}/file"@, Endpoint::FileDelete),
        (Method::Post, "/api/sandbox/{id}/upload"@, Endpoint::FileUpload),
        (Method::Get, "/api/sandbox/{id}/download"@, Endpoint::FileDownload),
        (Method::Post, "/api/sandbox/{id}/suspend"@, Endpoint::Suspend),
        (Method::Post, "/api/sandbox/{id}/resume"@, Endpoint::Resume),
        (Method::Post, "/api/volumes"@, Endpoint::VolumeCreate),
        (Method::Get, "/api/volumes"@, Endpoint::VolumeList),
        (Method::Delete, "/api/volumes/{id}"@, Endpoint::VolumeDelete),
        (Method::Get, "/api/sandbox/{id}/proxy/{port}"@, Endpoint::ProxyRoot),
        (Method::Get, "/api/sandbox/{id}/proxy/{port}/{*rest}"@, Endpoint::Proxy),
        (Method::Get, "/api/sandbox/{id}/url/{port}"@, Endpoint::SandboxUrl),
    ]
}

/// Everything that the server answers to. A name in braces stands for one part of an address, and
/// one with a star for all the rest.
pub fn routes() -> (r: Vec<Route>)
    ensures
        r.deep_view() == route_table(),
{
    let mut r: Vec<Route> = Vec::new();
    r.push(route(Method::Get, "/", Endpoint::AdminPage));
    r.push(route(Method::Get, "/admin", Endpoint::AdminPage));
    r.push(route(Method::Get, "/api/info", Endpoint::Info));
    r.push(route(Method::Get, "/api/images", Endpoint::ImageList));
    r.push(route(Method::Post, "/api/images/{name}/dockerfile", Endpoint::ImageDockerfileUpdate));
    r.push(route(Method::Post, "/api/images/{name}/build", Endpoint::ImageBuild));
    r.push(route(Method::Post, "/api/build", Endpoint::Build));
    r.push(route(Method::Get, "/api/build-cache", Endpoint::BuildCacheList));
    r.push(route(Method::Post, "/api/build-cache/prune", Endpoint::BuildCachePrune));
    r.push(route(Method::Get, "/api/sandbox", Endpoint::DaytonaListSandboxes));
    r.push(route(Method::Post, "/api/sandbox", Endpoint::DaytonaCreateSandbox));
    r.push(route(Method::Get, "/api/sandbox/paginated", Endpoint::DaytonaListSandboxesPaginated));
    r.push(route(Method::Get, "/api/sandbox/{id_or_name}", Endpoint::DaytonaGetSandbox));
    r.push(route(Method::Delete, "/api/sandbox/{id_or_name}", Endpoint::DaytonaDeleteSandbox));
    r.push(route(Method::Post, "/api/sandbox/{id_or_name}/start", Endpoint::DaytonaStartSandbox));
    r.push(route(Method::Post, "/api/sandbox/{id_or_name}/stop", Endpoint::DaytonaStopSandbox));
    r.push(route(Method::Put, "/api/sandbox/{id_or_name}/labels", Endpoint::DaytonaReplaceSandboxLabels));
    r.push(route(Method::Get, "/api/sandbox/{id_or_name}/toolbox-proxy-url", Endpoint::DaytonaToolboxProxyUrl));
    r.push(route(Method::Get, "/api/sandbox/{id_or_name}/ports/{port}/preview-url", Endpoint::DaytonaPreviewUrl));
    r.push(route(Method::Get, "/api/sandbox/{id_or_name}/ports/{port}/signed-preview-url", Endpoint::DaytonaSignedPreviewUrl));
    r.push(route(Method::Get, "/preview/{token}/{port}/sandbox-id", Endpoint::DaytonaPreviewLookup));
    r.push(route(Method::Post, "/toolbox/{sandbox_id}/process/execute", Endpoint::ToolboxExecute));
    r.push(route(Method::Get, "/toolbox/{sandbox_id}/files", Endpoint::ToolboxListFiles));
    r.push(route(Method::Delete, "/toolbox/{sandbox_id}/files", Endpoint::ToolboxDeleteFile));
    r.push(route(Method::Get, "/toolbox/{sandbox_id}/files/info", Endpoint::ToolboxGetFileInfo));
    r.push(route(Method::Get, "/toolbox/{sandbox_id}/files/download", Endpoint::ToolboxDownloadFile));
    r.push(route(Method::Post, "/toolbox/{sandbox_id}/files/folder", Endpoint::ToolboxCreateFolder));
    r.push(route(Method::Post, "/toolbox/{sandbox_id}/files/move", Endpoint::ToolboxMoveFile));
    r.push(route(Method::Post, "/toolbox/{sandbox_id}/files/upload", Endpoint::ToolboxUploadFile));
    r.push(route(Method::Post, "/toolbox/{sandbox_id}/files/bulk-upload", Endpoint::ToolboxBulkUpload));
    r.push(route(Method::Post, "/toolbox/{sandbox_id}/files/bulk-download", Endpoint::ToolboxBulkDownload));
    r.push(route(Method::Get, "/toolbox/{sandbox_id}/work-dir", Endpoint::ToolboxWorkDir));
    r.push(route(Method::Post, "/api/start", Endpoint::Start));
    r.push(route(Method::Post, "/api/snapshot", Endpoint::Snapshot));
    r.push(route(Method::Post, "/api/snapshots/from-sandbox", Endpoint::SnapshotCreateFromSandbox));
    r.push(route(Method::Delete, "/api/snapshots/{id}", Endpoint::SnapshotDelete));
    r.push(route(Method::Get, "/api/list", Endpoint::List));
    r.push(route(Method::Post, "/api/e2e", Endpoint::RunE2e));
    r.push(route(Method::Get, "/api/sandbox/{id}/info", Endpoint::SandboxInfo));
    r.push(route(Method::Post, "/api/sandbox/{id}/exec", Endpoint::Exec));
    r.push(route(Method::Get, "/api/sandbox/{id}/file", Endpoint::FileRead));
    r.push(route(Method::Post, "/api/sandbox/{id}/file", Endpoint::FileWrite));
    r.push(route(Method::Delete, "/api/sandbox/{id}/file", Endpoint::FileDelete));
    r.push(route(Method::Post, "/api/sandbox/{id}/upload", Endpoint::FileUpload));
    r.push(route(Method::Get, "/api/sandbox/{id}/download", Endpoint::FileDownload));
    r.push(route(Method::Post, "/api/sandbox/{id}/suspend", Endpoint::Suspend));
    r.push(route(Method::Post, "/api/sandbox/{id}/resume", Endpoint::Resume));
    r.push(route(Method::Post, "/api/volumes", Endpoint::VolumeCreate));
    r.push(route(Method::Get, "/api/volumes", Endpoint::VolumeList));
    r.push(route(Method::Delete, "/api/volumes/{id}", Endpoint::VolumeDelete));
    r.push(route(Method::Get, "/api/sandbox/{id}/proxy/{port}", Endpoint::ProxyRoot));
    r.push(route(Method::Get, "/api/sandbox/{id}/proxy/{port}/{*rest}", Endpoint::Proxy));
    r.push(route(Method::Get, "/api/sandbox/{id}/url/{port}", Endpoint::SandboxUrl));
    proof {
        assert(r.deep_view() =~= route_table());
    }
    r
}

/// What a request has failed at.
#[derive(Debug, Clone, Copy, PartialEq, Eq, Structural)]
pub enum Stumble {
    /// The task that served it did not come to an end.
    Panicked,
    /// The records could not be read.
    Records,
    /// It was refused, or what it asked for could not be done.
    Refused,
}

/// Whether an endpoint tells a failure by the status of its reply. The others reply with the usual
/// status, and tell in the reply itself whether they have succeeded.
pub open spec fn tells_by_status(endpoint: Endpoint) -> bool {
    match endpoint {
        Endpoint::DaytonaListSandboxes => true,
        Endpoint::DaytonaCreateSandbox => true,
        Endpoint::DaytonaListSandboxesPaginated => true,
        Endpoint::DaytonaGetSandbox => true,
        Endpoint::DaytonaDeleteSandbox => true,
        Endpoint::DaytonaStartSandbox => true,
        Endpoint::DaytonaStopSandbox => true,
        Endpoint::DaytonaReplaceSandboxLabels => true,
        Endpoint::DaytonaToolboxProxyUrl => true,
        Endpoint::DaytonaPreviewUrl => true,
        Endpoint::DaytonaSignedPreviewUrl => true,
        Endpoint::DaytonaPreviewLookup => true,
        Endpoint::ToolboxExecute => true,
        Endpoint::ToolboxListFiles => true,
        Endpoint::ToolboxDeleteFile => true,
        Endpoint::ToolboxGetFileInfo => true,
        Endpoint::ToolboxDownloadFile => true,
        Endpoint::ToolboxCreateFolder => true,
        Endpoint::ToolboxMoveFile => true,
        Endpoint::ToolboxUploadFile => true,
        Endpoint::ToolboxBulkUpload => true,
        Endpoint::ToolboxBulkDownload => true,
        Endpoint::ToolboxWorkDir => true,
        _ => false,
    }
}

/// Whether an endpoint does nothing but look something up in the records.
pub open spec fn looks_up(endpoint: Endpoint) -> bool {
    match endpoint {
        Endpoint::DaytonaGetSandbox => true,
        Endpoint::DaytonaToolboxProxyUrl => true,
        Endpoint::DaytonaPreviewUrl => true,
        Endpoint::DaytonaSignedPreviewUrl => true,
        Endpoint::ToolboxWorkDir => true,
        _ => false,
    }
}

/// Whether an endpoint lists sandboxes.
pub open spec fn lists(endpoint: Endpoint) -> bool {
    endpoint == Endpoint::DaytonaListSandboxes || endpoint
        == Endpoint::DaytonaListSandboxesPaginated
}

/// The status that tells a failure: the server is to blame for a task that did not end, and for
/// records that could not be read where nothing else can fail; what is looked up or deleted was not
/// found; and every other request was a bad one.
pub open spec fn failure_status_of(endpoint: Endpoint, stumble: Stumble) -> u16 {
    if !tells_by_status(endpoint) {
        200
    } else if stumble == Stumble::Panicked {
        500
    } else if looks_up(endpoint) {
        if stumble == Stumble::Records {
            500
        } else {
            404
        }
    } else if lists(endpoint) {
        if stumble == Stumble::Records {
            500
        } else {
            400
        }
    } else if endpoint == Endpoint::DaytonaDeleteSandbox {
        404
    } else {
        400
    }
}

/// The status that tells a failure.
pub fn failure_status(endpoint: Endpoint, stumble: Stumble) -> (r: u16)
    ensures
        r == failure_status_of(endpoint, stumble),
{
    match endpoint {
        Endpoint::DaytonaGetSandbox
        | Endpoint::DaytonaToolboxProxyUrl
        | Endpoint::DaytonaPreviewUrl
        | Endpoint::DaytonaSignedPreviewUrl
        | Endpoint::ToolboxWorkDir => match stumble {
            Stumble::Refused => 404,
            _ => 500,
        },
        Endpoint::DaytonaListSandboxes | Endpoint::DaytonaListSandboxesPaginated => match stumble {
            Stumble::Refused => 400,
            _ => 500,
        },
        Endpoint::DaytonaDeleteSandbox => match stumble {
            Stumble::Panicked => 500,
            _ => 404,
        },
        Endpoint::DaytonaCreateSandbox
        | Endpoint::DaytonaStartSandbox
        | Endpoint::DaytonaStopSandbox
        | Endpoint::DaytonaReplaceSandboxLabels
        | Endpoint::DaytonaPreviewLookup
        | Endpoint::ToolboxExecute
        | Endpoint::ToolboxListFiles
        | Endpoint::ToolboxDeleteFile
        | Endpoint::ToolboxGetFileInfo
        | Endpoint::ToolboxDownloadFile
        | Endpoint::ToolboxCreateFolder
        | Endpoint::ToolboxMoveFile
        | Endpoint::ToolboxUploadFile
        | Endpoint::ToolboxBulkUpload
        | Endpoint::ToolboxBulkDownload => match stumble {
            Stumble::Panicked => 500,
            _ => 400,
        },
        _ => 200,
    }
}

/// The reply to a request that has failed: a status, and the sentence that tells why.
#[derive(Debug)]
pub struct ErrorReply {
    pub status: u16,
    pub message: String,
}

/// Tells why a request has failed.
pub fn error_json(endpoint: Endpoint, stumble: Stumble, error: &Error) -> (r: ErrorReply)
    ensures
        r.status == failure_status_of(endpoint, stumble),
        r.message@ == told(error.deep_view()),
{
    ErrorReply { status: failure_status(endpoint, stumble), message: error.message() }
}

/// The status of a reply to a request that has succeeded: a file that was deleted leaves nothing to
/// be told.
pub fn success_status(endpoint: Endpoint) -> (r: u16)
    ensures
        endpoint == Endpoint::ToolboxDeleteFile ==> r == 204,
        endpoint != Endpoint::ToolboxDeleteFile ==> r == 200,
{
    if endpoint == Endpoint::ToolboxDeleteFile {
        204
    } else {
        200
    }
}

/// An endpoint that tells failures by status never tells one with a status of success; a client is
/// never blamed for a task that did not end; and an endpoint that only looks something up tells
/// records that cannot be read from a sandbox that is not there.
pub proof fn law_failures_are_told(endpoint: Endpoint, stumble: Stumble)
    requires
        tells_by_status(endpoint),
    ensures
        400 <= failure_status_of(endpoint, stumble) <= 599,
        stumble == Stumble::Panicked ==> failure_status_of(endpoint, stumble) == 500,
        stumble == Stumble::Refused ==> failure_status_of(endpoint, stumble) <= 499,
        looks_up(endpoint) ==> failure_status_of(endpoint, Stumble::Records)
            != failure_status_of(endpoint, Stumble::Refused),
{
}

/// The address of a port of a sandbox, for a client that has reached the server at `host`.
pub fn handle_sandbox_url(metadata: &Metadata, id: &str, port: u16, host: &Option<String>) -> (r:
    Result<String, Error>)
    ensures
        outcome(r) == if has_key(metadata.deep_view().sandboxes, id@) {
            Ok::<Seq<char>, ErrorView>(
                proxy_url(
                    "http://"@ + match host.deep_view() {
                        Some(h) => h,
                        None => "localhost:3000"@,
                    },
                    id@,
                    port,
                ),
            )
        } else {
            Err(ErrorView::About(Complaint::SandboxNotFound, id@))
        },
{
    if !metadata.sandboxes.contains_key(id) {
        return Err(about(Complaint::SandboxNotFound, id));
    }
    let name = match host {
        Some(h) => h.clone(),
        None => "localhost:3000".to_owned(),
    };
    let base = glue("http://", name.as_str());
    Ok(proxy_address(base.as_str(), id, port))
}

/// The address inside a sandbox that a request is passed on to.
pub open spec fn target_url(sandbox: SandboxView, port: u16, path: Seq<char>) -> Seq<char> {
    let host = match sandbox.ip {
        Some(ip) => ip,
        None => "127.0.0.1"@,
    };
    "http://"@ + host + ":"@ + written(port as nat, 10) + "/"@ + path
}

/// What becomes of a request to a port of a sandbox.
#[derive(Debug)]
pub enum ProxyStep {
    /// It is passed on to this address.
    Forward(String),
    /// It is answered with this status and text.
    Answer { status: u16, body: String },
}

/// Decides what becomes of a request to a port of the sandbox with this id. `metadata` is missing
/// where the records could not be read.
pub fn proxy_to_sandbox(metadata: &Option<Metadata>, id: &str, port: u16, path: &str) -> (r: ProxyStep)
    ensures
        match metadata {
            None => r matches ProxyStep::Answer { status, body } && status == 500 && body@
                == "Failed to load metadata"@,
            Some(m) => match by_id(m.deep_view(), id@) {
                Ok(sandbox) => r matches ProxyStep::Forward(url) && url@ == target_url(
                    sandbox,
                    port,
                    path@,
                ),
                Err(_) => r matches ProxyStep::Answer { status, body } && status == 404 && body@
                    == "Sandbox "@ + id@ + " not found"@,
            },
        },
{
    let m = match metadata {
        Some(m) => m,
        None => {
            return ProxyStep::Answer {
                status: 500,
                body: Error::Plain(Fault::NoMetadata).message(),
            };
        },
    };
    let sandbox = match sandbox_by_id(m, id) {
        Ok(s) => s,
        Err(e) => {
            return ProxyStep::Answer { status: 404, body: e.message() };
        },
    };
    let host = match &sandbox.ip {
        Some(ip) => ip.clone(),
        None => "127.0.0.1".to_owned(),
    };
    let n = format_u64(port as u64);
    let start = glue3("http://", host.as_str(), ":");
    let middle = glue3(start.as_str(), n.as_str(), "/");
    ProxyStep::Forward(glue(middle.as_str(), path))
}

/// The path inside a sandbox that follows the port in an address.
pub fn handle_proxy(rest: &str) -> (r: String)
    ensures
        r@ == trimmed_start(rest@, Class::Only('/')),
{
    trim_start(rest, Class::Only('/'))
}

/// The status that a client gets for the status that a sandbox has answered with: the same where it
/// has three digits, else that of a bad gateway.
pub fn forwarded_status(status: u16) -> (r: u16)
    ensures
        r == if 100 <= status <= 999 {
            status
        } else {
            502
        },
{
    if 100 <= status && status <= 999 {
        status
    } else {
        502
    }
}

/// The answer where a sandbox could not be reached.
pub fn unreachable_answer(reason: String) -> (r: ProxyStep)
    ensures
        r matches ProxyStep::Answer { status, body } && status == 502 && body@ == "Proxy error: "@
            + reason@,
{
    let body = Error::About(Complaint::ProxyFailed, reason).message();
    proof {
        reveal_strlit("");
        assert(body@ =~= "Proxy error: "@ + reason@);
    }
    ProxyStep::Answer { status: 502, body }
}

/// A request that was refused is told by the status: an endpoint that looks a sandbox up, or deletes
/// one, did not find it; any other that tells by status was asked for something bad. Records that
/// cannot be read are the fault of the server where sandboxes are only looked up or listed. The
/// endpoints that tell in the reply itself keep the usual status.
pub proof fn law_status_by_endpoint(stumble: Stumble)
    ensures
        failure_status_of(Endpoint::DaytonaGetSandbox, Stumble::Refused) == 404,
        failure_status_of(Endpoint::DaytonaToolboxProxyUrl, Stumble::Refused) == 404,
        failure_status_of(Endpoint::DaytonaPreviewUrl, Stumble::Refused) == 404,
        failure_status_of(Endpoint::DaytonaSignedPreviewUrl, Stumble::Refused) == 404,
        failure_status_of(Endpoint::ToolboxWorkDir, Stumble::Refused) == 404,
        failure_status_of(Endpoint::DaytonaDeleteSandbox, Stumble::Refused) == 404,
        failure_status_of(Endpoint::DaytonaDeleteSandbox, Stumble::Records) == 404,
        failure_status_of(Endpoint::DaytonaGetSandbox, Stumble::Records) == 500,
        failure_status_of(Endpoint::DaytonaToolboxProxyUrl, Stumble::Records) == 500,
        failure_status_of(Endpoint::DaytonaPreviewUrl, Stumble::Records) == 500,
        failure_status_of(Endpoint::DaytonaSignedPreviewUrl, Stumble::Records) == 500,
        failure_status_of(Endpoint::ToolboxWorkDir, Stumble::Records) == 500,
        failure_status_of(Endpoint::DaytonaListSandboxes, Stumble::Records) == 500,
        failure_status_of(Endpoint::DaytonaListSandboxesPaginated, Stumble::Records) == 500,
        failure_status_of(Endpoint::DaytonaListSandboxes, Stumble::Refused) == 400,
        failure_status_of(Endpoint::DaytonaListSandboxesPaginated, Stumble::Refused) == 400,
        stumble != Stumble::Panicked ==> {
            &&& failure_status_of(Endpoint::DaytonaCreateSandbox, stumble) == 400
            &&& failure_status_of(Endpoint::DaytonaStartSandbox, stumble) == 400
            &&& failure_status_of(Endpoint::DaytonaStopSandbox, stumble) == 400
            &&& failure_status_of(Endpoint::DaytonaReplaceSandboxLabels, stumble) == 400
            &&& failure_status_of(Endpoint::DaytonaPreviewLookup, stumble) == 400
            &&& failure_status_of(Endpoint::ToolboxExecute, stumble) == 400
            &&& failure_status_of(Endpoint::ToolboxListFiles, stumble) == 400
            &&& failure_status_of(Endpoint::ToolboxDeleteFile, stumble) == 400
            &&& failure_status_of(Endpoint::ToolboxGetFileInfo, stumble) == 400
            &&& failure_status_of(Endpoint::ToolboxDownloadFile, stumble) == 400
            &&& failure_status_of(Endpoint::ToolboxCreateFolder, stumble) == 400
            &&& failure_status_of(Endpoint::ToolboxMoveFile, stumble) == 400
            &&& failure_status_of(Endpoint::ToolboxUploadFile, stumble) == 400
            &&& failure_status_of(Endpoint::ToolboxBulkUpload, stumble) == 400
            &&& failure_status_of(Endpoint::ToolboxBulkDownload, stumble) == 400
        },
        failure_status_of(Endpoint::Exec, stumble) == 200,
        failure_status_of(Endpoint::Start, stumble) == 200,
        failure_status_of(Endpoint::Build, stumble) == 200,
        failure_status_of(Endpoint::FileRead, stumble) == 200,
        failure_status_of(Endpoint::FileWrite, stumble) == 200,
        failure_status_of(Endpoint::FileDelete, stumble) == 200,
        failure_status_of(Endpoint::Suspend, stumble) == 200,
        failure_status_of(Endpoint::Resume, stumble) == 200,
        failure_status_of(Endpoint::SnapshotDelete, stumble) == 200,
        failure_status_of(Endpoint::VolumeDelete, stumble) == 200,
{
}

/// A request is passed on to the port of the sandbox that it names: at the address of the sandbox
/// where it has one, else on the host itself; and requests for two ports never go to the same place.
pub proof fn law_request_goes_to_its_port(
    sandbox: SandboxView,
    port: u16,
    other: u16,
    path: Seq<char>,
)
    ensures
        sandbox.ip matches Some(ip) ==> target_url(sandbox, port, path) == "http://"@ + ip + ":"@
            + written(port as nat, 10) + "/"@ + path,
        sandbox.ip is None ==> target_url(sandbox, port, path) == "http://127.0.0.1:"@ + written(
            port as nat,
            10,
        ) + "/"@ + path,
        port != other ==> target_url(sandbox, port, path) != target_url(sandbox, other, path),
{
    reveal_strlit("http://127.0.0.1:");
    reveal_strlit("http://");
    reveal_strlit("127.0.0.1");
    reveal_strlit(":");
    assert("http://"@ + "127.0.0.1"@ + ":"@ =~= "http://127.0.0.1:"@);
    let host = match sandbox.ip {
        Some(ip) => ip,
        None => "127.0.0.1"@,
    };
    let front = "http://"@ + host + ":"@;
    let x = target_url(sandbox, port, path);
    let y = target_url(sandbox, other, path);
    if x == y {
        let m = written(port as nat, 10);
        let n = written(other as nat, 10);
        let back = "/"@ + path;
        assert(x =~= front + m + back);
        assert(y =~= front + n + back);
        assert(m.len() == n.len());
        assert(x.subrange(front.len() as int, (front.len() + m.len()) as int) =~= m);
        assert(y.subrange(front.len() as int, (front.len() + n.len()) as int) =~= n);
        law_written_is_one_to_one(port as nat, other as nat, 10);
    }
}

/// Only requests to delete lead to what deletes, only requests to put lead to the labels, and a
/// request to get changes nothing on record.
pub proof fn law_methods_fit(i: int)
    requires
        0 <= i < route_table().len(),
    ensures
        ({
            let (method, _, endpoint) = route_table()[i];
            let deletes = endpoint == Endpoint::DaytonaDeleteSandbox || endpoint
                == Endpoint::ToolboxDeleteFile || endpoint == Endpoint::SnapshotDelete || endpoint
                == Endpoint::FileDelete || endpoint == Endpoint::VolumeDelete;
            let changes = endpoint == Endpoint::ImageDockerfileUpdate || endpoint
                == Endpoint::ImageBuild || endpoint == Endpoint::Build || endpoint
                == Endpoint::BuildCachePrune || endpoint == Endpoint::DaytonaCreateSandbox || endpoint
                == Endpoint::DaytonaStartSandbox || endpoint == Endpoint::DaytonaStopSandbox || endpoint
                == Endpoint::ToolboxExecute || endpoint == Endpoint::ToolboxCreateFolder || endpoint
                == Endpoint::ToolboxMoveFile || endpoint == Endpoint::ToolboxUploadFile || endpoint
                == Endpoint::ToolboxBulkUpload || endpoint == Endpoint::ToolboxBulkDownload || endpoint
                == Endpoint::Start || endpoint == Endpoint::Snapshot || endpoint
                == Endpoint::SnapshotCreateFromSandbox || endpoint == Endpoint::RunE2e || endpoint
                == Endpoint::Exec || endpoint == Endpoint::FileWrite || endpoint
                == Endpoint::FileUpload || endpoint == Endpoint::Suspend || endpoint
                == Endpoint::Resume || endpoint == Endpoint::VolumeCreate;
            &&& deletes <==> method == Method::Delete
            &&& changes <==> method == Method::Post
            &&& endpoint == Endpoint::DaytonaReplaceSandboxLabels <==> method == Method::Put
        }),
{
}

/// Every endpoint has its own address: a request there, with its method, is what leads to it.
pub proof fn law_endpoints_have_their_addresses(i: int)
    requires
        0 <= i < route_table().len(),
    ensures
        ({
            let (_, path, endpoint) = route_table()[i];
            match endpoint {
                Endpoint::AdminPage => path == "/"@ || path == "/admin"@,
                Endpoint::Info => path == "/api/info"@,
                Endpoint::ImageList => path == "/api/images"@,
                Endpoint::ImageDockerfileUpdate => path == "/api/images/{name}/dockerfile"@,
                Endpoint::ImageBuild => path == "/api/images/{name}/build"@,
                Endpoint::Build => path == "/api/build"@,
                Endpoint::BuildCacheList => path == "/api/build-cache"@,
                Endpoint::BuildCachePrune => path == "/api/build-cache/prune"@,
                Endpoint::DaytonaListSandboxes => path == "/api/sandbox"@,
                Endpoint::DaytonaCreateSandbox => path == "/api/sandbox"@,
                Endpoint::DaytonaListSandboxesPaginated => path == "/api/sandbox/paginated"@,
                Endpoint::DaytonaGetSandbox => path == "/api/sandbox/{id_or_name}"@,
                Endpoint::DaytonaDeleteSandbox => path == "/api/sandbox/{id_or_name}"@,
                Endpoint::DaytonaStartSandbox => path == "/api/sandbox/{id_or_name}/start"@,
                Endpoint::DaytonaStopSandbox => path == "/api/sandbox/{id_or_name}/stop"@,
                Endpoint::DaytonaReplaceSandboxLabels => path == "/api/sandbox/{id_or_name}/labels"@,
                Endpoint::DaytonaToolboxProxyUrl => path == "/api/sandbox/{id_or_name}/toolbox-proxy-url"@,
                Endpoint::DaytonaPreviewUrl => path == "/api/sandbox/{id_or_name}/ports/{port}/preview-url"@,
                Endpoint::DaytonaSignedPreviewUrl => path == "/api/sandbox/{id_or_name}/ports/{port}/signed-preview-url"@,
                Endpoint::DaytonaPreviewLookup => path == "/preview/{token}/{port}/sandbox-id"@,
                Endpoint::ToolboxExecute => path == "/toolbox/{sandbox_id}/process/execute"@,
                Endpoint::ToolboxListFiles => path == "/toolbox/{sandbox_id}/files"@,
                Endpoint::ToolboxDeleteFile => path == "/toolbox/{sandbox_id}/files"@,
                Endpoint::ToolboxGetFileInfo => path == "/toolbox/{sandbox_id}/files/info"@,
                Endpoint::ToolboxDownloadFile => path == "/toolbox/{sandbox_id}/files/download"@,
                Endpoint::ToolboxCreateFolder => path == "/toolbox/{sandbox_id}/files/folder"@,
                Endpoint::ToolboxMoveFile => path == "/toolbox/{sandbox_id}/files/move"@,
                Endpoint::ToolboxUploadFile => path == "/toolbox/{sandbox_id}/files/upload"@,
                Endpoint::ToolboxBulkUpload => path == "/toolbox/{sandbox_id}/files/bulk-upload"@,
                Endpoint::ToolboxBulkDownload => path == "/toolbox/{sandbox_id}/files/bulk-download"@,
                Endpoint::ToolboxWorkDir => path == "/toolbox/{sandbox_id}/work-dir"@,
                Endpoint::Start => path == "/api/start"@,
                Endpoint::Snapshot => path == "/api/snapshot"@,
                Endpoint::SnapshotCreateFromSandbox => path == "/api/snapshots/from-sandbox"@,
                Endpoint::SnapshotDelete => path == "/api/snapshots/{id}"@,
                Endpoint::List => path == "/api/list"@,
                Endpoint::RunE2e => path == "/api/e2e"@,
                Endpoint::SandboxInfo => path == "/api/sandbox/{id}/info"@,
                Endpoint::Exec => path == "/api/sandbox/{id}/exec"@,
                Endpoint::FileRead => path == "/api/sandbox/{id}/file"@,
                Endpoint::FileWrite => path == "/api/sandbox/{id}/file"@,
                Endpoint::FileDelete => path == "/api/sandbox/{id}/file"@,
                Endpoint::FileUpload => path == "/api/sandbox/{id}/upload"@,
                Endpoint::FileDownload => path == "/api/sandbox/{id}/download"@,
                Endpoint::Suspend => path == "/api/sandbox/{id}/suspend"@,
                Endpoint::Resume => path == "/api/sandbox/{id}/resume"@,
                Endpoint::VolumeCreate => path == "/api/volumes"@,
                Endpoint::VolumeList => path == "/api/volumes"@,
                Endpoint::VolumeDelete => path == "/api/volumes/{id}"@,
                Endpoint::ProxyRoot => path == "/api/sandbox/{id}/proxy/{port}"@,
                Endpoint::Proxy => path == "/api/sandbox/{id}/proxy/{port}/{*rest}"@,
                Endpoint::SandboxUrl => path == "/api/sandbox/{id}/url/{port}"@,
            }
        }),
{
}

/// No endpoint is left out.
pub proof fn law_every_endpoint_is_reached(endpoint: Endpoint)
    ensures
        exists|i: int| 0 <= i < route_table().len() && (#[trigger] route_table()[i]).2 == endpoint,
{
    let t = route_table();
    match endpoint {
        Endpoint::AdminPage => {
            assert(t[0].2 == endpoint);
        },
        Endpoint::Info => {
            assert(t[2].2 == endpoint);
        },
        Endpoint::ImageList => {
            assert(t[3].2 == endpoint);
        },
        Endpoint::ImageDockerfileUpdate => {
            assert(t[4].2 == endpoint);
        },
        Endpoint::ImageBuild => {
            assert(t[5].2 == endpoint);
        },
        Endpoint::Build => {
            assert(t[6].2 == endpoint);
        },
        Endpoint::BuildCacheList => {
            assert(t[7].2 == endpoint);
        },
        Endpoint::BuildCachePrune => {
            assert(t[8].2 == endpoint);
        },
        Endpoint::DaytonaListSandboxes => {
            assert(t[9].2 == endpoint);
        },
        Endpoint::DaytonaCreateSandbox => {
            assert(t[10].2 == endpoint);
        },
        Endpoint::DaytonaListSandboxesPaginated => {
            assert(t[11].2 == endpoint);
        },
        Endpoint::DaytonaGetSandbox => {
            assert(t[12].2 == endpoint);
        },
        Endpoint::DaytonaDeleteSandbox => {
            assert(t[13].2 == endpoint);
        },
        Endpoint::DaytonaStartSandbox => {
            assert(t[14].2 == endpoint);
        },
        Endpoint::DaytonaStopSandbox => {
            assert(t[15].2 == endpoint);
        },
        Endpoint::DaytonaReplaceSandboxLabels => {
            assert(t[16].2 == endpoint);
        },
        Endpoint::DaytonaToolboxProxyUrl => {
            assert(t[17].2 == endpoint);
        },
        Endpoint::DaytonaPreviewUrl => {
            assert(t[18].2 == endpoint);
        },
        Endpoint::DaytonaSignedPreviewUrl => {
            assert(t[19].2 == endpoint);
        },
        Endpoint::DaytonaPreviewLookup => {
            assert(t[20].2 == endpoint);
        },
        Endpoint::ToolboxExecute => {
            assert(t[21].2 == endpoint);
        },
        Endpoint::ToolboxListFiles => {
            assert(t[22].2 == endpoint);
        },
        Endpoint::ToolboxDeleteFile => {
            assert(t[23].2 == endpoint);
        },
        Endpoint::ToolboxGetFileInfo => {
            assert(t[24].2 == endpoint);
        },
        Endpoint::ToolboxDownloadFile => {
            assert(t[25].2 == endpoint);
        },
        Endpoint::ToolboxCreateFolder => {
            assert(t[26].2 == endpoint);
        },
        Endpoint::ToolboxMoveFile => {
            assert(t[27].2 == endpoint);
        },
        Endpoint::ToolboxUploadFile => {
            assert(t[28].2 == endpoint);
        },
        Endpoint::ToolboxBulkUpload => {
            assert(t[29].2 == endpoint);
        },
        Endpoint::ToolboxBulkDownload => {
            assert(t[30].2 == endpoint);
        },
        Endpoint::ToolboxWorkDir => {
            assert(t[31].2 == endpoint);
        },
        Endpoint::Start => {
            assert(t[32].2 == endpoint);
        },
        Endpoint::Snapshot => {
            assert(t[33].2 == endpoint);
        },
        Endpoint::SnapshotCreateFromSandbox => {
            assert(t[34].2 == endpoint);
        },
        Endpoint::SnapshotDelete => {
            assert(t[35].2 == endpoint);
        },
        Endpoint::List => {
            assert(t[36].2 == endpoint);
        },
        Endpoint::RunE2e => {
            assert(t[37].2 == endpoint);
        },
        Endpoint::SandboxInfo => {
            assert(t[38].2 == endpoint);
        },
        Endpoint::Exec => {
            assert(t[39].2 == endpoint);
        },
        Endpoint::FileRead => {
            assert(t[40].2 == endpoint);
        },
        Endpoint::FileWrite => {
            assert(t[41].2 == endpoint);
        },
        Endpoint::FileDelete => {
            assert(t[42].2 == endpoint);
        },
        Endpoint::FileUpload => {
            assert(t[43].2 == endpoint);
        },
        Endpoint::FileDownload => {
            assert(t[44].2 == endpoint);
        },
        Endpoint::Suspend => {
            assert(t[45].2 == endpoint);
        },
        Endpoint::Resume => {
            assert(t[46].2 == endpoint);
        },
        Endpoint::VolumeCreate => {
            assert(t[47].2 == endpoint);
        },
        Endpoint::VolumeList => {
            assert(t[48].2 == endpoint);
        },
        Endpoint::VolumeDelete => {
            assert(t[49].2 == endpoint);
        },
        Endpoint::ProxyRoot => {
            assert(t[50].2 == endpoint);
        },
        Endpoint::Proxy => {
            assert(t[51].2 == endpoint);
        },
        Endpoint::SandboxUrl => {
            assert(t[52].2 == endpoint);
        },
    }
}

} // verus!
