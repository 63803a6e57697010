//! What can go wrong, and the sentence that says so.
use crate::text::{glue, glue3};
use vstd::prelude::*;

verus! {

/// A failure that needs no name to be told.
#[derive(Debug, Clone, Copy, PartialEq, Eq, Structural)]
pub enum Fault {
    SubpathClimbs,
    PathClimbs,
    NoFileName,
    NoAncestor,
    EscapesRoot,
    LinkEscapesRoot,
    ReadOnlyWrite,
    ReadOnlyDelete,
    ReadOnlyUpload,
    ReadOnlyFolder,
    ReadOnlyMove,
    EmptyCommand,
    CommandRequired,
    FileRequired,
    NoUploads,
    InvalidPreviewToken,
    NoLocation,
    NoMetadata,
}

impl Fault {
    /// The sentence for the failure.
    pub open spec fn text(self) -> Seq<char> {
        match self {
            Fault::SubpathClimbs => "subpath must not contain '..'"@,
            Fault::PathClimbs => "Path contains '..' traversal component"@,
            Fault::NoFileName => "Missing file name component"@,
            Fault::NoAncestor => "No existing ancestor directory found"@,
            Fault::EscapesRoot => "Resolved path escapes sandbox root (possible symlink attack)"@,
            Fault::LinkEscapesRoot => "Symlink target escapes sandbox root"@,
            Fault::ReadOnlyWrite => "Cannot write to read-only volume mount"@,
            Fault::ReadOnlyDelete => "Cannot delete from read-only volume mount"@,
            Fault::ReadOnlyUpload => "Cannot upload to read-only volume mount"@,
            Fault::ReadOnlyFolder => "Cannot create folder in read-only volume mount"@,
            Fault::ReadOnlyMove => "Cannot move files into or out of a read-only volume mount"@,
            Fault::EmptyCommand => "Command cannot be empty"@,
            Fault::CommandRequired => "command is required"@,
            Fault::FileRequired => "file is required"@,
            Fault::NoUploads => "No files uploaded"@,
            Fault::InvalidPreviewToken => "Invalid preview token"@,
            Fault::NoLocation => "3xx redirect without Location header"@,
            Fault::NoMetadata => "Failed to load metadata"@,
        }
    }

    /// The sentence for the failure.
    pub fn message(self) -> (r: &'static str)
        ensures
            r@ == self.text(),
    {
        match self {
            Fault::SubpathClimbs => "subpath must not contain '..'",
            Fault::PathClimbs => "Path contains '..' traversal component",
            Fault::NoFileName => "Missing file name component",
            Fault::NoAncestor => "No existing ancestor directory found",
            Fault::EscapesRoot => "Resolved path escapes sandbox root (possible symlink attack)",
            Fault::LinkEscapesRoot => "Symlink target escapes sandbox root",
            Fault::ReadOnlyWrite => "Cannot write to read-only volume mount",
            Fault::ReadOnlyDelete => "Cannot delete from read-only volume mount",
            Fault::ReadOnlyUpload => "Cannot upload to read-only volume mount",
            Fault::ReadOnlyFolder => "Cannot create folder in read-only volume mount",
            Fault::ReadOnlyMove => "Cannot move files into or out of a read-only volume mount",
            Fault::EmptyCommand => "Command cannot be empty",
            Fault::CommandRequired => "command is required",
            Fault::FileRequired => "file is required",
            Fault::NoUploads => "No files uploaded",
            Fault::InvalidPreviewToken => "Invalid preview token",
            Fault::NoLocation => "3xx redirect without Location header",
            Fault::NoMetadata => "Failed to load metadata",
        }
    }
}

/// A failure that is about one thing.
#[derive(Debug, Clone, Copy, PartialEq, Eq, Structural)]
pub enum Complaint {
    SandboxNotFound,
    VolumeNotFound,
    SnapshotNotFound,
    SnapshotInUse,
    MountNotAbsolute,
    MountClimbs,
    InvalidImageName,
    ImageNotFound,
    ImageWithoutDockerfile,
    ReadOnlyBulkUpload,
    UploadPathMissing,
    UploadFileMissing,
    InvalidBase64,
    Unauthorized,
    ResolvedManifestStatus,
    TaskPanic,
    ProxyFailed,
}

impl Complaint {
    /// What stands before and behind the name of the thing.
    pub open spec fn around(self) -> (Seq<char>, Seq<char>) {
        match self {
            Complaint::SandboxNotFound => ("Sandbox "@, " not found"@),
            Complaint::VolumeNotFound => ("Volume "@, " not found"@),
            Complaint::SnapshotNotFound => ("Snapshot "@, " not found"@),
            Complaint::SnapshotInUse => ("Snapshot "@, " is in use by at least one sandbox"@),
            Complaint::MountNotAbsolute => ("mount_path must be absolute: "@, ""@),
            Complaint::MountClimbs => ("mount_path must not contain '..': "@, ""@),
            Complaint::InvalidImageName => ("Invalid image name: "@, ""@),
            Complaint::ImageNotFound => ("Image "@, " not found"@),
            Complaint::ImageWithoutDockerfile => ("Image "@, " is missing Dockerfile"@),
            Complaint::ReadOnlyBulkUpload => ("Cannot upload to read-only volume mount: "@, ""@),
            Complaint::UploadPathMissing => ("files["@, "].path is required"@),
            Complaint::UploadFileMissing => ("files["@, "].file is required"@),
            Complaint::InvalidBase64 => ("Invalid base64 data: "@, ""@),
            Complaint::Unauthorized => ("Registry returned 401 Unauthorized for "@, ""@),
            Complaint::ResolvedManifestStatus => ("Failed to fetch resolved manifest: HTTP "@, ""@),
            Complaint::TaskPanic => ("Task panic: "@, ""@),
            Complaint::ProxyFailed => ("Proxy error: "@, ""@),
        }
    }

    /// What stands before and behind the name of the thing.
    pub fn sentence(self) -> (r: (&'static str, &'static str))
        ensures
            (r.0@, r.1@) == self.around(),
    {
        match self {
            Complaint::SandboxNotFound => ("Sandbox ", " not found"),
            Complaint::VolumeNotFound => ("Volume ", " not found"),
            Complaint::SnapshotNotFound => ("Snapshot ", " not found"),
            Complaint::SnapshotInUse => ("Snapshot ", " is in use by at least one sandbox"),
            Complaint::MountNotAbsolute => ("mount_path must be absolute: ", ""),
            Complaint::MountClimbs => ("mount_path must not contain '..': ", ""),
            Complaint::InvalidImageName => ("Invalid image name: ", ""),
            Complaint::ImageNotFound => ("Image ", " not found"),
            Complaint::ImageWithoutDockerfile => ("Image ", " is missing Dockerfile"),
            Complaint::ReadOnlyBulkUpload => ("Cannot upload to read-only volume mount: ", ""),
            Complaint::UploadPathMissing => ("files[", "].path is required"),
            Complaint::UploadFileMissing => ("files[", "].file is required"),
            Complaint::InvalidBase64 => ("Invalid base64 data: ", ""),
            Complaint::Unauthorized => ("Registry returned 401 Unauthorized for ", ""),
            Complaint::ResolvedManifestStatus => ("Failed to fetch resolved manifest: HTTP ", ""),
            Complaint::TaskPanic => ("Task panic: ", ""),
            Complaint::ProxyFailed => ("Proxy error: ", ""),
        }
    }
}

/// A failure that is about two things.
#[derive(Debug, Clone, Copy, PartialEq, Eq, Structural)]
pub enum Conflict {
    VolumeInUse,
    HttpStatus,
    ManifestStatus,
    LayerStatus,
}

impl Conflict {
    /// What stands before the first name, and between the two.
    pub open spec fn around(self) -> (Seq<char>, Seq<char>) {
        match self {
            Conflict::VolumeInUse => ("Volume "@, " is in use by sandbox "@),
            Conflict::HttpStatus => ("HTTP "@, " for "@),
            Conflict::ManifestStatus => ("Failed to fetch manifest: HTTP "@, " from "@),
            Conflict::LayerStatus => ("Failed to download layer "@, ": HTTP "@),
        }
    }

    /// What stands before the first name, and between the two.
    pub fn sentence(self) -> (r: (&'static str, &'static str))
        ensures
            (r.0@, r.1@) == self.around(),
    {
        match self {
            Conflict::VolumeInUse => ("Volume ", " is in use by sandbox "),
            Conflict::HttpStatus => ("HTTP ", " for "),
            Conflict::ManifestStatus => ("Failed to fetch manifest: HTTP ", " from "),
            Conflict::LayerStatus => ("Failed to download layer ", ": HTTP "),
        }
    }
}

/// A failure.
#[derive(Debug)]
pub enum Error {
    Plain(Fault),
    About(Complaint, String),
    Between(Conflict, String, String),
    /// What a file system, a process or another crate reported.
    Outside(String),
}

/// The mathematical value of an `Error`.
pub enum ErrorView {
    Plain(Fault),
    About(Complaint, Seq<char>),
    Between(Conflict, Seq<char>, Seq<char>),
    Outside(Seq<char>),
}

impl DeepView for Error {
    type V = ErrorView;

    open spec fn deep_view(&self) -> ErrorView {
        match self {
            Error::Plain(f) => ErrorView::Plain(*f),
            Error::About(c, s) => ErrorView::About(*c, s@),
            Error::Between(c, s, t) => ErrorView::Between(*c, s@, t@),
            Error::Outside(s) => ErrorView::Outside(s@),
        }
    }
}

/// The sentence that tells the failure.
pub open spec fn told(e: ErrorView) -> Seq<char> {
    match e {
        ErrorView::Plain(f) => f.text(),
        ErrorView::About(c, s) => c.around().0 + s + c.around().1,
        ErrorView::Between(c, s, t) => c.around().0 + s + c.around().1 + t,
        ErrorView::Outside(s) => s,
    }
}

impl Error {
    /// The sentence that tells the failure.
    pub fn message(&self) -> (r: String)
        ensures
            r@ == told(self.deep_view()),
    {
        match self {
            Error::Plain(f) => f.message().to_owned(),
            Error::About(c, s) => {
                let (a, b) = c.sentence();
                glue3(a, s.as_str(), b)
            },
            Error::Between(c, s, t) => {
                let (a, b) = c.sentence();
                let start = glue3(a, s.as_str(), b);
                glue(start.as_str(), t.as_str())
            },
            Error::Outside(s) => s.clone(),
        }
    }
}

/// The failure with a name of its own.
pub fn about(complaint: Complaint, name: &str) -> (r: Error)
    ensures
        r.deep_view() == ErrorView::About(complaint, name@),
{
    Error::About(complaint, name.to_owned())
}

/// The mathematical value of what a function returned.
pub open spec fn outcome<T: DeepView>(r: Result<T, Error>) -> Result<T::V, ErrorView> {
    match r {
        Ok(v) => Ok(v.deep_view()),
        Err(e) => Err(e.deep_view()),
    }
}

/// The sentence for a failure names what it is about, whole and in order; and what was reported from
/// outside is told as it was.
pub proof fn law_message_names_the_thing(c: Complaint, d: Conflict, s: Seq<char>, t: Seq<char>)
    ensures
        ({
            let k = c.around().0.len() as int;
            let m = told(ErrorView::About(c, s));
            m.len() == k + s.len() + c.around().1.len() && m.subrange(k, k + s.len()) == s
        }),
        ({
            let k = d.around().0.len() as int;
            let j = k + s.len() + d.around().1.len();
            let m = told(ErrorView::Between(d, s, t));
            m.len() == j + t.len() && m.subrange(k, k + s.len()) == s && m.skip(j) == t
        }),
        told(ErrorView::Outside(s)) == s,
{
    let k = c.around().0.len() as int;
    assert(told(ErrorView::About(c, s)).subrange(k, k + s.len()) =~= s);
    let a = d.around().0.len() as int;
    let j = a + s.len() + d.around().1.len();
    let m = told(ErrorView::Between(d, s, t));
    assert(m.subrange(a, a + s.len()) =~= s);
    assert(m.skip(j) =~= t);
}

/// The sentences for failures that need no name.
pub proof fn law_plain_sentences()
    ensures
        told(ErrorView::Plain(Fault::SubpathClimbs)) == "subpath must not contain '..'"@,
        told(ErrorView::Plain(Fault::PathClimbs)) == "Path contains '..' traversal component"@,
        told(ErrorView::Plain(Fault::NoFileName)) == "Missing file name component"@,
        told(ErrorView::Plain(Fault::NoAncestor)) == "No existing ancestor directory found"@,
        told(ErrorView::Plain(Fault::EscapesRoot)) == "Resolved path escapes sandbox root (possible symlink attack)"@,
        told(ErrorView::Plain(Fault::LinkEscapesRoot)) == "Symlink target escapes sandbox root"@,
        told(ErrorView::Plain(Fault::ReadOnlyWrite)) == "Cannot write to read-only volume mount"@,
        told(ErrorView::Plain(Fault::ReadOnlyDelete)) == "Cannot delete from read-only volume mount"@,
        told(ErrorView::Plain(Fault::ReadOnlyUpload)) == "Cannot upload to read-only volume mount"@,
        told(ErrorView::Plain(Fault::ReadOnlyFolder)) == "Cannot create folder in read-only volume mount"@,
        told(ErrorView::Plain(Fault::ReadOnlyMove)) == "Cannot move files into or out of a read-only volume mount"@,
        told(ErrorView::Plain(Fault::EmptyCommand)) == "Command cannot be empty"@,
        told(ErrorView::Plain(Fault::CommandRequired)) == "command is required"@,
        told(ErrorView::Plain(Fault::FileRequired)) == "file is required"@,
        told(ErrorView::Plain(Fault::NoUploads)) == "No files uploaded"@,
        told(ErrorView::Plain(Fault::InvalidPreviewToken)) == "Invalid preview token"@,
        told(ErrorView::Plain(Fault::NoLocation)) == "3xx redirect without Location header"@,
        told(ErrorView::Plain(Fault::NoMetadata)) == "Failed to load metadata"@,
{
}

/// The sentences for failures that are about one thing, with its name in its place.
pub proof fn law_sentences_about_one_thing(s: Seq<char>)
    ensures
        told(ErrorView::About(Complaint::SandboxNotFound, s)) == "Sandbox "@ + s + " not found"@,
        told(ErrorView::About(Complaint::VolumeNotFound, s)) == "Volume "@ + s + " not found"@,
        told(ErrorView::About(Complaint::SnapshotNotFound, s)) == "Snapshot "@ + s + " not found"@,
        told(ErrorView::About(Complaint::SnapshotInUse, s)) == "Snapshot "@ + s + " is in use by at least one sandbox"@,
        told(ErrorView::About(Complaint::MountNotAbsolute, s)) == "mount_path must be absolute: "@ + s,
        told(ErrorView::About(Complaint::MountClimbs, s)) == "mount_path must not contain '..': "@ + s,
        told(ErrorView::About(Complaint::InvalidImageName, s)) == "Invalid image name: "@ + s,
        told(ErrorView::About(Complaint::ImageNotFound, s)) == "Image "@ + s + " not found"@,
        told(ErrorView::About(Complaint::ImageWithoutDockerfile, s)) == "Image "@ + s + " is missing Dockerfile"@,
        told(ErrorView::About(Complaint::ReadOnlyBulkUpload, s)) == "Cannot upload to read-only volume mount: "@ + s,
        told(ErrorView::About(Complaint::UploadPathMissing, s)) == "files["@ + s + "].path is required"@,
        told(ErrorView::About(Complaint::UploadFileMissing, s)) == "files["@ + s + "].file is required"@,
        told(ErrorView::About(Complaint::InvalidBase64, s)) == "Invalid base64 data: "@ + s,
        told(ErrorView::About(Complaint::Unauthorized, s)) == "Registry returned 401 Unauthorized for "@ + s,
        told(ErrorView::About(Complaint::ResolvedManifestStatus, s)) == "Failed to fetch resolved manifest: HTTP "@ + s,
        told(ErrorView::About(Complaint::TaskPanic, s)) == "Task panic: "@ + s,
        told(ErrorView::About(Complaint::ProxyFailed, s)) == "Proxy error: "@ + s,
{
    reveal_strlit("");
    assert(told(ErrorView::About(Complaint::MountNotAbsolute, s)) =~= "mount_path must be absolute: "@ + s);
    assert(told(ErrorView::About(Complaint::MountClimbs, s)) =~= "mount_path must not contain '..': "@ + s);
    assert(told(ErrorView::About(Complaint::InvalidImageName, s)) =~= "Invalid image name: "@ + s);
    assert(told(ErrorView::About(Complaint::ReadOnlyBulkUpload, s)) =~= "Cannot upload to read-only volume mount: "@ + s);
    assert(told(ErrorView::About(Complaint::InvalidBase64, s)) =~= "Invalid base64 data: "@ + s);
    assert(told(ErrorView::About(Complaint::Unauthorized, s)) =~= "Registry returned 401 Unauthorized for "@ + s);
    assert(told(ErrorView::About(Complaint::ResolvedManifestStatus, s)) =~= "Failed to fetch resolved manifest: HTTP "@ + s);
    assert(told(ErrorView::About(Complaint::TaskPanic, s)) =~= "Task panic: "@ + s);
    assert(told(ErrorView::About(Complaint::ProxyFailed, s)) =~= "Proxy error: "@ + s);
}

/// The sentences for failures that are about two things, with their names in their places.
pub proof fn law_sentences_about_two_things(s: Seq<char>, t: Seq<char>)
    ensures
        told(ErrorView::Between(Conflict::VolumeInUse, s, t)) == "Volume "@ + s + " is in use by sandbox "@ + t,
        told(ErrorView::Between(Conflict::HttpStatus, s, t)) == "HTTP "@ + s + " for "@ + t,
        told(ErrorView::Between(Conflict::ManifestStatus, s, t)) == "Failed to fetch manifest: HTTP "@ + s + " from "@ + t,
        told(ErrorView::Between(Conflict::LayerStatus, s, t)) == "Failed to download layer "@ + s + ": HTTP "@ + t,
{
}

} // verus!
