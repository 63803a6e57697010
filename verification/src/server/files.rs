//! Reading, writing and moving files of sandboxes.
use crate::build::cache::append_text;
use crate::error::{about, outcome, told, Complaint, Error, ErrorView, Fault};
use crate::metadata::{copy_text, Metadata, MetadataView};
use crate::number::{format_permissions, format_u64, number, parse_number, permission_text, written};
use crate::order::{
    codes, is_before, law_sorting_orders, law_texts_are_ordered, precedes, sort, sorted, Keyed,
};
use crate::outside::{
    base64_bytes, base64_decode, base64_encode, base64_text, bytes_view, encodable, new_id, rfc3339,
    time_text, uuid_text, writable_time,
};
use crate::path::{
    components, file_name, law_components_stand_between_slashes, law_parent_and_name, name_of, parent,
    parent_of, parts, show, shown,
};
use crate::server::lifecycle::{by_id, sandbox_by_id};
use crate::server::paths::{
    is_readonly_mount, located, read_only, resolve_file_path, Resolution, ResolutionView,
};
use crate::table::{law_put_is_found, lookup, put, values, StringMap};
use crate::text::{
    after_prefix, cut_once, ends, ends_with, glue, glue3, law_cut_at_the_first, law_replaced_once,
    replace, replaced, same, split_once, starts, strip_prefix, trim_start, trimmed_start, Class,
};
use vstd::prelude::*;
use vstd::utf8::encode_utf8;

verus! {

/// What a file is wanted for.
#[derive(Debug, Clone, Copy, PartialEq, Eq, Structural)]
pub enum Purpose {
    Read,
    Write,
    Delete,
    Upload,
    BulkUpload,
    CreateFolder,
}

/// Why the path cannot be had for this purpose in a mount that can only be read.
pub open spec fn refusal(purpose: Purpose, path: Seq<char>) -> Option<ErrorView> {
    match purpose {
        Purpose::Read => None,
        Purpose::Write => Some(ErrorView::Plain(Fault::ReadOnlyWrite)),
        Purpose::Delete => Some(ErrorView::Plain(Fault::ReadOnlyDelete)),
        Purpose::Upload => Some(ErrorView::Plain(Fault::ReadOnlyUpload)),
        Purpose::BulkUpload => Some(ErrorView::About(Complaint::ReadOnlyBulkUpload, path)),
        Purpose::CreateFolder => Some(ErrorView::Plain(Fault::ReadOnlyFolder)),
    }
}

/// The place on the host of a path in the sandbox with this id, for this purpose.
pub open spec fn opened(
    m: MetadataView,
    id: Seq<char>,
    path: Seq<char>,
    purpose: Purpose,
) -> ResolutionView {
    match by_id(m, id) {
        Err(e) => ResolutionView::Refused(e),
        Ok(sandbox) => if read_only(sandbox.mounts, path) && purpose != Purpose::Read {
            ResolutionView::Refused(refusal(purpose, path)->0)
        } else {
            located(sandbox, m, path)
        },
    }
}

/// Starts finding the place on the host of a path in a sandbox.
pub fn open_file(metadata: &Metadata, id: &str, path: &str, purpose: Purpose) -> (r: Resolution)
    ensures
        r.deep_view() == opened(metadata.deep_view(), id@, path@, purpose),
{
    let sandbox = match sandbox_by_id(metadata, id) {
        Ok(s) => s,
        Err(e) => {
            return Resolution::Refused(e);
        },
    };
    if purpose != Purpose::Read && is_readonly_mount(sandbox, path) {
        let error = match purpose {
            Purpose::Read => Error::Plain(Fault::ReadOnlyWrite),
            Purpose::Write => Error::Plain(Fault::ReadOnlyWrite),
            Purpose::Delete => Error::Plain(Fault::ReadOnlyDelete),
            Purpose::Upload => Error::Plain(Fault::ReadOnlyUpload),
            Purpose::BulkUpload => about(Complaint::ReadOnlyBulkUpload, path),
            Purpose::CreateFolder => Error::Plain(Fault::ReadOnlyFolder),
        };
        return Resolution::Refused(error);
    }
    resolve_file_path(sandbox, metadata, path)
}

/// Nothing in a mount that can only be read is handed out for a purpose that changes it, whatever
/// the file system holds.
pub proof fn law_read_only_is_kept(m: MetadataView, id: Seq<char>, path: Seq<char>, purpose: Purpose)
    requires
        by_id(m, id) matches Ok(sandbox) && read_only(sandbox.mounts, path),
        purpose != Purpose::Read,
    ensures
        opened(m, id, path, purpose) == ResolutionView::Refused(refusal(purpose, path)->0),
{
}

/// A path stands for one place whatever it is wanted for: what was written or uploaded under it is
/// what is read, downloaded or deleted under it.
pub proof fn law_one_place_for_all_purposes(
    m: MetadataView,
    id: Seq<char>,
    path: Seq<char>,
    one: Purpose,
    other: Purpose,
)
    requires
        by_id(m, id) matches Ok(sandbox) ==> !read_only(sandbox.mounts, path),
    ensures
        opened(m, id, path, one) == opened(m, id, path, other),
{
}

/// A move: where from and where to.
pub struct MovePlan {
    pub source: Resolution,
    pub destination: Resolution,
}

/// Starts finding both places of a move. Neither may lie in a mount that can only be read.
pub fn open_move(metadata: &Metadata, id: &str, source: &str, destination: &str) -> (r: Result<
    MovePlan,
    Error,
>)
    ensures
        match by_id(metadata.deep_view(), id@) {
            Err(e) => r matches Err(f) && f.deep_view() == e,
            Ok(sandbox) => if read_only(sandbox.mounts, source@) || read_only(
                sandbox.mounts,
                destination@,
            ) {
                r matches Err(f) && f.deep_view() == ErrorView::Plain(Fault::ReadOnlyMove)
            } else {
                r matches Ok(p) && p.source.deep_view() == located(
                    sandbox,
                    metadata.deep_view(),
                    source@,
                ) && p.destination.deep_view() == located(
                    sandbox,
                    metadata.deep_view(),
                    destination@,
                )
            },
        },
{
    let sandbox = match sandbox_by_id(metadata, id) {
        Ok(s) => s,
        Err(e) => {
            return Err(e);
        },
    };
    if is_readonly_mount(sandbox, source) || is_readonly_mount(sandbox, destination) {
        return Err(Error::Plain(Fault::ReadOnlyMove));
    }
    Ok(
        MovePlan {
            source: resolve_file_path(sandbox, metadata, source),
            destination: resolve_file_path(sandbox, metadata, destination),
        },
    )
}

/// The directory that is listed: the one that is named, or else the current one.
pub fn listed_path(path: &Option<String>) -> (r: String)
    ensures
        r@ == match path.deep_view() {
            Some(p) => p,
            None => "."@,
        },
{
    match path {
        Some(p) => p.clone(),
        None => ".".to_owned(),
    }
}

/// The directory that a path lies in.
pub open spec fn directory_of(path: Seq<char>) -> Option<Seq<char>> {
    match parent_of(parts(path)) {
        Some(up) => Some(shown(up)),
        None => None,
    }
}

/// The directory that must be there before the file can be written.
pub fn parent_dir(path: &str) -> (r: Option<String>)
    ensures
        r.deep_view() == directory_of(path@),
{
    let at = components(path);
    match parent(&at) {
        Some(up) => Some(show(&up)),
        None => None,
    }
}

/// The message that tells that a file was written.
pub fn written_message(path: &str) -> (r: String)
    ensures
        r@ == "File "@ + path@ + " written successfully"@,
{
    glue3("File ", path, " written successfully")
}

/// The message that tells that a file was deleted.
pub fn deleted_message(path: &str) -> (r: String)
    ensures
        r@ == "File "@ + path@ + " deleted successfully"@,
{
    glue3("File ", path, " deleted successfully")
}

/// The message that tells that a file of so many bytes was uploaded.
pub fn uploaded_message(path: &str, len: usize) -> (r: String)
    ensures
        r@ == "File "@ + path@ + " uploaded successfully ("@ + written(len as nat, 10) + " bytes)"@,
{
    let start = glue3("File ", path, " uploaded successfully (");
    let n = format_u64(len as u64);
    glue3(start.as_str(), n.as_str(), " bytes)")
}

/// The bytes that an upload brings, given what its Base64 form was read as.
pub fn accept_upload(decoded: Result<Vec<u8>, String>) -> (r: Result<Vec<u8>, Error>)
    ensures
        match decoded {
            Ok(bytes) => r matches Ok(b) && b@ == bytes@,
            Err(text) => r matches Err(e) && e.deep_view() == ErrorView::About(
                Complaint::InvalidBase64,
                text@,
            ),
        },
{
    match decoded {
        Ok(bytes) => Ok(bytes),
        Err(text) => Err(Error::About(Complaint::InvalidBase64, text)),
    }
}

/// Whether `text` is the Base64 form of some bytes.
pub open spec fn is_base64(text: Seq<char>) -> bool {
    exists|b: Seq<u8>| encodable(b.len()) && text == #[trigger] base64_text(b)
}

/// The bytes that an upload brings in Base64: of a file that was downloaded, the bytes of the file.
/// Every upload in Base64 form is taken, and what it brings can be downloaded again as the same text.
pub fn decode_upload(data: &str) -> (r: Result<Vec<u8>, Error>)
    ensures
        forall|b: Seq<u8>|
            encodable(b.len()) && data@ == #[trigger] base64_text(b) ==> (r matches Ok(v) && v@
                == b),
        is_base64(data@) ==> (r matches Ok(v) && encodable(v@.len()) && base64_text(v@) == data@),
        match base64_bytes(data@) {
            Ok(bytes) => r matches Ok(b) && b@ == bytes,
            Err(text) => r matches Err(e) && e.deep_view() == ErrorView::About(
                Complaint::InvalidBase64,
                text,
            ),
        },
{
    accept_upload(base64_decode(data))
}

/// A file in Base64.
pub fn encode_download(bytes: &Vec<u8>) -> (r: String)
    requires
        encodable(bytes@.len()),
    ensures
        r@ == base64_text(bytes@),
{
    base64_encode(bytes.as_slice())
}

/// The permissions that a folder is given: the octal number after leading zeros; none where there
/// is no such number.
pub fn folder_mode(mode: &str) -> (r: Option<u32>)
    ensures
        r == match number(trimmed_start(mode@, Class::Only('0')), 8, u32::MAX as nat) {
            Some(n) => Some(n as u32),
            None => None,
        },
{
    let digits = trim_start(mode, Class::Only('0'));
    match parse_number(digits.as_str(), 8, u32::MAX as u64) {
        Some(n) => Some(n as u32),
        None => None,
    }
}

/// What the file system tells of a file: the time of the last change is in seconds and nanoseconds
/// since the start of 1970.
#[derive(Debug, Clone, Copy)]
pub struct FileStat {
    pub is_dir: bool,
    pub size: u64,
    pub modified_secs: i64,
    pub modified_nanos: u32,
    pub mode: u32,
    pub uid: u32,
    pub gid: u32,
}

/// Tells a file.
#[derive(Debug)]
pub struct FileInfo {
    pub name: String,
    pub is_dir: bool,
    pub size: u64,
    pub mod_time: String,
    pub mode: String,
    pub permissions: String,
    pub owner: String,
    pub group: String,
}

/// The name of a file; empty where its path ends in no name.
pub open spec fn shown_name(path: Seq<char>) -> Seq<char> {
    match name_of(parts(path)) {
        Some(name) => name,
        None => Seq::empty(),
    }
}

/// Tells a file, given the time of its last change as text.
pub fn file_info_at(path: &str, stat: &FileStat, mod_time: String) -> (r: FileInfo)
    ensures
        r.name@ == shown_name(path@),
        r.is_dir == stat.is_dir,
        r.size == stat.size,
        r.mod_time@ == mod_time@,
        r.mode@ == if stat.is_dir {
            "drwxr-xr-x"@
        } else {
            "-rw-r--r--"@
        },
        r.permissions@ == permission_text(stat.mode),
        r.owner@ == written(stat.uid as nat, 10),
        r.group@ == written(stat.gid as nat, 10),
{
    let at = components(path);
    let name = match file_name(&at) {
        Some(name) => name,
        None => String::new(),
    };
    let mode = if stat.is_dir {
        "drwxr-xr-x".to_owned()
    } else {
        "-rw-r--r--".to_owned()
    };
    FileInfo {
        name,
        is_dir: stat.is_dir,
        size: stat.size,
        mod_time,
        mode,
        permissions: format_permissions(stat.mode),
        owner: format_u64(stat.uid as u64),
        group: format_u64(stat.gid as u64),
    }
}

/// Tells a file.
pub fn file_info_value(path: &str, stat: &FileStat) -> (r: FileInfo)
    requires
        writable_time(stat.modified_secs, stat.modified_nanos),
    ensures
        r.name@ == shown_name(path@),
        r.is_dir == stat.is_dir,
        r.size == stat.size,
        r.mod_time@ == rfc3339(stat.modified_secs as int, stat.modified_nanos as int),
        r.mode@ == if stat.is_dir {
            "drwxr-xr-x"@
        } else {
            "-rw-r--r--"@
        },
        r.permissions@ == permission_text(stat.mode),
        r.owner@ == written(stat.uid as nat, 10),
        r.group@ == written(stat.gid as nat, 10),
{
    let mod_time = time_text(stat.modified_secs, stat.modified_nanos);
    file_info_at(path, stat, mod_time)
}

// Many files in one reply

/// A file of a reply with many: its bytes, or why it could not be read.
#[derive(Debug)]
pub struct FilePart {
    pub path: String,
    pub content: Result<Vec<u8>, String>,
}

/// The mathematical value of a `FilePart`.
pub struct PartView {
    pub path: Seq<char>,
    pub content: Result<Seq<u8>, Seq<char>>,
}

impl DeepView for FilePart {
    type V = PartView;

    open spec fn deep_view(&self) -> PartView {
        PartView { path: self.path@, content: bytes_view(self.content) }
    }
}

/// What stands before the bytes of a part.
pub open spec fn part_head(boundary: Seq<char>, part: PartView) -> Seq<char> {
    let (name, kind) = match part.content {
        Ok(_) => ("file"@, "application/octet-stream"@),
        Err(_) => ("error"@, "text/plain"@),
    };
    "--"@ + boundary + "\r\nContent-Disposition: form-data; name=\""@ + name + "\"; filename=\""@
        + part.path + "\"\r\nContent-Type: "@ + kind + "\r\n\r\n"@
}

/// The bytes of a part: those of the file, or of the text that tells the failure.
pub open spec fn part_content(part: PartView) -> Seq<u8> {
    match part.content {
        Ok(bytes) => bytes,
        Err(text) => encode_utf8(text),
    }
}

/// A part with what stands around it.
pub open spec fn part_bytes(boundary: Seq<char>, part: PartView) -> Seq<u8> {
    encode_utf8(part_head(boundary, part)) + part_content(part) + encode_utf8("\r\n"@)
}

/// The parts one after the other.
pub open spec fn parts_bytes(boundary: Seq<char>, all: Seq<PartView>) -> Seq<u8>
    decreases all.len(),
{
    if all.len() == 0 {
        Seq::empty()
    } else {
        parts_bytes(boundary, all.drop_last()) + part_bytes(boundary, all.last())
    }
}

/// The body of a reply with many files.
pub open spec fn multipart(boundary: Seq<char>, all: Seq<PartView>) -> Seq<u8> {
    parts_bytes(boundary, all) + encode_utf8("--"@ + boundary + "--\r\n"@)
}

/// Appends a part.
fn append_part(out: &mut Vec<u8>, boundary: &str, part: &FilePart)
    ensures
        final(out)@ == old(out)@ + part_bytes(boundary@, part.deep_view()),
{
    let ghost before = out@;
    let (name, kind) = match &part.content {
        Ok(_) => ("file", "application/octet-stream"),
        Err(_) => ("error", "text/plain"),
    };
    let mut head = glue3(
        "--",
        boundary,
        "\r\nContent-Disposition: form-data; name=\"",
    );
    head = glue3(head.as_str(), name, "\"; filename=\"");
    head = glue3(head.as_str(), part.path.as_str(), "\"\r\nContent-Type: ");
    head = glue3(head.as_str(), kind, "\r\n\r\n");
    append_text(out, head.as_str());
    match &part.content {
        Ok(bytes) => {
            out.extend_from_slice(bytes.as_slice());
        },
        Err(text) => {
            append_text(out, text.as_str());
        },
    }
    append_text(out, "\r\n");
    proof {
        assert(out@ =~= before + part_bytes(boundary@, part.deep_view()));
    }
}

/// The body of a reply with many files, between parts that `boundary` marks.
pub fn multipart_body(boundary: &str, all: &Vec<FilePart>) -> (r: Vec<u8>)
    ensures
        r@ == multipart(boundary@, all.deep_view()),
{
    let ghost s = all.deep_view();
    let mut out: Vec<u8> = Vec::new();
    let mut i: usize = 0;
    proof {
        assert(s.take(0) =~= Seq::<PartView>::empty());
    }
    while i < all.len()
        invariant
            i <= all@.len(),
            s == all.deep_view(),
            out@ == parts_bytes(boundary@, s.take(i as int)),
        decreases all@.len() - i,
    {
        proof {
            assert(s.take(i + 1).drop_last() =~= s.take(i as int));
            assert(s.take(i + 1).last() == all@[i as int].deep_view());
        }
        append_part(&mut out, boundary, &all[i]);
        i = i + 1;
    }
    proof {
        assert(s.take(s.len() as int) =~= s);
    }
    let close = glue3("--", boundary, "--\r\n");
    append_text(&mut out, close.as_str());
    out
}

/// A reply with many files.
#[derive(Debug)]
pub struct MultipartReply {
    pub content_type: String,
    pub body: Vec<u8>,
}

/// The boundary that is made of an id: without its hyphens.
pub open spec fn boundary_of(id: Seq<char>) -> Seq<char> {
    "boundary"@ + replaced(id, '-', ""@)
}

/// Whether the reply holds the files between parts that `boundary` marks.
pub open spec fn holds_files(reply: MultipartReply, boundary: Seq<char>, all: Seq<PartView>) -> bool {
    &&& reply.content_type@ == "multipart/form-data; boundary="@ + boundary
    &&& reply.body@ == multipart(boundary, all)
}

/// A reply with many files between parts that `boundary` marks.
pub fn multipart_reply(boundary: &str, all: &Vec<FilePart>) -> (r: MultipartReply)
    ensures
        holds_files(r, boundary@, all.deep_view()),
{
    MultipartReply {
        content_type: glue("multipart/form-data; boundary=", boundary),
        body: multipart_body(boundary, all),
    }
}

/// A reply with many files between parts that a random boundary marks.
pub fn handle_toolbox_bulk_download(all: &Vec<FilePart>) -> (r: MultipartReply)
    ensures
        exists|id: Seq<char>|
            uuid_text(id) && holds_files(r, #[trigger] boundary_of(id), all.deep_view()),
{
    let id = new_id();
    let plain = replace(id.as_str(), '-', "");
    let boundary = glue("boundary", plain.as_str());
    proof {
        assert(boundary@ == boundary_of(id@));
    }
    multipart_reply(boundary.as_str(), all)
}

/// The part for a path: the bytes of the file, or why it was refused or could not be read.
pub fn file_part(path: &str, read: Result<Vec<u8>, Error>) -> (r: FilePart)
    ensures
        r.path@ == path@,
        match read {
            Ok(bytes) => bytes_view(r.content) == Ok::<Seq<u8>, Seq<char>>(bytes@),
            Err(e) => bytes_view(r.content) == Err::<Seq<u8>, Seq<char>>(told(e.deep_view())),
        },
{
    match read {
        Ok(bytes) => FilePart { path: path.to_owned(), content: Ok(bytes) },
        Err(e) => FilePart { path: path.to_owned(), content: Err(e.message()) },
    }
}

/// Every file of a reply stands in its body, behind its own head and before a line break, in the
/// order of the files.
pub proof fn law_body_holds_every_file(boundary: Seq<char>, all: Seq<PartView>, i: int)
    requires
        0 <= i < all.len(),
    ensures
        ({
            let before = parts_bytes(boundary, all.take(i));
            let part = part_bytes(boundary, all[i]);
            let body = multipart(boundary, all);
            &&& before.len() + part.len() <= body.len()
            &&& body.subrange(before.len() as int, (before.len() + part.len()) as int) == part
        }),
    decreases all.len(),
{
    let whole = parts_bytes(boundary, all);
    lemma_parts_in_order(boundary, all, i);
    let before = parts_bytes(boundary, all.take(i));
    let part = part_bytes(boundary, all[i]);
    let body = multipart(boundary, all);
    assert(body.subrange(before.len() as int, (before.len() + part.len()) as int) =~= whole.subrange(
        before.len() as int,
        (before.len() + part.len()) as int,
    ));
}

/// Each part stands behind those before it.
proof fn lemma_parts_in_order(boundary: Seq<char>, all: Seq<PartView>, i: int)
    requires
        0 <= i < all.len(),
    ensures
        ({
            let before = parts_bytes(boundary, all.take(i));
            let part = part_bytes(boundary, all[i]);
            let whole = parts_bytes(boundary, all);
            &&& before.len() + part.len() <= whole.len()
            &&& whole.subrange(before.len() as int, (before.len() + part.len()) as int) == part
        }),
    decreases all.len(),
{
    let t = all.drop_last();
    let whole = parts_bytes(boundary, all);
    let part = part_bytes(boundary, all[i]);
    let before = parts_bytes(boundary, all.take(i));
    if i == all.len() - 1 {
        assert(all.take(i) =~= t);
        assert(whole.subrange(before.len() as int, whole.len() as int) =~= part);
    } else {
        lemma_parts_in_order(boundary, t, i);
        assert(t.take(i) =~= all.take(i));
        let shorter = parts_bytes(boundary, t);
        assert(whole.subrange(before.len() as int, (before.len() + part.len()) as int)
            =~= shorter.subrange(before.len() as int, (before.len() + part.len()) as int));
    }
}

// Many files in one request

/// An upload that is still coming in: where it goes, and its bytes.
#[derive(Debug)]
pub struct PendingToolboxUpload {
    pub index: String,
    pub path: Option<String>,
    pub bytes: Option<Vec<u8>>,
}

/// The mathematical value of a `PendingToolboxUpload`.
#[verifier::ext_equal]
pub struct PendingView {
    pub index: Seq<char>,
    pub path: Option<Seq<char>>,
    pub bytes: Option<Seq<u8>>,
}

impl DeepView for PendingToolboxUpload {
    type V = PendingView;

    open spec fn deep_view(&self) -> PendingView {
        PendingView {
            index: self.index@,
            path: self.path.deep_view(),
            bytes: match self.bytes {
                Some(b) => Some(b@),
                None => None,
            },
        }
    }
}

impl Clone for PendingToolboxUpload {
    fn clone(&self) -> (r: Self)
        ensures
            r.deep_view() == self.deep_view(),
    {
        let bytes = match &self.bytes {
            Some(b) => {
                let c = b.clone();
                proof {
                    assert(c@ =~= b@);
                }
                Some(c)
            },
            None => None,
        };
        PendingToolboxUpload { index: self.index.clone(), path: copy_text(&self.path), bytes }
    }
}

impl Keyed for PendingToolboxUpload {
    open spec fn key_of(item: PendingView) -> Seq<int> {
        codes(item.index)
    }

    fn stands_before(&self, other: &Self) -> (r: bool) {
        is_before(self.index.as_str(), other.index.as_str())
    }
}

/// The index in the name of a field such as `files[0].path`.
pub open spec fn upload_index(name: Seq<char>) -> Option<Seq<char>> {
    match after_prefix(name, "files["@) {
        Some(rest) => match cut_once(rest, Class::Only(']')) {
            Some((index, _)) => Some(index),
            None => None,
        },
        None => None,
    }
}

/// The index in the name of a field.
pub fn extract_toolbox_upload_index(name: &str) -> (r: Option<String>)
    ensures
        r.deep_view() == upload_index(name@),
{
    match strip_prefix(name, "files[") {
        Some(rest) => match split_once(rest.as_str(), Class::Only(']')) {
            Some((index, _)) => Some(index),
            None => None,
        },
        None => None,
    }
}

/// What a field of an upload holds.
#[derive(Debug, Clone, Copy, PartialEq, Eq, Structural)]
pub enum FieldKind {
    Path,
    File,
    Other,
}

/// What a field with this name holds.
pub open spec fn kind_of_field(name: Seq<char>) -> FieldKind {
    if ends(name, "].path"@) {
        FieldKind::Path
    } else if ends(name, "].file"@) {
        FieldKind::File
    } else {
        FieldKind::Other
    }
}

/// What a field with this name holds.
pub fn field_kind(name: &str) -> (r: FieldKind)
    ensures
        r == kind_of_field(name@),
{
    if ends_with(name, "].path") {
        FieldKind::Path
    } else if ends_with(name, "].file") {
        FieldKind::File
    } else {
        FieldKind::Other
    }
}

/// What came with a field.
#[derive(Debug)]
pub enum FieldContent {
    Path(String),
    File(Vec<u8>),
    Nothing,
}

/// The mathematical value of a `FieldContent`.
pub enum ContentView {
    Path(Seq<char>),
    File(Seq<u8>),
    Nothing,
}

impl DeepView for FieldContent {
    type V = ContentView;

    open spec fn deep_view(&self) -> ContentView {
        match self {
            FieldContent::Path(s) => ContentView::Path(s@),
            FieldContent::File(b) => ContentView::File(b@),
            FieldContent::Nothing => ContentView::Nothing,
        }
    }
}

/// The uploads that are still coming in.
pub struct Uploads {
    pub pending: StringMap<PendingToolboxUpload>,
}

/// The uploads with one more field: of a field that comes twice the last counts.
pub open spec fn with_field(
    s: Seq<(Seq<char>, PendingView)>,
    index: Seq<char>,
    content: ContentView,
) -> Seq<(Seq<char>, PendingView)> {
    let known = match lookup(s, index) {
        Some(p) => p,
        None => PendingView { index, path: None, bytes: None },
    };
    let after = match content {
        ContentView::Path(path) => PendingView { path: Some(path), ..known },
        ContentView::File(bytes) => PendingView { bytes: Some(bytes), ..known },
        ContentView::Nothing => known,
    };
    put(s, index, after)
}

/// The uploads in the order of their indexes, or what is missing in the first that is incomplete.
pub open spec fn complete(s: Seq<PendingView>) -> Result<Seq<(Seq<char>, Seq<u8>)>, ErrorView>
    decreases s.len(),
{
    if s.len() == 0 {
        Ok(Seq::empty())
    } else {
        match complete(s.drop_last()) {
            Err(e) => Err(e),
            Ok(before) => match s.last().path {
                None => Err(ErrorView::About(Complaint::UploadPathMissing, s.last().index)),
                Some(path) => match s.last().bytes {
                    None => Err(ErrorView::About(Complaint::UploadFileMissing, s.last().index)),
                    Some(bytes) => Ok(before.push((path, bytes))),
                },
            },
        }
    }
}

/// The uploads that a request brings: at least one, and all of them complete.
pub open spec fn collected(s: Seq<(Seq<char>, PendingView)>) -> Result<
    Seq<(Seq<char>, Seq<u8>)>,
    ErrorView,
> {
    match complete(sorted::<PendingToolboxUpload>(values(s), false)) {
        Err(e) => Err(e),
        Ok(all) => if all.len() == 0 {
            Err(ErrorView::Plain(Fault::NoUploads))
        } else {
            Ok(all)
        },
    }
}

/// An incomplete upload stays the outcome when more uploads follow.
proof fn lemma_incomplete_stays(s: Seq<PendingView>, k: int)
    requires
        0 <= k <= s.len(),
        complete(s.take(k)) is Err,
    ensures
        complete(s) == complete(s.take(k)),
    decreases s.len() - k,
{
    if k == s.len() {
        assert(s.take(k) =~= s);
    } else {
        assert(s.take(k + 1).drop_last() =~= s.take(k));
        lemma_incomplete_stays(s, k + 1);
    }
}

/// A file to be written: its path in the sandbox, and its bytes.
#[derive(Debug)]
pub struct Upload {
    pub path: String,
    pub bytes: Vec<u8>,
}

impl DeepView for Upload {
    type V = (Seq<char>, Seq<u8>);

    open spec fn deep_view(&self) -> (Seq<char>, Seq<u8>) {
        (self.path@, self.bytes@)
    }
}

impl Uploads {
    /// No uploads yet.
    pub fn new() -> (r: Self)
        ensures
            r.pending.deep_view() == Seq::<(Seq<char>, PendingView)>::empty(),
    {
        Uploads { pending: StringMap::new() }
    }

    /// Takes in a field of the upload with this index.
    pub fn add(&mut self, index: &str, content: FieldContent)
        ensures
            final(self).pending.deep_view() == with_field(
                old(self).pending.deep_view(),
                index@,
                content.deep_view(),
            ),
    {
        let mut upload = match self.pending.get(index) {
            Some(known) => known.clone(),
            None => PendingToolboxUpload { index: index.to_owned(), path: None, bytes: None },
        };
        match content {
            FieldContent::Path(path) => {
                upload.path = Some(path);
            },
            FieldContent::File(bytes) => {
                upload.bytes = Some(bytes);
            },
            FieldContent::Nothing => {},
        }
        self.pending.insert(index.to_owned(), upload);
    }

    /// The uploads, in the order of their indexes.
    pub fn finish(self) -> (r: Result<Vec<Upload>, Error>)
        ensures
            outcome(r) == collected(self.pending.deep_view()),
    {
        let ghost table = self.pending.deep_view();
        let mut left = sort(self.pending.into_values(), false);
        let ghost s = left.deep_view();
        let mut done: Vec<Upload> = Vec::new();
        let n: usize = left.len();
        let mut i: usize = 0;
        proof {
            assert(s.take(0) =~= Seq::<PendingView>::empty());
            assert(s.skip(0) =~= s);
            assert(done.deep_view() =~= Seq::<(Seq<char>, Seq<u8>)>::empty());
        }
        while i < n
            invariant
                i <= n,
                n == s.len(),
                left.deep_view() == s.skip(i as int),
                table == self.pending.deep_view(),
                s == sorted::<PendingToolboxUpload>(values(table), false),
                complete(s.take(i as int)) == Ok::<Seq<(Seq<char>, Seq<u8>)>, ErrorView>(
                    done.deep_view(),
                ),
                done@.len() == i,
            decreases n - i,
        {
            let ghost before = done.deep_view();
            let ghost was = left.deep_view();
            let ghost items = left@;
            proof {
                assert(left@.len() == was.len());
                assert(s.take(i + 1).drop_last() =~= s.take(i as int));
                assert(s.take(i + 1).last() == s.skip(i as int)[0]);
            }
            let next = left.remove(0);
            proof {
                assert(next.deep_view() == was[0]);
                assert forall|j: int| 0 <= j < left@.len() implies (#[trigger] left@[j]).deep_view()
                    == s.skip(i + 1)[j] by {
                    assert(left@[j] == items[j + 1]);
                    assert(was[j + 1] == items[j + 1].deep_view());
                }
                assert(left.deep_view() =~= s.skip(i + 1));
            }
            let path = match next.path {
                Some(path) => path,
                None => {
                    proof {
                        lemma_incomplete_stays(s, i + 1);
                    }
                    return Err(Error::About(Complaint::UploadPathMissing, next.index));
                },
            };
            let bytes = match next.bytes {
                Some(bytes) => bytes,
                None => {
                    proof {
                        lemma_incomplete_stays(s, i + 1);
                    }
                    return Err(Error::About(Complaint::UploadFileMissing, next.index));
                },
            };
            let ghost entry = (path@, bytes@);
            done.push(Upload { path, bytes });
            proof {
                assert(done.deep_view() =~= before.push(entry));
            }
            i = i + 1;
        }
        proof {
            assert(s.take(n as int) =~= s);
        }
        if done.len() == 0 {
            Err(Error::Plain(Fault::NoUploads))
        } else {
            Ok(done)
        }
    }
}

/// Whether a field with this name holds the file of an upload of one file.
pub fn is_file_field(name: &Option<String>) -> (r: bool)
    ensures
        r == (name.deep_view() == Some("file"@)),
{
    match name {
        Some(n) => same(n.as_str(), "file"),
        None => false,
    }
}

/// The file of an upload of one file.
pub fn required_file(bytes: Option<Vec<u8>>) -> (r: Result<Vec<u8>, Error>)
    ensures
        match bytes {
            Some(b) => r matches Ok(c) && c@ == b@,
            None => r matches Err(e) && e.deep_view() == ErrorView::Plain(Fault::FileRequired),
        },
{
    match bytes {
        Some(b) => Ok(b),
        None => Err(Error::Plain(Fault::FileRequired)),
    }
}

/// A file of a sandbox that is not on record is refused with the id; one that is only to be read is
/// looked for also where nothing may be written; and what may not be written is refused with the
/// sentence for what was wanted.
pub proof fn law_refusals_say_what_was_wanted(m: MetadataView, id: Seq<char>, path: Seq<char>)
    ensures
        lookup(m.sandboxes, id) is None ==> forall|purpose: Purpose| #[trigger]
            opened(m, id, path, purpose) == ResolutionView::Refused(
                ErrorView::About(Complaint::SandboxNotFound, id),
            ),
        lookup(m.sandboxes, id) matches Some(sandbox) ==> {
            &&& opened(m, id, path, Purpose::Read) == located(sandbox, m, path)
            &&& read_only(sandbox.mounts, path) ==> {
                &&& opened(m, id, path, Purpose::Write) == ResolutionView::Refused(
                    ErrorView::Plain(Fault::ReadOnlyWrite),
                )
                &&& opened(m, id, path, Purpose::Delete) == ResolutionView::Refused(
                    ErrorView::Plain(Fault::ReadOnlyDelete),
                )
                &&& opened(m, id, path, Purpose::Upload) == ResolutionView::Refused(
                    ErrorView::Plain(Fault::ReadOnlyUpload),
                )
                &&& opened(m, id, path, Purpose::BulkUpload) == ResolutionView::Refused(
                    ErrorView::About(Complaint::ReadOnlyBulkUpload, path),
                )
                &&& opened(m, id, path, Purpose::CreateFolder) == ResolutionView::Refused(
                    ErrorView::Plain(Fault::ReadOnlyFolder),
                )
            }
            &&& !read_only(sandbox.mounts, path) ==> forall|purpose: Purpose| #[trigger]
                opened(m, id, path, purpose) == located(sandbox, m, path)
        },
{
}

/// A file lies in the directory before its name, and is told by its name.
pub proof fn law_file_lies_before_its_name(dir: Seq<char>, name: Seq<char>)
    requires
        dir.len() > 0,
        name.len() > 0,
        name != "."@ && name != ".."@,
        forall|i: int| 0 <= i < name.len() ==> #[trigger] name[i] != '/',
    ensures
        directory_of(dir + seq!['/'] + name) == Some(shown(parts(dir))),
        shown_name(dir + seq!['/'] + name) == name,
        shown_name(name) == name,
{
    law_parent_and_name(dir, name);
    law_components_stand_between_slashes(dir, name);
}

/// A part of a reply says what it is: the bytes of a file under its path, or the reason why they are
/// not there.
pub proof fn law_part_says_what_it_is(
    boundary: Seq<char>,
    path: Seq<char>,
    bytes: Seq<u8>,
    reason: Seq<char>,
)
    ensures
        part_bytes(boundary, PartView { path, content: Ok(bytes) }) == encode_utf8(
            "--"@ + boundary + "\r\nContent-Disposition: form-data; name=\""@ + "file"@
                + "\"; filename=\""@ + path + "\"\r\nContent-Type: "@ + "application/octet-stream"@
                + "\r\n\r\n"@,
        ) + bytes + encode_utf8("\r\n"@),
        part_bytes(boundary, PartView { path, content: Err(reason) }) == encode_utf8(
            "--"@ + boundary + "\r\nContent-Disposition: form-data; name=\""@ + "error"@
                + "\"; filename=\""@ + path + "\"\r\nContent-Type: "@ + "text/plain"@ + "\r\n\r\n"@,
        ) + encode_utf8(reason) + encode_utf8("\r\n"@),
{
}

/// One more file adds its part behind the others, and the body ends with the boundary between two
/// pairs of hyphens.
pub proof fn law_body_ends_with_the_boundary(boundary: Seq<char>, all: Seq<PartView>, one: PartView)
    ensures
        ({
            let end = encode_utf8("--"@ + boundary + "--\r\n"@);
            let body = multipart(boundary, all);
            &&& body.len() >= end.len() && body.skip(body.len() - end.len()) == end
            &&& multipart(boundary, Seq::<PartView>::empty()) == end
            &&& multipart(boundary, all.push(one)) == body.take(body.len() - end.len()) + part_bytes(
                boundary,
                one,
            ) + end
        }),
{
    let end = encode_utf8("--"@ + boundary + "--\r\n"@);
    let body = multipart(boundary, all);
    assert(body.skip(body.len() - end.len()) =~= end);
    assert(body.take(body.len() - end.len()) =~= parts_bytes(boundary, all));
    assert(multipart(boundary, Seq::<PartView>::empty()) =~= end);
    assert(all.push(one).drop_last() =~= all);
}

/// The index of an upload stands between the brackets of the name of a field, which says at its end
/// whether it is the path or the file.
pub proof fn law_fields_name_their_upload(index: Seq<char>, rest: Seq<char>, front: Seq<char>)
    requires
        forall|i: int| 0 <= i < index.len() ==> #[trigger] index[i] != ']',
    ensures
        upload_index("files["@ + index + "]"@ + rest) == Some(index),
        upload_index("files["@ + index) is None,
        !starts(front, "files["@) ==> upload_index(front) is None,
        kind_of_field(front + "].path"@) == FieldKind::Path,
        kind_of_field(front + "].file"@) == FieldKind::File,
        !ends(front, "].path"@) && !ends(front, "].file"@) ==> kind_of_field(front) == FieldKind::Other,
{
    let close = Class::Only(']');
    reveal_strlit("files[");
    reveal_strlit("]");
    reveal_strlit("].path");
    reveal_strlit("].file");
    assert("]"@ =~= seq![']']);
    let name = "files["@ + index + "]"@ + rest;
    assert(name.take(6) =~= "files["@);
    assert(name.skip(6) =~= index + seq![']'] + rest);
    assert forall|i: int| 0 <= i < index.len() implies !close.has(#[trigger] index[i]) by {}
    law_cut_at_the_first(index, ']', rest, close);
    assert(("files["@ + index).take(6) =~= "files["@);
    assert(("files["@ + index).skip(6) =~= index);
    let p = front + "].path"@;
    let f = front + "].file"@;
    assert(p.skip(p.len() - 6) =~= "].path"@);
    assert(f.skip(f.len() - 6) =~= "].file"@);
    assert("].path"@[2] == 'p' && "].file"@[2] == 'f');
}

/// The fields of an upload come together in any order: its path and its file are kept under its
/// index, the last of each counts, and other uploads stay.
pub proof fn law_fields_come_together(
    s: Seq<(Seq<char>, PendingView)>,
    index: Seq<char>,
    path: Seq<char>,
    bytes: Seq<u8>,
    other: Seq<char>,
)
    ensures
        ({
            let one = with_field(s, index, ContentView::Path(path));
            let two = with_field(s, index, ContentView::File(bytes));
            let both = with_field(one, index, ContentView::File(bytes));
            let turned = with_field(two, index, ContentView::Path(path));
            &&& lookup(both, index) matches Some(u) && u.path == Some(path) && u.bytes == Some(bytes)
            &&& lookup(turned, index) == lookup(both, index)
            &&& lookup(s, index) is None ==> lookup(both, index)->0.index == index
            &&& lookup(s, index) matches Some(u) ==> lookup(one, index) == Some(
                PendingView { path: Some(path), ..u },
            ) && lookup(two, index) == Some(PendingView { bytes: Some(bytes), ..u })
            &&& other != index ==> lookup(both, other) == lookup(s, other)
        }),
{
    let known = match lookup(s, index) {
        Some(p) => p,
        None => PendingView { index, path: None, bytes: None },
    };
    let a = PendingView { path: Some(path), ..known };
    let b = PendingView { bytes: Some(bytes), ..known };
    let c = PendingView { path: Some(path), bytes: Some(bytes), ..known };
    law_put_is_found(s, index, a, other);
    law_put_is_found(s, index, b, other);
    law_put_is_found(put(s, index, a), index, c, other);
    law_put_is_found(put(s, index, b), index, c, other);
}

/// Uploads are taken together or not at all: where each has a path and a file, all of them are taken
/// in order, and else the first that lacks one is told, the path before the file.
pub proof fn law_uploads_are_complete_or_told(s: Seq<PendingView>, i: int)
    ensures
        (forall|j: int| 0 <= j < s.len() ==> (#[trigger] s[j]).path is Some && s[j].bytes is Some) ==> (
        complete(s) matches Ok(all) && all.len() == s.len() && forall|j: int|
            0 <= j < s.len() ==> #[trigger] all[j] == (s[j].path->0, s[j].bytes->0)),
        0 <= i < s.len() && (forall|j: int|
            0 <= j < i ==> (#[trigger] s[j]).path is Some && s[j].bytes is Some) ==> {
            &&& s[i].path is None ==> complete(s) == Err::<Seq<(Seq<char>, Seq<u8>)>, ErrorView>(
                ErrorView::About(Complaint::UploadPathMissing, s[i].index),
            )
            &&& s[i].path is Some && s[i].bytes is None ==> complete(s) == Err::<
                Seq<(Seq<char>, Seq<u8>)>,
                ErrorView,
            >(ErrorView::About(Complaint::UploadFileMissing, s[i].index))
        },
    decreases s.len(),
{
    if s.len() > 0 {
        let t = s.drop_last();
        let n = s.len() - 1;
        law_uploads_are_complete_or_told(t, i);
        if forall|j: int| 0 <= j < s.len() ==> (#[trigger] s[j]).path is Some && s[j].bytes is Some {
            assert forall|j: int| 0 <= j < t.len() implies (#[trigger] t[j]).path is Some
                && t[j].bytes is Some by {
                assert(t[j] == s[j]);
            }
            assert(s[n].path is Some);
            let before = complete(t)->Ok_0;
            let all = complete(s)->Ok_0;
            assert forall|j: int| 0 <= j < s.len() implies #[trigger] all[j] == (
                s[j].path->0,
                s[j].bytes->0,
            ) by {
                if j < n {
                    assert(all[j] == before[j]);
                    assert(t[j] == s[j]);
                }
            }
        }
        if 0 <= i < s.len() && (forall|j: int|
            0 <= j < i ==> (#[trigger] s[j]).path is Some && s[j].bytes is Some) {
            if i < n {
                assert(t[i] == s[i]);
                assert forall|j: int| 0 <= j < i implies (#[trigger] t[j]).path is Some
                    && t[j].bytes is Some by {
                    assert(t[j] == s[j]);
                }
            } else {
                assert forall|j: int| 0 <= j < t.len() implies (#[trigger] t[j]).path is Some
                    && t[j].bytes is Some by {
                    assert(t[j] == s[j]);
                }
            }
        }
    }
}

/// A request without uploads is told; with some, they are taken in the order of their indexes, as
/// texts, and none is lost.
pub proof fn law_uploads_go_by_index(s: Seq<(Seq<char>, PendingView)>, a: PendingView, b: PendingView, k: int)
    ensures
        s.len() == 0 ==> collected(s) == Err::<Seq<(Seq<char>, Seq<u8>)>, ErrorView>(
            ErrorView::Plain(Fault::NoUploads),
        ),
        ({
            let row = sorted::<PendingToolboxUpload>(values(s), false);
            &&& row.to_multiset() == values(s).to_multiset()
            &&& s.len() > 0 ==> collected(s) == complete(row)
        }),
        0 <= k < a.index.len() && k < b.index.len() && a.index.take(k) == b.index.take(k) && (
        a.index[k] as int) < b.index[k] as int ==> precedes(
            PendingToolboxUpload::key_of(a),
            PendingToolboxUpload::key_of(b),
        ),
        a.index.len() < b.index.len() && b.index.take(a.index.len() as int) == a.index ==> precedes(
            PendingToolboxUpload::key_of(a),
            PendingToolboxUpload::key_of(b),
        ),
{
    law_sorting_orders::<PendingToolboxUpload>(values(s), false);
    law_texts_are_ordered(a.index, b.index, k);
    let row = sorted::<PendingToolboxUpload>(values(s), false);
    lemma_complete_length(row);
}

/// Complete uploads are as many as there are.
proof fn lemma_complete_length(s: Seq<PendingView>)
    ensures
        complete(s) matches Ok(all) ==> all.len() == s.len(),
    decreases s.len(),
{
    if s.len() > 0 {
        lemma_complete_length(s.drop_last());
    }
}

/// The boundary of an id has its characters without the hyphens, behind one word.
pub proof fn law_boundary_has_no_hyphens(a: Seq<char>, b: Seq<char>)
    requires
        forall|i: int| 0 <= i < a.len() ==> #[trigger] a[i] != '-',
        forall|i: int| 0 <= i < b.len() ==> #[trigger] b[i] != '-',
    ensures
        boundary_of(a + seq!['-'] + b) == "boundary"@ + a + b,
        boundary_of(a) == "boundary"@ + a,
{
    reveal_strlit("");
    law_replaced_once(a, '-', b, ""@);
    assert(a + ""@ + b =~= a + b);
    assert("boundary"@ + (a + b) =~= "boundary"@ + a + b);
}

/// A reply with many files names the boundary that stands between them.
pub proof fn law_reply_names_its_boundary(
    reply: MultipartReply,
    boundary: Seq<char>,
    all: Seq<PartView>,
    part: FilePart,
)
    requires
        holds_files(reply, boundary, all),
    ensures
        reply.content_type@ == "multipart/form-data; boundary="@ + boundary,
        reply.body@ == multipart(boundary, all),
        part.deep_view().path == part.path@,
        part.content matches Ok(bytes) ==> part.deep_view().content == Ok::<Seq<u8>, Seq<char>>(
            bytes@,
        ),
        part.content matches Err(text) ==> part.deep_view().content == Err::<Seq<u8>, Seq<char>>(
            text@,
        ),
{
}

} // verus!
