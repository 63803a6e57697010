//! The cache of build results.
use crate::metadata::{
    touch_build_artifact, touched, ArtifactView, BuildArtifactMetadata, Metadata, MetadataView,
};
use crate::order::{
    law_first_difference_decides, law_sorting_forgets_the_old_order, precedes, sort, sorted,
    Keyed,
};
use crate::outside::{
    clock_text, hex_digit, hex_text, lossy, lossy_text, md5_digest, md5_hex, new_id, sha256_digest,
    sha256_hex, uuid_text,
};
use crate::path::{join, joined, law_child_of_directory, parts};
use crate::error::{Error, ErrorView};
use crate::snapshot::{artifacts_dir, get_build_artifacts_dir};
use crate::table::{
    distinct, has_key, law_taken_out_is_not_found, lemma_position, lemma_position_is, lookup, values,
    without, StringMap,
};
use crate::text::{glue3, law_cut_at_the_first, same, Class};
use vstd::prelude::*;
use vstd::utf8::encode_utf8;

verus! {

/// A build result, under the key that the same build will ask for.
#[derive(Debug)]
pub struct BuildArtifact {
    pub cache_key: String,
    pub dockerfile_md5: String,
    pub context_hash: String,
    pub snapshot_path: String,
}

/// The mathematical value of a `BuildArtifact`.
#[verifier::ext_equal]
pub struct BuildArtifactView {
    pub cache_key: Seq<char>,
    pub dockerfile_md5: Seq<char>,
    pub context_hash: Seq<char>,
    pub snapshot_path: Seq<char>,
}

impl DeepView for BuildArtifact {
    type V = BuildArtifactView;

    open spec fn deep_view(&self) -> BuildArtifactView {
        BuildArtifactView {
            cache_key: self.cache_key@,
            dockerfile_md5: self.dockerfile_md5@,
            context_hash: self.context_hash@,
            snapshot_path: self.snapshot_path@,
        }
    }
}

/// Which artifacts are meant.
#[derive(Debug)]
pub enum BuildCacheScope {
    DockerfileMd5(String),
    CacheKey(String),
}

/// The mathematical value of a `BuildCacheScope`.
pub enum ScopeView {
    DockerfileMd5(Seq<char>),
    CacheKey(Seq<char>),
}

impl DeepView for BuildCacheScope {
    type V = ScopeView;

    open spec fn deep_view(&self) -> ScopeView {
        match self {
            BuildCacheScope::DockerfileMd5(s) => ScopeView::DockerfileMd5(s@),
            BuildCacheScope::CacheKey(s) => ScopeView::CacheKey(s@),
        }
    }
}

/// What to remove from the cache.
#[derive(Debug)]
pub enum BuildCachePruneMode {
    /// The records of artifacts that are no longer there.
    RemoveMissingOnly,
    /// The artifacts of a scope.
    Scope(BuildCacheScope),
    /// Everything.
    ClearAll,
}

/// The mathematical value of a `BuildCachePruneMode`.
pub enum PruneView {
    RemoveMissingOnly,
    Scope(ScopeView),
    ClearAll,
}

impl DeepView for BuildCachePruneMode {
    type V = PruneView;

    open spec fn deep_view(&self) -> PruneView {
        match self {
            BuildCachePruneMode::RemoveMissingOnly => PruneView::RemoveMissingOnly,
            BuildCachePruneMode::Scope(s) => PruneView::Scope(s.deep_view()),
            BuildCachePruneMode::ClearAll => PruneView::ClearAll,
        }
    }
}

/// The MD5 digest of a Dockerfile.
pub fn compute_dockerfile_md5(content: &[u8]) -> (r: String)
    ensures
        r@ == md5_hex(content@),
        hex_text(r@, 32),
{
    md5_digest(content)
}

/// What an entry of a build context is.
#[derive(Debug)]
pub enum ContextNode {
    Dir,
    /// A symbolic link and where it leads.
    Symlink(Vec<u8>),
    /// A file, its size as the directory tells it, and its bytes.
    File { size: u64, content: Vec<u8> },
}

/// The mathematical value of a `ContextNode`.
pub enum NodeView {
    Dir,
    Symlink(Seq<u8>),
    File { size: u64, content: Seq<u8> },
}

/// An entry of a build context under its path from the root of the context.
#[derive(Debug)]
pub struct ContextEntry {
    pub path: Vec<u8>,
    pub node: ContextNode,
}

/// The mathematical value of a `ContextEntry`.
pub struct EntryView {
    pub path: Seq<u8>,
    pub node: NodeView,
}

impl DeepView for ContextEntry {
    type V = EntryView;

    open spec fn deep_view(&self) -> EntryView {
        EntryView {
            path: self.path@,
            node: match self.node {
                ContextNode::Dir => NodeView::Dir,
                ContextNode::Symlink(t) => NodeView::Symlink(t@),
                ContextNode::File { size, content } => NodeView::File { size, content: content@ },
            },
        }
    }
}

/// The rank of a byte of a path: a slash comes first, so that a directory stands right before what
/// lies in it.
pub open spec fn rank(b: u8) -> int {
    if b == 0x2f {
        0
    } else {
        b + 1
    }
}

/// The ranks of the bytes of a path. Ordered by them, the entries of a tree stand as a walk meets
/// them that goes through each directory by name and into each subdirectory at once.
pub open spec fn ranks(path: Seq<u8>) -> Seq<int> {
    Seq::new(path.len(), |i: int| rank(path[i]))
}

/// The rank of a byte.
fn rank_of(b: u8) -> (r: u16)
    ensures
        r == rank(b),
{
    if b == 0x2f {
        0
    } else {
        b as u16 + 1
    }
}

impl Keyed for ContextEntry {
    open spec fn key_of(item: EntryView) -> Seq<int> {
        ranks(item.path)
    }

    fn stands_before(&self, other: &Self) -> (r: bool) {
        let ghost xs = ranks(self.path@);
        let ghost ys = ranks(other.path@);
        let mut i: usize = 0;
        proof {
            assert(xs.skip(0) =~= xs);
            assert(ys.skip(0) =~= ys);
        }
        while i < self.path.len() && i < other.path.len()
            invariant
                i <= self.path@.len(),
                i <= other.path@.len(),
                xs == ranks(self.path@),
                ys == ranks(other.path@),
                precedes(xs.skip(i as int), ys.skip(i as int)) == precedes(xs, ys),
            decreases self.path@.len() - i,
        {
            let c: u16 = rank_of(self.path[i]);
            let d: u16 = rank_of(other.path[i]);
            if c != d {
                return c < d;
            }
            proof {
                assert(xs.skip(i as int).drop_first() =~= xs.skip(i + 1));
                assert(ys.skip(i as int).drop_first() =~= ys.skip(i + 1));
            }
            i = i + 1;
        }
        i < other.path.len()
    }
}

/// The eight bytes of `n`, the lowest first.
pub open spec fn little_endian(n: u64) -> Seq<u8> {
    seq![
        (n % 256) as u8,
        (n / 256 % 256) as u8,
        (n / 65536 % 256) as u8,
        (n / 16777216 % 256) as u8,
        (n / 4294967296 % 256) as u8,
        (n / 1099511627776 % 256) as u8,
        (n / 281474976710656 % 256) as u8,
        (n / 72057594037927936) as u8,
    ]
}

/// What an entry adds to the digest of its context: a word for its kind, its path, and what it
/// holds.
pub open spec fn entry_bytes(e: EntryView) -> Seq<u8> {
    let path = encode_utf8(lossy(e.path));
    match e.node {
        NodeView::Dir => encode_utf8("dir:"@) + path,
        NodeView::Symlink(target) => encode_utf8("symlink:"@) + path + encode_utf8(lossy(target)),
        NodeView::File { size, content } => encode_utf8("file:"@) + path + little_endian(size)
            + content,
    }
}

/// What the entries add to the digest, in order.
pub open spec fn stream(s: Seq<EntryView>) -> Seq<u8>
    decreases s.len(),
{
    if s.len() == 0 {
        Seq::empty()
    } else {
        stream(s.drop_last()) + entry_bytes(s.last())
    }
}

/// The digest of a build context.
pub open spec fn context_hash(s: Seq<EntryView>) -> Seq<char> {
    sha256_hex(stream(sorted::<ContextEntry>(s, false)))
}

/// Appends the bytes of a text.
pub fn append_text(out: &mut Vec<u8>, s: &str)
    ensures
        final(out)@ == old(out)@ + encode_utf8(s@),
{
    out.extend_from_slice(s.as_bytes());
}

/// Appends the eight bytes of `n`.
fn append_number(out: &mut Vec<u8>, n: u64)
    ensures
        final(out)@ == old(out)@ + little_endian(n),
{
    let ghost before = out@;
    out.push((n % 256) as u8);
    out.push((n / 256 % 256) as u8);
    out.push((n / 65536 % 256) as u8);
    out.push((n / 16777216 % 256) as u8);
    out.push((n / 4294967296 % 256) as u8);
    out.push((n / 1099511627776 % 256) as u8);
    out.push((n / 281474976710656 % 256) as u8);
    out.push((n / 72057594037927936) as u8);
    proof {
        assert(out@ =~= before + little_endian(n));
    }
}

/// Appends what an entry adds to the digest.
fn append_entry(out: &mut Vec<u8>, e: &ContextEntry)
    ensures
        final(out)@ == old(out)@ + entry_bytes(e.deep_view()),
{
    let ghost before = out@;
    let path = lossy_text(e.path.as_slice());
    match &e.node {
        ContextNode::Dir => {
            append_text(out, "dir:");
            append_text(out, path.as_str());
        },
        ContextNode::Symlink(target) => {
            append_text(out, "symlink:");
            append_text(out, path.as_str());
            let t = lossy_text(target.as_slice());
            append_text(out, t.as_str());
        },
        ContextNode::File { size, content } => {
            append_text(out, "file:");
            append_text(out, path.as_str());
            append_number(out, *size);
            out.extend_from_slice(content.as_slice());
        },
    }
    proof {
        assert(out@ =~= before + entry_bytes(e.deep_view()));
    }
}

/// The bytes that the digest of a build context is taken of.
pub fn hash_directory(entries: Vec<ContextEntry>) -> (r: Vec<u8>)
    ensures
        r@ == stream(sorted::<ContextEntry>(entries.deep_view(), false)),
{
    let all = sort(entries, false);
    let ghost s = all.deep_view();
    let mut out: Vec<u8> = Vec::new();
    let mut i: usize = 0;
    proof {
        assert(s.take(0) =~= Seq::<EntryView>::empty());
    }
    while i < all.len()
        invariant
            i <= all@.len(),
            s == all.deep_view(),
            out@ == stream(s.take(i as int)),
        decreases all@.len() - i,
    {
        proof {
            assert(s.take(i + 1).drop_last() =~= s.take(i as int));
            assert(s.take(i + 1).last() == all@[i as int].deep_view());
        }
        append_entry(&mut out, &all[i]);
        i = i + 1;
    }
    proof {
        assert(s.take(s.len() as int) =~= s);
    }
    out
}

/// The digest of a build context, given as the entries of its tree in any order.
pub fn compute_context_hash(entries: Vec<ContextEntry>) -> (r: String)
    ensures
        r@ == context_hash(entries.deep_view()),
        hex_text(r@, 64),
{
    let bytes = hash_directory(entries);
    sha256_digest(bytes.as_slice())
}

/// The order in which a context is listed does not change its digest.
pub proof fn law_context_hash_ignores_listing_order(s: Seq<EntryView>, t: Seq<EntryView>)
    requires
        s.to_multiset() == t.to_multiset(),
        forall|i: int, j: int|
            0 <= i < j < s.len() ==> (#[trigger] s[i]).path != (#[trigger] s[j]).path,
    ensures
        context_hash(s) == context_hash(t),
{
    assert forall|i: int, j: int| 0 <= i < j < s.len() implies ContextEntry::key_of(
        #[trigger] s[i],
    ) != ContextEntry::key_of(#[trigger] s[j]) by {
        if ranks(s[i].path) == ranks(s[j].path) {
            let a = s[i].path;
            let b = s[j].path;
            assert(ranks(a).len() == a.len() && ranks(b).len() == b.len());
            assert forall|k: int| 0 <= k < a.len() implies a[k] == b[k] by {
                assert(ranks(a)[k] == ranks(b)[k]);
            }
            assert(a =~= b);
        }
    }
    law_sorting_forgets_the_old_order::<ContextEntry>(s, t, false);
}

/// What the key of a build is the digest of.
pub open spec fn key_text(
    dockerfile_md5: Seq<char>,
    context_hash: Seq<char>,
    extension: Option<Seq<char>>,
) -> Seq<char> {
    match extension {
        Some(e) => dockerfile_md5 + ":"@ + context_hash + ":"@ + e,
        None => dockerfile_md5 + ":"@ + context_hash,
    }
}

/// The key of a build.
pub open spec fn cache_key(
    dockerfile_md5: Seq<char>,
    context_hash: Seq<char>,
    extension: Option<Seq<char>>,
) -> Seq<char> {
    md5_hex(encode_utf8(key_text(dockerfile_md5, context_hash, extension)))
}

/// The key of a build: its Dockerfile, its context, and what else of the machine it depends on.
pub fn compute_build_cache_key(
    dockerfile_md5: &str,
    context_hash: &str,
    extension: &Option<String>,
) -> (r: String)
    ensures
        r@ == cache_key(dockerfile_md5@, context_hash@, extension.deep_view()),
        hex_text(r@, 32),
{
    let mut text = glue3(dockerfile_md5, ":", context_hash);
    if let Some(e) = extension {
        text = glue3(text.as_str(), ":", e.as_str());
    }
    md5_digest(text.as_str().as_bytes())
}

/// Where the artifact of a build lies.
pub fn build_artifact_path(home: &str, cache_key: &str) -> (r: String)
    ensures
        r@ == joined(artifacts_dir(home@), cache_key@),
{
    let dir = get_build_artifacts_dir(home);
    join(dir.as_str(), cache_key)
}

/// The artifact that a build has or will have.
pub open spec fn artifact_of(
    home: Seq<char>,
    dockerfile_md5: Seq<char>,
    context_hash: Seq<char>,
    extension: Option<Seq<char>>,
) -> BuildArtifactView {
    let key = cache_key(dockerfile_md5, context_hash, extension);
    BuildArtifactView {
        cache_key: key,
        dockerfile_md5,
        context_hash,
        snapshot_path: joined(artifacts_dir(home), key),
    }
}

/// The artifact that a build has or will have.
pub fn name_artifact(
    home: &str,
    dockerfile_md5: &str,
    context_hash: &str,
    extension: &Option<String>,
) -> (r: BuildArtifact)
    ensures
        r.deep_view() == artifact_of(
            home@,
            dockerfile_md5@,
            context_hash@,
            extension.deep_view(),
        ),
{
    let cache_key = compute_build_cache_key(dockerfile_md5, context_hash, extension);
    let snapshot_path = build_artifact_path(home, cache_key.as_str());
    BuildArtifact {
        cache_key,
        dockerfile_md5: dockerfile_md5.to_owned(),
        context_hash: context_hash.to_owned(),
        snapshot_path,
    }
}

/// The artifact of a build is a direct child of the directory of artifacts, named by its key.
pub proof fn law_artifact_lies_in_its_directory(home: Seq<char>, key: Seq<char>)
    requires
        home.len() > 0,
        hex_text(key, 32),
    ensures
        parts(joined(artifacts_dir(home), key)).rooted == parts(artifacts_dir(home)).rooted,
        parts(joined(artifacts_dir(home), key)).names == parts(artifacts_dir(home)).names.push(key),
{
    assert forall|i: int| 0 <= i < key.len() implies #[trigger] key[i] != '/' by {
        assert(hex_digit(key[i]));
    }
    reveal_strlit(".");
    reveal_strlit(".moulin");
    law_child_of_directory(artifacts_dir(home), key);
}

/// Records that the artifact is used now.
pub fn persist_build_artifact_metadata(metadata: &mut Metadata, artifact: &BuildArtifact)
    ensures
        exists|now: Seq<char>|
            clock_text(now) && final(metadata).deep_view() == #[trigger] touched(
                old(metadata).deep_view(),
                artifact.cache_key@,
                artifact.dockerfile_md5@,
                artifact.context_hash@,
                artifact.snapshot_path@,
                now,
            ),
{
    touch_build_artifact(
        metadata,
        artifact.cache_key.clone(),
        artifact.dockerfile_md5.clone(),
        artifact.context_hash.clone(),
        artifact.snapshot_path.clone(),
    );
}

/// The records without the artifact under the key.
pub open spec fn forgotten(m: MetadataView, cache_key: Seq<char>) -> MetadataView {
    MetadataView { build_artifacts: without(m.build_artifacts, cache_key), ..m }
}

/// Drops the record of an artifact, and says whether there was one.
pub fn prune_stale_build_artifact(metadata: &mut Metadata, cache_key: &str) -> (r: bool)
    ensures
        final(metadata).deep_view() == forgotten(old(metadata).deep_view(), cache_key@),
        r == has_key(old(metadata).deep_view().build_artifacts, cache_key@),
{
    metadata.build_artifacts.remove(cache_key).is_some()
}

/// What the cache has for a build, and whether the records have changed.
pub struct CacheAnswer {
    pub artifact: Option<BuildArtifact>,
    pub changed: bool,
}

/// Looks a build up in the cache: where its artifact is `present` on the host it is used and its
/// use recorded, else a record of it is dropped.
pub fn resolve_cached_build_artifact(
    metadata: &mut Metadata,
    candidate: BuildArtifact,
    present: bool,
) -> (r: CacheAnswer)
    ensures
        present ==> r.artifact.deep_view() == Some(candidate.deep_view()) && r.changed,
        present ==> exists|now: Seq<char>|
            clock_text(now) && final(metadata).deep_view() == #[trigger] touched(
                old(metadata).deep_view(),
                candidate.cache_key@,
                candidate.dockerfile_md5@,
                candidate.context_hash@,
                candidate.snapshot_path@,
                now,
            ),
        !present ==> r.artifact is None,
        !present ==> r.changed == has_key(
            old(metadata).deep_view().build_artifacts,
            candidate.cache_key@,
        ),
        !present ==> final(metadata).deep_view() == forgotten(
            old(metadata).deep_view(),
            candidate.cache_key@,
        ),
{
    if present {
        persist_build_artifact_metadata(metadata, &candidate);
        CacheAnswer { artifact: Some(candidate), changed: true }
    } else {
        let changed = prune_stale_build_artifact(metadata, candidate.cache_key.as_str());
        CacheAnswer { artifact: None, changed }
    }
}

/// How a build result gets into the cache.
pub enum PublishStep {
    /// It is there: record its use.
    Record(BuildArtifact),
    /// Copy the result to the staging directory, and move that to where the artifact lies.
    Stage { artifact: BuildArtifact, staging: String },
}

/// The directory that a build result is copied to before it is moved to its place.
pub open spec fn staging_of(home: Seq<char>, cache_key: Seq<char>, unique: Seq<char>) -> Seq<char> {
    joined(artifacts_dir(home), cache_key + ".tmp-"@ + unique)
}

/// The directory that a build result is copied to.
pub fn staging_dir(home: &str, cache_key: &str, unique: &str) -> (r: String)
    ensures
        r@ == staging_of(home@, cache_key@, unique@),
{
    let dir = get_build_artifacts_dir(home);
    let name = glue3(cache_key, ".tmp-", unique);
    join(dir.as_str(), name.as_str())
}

/// Decides how a build result gets into the cache, where its artifact may be `present` already.
pub fn publish_build_artifact(artifact: BuildArtifact, home: &str, present: bool) -> (r: PublishStep)
    ensures
        present ==> (r matches PublishStep::Record(a) && a.deep_view() == artifact.deep_view()),
        !present ==> (r matches PublishStep::Stage { artifact: a, staging } && a.deep_view()
            == artifact.deep_view() && exists|unique: Seq<char>|
            uuid_text(unique) && staging@ == #[trigger] staging_of(
                home@,
                artifact.cache_key@,
                unique,
            )),
{
    if present {
        PublishStep::Record(artifact)
    } else {
        let unique = new_id();
        let staging = staging_dir(home, artifact.cache_key.as_str(), unique.as_str());
        PublishStep::Stage { artifact, staging }
    }
}

/// What is left to do after the staging directory was, or was not, moved to its place.
#[derive(Debug)]
pub enum PublishEnd {
    /// Record the artifact.
    Record,
    /// Another build was faster: remove the staging directory and record the artifact.
    DropStaging,
    /// Remove the staging directory and give up.
    Fail(Error),
}

/// Decides what is left to do: `moved` is how the move went, `present` whether the artifact is
/// there after it.
pub fn finish_publish(moved: Result<(), String>, present: bool) -> (r: PublishEnd)
    ensures
        moved is Ok ==> r is Record,
        moved is Err && present ==> r is DropStaging,
        !present ==> (moved matches Err(e) ==> (r matches PublishEnd::Fail(f) && f.deep_view()
            == ErrorView::Outside(e@))),
{
    match moved {
        Ok(_) => PublishEnd::Record,
        Err(e) => {
            if present {
                PublishEnd::DropStaging
            } else {
                PublishEnd::Fail(Error::Outside(e))
            }
        },
    }
}

/// The artifacts on record, by their keys.
pub fn list_build_artifacts(metadata: Metadata) -> (r: Vec<BuildArtifactMetadata>)
    ensures
        r.deep_view() == sorted::<BuildArtifactMetadata>(
            values(metadata.deep_view().build_artifacts),
            false,
        ),
{
    sort(metadata.build_artifacts.into_values(), false)
}

/// Whether the artifact under `cache_key` is in the scope.
pub open spec fn in_scope(cache_key: Seq<char>, artifact: ArtifactView, scope: ScopeView) -> bool {
    match scope {
        ScopeView::DockerfileMd5(value) => artifact.dockerfile_md5 == value,
        ScopeView::CacheKey(value) => cache_key == value,
    }
}

/// Whether the artifact under `cache_key` is in the scope.
pub fn matches_scope(
    cache_key: &str,
    artifact: &BuildArtifactMetadata,
    scope: &BuildCacheScope,
) -> (r: bool)
    ensures
        r == in_scope(cache_key@, artifact.deep_view(), scope.deep_view()),
{
    match scope {
        BuildCacheScope::DockerfileMd5(value) => same(
            artifact.dockerfile_md5.as_str(),
            value.as_str(),
        ),
        BuildCacheScope::CacheKey(value) => same(cache_key, value.as_str()),
    }
}

/// Whether pruning takes an entry out, of which `present` says whether it is there on the host.
pub open spec fn taken(entry: (Seq<char>, ArtifactView), mode: PruneView, present: bool) -> bool {
    match mode {
        PruneView::RemoveMissingOnly => !present,
        PruneView::Scope(scope) => in_scope(entry.0, entry.1, scope),
        PruneView::ClearAll => true,
    }
}

/// The entries that pruning leaves.
pub open spec fn kept(
    s: Seq<(Seq<char>, ArtifactView)>,
    mode: PruneView,
    present: Seq<bool>,
) -> Seq<(Seq<char>, ArtifactView)>
    decreases s.len(),
{
    if s.len() == 0 {
        s
    } else {
        let before = kept(s.drop_last(), mode, present);
        if taken(s.last(), mode, present[s.len() - 1]) {
            before
        } else {
            before.push(s.last())
        }
    }
}

/// The artifacts that pruning takes out.
pub open spec fn removed(
    s: Seq<(Seq<char>, ArtifactView)>,
    mode: PruneView,
    present: Seq<bool>,
) -> Seq<ArtifactView>
    decreases s.len(),
{
    if s.len() == 0 {
        Seq::empty()
    } else {
        let before = removed(s.drop_last(), mode, present);
        if taken(s.last(), mode, present[s.len() - 1]) {
            before.push(s.last().1)
        } else {
            before
        }
    }
}

/// What is left was there before.
proof fn lemma_kept_was_there(
    s: Seq<(Seq<char>, ArtifactView)>,
    mode: PruneView,
    present: Seq<bool>,
    k: int,
) -> (j: int)
    requires
        0 <= k < kept(s, mode, present).len(),
    ensures
        0 <= j < s.len(),
        s[j] == kept(s, mode, present)[k],
        !taken(s[j], mode, present[j]),
    decreases s.len(),
{
    let before = kept(s.drop_last(), mode, present);
    if k < before.len() {
        lemma_kept_was_there(s.drop_last(), mode, present, k)
    } else {
        s.len() - 1
    }
}

/// Removes artifacts from the records and returns them. `present` says of each entry whether it is
/// there on the host.
pub fn prune_build_artifacts(
    metadata: &mut Metadata,
    mode: &BuildCachePruneMode,
    present: &Vec<bool>,
) -> (r: Vec<BuildArtifactMetadata>)
    requires
        present@.len() == old(metadata).deep_view().build_artifacts.len(),
    ensures
        final(metadata).deep_view() == (MetadataView {
            build_artifacts: kept(
                old(metadata).deep_view().build_artifacts,
                mode.deep_view(),
                present@,
            ),
            ..old(metadata).deep_view()
        }),
        r.deep_view() == removed(
            old(metadata).deep_view().build_artifacts,
            mode.deep_view(),
            present@,
        ),
{
    let ghost s = metadata.build_artifacts.deep_view();
    let ghost mv = mode.deep_view();
    let n: usize = metadata.build_artifacts.len();
    let mut left: StringMap<BuildArtifactMetadata> = StringMap::new();
    let mut out: Vec<BuildArtifactMetadata> = Vec::new();
    let mut i: usize = 0;
    proof {
        assert(s.take(0) =~= Seq::<(Seq<char>, ArtifactView)>::empty());
        assert(out.deep_view() =~= Seq::<ArtifactView>::empty());
    }
    while i < n
        invariant
            i <= n,
            n == s.len(),
            n == present@.len(),
            s == metadata.build_artifacts.deep_view(),
            mv == mode.deep_view(),
            distinct(s),
            left.deep_view() == kept(s.take(i as int), mv, present@),
            out.deep_view() == removed(s.take(i as int), mv, present@),
        decreases n - i,
    {
        proof {
            assert(s.take(i + 1).drop_last() =~= s.take(i as int));
            assert(s.take(i + 1).last() == s[i as int]);
        }
        let key = metadata.build_artifacts.key_at(i);
        let artifact = metadata.build_artifacts.value_at(i);
        let take = match mode {
            BuildCachePruneMode::RemoveMissingOnly => !present[i],
            BuildCachePruneMode::Scope(scope) => matches_scope(key.as_str(), artifact, scope),
            BuildCachePruneMode::ClearAll => true,
        };
        let ghost before = out.deep_view();
        let ghost so_far = left.deep_view();
        if take {
            out.push(artifact.clone());
            proof {
                assert(out.deep_view() =~= before.push(s[i as int].1));
            }
        } else {
            proof {
                assert forall|k: int| 0 <= k < so_far.len() implies (#[trigger] so_far[k]).0
                    != s[i as int].0 by {
                    let j = lemma_kept_was_there(s.take(i as int), mv, present@, k);
                    assert(s.take(i as int)[j] == s[j]);
                }
                lemma_position_is(so_far, s[i as int].0, so_far.len() as int);
            }
            left.insert(key.clone(), artifact.clone());
        }
        i = i + 1;
    }
    proof {
        assert(s.take(s.len() as int) =~= s);
    }
    metadata.build_artifacts = left;
    out
}

/// Whether pruning also removes the directories of the artifacts that it takes out.
pub open spec fn removes_directories(mode: PruneView) -> bool {
    !(mode is RemoveMissingOnly)
}

/// The directories that pruning removes besides the records `out` that it took out.
pub fn directories_to_remove(mode: &BuildCachePruneMode, out: &Vec<BuildArtifactMetadata>) -> (r: Vec<
    String,
>)
    ensures
        r.deep_view() == if removes_directories(mode.deep_view()) {
            out.deep_view().map_values(|a: ArtifactView| a.snapshot_path)
        } else {
            Seq::empty()
        },
{
    let mut r: Vec<String> = Vec::new();
    let removes = match mode {
        BuildCachePruneMode::RemoveMissingOnly => false,
        _ => true,
    };
    let ghost all = out.deep_view().map_values(|a: ArtifactView| a.snapshot_path);
    proof {
        assert(r.deep_view() =~= all.take(0));
    }
    if removes {
        let mut i: usize = 0;
        while i < out.len()
            invariant
                i <= out@.len(),
                all == out.deep_view().map_values(|a: ArtifactView| a.snapshot_path),
                r.deep_view() == all.take(i as int),
            decreases out@.len() - i,
        {
            let ghost before = r.deep_view();
            r.push(out[i].snapshot_path.clone());
            proof {
                assert(r.deep_view() =~= before.push(out@[i as int].snapshot_path@));
                assert(all.take(i + 1) =~= all.take(i as int).push(all[i as int]));
                assert(all[i as int] == out@[i as int].snapshot_path@);
            }
            i = i + 1;
        }
        proof {
            assert(all.take(all.len() as int) =~= all);
        }
    }
    r
}

/// Pruning splits the records: each artifact is either taken out or left, and is still found under
/// its key in the second case only.
pub proof fn law_prune_splits(
    s: Seq<(Seq<char>, ArtifactView)>,
    mode: PruneView,
    present: Seq<bool>,
    i: int,
)
    requires
        distinct(s),
        0 <= i < s.len(),
    ensures
        kept(s, mode, present).len() + removed(s, mode, present).len() == s.len(),
        taken(s[i], mode, present[i]) ==> removed(s, mode, present).contains(s[i].1) && lookup(
            kept(s, mode, present),
            s[i].0,
        ) is None,
        !taken(s[i], mode, present[i]) ==> lookup(kept(s, mode, present), s[i].0) == Some(s[i].1),
    decreases s.len(),
{
    let t = s.drop_last();
    let n = s.len() - 1;
    assert(distinct(t)) by {
        assert forall|a: int, b: int| 0 <= a < b < t.len() implies (#[trigger] t[a]).0 != (
        #[trigger] t[b]).0 by {
            assert(t[a] == s[a] && t[b] == s[b]);
        }
    }
    let kb = kept(t, mode, present);
    let rb = removed(t, mode, present);
    let k = kept(s, mode, present);
    let r = removed(s, mode, present);
    lemma_split_counts(s, mode, present);
    // No entry before the last has its key.
    assert forall|a: int| 0 <= a < kb.len() implies (#[trigger] kb[a]).0 != s[n].0 by {
        let j = lemma_kept_was_there(t, mode, present, a);
        assert(s[j].0 != s[n].0);
    }
    if i == n {
        if taken(s[n], mode, present[n]) {
            assert(r[rb.len() as int] == s[n].1);
            lemma_position_is(k, s[n].0, k.len() as int);
        } else {
            lemma_position_is(k, s[n].0, kb.len() as int);
        }
    } else {
        law_prune_splits(t, mode, present, i);
        assert(t[i] == s[i]);
        assert(s[i].0 != s[n].0);
        if taken(s[i], mode, present[i]) {
            let a = choose|a: int| 0 <= a < rb.len() && rb[a] == s[i].1;
            assert(r[a] == s[i].1);
        }
        lemma_position(kb, s[i].0);
        let p = crate::table::position(kb, s[i].0);
        if taken(s[n], mode, present[n]) {
        } else if p < kb.len() {
            assert forall|a: int| 0 <= a < p implies (#[trigger] k[a]).0 != s[i].0 by {
                assert(k[a] == kb[a]);
            }
            assert(k[p] == kb[p]);
            lemma_position_is(k, s[i].0, p);
        } else {
            assert forall|a: int| 0 <= a < k.len() implies (#[trigger] k[a]).0 != s[i].0 by {
                if a < kb.len() {
                    assert(k[a] == kb[a]);
                }
            }
            lemma_position_is(k, s[i].0, k.len() as int);
        }
    }
}

/// Pruning loses no artifact.
proof fn lemma_split_counts(s: Seq<(Seq<char>, ArtifactView)>, mode: PruneView, present: Seq<bool>)
    ensures
        kept(s, mode, present).len() + removed(s, mode, present).len() == s.len(),
    decreases s.len(),
{
    if s.len() > 0 {
        lemma_split_counts(s.drop_last(), mode, present);
    }
}

/// Clearing the cache leaves no record.
pub proof fn law_clear_all_leaves_nothing(
    s: Seq<(Seq<char>, ArtifactView)>,
    present: Seq<bool>,
)
    ensures
        kept(s, PruneView::ClearAll, present) == Seq::<(Seq<char>, ArtifactView)>::empty(),
        removed(s, PruneView::ClearAll, present) == values(s),
    decreases s.len(),
{
    if s.len() == 0 {
        assert(s =~= Seq::empty());
        assert(values(s) =~= Seq::empty());
    } else {
        law_clear_all_leaves_nothing(s.drop_last(), present);
        assert(values(s) =~= values(s.drop_last()).push(s.last().1));
    }
}

/// The bytes that a file adds to the digest end with the whole of its content: two files with the
/// same path and the same size but different contents add different bytes.
pub proof fn law_content_is_digested(path: Seq<u8>, size: u64, a: Seq<u8>, b: Seq<u8>)
    ensures
        ({
            let x = entry_bytes(EntryView { path, node: NodeView::File { size, content: a } });
            let y = entry_bytes(EntryView { path, node: NodeView::File { size, content: b } });
            &&& a != b ==> x != y
            &&& x.len() >= a.len() && x.skip(x.len() - a.len()) == a
        }),
{
    let x = entry_bytes(EntryView { path, node: NodeView::File { size, content: a } });
    let y = entry_bytes(EntryView { path, node: NodeView::File { size, content: b } });
    assert(x.skip(x.len() - a.len()) =~= a);
    assert(y.skip(y.len() - b.len()) =~= b);
}

/// The sizes of two files tell them apart as well.
pub proof fn law_size_is_digested(path: Seq<u8>, m: u64, n: u64, content: Seq<u8>)
    requires
        m != n,
    ensures
        entry_bytes(EntryView { path, node: NodeView::File { size: m, content } }) != entry_bytes(
            EntryView { path, node: NodeView::File { size: n, content } },
        ),
{
    let x = entry_bytes(EntryView { path, node: NodeView::File { size: m, content } });
    let y = entry_bytes(EntryView { path, node: NodeView::File { size: n, content } });
    let front = encode_utf8("file:"@) + encode_utf8(lossy(path));
    let k = front.len() as int;
    assert(x =~= front + little_endian(m) + content);
    assert(y =~= front + little_endian(n) + content);
    assert(x.subrange(k, k + 8) =~= little_endian(m));
    assert(y.subrange(k, k + 8) =~= little_endian(n));
    lemma_little_endian(m);
    lemma_little_endian(n);
}

/// A number is the sum of its bytes.
proof fn lemma_little_endian(n: u64)
    ensures
        ({
            let b = little_endian(n);
            n == b[0] + 256 * (b[1] + 256 * (b[2] + 256 * (b[3] + 256 * (b[4] + 256 * (b[5] + 256 * (
            b[6] + 256 * b[7]))))))
        }),
{
    let x = n as int;
    vstd::arithmetic::div_mod::lemma_div_denominator(x, 256, 256);
    vstd::arithmetic::div_mod::lemma_div_denominator(x, 65536, 256);
    vstd::arithmetic::div_mod::lemma_div_denominator(x, 16777216, 256);
    vstd::arithmetic::div_mod::lemma_div_denominator(x, 4294967296, 256);
    vstd::arithmetic::div_mod::lemma_div_denominator(x, 1099511627776, 256);
    vstd::arithmetic::div_mod::lemma_div_denominator(x, 281474976710656, 256);
    let q1 = x / 256;
    let q2 = x / 65536;
    let q3 = x / 16777216;
    let q4 = x / 4294967296;
    let q5 = x / 1099511627776;
    let q6 = x / 281474976710656;
    let q7 = x / 72057594037927936;
    assert(q6 == 256 * q7 + q6 % 256);
    assert(q5 == 256 * q6 + q5 % 256);
    assert(q4 == 256 * q5 + q4 % 256);
    assert(q3 == 256 * q4 + q3 % 256);
    assert(q2 == 256 * q3 + q2 % 256);
    assert(q1 == 256 * q2 + q1 % 256);
    assert(x == 256 * q1 + x % 256);
    assert(0 <= q7 < 256);
}

/// The path of an entry is digested, and so is where a link leads: entries of one kind that differ in
/// the one or the other add different bytes.
pub proof fn law_path_is_digested(p: Seq<u8>, q: Seq<u8>, node: NodeView, a: Seq<u8>, b: Seq<u8>)
    ensures
        lossy(p) != lossy(q) ==> entry_bytes(EntryView { path: p, node }) != entry_bytes(
            EntryView { path: q, node },
        ),
        lossy(a) != lossy(b) ==> entry_bytes(EntryView { path: p, node: NodeView::Symlink(a) })
            != entry_bytes(EntryView { path: p, node: NodeView::Symlink(b) }),
{
    let word = match node {
        NodeView::Dir => encode_utf8("dir:"@),
        NodeView::Symlink(_) => encode_utf8("symlink:"@),
        NodeView::File { .. } => encode_utf8("file:"@),
    };
    let tail = match node {
        NodeView::Dir => Seq::<u8>::empty(),
        NodeView::Symlink(t) => encode_utf8(lossy(t)),
        NodeView::File { size, content } => little_endian(size) + content,
    };
    let x = entry_bytes(EntryView { path: p, node });
    let y = entry_bytes(EntryView { path: q, node });
    assert(x =~= word + encode_utf8(lossy(p)) + tail);
    assert(y =~= word + encode_utf8(lossy(q)) + tail);
    assert(x.subrange(word.len() as int, x.len() - tail.len()) =~= encode_utf8(lossy(p)));
    assert(y.subrange(word.len() as int, y.len() - tail.len()) =~= encode_utf8(lossy(q)));
    vstd::utf8::encode_utf8_decode_utf8(lossy(p));
    vstd::utf8::encode_utf8_decode_utf8(lossy(q));
    let u = entry_bytes(EntryView { path: p, node: NodeView::Symlink(a) });
    let v = entry_bytes(EntryView { path: p, node: NodeView::Symlink(b) });
    let front = encode_utf8("symlink:"@) + encode_utf8(lossy(p));
    assert(u.skip(front.len() as int) =~= encode_utf8(lossy(a)));
    assert(v.skip(front.len() as int) =~= encode_utf8(lossy(b)));
    vstd::utf8::encode_utf8_decode_utf8(lossy(a));
    vstd::utf8::encode_utf8_decode_utf8(lossy(b));
}

/// The kind of an entry is digested before all else, in a word of its own.
pub proof fn law_kind_is_digested(e: EntryView)
    ensures
        ({
            let word = match e.node {
                NodeView::Dir => encode_utf8("dir:"@),
                NodeView::Symlink(_) => encode_utf8("symlink:"@),
                NodeView::File { .. } => encode_utf8("file:"@),
            };
            entry_bytes(e).len() >= word.len() && entry_bytes(e).take(word.len() as int) == word
        }),
{
    let word = match e.node {
        NodeView::Dir => encode_utf8("dir:"@),
        NodeView::Symlink(_) => encode_utf8("symlink:"@),
        NodeView::File { .. } => encode_utf8("file:"@),
    };
    assert(entry_bytes(e).take(word.len() as int) =~= word);
}

/// Whether two entries have the same path and add as many bytes each.
pub open spec fn alike(a: EntryView, b: EntryView) -> bool {
    a.path == b.path && entry_bytes(a).len() == entry_bytes(b).len()
}

/// Whether the entries of two lists are alike, one by one.
pub open spec fn all_alike(s: Seq<EntryView>, t: Seq<EntryView>) -> bool {
    s.len() == t.len() && forall|i: int| 0 <= i < s.len() ==> alike(#[trigger] s[i], t[i])
}

/// Whether the entries of two lists add the same bytes, one by one.
spec fn same_bytes(s: Seq<EntryView>, t: Seq<EntryView>) -> bool {
    s.len() == t.len() && forall|i: int|
        0 <= i < s.len() ==> entry_bytes(#[trigger] s[i]) == entry_bytes(t[i])
}

/// Entries that are alike are put at the same place.
proof fn lemma_placed_alike(x: EntryView, y: EntryView, s: Seq<EntryView>, t: Seq<EntryView>)
    requires
        alike(x, y),
        all_alike(s, t),
    ensures
        ({
            let a = crate::order::placed::<ContextEntry>(x, s, false);
            let b = crate::order::placed::<ContextEntry>(y, t, false);
            &&& all_alike(a, b)
            &&& same_bytes(a, b) ==> entry_bytes(x) == entry_bytes(y) && same_bytes(s, t)
        }),
    decreases s.len(),
{
    let a = crate::order::placed::<ContextEntry>(x, s, false);
    let b = crate::order::placed::<ContextEntry>(y, t, false);
    if s.len() > 0 {
        assert(alike(s[0], t[0]));
    }
    if s.len() > 0 && crate::order::comes_first(
        ContextEntry::key_of(s[0]),
        ContextEntry::key_of(x),
        false,
    ) {
        let u = s.drop_first();
        let v = t.drop_first();
        assert forall|i: int| 0 <= i < u.len() implies alike(#[trigger] u[i], v[i]) by {
            assert(alike(s[i + 1], t[i + 1]));
        }
        lemma_placed_alike(x, y, u, v);
        let c = crate::order::placed::<ContextEntry>(x, u, false);
        let d = crate::order::placed::<ContextEntry>(y, v, false);
        assert forall|i: int| 0 <= i < a.len() implies alike(#[trigger] a[i], b[i]) by {
            if i > 0 {
                assert(a[i] == c[i - 1] && b[i] == d[i - 1]);
                assert(alike(c[i - 1], d[i - 1]));
            }
        }
        if same_bytes(a, b) {
            assert forall|i: int| 0 <= i < c.len() implies entry_bytes(#[trigger] c[i])
                == entry_bytes(d[i]) by {
                assert(a[i + 1] == c[i] && b[i + 1] == d[i]);
            }
            assert(a[0] == s[0] && b[0] == t[0]);
            assert forall|i: int| 0 <= i < s.len() implies entry_bytes(#[trigger] s[i])
                == entry_bytes(t[i]) by {
                if i > 0 {
                    assert(s[i] == u[i - 1] && t[i] == v[i - 1]);
                }
            }
        }
    } else {
        assert forall|i: int| 0 <= i < a.len() implies alike(#[trigger] a[i], b[i]) by {
            if i > 0 {
                assert(a[i] == s[i - 1] && b[i] == t[i - 1]);
            }
        }
        if same_bytes(a, b) {
            assert(a[0] == x && b[0] == y);
            assert forall|i: int| 0 <= i < s.len() implies entry_bytes(#[trigger] s[i])
                == entry_bytes(t[i]) by {
                assert(a[i + 1] == s[i] && b[i + 1] == t[i]);
            }
        }
    }
}

/// Lists of entries that are alike are sorted alike.
proof fn lemma_sorted_alike(s: Seq<EntryView>, t: Seq<EntryView>)
    requires
        all_alike(s, t),
    ensures
        ({
            let a = sorted::<ContextEntry>(s, false);
            let b = sorted::<ContextEntry>(t, false);
            &&& all_alike(a, b)
            &&& same_bytes(a, b) ==> same_bytes(s, t)
        }),
    decreases s.len(),
{
    if s.len() > 0 {
        let u = s.drop_first();
        let v = t.drop_first();
        assert(alike(s[0], t[0]));
        assert forall|i: int| 0 <= i < u.len() implies alike(#[trigger] u[i], v[i]) by {
            assert(alike(s[i + 1], t[i + 1]));
        }
        lemma_sorted_alike(u, v);
        lemma_placed_alike(
            s[0],
            t[0],
            sorted::<ContextEntry>(u, false),
            sorted::<ContextEntry>(v, false),
        );
        if same_bytes(sorted::<ContextEntry>(s, false), sorted::<ContextEntry>(t, false)) {
            assert forall|i: int| 0 <= i < s.len() implies entry_bytes(#[trigger] s[i])
                == entry_bytes(t[i]) by {
                if i > 0 {
                    assert(s[i] == u[i - 1] && t[i] == v[i - 1]);
                }
            }
        }
    }
}

/// Lists of entries that are alike and give the same bytes add the same bytes one by one.
proof fn lemma_stream_tells_apart(s: Seq<EntryView>, t: Seq<EntryView>)
    requires
        all_alike(s, t),
        stream(s) == stream(t),
    ensures
        same_bytes(s, t),
    decreases s.len(),
{
    if s.len() > 0 {
        let n = s.len() - 1;
        let u = s.drop_last();
        let v = t.drop_last();
        assert(alike(s[n], t[n]));
        assert forall|i: int| 0 <= i < u.len() implies alike(#[trigger] u[i], v[i]) by {
            assert(alike(s[i], t[i]));
        }
        let x = entry_bytes(s.last());
        let y = entry_bytes(t.last());
        let k = stream(u).len() as int;
        assert(stream(s).len() == k + x.len());
        assert(stream(t).len() == stream(v).len() + y.len());
        assert(stream(s).take(k) =~= stream(u));
        assert(stream(t).take(k) =~= stream(v));
        assert(stream(s).skip(k) =~= x);
        assert(stream(t).skip(k) =~= y);
        lemma_stream_tells_apart(u, v);
        assert forall|i: int| 0 <= i < s.len() implies entry_bytes(#[trigger] s[i]) == entry_bytes(
            t[i],
        ) by {
            if i < n {
                assert(s[i] == u[i] && t[i] == v[i]);
            }
        }
    }
}

/// The bytes that the digest of a context is taken of tell the contents of its files: where two
/// contexts have the same paths and sizes, and any one file has other bytes, other bytes are
/// digested.
pub proof fn law_context_bytes_tell_contents(
    s: Seq<EntryView>,
    t: Seq<EntryView>,
    i: int,
    size: u64,
    a: Seq<u8>,
    b: Seq<u8>,
)
    requires
        all_alike(s, t),
        0 <= i < s.len(),
        s[i].node == (NodeView::File { size, content: a }),
        t[i].node == (NodeView::File { size, content: b }),
        a != b,
    ensures
        stream(sorted::<ContextEntry>(s, false)) != stream(sorted::<ContextEntry>(t, false)),
{
    lemma_sorted_alike(s, t);
    if stream(sorted::<ContextEntry>(s, false)) == stream(sorted::<ContextEntry>(t, false)) {
        lemma_stream_tells_apart(sorted::<ContextEntry>(s, false), sorted::<ContextEntry>(t, false));
        assert(entry_bytes(s[i]) == entry_bytes(t[i]));
        assert(alike(s[i], t[i]));
        law_content_is_digested(s[i].path, size, a, b);
        assert(s[i] == (EntryView { path: s[i].path, node: NodeView::File { size, content: a } }));
        assert(t[i] == (EntryView { path: s[i].path, node: NodeView::File { size, content: b } }));
    }
}

/// How many bytes the entries add in all.
pub open spec fn bytes_in_all(s: Seq<EntryView>) -> nat
    decreases s.len(),
{
    if s.len() == 0 {
        0
    } else {
        bytes_in_all(s.drop_first()) + entry_bytes(s[0]).len()
    }
}

/// An entry that is put in adds its bytes.
proof fn lemma_placed_adds(x: EntryView, s: Seq<EntryView>)
    ensures
        bytes_in_all(crate::order::placed::<ContextEntry>(x, s, false)) == bytes_in_all(s)
            + entry_bytes(x).len(),
    decreases s.len(),
{
    let a = crate::order::placed::<ContextEntry>(x, s, false);
    if s.len() > 0 && crate::order::comes_first(
        ContextEntry::key_of(s[0]),
        ContextEntry::key_of(x),
        false,
    ) {
        lemma_placed_adds(x, s.drop_first());
        assert(a.drop_first() =~= crate::order::placed::<ContextEntry>(x, s.drop_first(), false));
    } else {
        assert(a.drop_first() =~= s);
    }
}

/// The bytes of a list, counted from its end.
proof fn lemma_stream_len(s: Seq<EntryView>)
    ensures
        stream(s).len() == bytes_in_all(s),
    decreases s.len(),
{
    if s.len() > 0 {
        lemma_stream_len(s.drop_last());
        lemma_last_counts(s);
    }
}

/// The last entry counts as the first does.
proof fn lemma_last_counts(s: Seq<EntryView>)
    requires
        s.len() > 0,
    ensures
        bytes_in_all(s) == bytes_in_all(s.drop_last()) + entry_bytes(s.last()).len(),
    decreases s.len(),
{
    if s.len() > 1 {
        lemma_last_counts(s.drop_first());
        assert(s.drop_first().drop_last() =~= s.drop_last().drop_first());
    } else {
        assert(s.drop_first() =~= s.drop_last());
    }
}

/// Every entry of a context counts: the digest is taken of as many bytes as they add in all.
pub proof fn law_every_entry_is_digested(s: Seq<EntryView>)
    ensures
        stream(sorted::<ContextEntry>(s, false)).len() == bytes_in_all(s),
    decreases s.len(),
{
    lemma_stream_len(sorted::<ContextEntry>(s, false));
    if s.len() > 0 {
        law_every_entry_is_digested(s.drop_first());
        lemma_stream_len(sorted::<ContextEntry>(s.drop_first(), false));
        lemma_placed_adds(s[0], sorted::<ContextEntry>(s.drop_first(), false));
    }
}

/// The key of a build is the digest of a text that tells its Dockerfile, its context and what else
/// counts apart: where one of them differs, so does the text.
pub proof fn law_key_counts_all(
    a: Seq<char>,
    c: Seq<char>,
    e: Option<Seq<char>>,
    b: Seq<char>,
    d: Seq<char>,
    f: Option<Seq<char>>,
)
    requires
        forall|i: int| 0 <= i < a.len() ==> #[trigger] a[i] != ':',
        forall|i: int| 0 <= i < b.len() ==> #[trigger] b[i] != ':',
        forall|i: int| 0 <= i < c.len() ==> #[trigger] c[i] != ':',
        forall|i: int| 0 <= i < d.len() ==> #[trigger] d[i] != ':',
        a != b || c != d || e != f,
    ensures
        key_text(a, c, e) != key_text(b, d, f),
        cache_key(a, c, e) == md5_hex(encode_utf8(key_text(a, c, e))),
{
    reveal_strlit(":");
    assert(":"@ =~= seq![':']);
    let colon = Class::Only(':');
    let none = Seq::<char>::empty();
    let after = |x: Seq<char>, y: Option<Seq<char>>| match y {
        Some(z) => x + seq![':'] + z,
        None => x,
    };
    let p = after(c, e);
    let q = after(d, f);
    assert(key_text(a, c, e) =~= a + seq![':'] + p);
    assert(key_text(b, d, f) =~= b + seq![':'] + q);
    law_cut_at_the_first(a, ':', p, colon);
    law_cut_at_the_first(b, ':', q, colon);
    law_cut_at_the_first(c, ':', match e {
        Some(z) => z,
        None => none,
    }, colon);
    law_cut_at_the_first(d, ':', match f {
        Some(z) => z,
        None => none,
    }, colon);
}

/// The artifact of a build goes by its key, and keeps what the key was made of.
pub proof fn law_artifact_goes_by_its_key(
    home: Seq<char>,
    dockerfile_md5: Seq<char>,
    context_hash: Seq<char>,
    extension: Option<Seq<char>>,
)
    ensures
        ({
            let r = artifact_of(home, dockerfile_md5, context_hash, extension);
            &&& r.dockerfile_md5 == dockerfile_md5
            &&& r.context_hash == context_hash
            &&& r.cache_key == md5_hex(
                encode_utf8(
                    match extension {
                        Some(e) => dockerfile_md5 + ":"@ + context_hash + ":"@ + e,
                        None => dockerfile_md5 + ":"@ + context_hash,
                    },
                ),
            )
            &&& r.snapshot_path == joined(artifacts_dir(home), r.cache_key)
        }),
{
}

/// What pruning leaves: without a mode that names artifacts, those that are there on the host; with
/// one, those that it does not name; and the rest is found as before.
pub proof fn law_prune_leaves_the_others(
    s: Seq<(Seq<char>, ArtifactView)>,
    mode: PruneView,
    present: Seq<bool>,
    i: int,
)
    requires
        distinct(s),
        0 <= i < s.len(),
    ensures
        ({
            let goes = match mode {
                PruneView::RemoveMissingOnly => !present[i],
                PruneView::Scope(ScopeView::DockerfileMd5(value)) => s[i].1.dockerfile_md5 == value,
                PruneView::Scope(ScopeView::CacheKey(value)) => s[i].0 == value,
                PruneView::ClearAll => true,
            };
            &&& lookup(kept(s, mode, present), s[i].0) == if goes {
                None
            } else {
                Some(s[i].1)
            }
            &&& goes ==> removed(s, mode, present).contains(s[i].1)
        }),
        removes_directories(mode) <==> mode != PruneView::RemoveMissingOnly,
        kept(s, mode, present).len() + removed(s, mode, present).len() == s.len(),
{
    law_prune_splits(s, mode, present, i);
}

/// A directory is digested right before all that lies in it, and that before any entry beside it
/// whose name merely starts alike; other names go by their bytes.
pub proof fn law_directory_stands_before_what_it_holds(
    dir: EntryView,
    inner: EntryView,
    beside: EntryView,
    a: Seq<u8>,
    b: u8,
    c: Seq<u8>,
)
    requires
        inner.path == dir.path + seq![0x2fu8] + a,
        beside.path == dir.path + seq![b] + c,
        b != 0x2f,
    ensures
        precedes(ContextEntry::key_of(dir), ContextEntry::key_of(inner)),
        precedes(ContextEntry::key_of(inner), ContextEntry::key_of(beside)),
        forall|d: u8, e: Seq<u8>, other: EntryView|
            d != 0x2f && b < d && other.path == #[trigger] (dir.path + seq![d] + e) ==> precedes(
                ContextEntry::key_of(beside),
                #[trigger] ContextEntry::key_of(other),
            ),
{
    let n = dir.path.len() as int;
    let x = ranks(dir.path);
    let y = ranks(inner.path);
    let z = ranks(beside.path);
    assert forall|i: int| 0 <= i < n implies #[trigger] x[i] == y[i] by {
        assert(inner.path[i] == dir.path[i]);
    }
    law_first_difference_decides(x, y, n);
    assert(inner.path[n] == 0x2f && beside.path[n] == b);
    assert forall|i: int| 0 <= i < n implies #[trigger] y[i] == z[i] by {
        assert(inner.path[i] == dir.path[i] && beside.path[i] == dir.path[i]);
    }
    law_first_difference_decides(y, z, n);
    assert forall|d: u8, e: Seq<u8>, other: EntryView|
        d != 0x2f && b < d && other.path == #[trigger] (dir.path + seq![d] + e) implies precedes(
        ContextEntry::key_of(beside),
        #[trigger] ContextEntry::key_of(other),
    ) by {
        let w = ranks(other.path);
        assert(other.path[n] == d);
        assert forall|i: int| 0 <= i < n implies #[trigger] z[i] == w[i] by {
            assert(other.path[i] == dir.path[i] && beside.path[i] == dir.path[i]);
        }
        law_first_difference_decides(z, w, n);
    }
}

/// The digest of a context is that of the bytes of its entries, each seen with its whole path, its
/// size, and its whole content or target.
pub proof fn law_entries_are_seen_whole(s: Seq<EntryView>, e: ContextEntry)
    ensures
        context_hash(s) == sha256_hex(stream(sorted::<ContextEntry>(s, false))),
        e.deep_view().path == e.path@,
        match e.node {
            ContextNode::Dir => e.deep_view().node == NodeView::Dir,
            ContextNode::Symlink(target) => e.deep_view().node == NodeView::Symlink(target@),
            ContextNode::File { size, content } => e.deep_view().node == (NodeView::File {
                size,
                content: content@,
            }),
        },
{
}

/// Dropping the record of an artifact drops that one alone; and a result is staged beside the
/// artifacts, under a name that starts with its key.
pub proof fn law_stale_record_goes_alone(
    m: MetadataView,
    key: Seq<char>,
    other: Seq<char>,
    home: Seq<char>,
    unique: Seq<char>,
)
    requires
        distinct(m.build_artifacts),
    ensures
        lookup(forgotten(m, key).build_artifacts, key) is None,
        other != key ==> lookup(forgotten(m, key).build_artifacts, other) == lookup(
            m.build_artifacts,
            other,
        ),
        forgotten(m, key).snapshots == m.snapshots,
        forgotten(m, key).sandboxes == m.sandboxes,
        forgotten(m, key).volumes == m.volumes,
        staging_of(home, key, unique) == joined(artifacts_dir(home), key + ".tmp-"@ + unique),
{
    law_taken_out_is_not_found(m.build_artifacts, key, other);
}

} // verus!
