//! Making, changing and removing sandboxes, snapshots and volumes.
use crate::error::{about, outcome, Complaint, Conflict, Error, ErrorView, Fault};
use crate::metadata::{
    add_snapshot, copy_text, get_volumes_dir, with_snapshot, Metadata,
    MetadataView, MountConfig, MountView, SandboxMetadata, SandboxView, SnapshotMetadata,
    SnapshotView, VolumeMetadata, VolumeView,
};
use crate::order::{codes, is_before, precedes};
use crate::outside::{clock_text, new_id, now_text, uuid_text};
use crate::overlay::{OverlayMount, OverlayView};
use crate::path::{
    climbs, confined, has_climb, is_same_path, join, joined, law_child_of_directory,
    law_components_stand_between_slashes, law_join_stays_inside, parts, same_place, under,
};
use crate::sandbox::{limits_of, limits_or_default, size_limits, sized_limits, ResourceLimits};
use crate::server::api::{
    no_options, DaytonaCreateSandboxRequest, DaytonaVolumeMountRequest, ListResponse, OptionsView,
    SandboxCreateOptions, StartRequest, VolumeResponse,
};
use crate::server::paths::{law_mount_root_lies_in_volume, merged_of, mount_root, root_of_mount};
use crate::snapshot::{data_dir, get_sandboxes_dir, get_snapshots_dir};
use crate::table::{
    distinct, has_key, law_put_is_found, law_taken_out_is_not_found, lemma_position, lookup, position,
    put, values, without, StringMap,
};
use crate::text::{contains_text, glue, has_text, same, to_chars};
use vstd::prelude::*;

verus! {

/// A directory of the host that appears in a sandbox.
#[derive(Debug)]
pub struct BindMount {
    pub host_path: String,
    pub container_path: String,
    pub readonly: bool,
}

/// The mathematical value of a `BindMount`.
#[verifier::ext_equal]
pub struct BindView {
    pub host_path: Seq<char>,
    pub container_path: Seq<char>,
    pub readonly: bool,
}

impl DeepView for BindMount {
    type V = BindView;

    open spec fn deep_view(&self) -> BindView {
        BindView {
            host_path: self.host_path@,
            container_path: self.container_path@,
            readonly: self.readonly,
        }
    }
}

/// The directory that a mount makes appear: its volume must be on record, its place absolute, and
/// neither the place nor the path inside the volume may lead upwards.
pub open spec fn bound(m: MetadataView, mount: MountView) -> Result<BindView, ErrorView> {
    match lookup(m.volumes, mount.volume_id) {
        None => Err(ErrorView::About(Complaint::VolumeNotFound, mount.volume_id)),
        Some(volume) => if !(mount.mount_path.len() > 0 && mount.mount_path[0] == '/') {
            Err(ErrorView::About(Complaint::MountNotAbsolute, mount.mount_path))
        } else if has_text(mount.mount_path, ".."@) {
            Err(ErrorView::About(Complaint::MountClimbs, mount.mount_path))
        } else if mount.subpath is Some && climbs(mount.subpath->0) {
            Err(ErrorView::Plain(Fault::SubpathClimbs))
        } else {
            Ok(
                BindView {
                    host_path: mount_root(volume.path, mount.subpath),
                    container_path: mount.mount_path,
                    readonly: mount.readonly,
                },
            )
        },
    }
}

/// The directories that the mounts make appear, or what is wrong with the first one that is wrong.
pub open spec fn all_bound(m: MetadataView, mounts: Seq<MountView>) -> Result<
    Seq<BindView>,
    ErrorView,
>
    decreases mounts.len(),
{
    if mounts.len() == 0 {
        Ok(Seq::empty())
    } else {
        match all_bound(m, mounts.drop_last()) {
            Err(e) => Err(e),
            Ok(before) => match bound(m, mounts.last()) {
                Err(e) => Err(e),
                Ok(b) => Ok(before.push(b)),
            },
        }
    }
}

/// Checks one mount.
pub fn bind_mount(metadata: &Metadata, mount: &MountConfig) -> (r: Result<BindMount, Error>)
    ensures
        outcome(r) == bound(metadata.deep_view(), mount.deep_view()),
{
    let volume = match metadata.volumes.get(mount.volume_id.as_str()) {
        Some(volume) => volume,
        None => {
            return Err(about(Complaint::VolumeNotFound, mount.volume_id.as_str()));
        },
    };
    let chars = to_chars(mount.mount_path.as_str());
    if !(chars.len() > 0 && chars[0] == '/') {
        return Err(about(Complaint::MountNotAbsolute, mount.mount_path.as_str()));
    }
    if contains_text(mount.mount_path.as_str(), "..") {
        return Err(about(Complaint::MountClimbs, mount.mount_path.as_str()));
    }
    if let Some(subpath) = &mount.subpath {
        if has_climb(subpath.as_str()) {
            return Err(Error::Plain(Fault::SubpathClimbs));
        }
    }
    Ok(
        BindMount {
            host_path: root_of_mount(volume.path.as_str(), &mount.subpath),
            container_path: mount.mount_path.clone(),
            readonly: mount.readonly,
        },
    )
}

/// An error stays the outcome when more mounts follow.
proof fn lemma_error_stays(m: MetadataView, mounts: Seq<MountView>, k: int)
    requires
        0 <= k <= mounts.len(),
        all_bound(m, mounts.take(k)) is Err,
    ensures
        all_bound(m, mounts) == all_bound(m, mounts.take(k)),
    decreases mounts.len() - k,
{
    if k == mounts.len() {
        assert(mounts.take(k) =~= mounts);
    } else {
        assert(mounts.take(k + 1).drop_last() =~= mounts.take(k));
        lemma_error_stays(m, mounts, k + 1);
    }
}

/// Checks the mounts in order.
pub fn bind_mounts(metadata: &Metadata, mounts: &Vec<MountConfig>) -> (r: Result<
    Vec<BindMount>,
    Error,
>)
    ensures
        outcome(r) == all_bound(metadata.deep_view(), mounts.deep_view()),
{
    let ghost m = metadata.deep_view();
    let ghost s = mounts.deep_view();
    let mut done: Vec<BindMount> = Vec::new();
    let mut i: usize = 0;
    proof {
        assert(s.take(0) =~= Seq::<MountView>::empty());
        assert(done.deep_view() =~= Seq::<BindView>::empty());
    }
    while i < mounts.len()
        invariant
            i <= mounts@.len(),
            m == metadata.deep_view(),
            s == mounts.deep_view(),
            all_bound(m, s.take(i as int)) == Ok::<Seq<BindView>, ErrorView>(done.deep_view()),
        decreases mounts@.len() - i,
    {
        proof {
            assert(s.take(i + 1).drop_last() =~= s.take(i as int));
            assert(s.take(i + 1).last() == mounts@[i as int].deep_view());
        }
        let ghost before = done.deep_view();
        match bind_mount(metadata, &mounts[i]) {
            Ok(b) => {
                let ghost bv = b.deep_view();
                done.push(b);
                proof {
                    assert(done.deep_view() =~= before.push(bv));
                }
            },
            Err(e) => {
                proof {
                    lemma_error_stays(m, s, i + 1);
                }
                return Err(e);
            },
        }
        i = i + 1;
    }
    proof {
        assert(s.take(s.len() as int) =~= s);
    }
    Ok(done)
}

/// Where a new sandbox lies, how its files come about, and what is mounted in it.
#[derive(Debug)]
pub struct SandboxPlan {
    pub id: String,
    pub dir: String,
    pub overlay: OverlayMount,
    pub bind_mounts: Vec<BindMount>,
}

/// The mathematical value of a `SandboxPlan`.
#[verifier::ext_equal]
pub struct PlanView {
    pub id: Seq<char>,
    pub dir: Seq<char>,
    pub overlay: OverlayView,
    pub bind_mounts: Seq<BindView>,
}

impl DeepView for SandboxPlan {
    type V = PlanView;

    open spec fn deep_view(&self) -> PlanView {
        PlanView {
            id: self.id@,
            dir: self.dir@,
            overlay: self.overlay.deep_view(),
            bind_mounts: self.bind_mounts.deep_view(),
        }
    }
}

/// The directory of the sandbox with this id.
pub open spec fn sandbox_dir_of(home: Seq<char>, id: Seq<char>) -> Seq<char> {
    joined(joined(data_dir(home), "sandboxes"@), id)
}

/// The plan for a sandbox with this id: its own writable layer over a snapshot, which stays as it is.
pub open spec fn planned(
    m: MetadataView,
    home: Seq<char>,
    snapshot_path: Seq<char>,
    id: Seq<char>,
    mounts: Seq<MountView>,
) -> Result<PlanView, ErrorView> {
    match all_bound(m, mounts) {
        Err(e) => Err(e),
        Ok(bind_mounts) => {
            let dir = sandbox_dir_of(home, id);
            Ok(
                PlanView {
                    id,
                    dir,
                    overlay: OverlayView {
                        lower_dirs: seq![snapshot_path],
                        upper_dir: joined(dir, "upper"@),
                        work_dir: joined(dir, "work"@),
                        merged_dir: merged_of(dir),
                    },
                    bind_mounts,
                },
            )
        },
    }
}

/// Plans a sandbox with this id.
pub fn plan_sandbox_as(
    metadata: &Metadata,
    home: &str,
    snapshot_path: String,
    id: String,
    mounts: &Vec<MountConfig>,
) -> (r: Result<SandboxPlan, Error>)
    ensures
        outcome(r) == planned(
            metadata.deep_view(),
            home@,
            snapshot_path@,
            id@,
            mounts.deep_view(),
        ),
{
    let bind_mounts = match bind_mounts(metadata, mounts) {
        Ok(b) => b,
        Err(e) => {
            return Err(e);
        },
    };
    let sandboxes = get_sandboxes_dir(home);
    let dir = join(sandboxes.as_str(), id.as_str());
    let ghost sv = snapshot_path@;
    let mut lower: Vec<String> = Vec::new();
    lower.push(snapshot_path);
    proof {
        assert(lower.deep_view() =~= seq![sv]);
    }
    let overlay = OverlayMount::new(
        lower,
        join(dir.as_str(), "upper"),
        join(dir.as_str(), "work"),
        join(dir.as_str(), "merged"),
    );
    Ok(SandboxPlan { id, dir, overlay, bind_mounts })
}

/// Plans a new sandbox on a snapshot, under an id of its own.
pub fn start_sandbox_instance(
    metadata: &Metadata,
    home: &str,
    snapshot_path: String,
    mounts: &Vec<MountConfig>,
) -> (r: Result<SandboxPlan, Error>)
    ensures
        exists|id: Seq<char>|
            uuid_text(id) && outcome(r) == #[trigger] planned(
                metadata.deep_view(),
                home@,
                snapshot_path@,
                id,
                mounts.deep_view(),
            ),
{
    let id = new_id();
    plan_sandbox_as(metadata, home, snapshot_path, id, mounts)
}

/// The command that keeps a sandbox alive.
pub fn idle_command() -> (r: Vec<String>)
    ensures
        r.deep_view() == seq!["tail"@, "-f"@, "/dev/null"@],
{
    let mut r: Vec<String> = Vec::new();
    r.push("tail".to_owned());
    r.push("-f".to_owned());
    r.push("/dev/null".to_owned());
    proof {
        assert(r.deep_view() =~= seq!["tail"@, "-f"@, "/dev/null"@]);
    }
    r
}

/// The record of a sandbox that was started.
pub open spec fn started(
    plan: PlanView,
    snapshot_id: Seq<char>,
    resources: ResourceLimits,
    mounts: Seq<MountView>,
    options: OptionsView,
    created_at: Seq<char>,
    updated_at: Seq<char>,
) -> SandboxView {
    SandboxView {
        id: plan.id,
        snapshot_id,
        created_at,
        dir: plan.dir,
        pid: None,
        ip: None,
        resources,
        mounts,
        name: options.name,
        state: "started"@,
        user: options.user,
        env: options.env,
        labels: options.labels,
        public: options.public,
        target: options.target,
        network_block_all: options.network_block_all,
        network_allow_list: options.network_allow_list,
        auto_stop_interval: options.auto_stop_interval,
        auto_archive_interval: options.auto_archive_interval,
        auto_delete_interval: options.auto_delete_interval,
        updated_at: Some(updated_at),
    }
}

/// The record of a sandbox that was started at the given times.
pub fn started_at(
    plan: &SandboxPlan,
    snapshot_id: String,
    resources: ResourceLimits,
    mounts: Vec<MountConfig>,
    options: SandboxCreateOptions,
    created_at: String,
    updated_at: String,
) -> (r: SandboxMetadata)
    ensures
        r.deep_view() == started(
            plan.deep_view(),
            snapshot_id@,
            resources,
            mounts.deep_view(),
            options.deep_view(),
            created_at@,
            updated_at@,
        ),
{
    SandboxMetadata {
        id: plan.id.clone(),
        snapshot_id,
        created_at,
        dir: plan.dir.clone(),
        pid: None,
        ip: None,
        resources,
        mounts,
        name: options.name,
        state: "started".to_owned(),
        user: options.user,
        env: options.env,
        labels: options.labels,
        public: options.public,
        target: options.target,
        network_block_all: options.network_block_all,
        network_allow_list: options.network_allow_list,
        auto_stop_interval: options.auto_stop_interval,
        auto_archive_interval: options.auto_archive_interval,
        auto_delete_interval: options.auto_delete_interval,
        updated_at: Some(updated_at),
    }
}

/// The record of a sandbox that was started now.
pub fn started_now(
    plan: &SandboxPlan,
    snapshot_id: String,
    resources: ResourceLimits,
    mounts: Vec<MountConfig>,
    options: SandboxCreateOptions,
) -> (r: SandboxMetadata)
    ensures
        exists|created_at: Seq<char>, updated_at: Seq<char>|
            clock_text(created_at) && clock_text(updated_at) && r.deep_view() == #[trigger] started(
                plan.deep_view(),
                snapshot_id@,
                resources,
                mounts.deep_view(),
                options.deep_view(),
                created_at,
                updated_at,
            ),
{
    let created_at = now_text();
    let updated_at = now_text();
    started_at(plan, snapshot_id, resources, mounts, options, created_at, updated_at)
}

/// The records with the sandbox under the key.
pub open spec fn with_sandbox(m: MetadataView, key: Seq<char>, sandbox: SandboxView) -> MetadataView {
    MetadataView { sandboxes: put(m.sandboxes, key, sandbox), ..m }
}

/// Puts a sandbox on record under its id.
pub fn record_sandbox(metadata: &mut Metadata, sandbox: &SandboxMetadata)
    ensures
        final(metadata).deep_view() == with_sandbox(
            old(metadata).deep_view(),
            sandbox.id@,
            sandbox.deep_view(),
        ),
{
    metadata.sandboxes.insert(sandbox.id.clone(), sandbox.clone());
}

/// A sandbox that was put on record is found under its id.
pub proof fn law_started_sandbox_is_found(m: MetadataView, sandbox: SandboxView, other: Seq<char>)
    ensures
        lookup(with_sandbox(m, sandbox.id, sandbox).sandboxes, sandbox.id) == Some(sandbox),
        other != sandbox.id ==> lookup(with_sandbox(m, sandbox.id, sandbox).sandboxes, other)
            == lookup(m.sandboxes, other),
{
    law_put_is_found(m.sandboxes, sandbox.id, sandbox, other);
}

/// A sandbox with an id of the usual form lies in a directory of its own right under the directory
/// of sandboxes.
pub proof fn law_sandbox_directory_is_its_own(home: Seq<char>, id: Seq<char>)
    requires
        home.len() > 0,
        uuid_text(id),
    ensures
        parts(sandbox_dir_of(home, id)).names == parts(
            joined(data_dir(home), "sandboxes"@),
        ).names.push(id),
{
    assert forall|i: int| 0 <= i < id.len() implies #[trigger] id[i] != '/' by {
        if i == 8 || i == 13 || i == 18 || i == 23 {
        } else {
            assert(crate::outside::hex_digit(id[i]));
        }
    }
    reveal_strlit(".");
    reveal_strlit(".moulin");
    law_child_of_directory(joined(data_dir(home), "sandboxes"@), id);
}

/// The directories that a sandbox writes in.
pub open spec fn own_dirs(p: PlanView) -> Seq<Seq<char>> {
    seq![p.overlay.upper_dir, p.overlay.work_dir, p.overlay.merged_dir]
}

/// Sandboxes with different ids write in places apart, even where they start from one snapshot: each
/// in its own directory, and none in that of the other.
pub proof fn law_sandboxes_lie_apart(
    home: Seq<char>,
    m: MetadataView,
    snapshot_path: Seq<char>,
    id: Seq<char>,
    mounts: Seq<MountView>,
    other_m: MetadataView,
    other_path: Seq<char>,
    other: Seq<char>,
    other_mounts: Seq<MountView>,
    i: int,
)
    requires
        home.len() > 0,
        uuid_text(id),
        uuid_text(other),
        id != other,
        planned(m, home, snapshot_path, id, mounts) is Ok,
        planned(other_m, home, other_path, other, other_mounts) is Ok,
        0 <= i < 3,
    ensures
        ({
            let p = planned(m, home, snapshot_path, id, mounts)->Ok_0;
            let q = planned(other_m, home, other_path, other, other_mounts)->Ok_0;
            let place = parts(own_dirs(p)[i]);
            under(place, parts(p.dir)) && !under(place, parts(q.dir))
        }),
{
    let p = planned(m, home, snapshot_path, id, mounts)->Ok_0;
    let q = planned(other_m, home, other_path, other, other_mounts)->Ok_0;
    let place = parts(own_dirs(p)[i]);
    law_sandbox_directory_is_its_own(home, id);
    law_sandbox_directory_is_its_own(home, other);
    reveal_strlit("upper");
    reveal_strlit("work");
    reveal_strlit("merged");
    let name = if i == 0 {
        "upper"@
    } else if i == 1 {
        "work"@
    } else {
        "merged"@
    };
    law_join_stays_inside(p.dir, name);
    let n = parts(joined(data_dir(home), "sandboxes"@)).names.len() as int;
    assert(parts(p.dir).names[n] == id);
    assert(parts(q.dir).names[n] == other);
    assert(place.names.take(n + 1)[n] == place.names[n]);
}

/// A mount that is accepted appears at an absolute place without two dots, and shows its volume or
/// a directory in it, with no two dots that lead out; what is accepted once is accepted as often as
/// the records stay.
pub proof fn law_accepted_mounts_are_sound(m: MetadataView, mounts: Seq<MountView>, i: int)
    requires
        all_bound(m, mounts) is Ok,
        0 <= i < mounts.len(),
    ensures
        all_bound(m, mounts)->Ok_0.len() == mounts.len(),
        bound(m, mounts[i]) == Ok::<BindView, ErrorView>(all_bound(m, mounts)->Ok_0[i]),
        has_key(m.volumes, mounts[i].volume_id),
        mounts[i].mount_path.len() > 0 && mounts[i].mount_path[0] == '/',
        !has_text(mounts[i].mount_path, ".."@),
        mounts[i].subpath is Some ==> !climbs(mounts[i].subpath->0),
        lookup(m.volumes, mounts[i].volume_id) matches Some(volume) && confined(
            parts(all_bound(m, mounts)->Ok_0[i].host_path),
            parts(volume.path),
        ),
    decreases mounts.len(),
{
    if let Some(volume) = lookup(m.volumes, mounts[i].volume_id) {
        law_mount_root_lies_in_volume(volume.path, mounts[i].subpath);
    }
    let t = mounts.drop_last();
    lemma_bound_length(m, mounts);
    lemma_bound_length(m, t);
    if i < t.len() {
        law_accepted_mounts_are_sound(m, t, i);
        assert(t[i] == mounts[i]);
    }
}

/// There is one directory for each mount.
proof fn lemma_bound_length(m: MetadataView, mounts: Seq<MountView>)
    ensures
        all_bound(m, mounts) matches Ok(b) ==> b.len() == mounts.len(),
    decreases mounts.len(),
{
    if mounts.len() > 0 {
        lemma_bound_length(m, mounts.drop_last());
    }
}

// Snapshots

/// Which snapshots are meant.
pub enum Wanted<'a> {
    /// Those with this name.
    Named(&'a str),
    /// Those that lie at this path.
    At(&'a str),
}

/// The mathematical value of a `Wanted`.
pub enum WantedView {
    Named(Seq<char>),
    At(Seq<char>),
}

impl<'a> Wanted<'a> {
    /// The mathematical value.
    pub open spec fn model(self) -> WantedView {
        match self {
            Wanted::Named(s) => WantedView::Named(s@),
            Wanted::At(s) => WantedView::At(s@),
        }
    }
}

/// Whether a snapshot is meant.
pub open spec fn wanted(w: WantedView, snapshot: SnapshotView) -> bool {
    match w {
        WantedView::Named(name) => snapshot.name == Some(name),
        WantedView::At(path) => same_place(snapshot.path, path),
    }
}

/// Whether a snapshot is meant.
fn is_wanted(w: &Wanted, snapshot: &SnapshotMetadata) -> (r: bool)
    ensures
        r == wanted(w.model(), snapshot.deep_view()),
{
    match w {
        Wanted::Named(name) => match &snapshot.name {
            Some(n) => same(n.as_str(), name),
            None => false,
        },
        Wanted::At(path) => is_same_path(snapshot.path.as_str(), path),
    }
}

/// The position of the first snapshot that is meant; the length of `s` where none is.
pub open spec fn first_wanted(s: Seq<(Seq<char>, SnapshotView)>, w: WantedView) -> int
    decreases s.len(),
{
    if s.len() == 0 || wanted(w, s[0].1) {
        0
    } else {
        1 + first_wanted(s.drop_first(), w)
    }
}

/// The first snapshot that is meant.
pub open spec fn first_snapshot(s: Seq<(Seq<char>, SnapshotView)>, w: WantedView) -> Option<
    SnapshotView,
> {
    let k = first_wanted(s, w);
    if k < s.len() {
        Some(s[k].1)
    } else {
        None
    }
}

/// The first position is determined by what stands before it.
proof fn lemma_first_wanted(s: Seq<(Seq<char>, SnapshotView)>, w: WantedView, k: int)
    requires
        0 <= k <= s.len(),
        k < s.len() ==> wanted(w, s[k].1),
        forall|i: int| 0 <= i < k ==> !wanted(w, (#[trigger] s[i]).1),
    ensures
        first_wanted(s, w) == k,
    decreases s.len(),
{
    if k > 0 {
        let t = s.drop_first();
        assert(!wanted(w, s[0].1));
        assert forall|i: int| 0 <= i < k - 1 implies !wanted(w, (#[trigger] t[i]).1) by {
            assert(t[i] == s[i + 1]);
        }
        lemma_first_wanted(t, w, k - 1);
    }
}

/// The first snapshot that is meant.
pub fn find_snapshot<'a>(snapshots: &'a StringMap<SnapshotMetadata>, w: &Wanted) -> (r: Option<
    &'a SnapshotMetadata,
>)
    ensures
        r.deep_view() == first_snapshot(snapshots.deep_view(), w.model()),
{
    let ghost s = snapshots.deep_view();
    let n: usize = snapshots.len();
    let mut i: usize = 0;
    while i < n
        invariant
            i <= n,
            n == s.len(),
            s == snapshots.deep_view(),
            forall|j: int| 0 <= j < i ==> !wanted(w.model(), (#[trigger] s[j]).1),
        decreases n - i,
    {
        if is_wanted(w, snapshots.value_at(i)) {
            proof {
                lemma_first_wanted(s, w.model(), i as int);
            }
            return Some(snapshots.value_at(i));
        }
        i = i + 1;
    }
    proof {
        lemma_first_wanted(s, w.model(), n as int);
    }
    None
}

/// The newest snapshot that is meant, the last of them where several are equally new.
pub open spec fn newest(s: Seq<(Seq<char>, SnapshotView)>, w: WantedView) -> Option<SnapshotView>
    decreases s.len(),
{
    if s.len() == 0 {
        None
    } else {
        let before = newest(s.drop_last(), w);
        let last = s.last().1;
        if !wanted(w, last) {
            before
        } else {
            match before {
                None => Some(last),
                Some(b) => if precedes(codes(last.created_at), codes(b.created_at)) {
                    before
                } else {
                    Some(last)
                },
            }
        }
    }
}

/// The newest snapshot that is meant.
pub fn newest_snapshot<'a>(snapshots: &'a StringMap<SnapshotMetadata>, w: &Wanted) -> (r: Option<
    &'a SnapshotMetadata,
>)
    ensures
        r.deep_view() == newest(snapshots.deep_view(), w.model()),
{
    let ghost s = snapshots.deep_view();
    let n: usize = snapshots.len();
    let mut best: Option<&'a SnapshotMetadata> = None;
    let mut i: usize = 0;
    proof {
        assert(s.take(0) =~= Seq::<(Seq<char>, SnapshotView)>::empty());
    }
    while i < n
        invariant
            i <= n,
            n == s.len(),
            s == snapshots.deep_view(),
            best.deep_view() == newest(s.take(i as int), w.model()),
        decreases n - i,
    {
        proof {
            assert(s.take(i + 1).drop_last() =~= s.take(i as int));
            assert(s.take(i + 1).last() == s[i as int]);
        }
        let candidate = snapshots.value_at(i);
        if is_wanted(w, candidate) {
            match best {
                None => {
                    best = Some(candidate);
                },
                Some(b) => {
                    if !is_before(candidate.created_at.as_str(), b.created_at.as_str()) {
                        best = Some(candidate);
                    }
                },
            }
        }
        i = i + 1;
    }
    proof {
        assert(s.take(s.len() as int) =~= s);
    }
    best
}

/// The id of the newest snapshot at the path; empty where there is none.
pub open spec fn id_at(m: MetadataView, path: Seq<char>) -> Seq<char> {
    match newest(m.snapshots, WantedView::At(path)) {
        Some(s) => s.id,
        None => Seq::empty(),
    }
}

/// The id of the newest snapshot at the path that a sandbox is started from.
pub fn snapshot_id_at(metadata: &Metadata, path: &str) -> (r: String)
    ensures
        r@ == id_at(metadata.deep_view(), path@),
{
    match newest_snapshot(&metadata.snapshots, &Wanted::At(path)) {
        Some(s) => s.id.clone(),
        None => String::new(),
    }
}

/// Where the file system of a new sandbox comes from.
#[derive(Debug)]
pub enum SnapshotChoice {
    /// This snapshot.
    Use { id: String, path: String },
    /// A build of this Dockerfile.
    BuildFile { dockerfile: String, name: Option<String>, description: String },
    /// A build of this image.
    BuildImage { image: String, description: String },
}

/// The mathematical value of a `SnapshotChoice`.
pub enum ChoiceView {
    Use { id: Seq<char>, path: Seq<char> },
    BuildFile { dockerfile: Seq<char>, name: Option<Seq<char>>, description: Seq<char> },
    BuildImage { image: Seq<char>, description: Seq<char> },
}

impl DeepView for SnapshotChoice {
    type V = ChoiceView;

    open spec fn deep_view(&self) -> ChoiceView {
        match self {
            SnapshotChoice::Use { id, path } => ChoiceView::Use { id: id@, path: path@ },
            SnapshotChoice::BuildFile { dockerfile, name, description } => ChoiceView::BuildFile {
                dockerfile: dockerfile@,
                name: name.deep_view(),
                description: description@,
            },
            SnapshotChoice::BuildImage { image, description } => ChoiceView::BuildImage {
                image: image@,
                description: description@,
            },
        }
    }
}

/// The image for a language.
pub open spec fn image_for(language: Seq<char>) -> Seq<char> {
    if language == "typescript"@ || language == "javascript"@ || language == "node"@ {
        "nextjs"@
    } else if language == "vue"@ || language == "vue3"@ || language == "vite"@ {
        "vue3-vite"@
    } else if language == "analysis"@ || language == "data-analysis"@ {
        "data-analysis"@
    } else if language == "puppeteer"@ {
        "puppeteer"@
    } else if language == "nginx"@ {
        "nginx"@
    } else {
        "python"@
    }
}

/// The image for a language.
pub fn image_for_language(language: &str) -> (r: &'static str)
    ensures
        r@ == image_for(language@),
{
    if same(language, "typescript") || same(language, "javascript") || same(language, "node") {
        "nextjs"
    } else if same(language, "vue") || same(language, "vue3") || same(language, "vite") {
        "vue3-vite"
    } else if same(language, "analysis") || same(language, "data-analysis") {
        "data-analysis"
    } else if same(language, "puppeteer") {
        "puppeteer"
    } else if same(language, "nginx") {
        "nginx"
    } else {
        "python"
    }
}

/// The snapshot that a reference names: its id, else its name, else a path where there is
/// something.
pub open spec fn referenced(m: MetadataView, reference: Seq<char>, exists_on_host: bool) -> Result<
    ChoiceView,
    ErrorView,
> {
    match lookup(m.snapshots, reference) {
        Some(s) => Ok(ChoiceView::Use { id: s.id, path: s.path }),
        None => match first_snapshot(m.snapshots, WantedView::Named(reference)) {
            Some(s) => Ok(ChoiceView::Use { id: s.id, path: s.path }),
            None => if exists_on_host {
                Ok(
                    ChoiceView::Use {
                        id: match first_snapshot(m.snapshots, WantedView::At(reference)) {
                            Some(s) => s.id,
                            None => Seq::empty(),
                        },
                        path: reference,
                    },
                )
            } else {
                Err(ErrorView::About(Complaint::SnapshotNotFound, reference))
            },
        },
    }
}

/// The language that the labels tell.
pub open spec fn language_of(labels: Seq<(Seq<char>, Seq<char>)>) -> Seq<char> {
    match lookup(labels, "code-toolbox-language"@) {
        Some(language) => language,
        None => "python"@,
    }
}

/// The newest snapshot of the image for the language, or else a build of that image.
pub open spec fn by_language(m: MetadataView, labels: Seq<(Seq<char>, Seq<char>)>) -> ChoiceView {
    let image = image_for(language_of(labels));
    match newest(m.snapshots, WantedView::Named(image)) {
        Some(s) => ChoiceView::Use { id: s.id, path: s.path },
        None => ChoiceView::BuildImage { image, description: "Auto-built for Daytona compatibility"@ },
    }
}

/// Where the file system of a new sandbox comes from: the snapshot that the request names, else the
/// Dockerfile that it brings, else the language that its labels tell.
pub open spec fn chosen(
    m: MetadataView,
    snapshot: Option<Seq<char>>,
    dockerfile: Option<Seq<char>>,
    name: Option<Seq<char>>,
    labels: Seq<(Seq<char>, Seq<char>)>,
    exists_on_host: bool,
) -> Result<ChoiceView, ErrorView> {
    match snapshot {
        Some(reference) => referenced(m, reference, exists_on_host),
        None => match dockerfile {
            Some(dockerfile) => Ok(
                ChoiceView::BuildFile {
                    dockerfile,
                    name,
                    description: "Built from Daytona buildInfo"@,
                },
            ),
            None => Ok(by_language(m, labels)),
        },
    }
}

/// Decides where the file system of a new sandbox comes from. `exists_on_host` says whether there
/// is something at the path that the snapshot of the request is, taken as a path.
pub fn resolve_snapshot_for_daytona_create(
    metadata: &Metadata,
    request: &DaytonaCreateSandboxRequest,
    exists_on_host: bool,
) -> (r: Result<SnapshotChoice, Error>)
    ensures
        outcome(r) == chosen(
            metadata.deep_view(),
            request.snapshot.deep_view(),
            request.dockerfile_content.deep_view(),
            request.name.deep_view(),
            request.labels.deep_view(),
            exists_on_host,
        ),
{
    if let Some(reference) = &request.snapshot {
        if let Some(s) = metadata.snapshots.get(reference.as_str()) {
            return Ok(SnapshotChoice::Use { id: s.id.clone(), path: s.path.clone() });
        }
        if let Some(s) = find_snapshot(&metadata.snapshots, &Wanted::Named(reference.as_str())) {
            return Ok(SnapshotChoice::Use { id: s.id.clone(), path: s.path.clone() });
        }
        if exists_on_host {
            let id = match find_snapshot(&metadata.snapshots, &Wanted::At(reference.as_str())) {
                Some(s) => s.id.clone(),
                None => String::new(),
            };
            return Ok(SnapshotChoice::Use { id, path: reference.clone() });
        }
        return Err(about(Complaint::SnapshotNotFound, reference.as_str()));
    }
    if let Some(dockerfile) = &request.dockerfile_content {
        return Ok(
            SnapshotChoice::BuildFile {
                dockerfile: dockerfile.clone(),
                name: copy_text(&request.name),
                description: "Built from Daytona buildInfo".to_owned(),
            },
        );
    }
    let language = match request.labels.get("code-toolbox-language") {
        Some(language) => language.clone(),
        None => "python".to_owned(),
    };
    let image = image_for_language(language.as_str());
    match newest_snapshot(&metadata.snapshots, &Wanted::Named(image)) {
        Some(s) => Ok(SnapshotChoice::Use { id: s.id.clone(), path: s.path.clone() }),
        None => Ok(
            SnapshotChoice::BuildImage {
                image: image.to_owned(),
                description: "Auto-built for Daytona compatibility".to_owned(),
            },
        ),
    }
}

/// The newest snapshot is one of those that are meant, and none of them is newer.
pub proof fn law_newest_is_newest(s: Seq<(Seq<char>, SnapshotView)>, w: WantedView, i: int)
    requires
        0 <= i < s.len(),
        wanted(w, s[i].1),
    ensures
        newest(s, w) is Some,
        wanted(w, newest(s, w)->0),
        exists|j: int| 0 <= j < s.len() && (#[trigger] s[j]).1 == newest(s, w)->0,
        !precedes(codes(newest(s, w)->0.created_at), codes(s[i].1.created_at)),
    decreases s.len(),
{
    let t = s.drop_last();
    let n = s.len() - 1;
    let before = newest(t, w);
    lemma_newest_is_one(s, w);
    lemma_newest_is_one(t, w);
    crate::order::law_order_is_irreflexive(codes(s[n].1.created_at));
    if i < n {
        law_newest_is_newest(t, w, i);
        assert(t[i] == s[i]);
        if newest(s, w) != before {
            // The last is not older than the newest before it, which is not older than this one.
            let a = codes(s[n].1.created_at);
            let b = codes(before->0.created_at);
            let c = codes(s[i].1.created_at);
            if precedes(a, c) {
                crate::order::law_order_is_total(b, c);
                if b != c {
                    crate::order::law_order_is_transitive(a, c, b);
                }
            }
        }
    } else if newest(s, w) == before {
        let a = codes(s[n].1.created_at);
        let b = codes(before->0.created_at);
        if precedes(b, a) {
            crate::order::law_order_is_transitive(a, b, a);
        }
    }
}

/// The newest snapshot is one of those that are meant.
proof fn lemma_newest_is_one(s: Seq<(Seq<char>, SnapshotView)>, w: WantedView)
    ensures
        newest(s, w) matches Some(x) ==> wanted(w, x) && exists|j: int|
            0 <= j < s.len() && (#[trigger] s[j]).1 == x,
    decreases s.len(),
{
    if s.len() > 0 {
        let t = s.drop_last();
        lemma_newest_is_one(t, w);
        if newest(s, w) is Some {
            if newest(s, w) == newest(t, w) {
                let j = choose|j: int| 0 <= j < t.len() && (#[trigger] t[j]).1 == newest(t, w)->0;
                assert(s[j] == t[j]);
            } else {
                assert(s[s.len() - 1].1 == newest(s, w)->0);
            }
        }
    }
}

// Requests for a sandbox

/// The mounts that a request asks for.
pub open spec fn asked_mount(v: DaytonaVolumeMountRequest) -> MountView {
    MountView {
        volume_id: v.volume_id@,
        mount_path: v.mount_path@,
        subpath: v.subpath.deep_view(),
        readonly: v.readonly,
    }
}

/// The mounts that a request asks for.
pub fn asked_mounts(volumes: &Vec<DaytonaVolumeMountRequest>) -> (r: Vec<MountConfig>)
    ensures
        r.deep_view() == volumes@.map_values(|v: DaytonaVolumeMountRequest| asked_mount(v)),
{
    let mut r: Vec<MountConfig> = Vec::new();
    let mut i: usize = 0;
    while i < volumes.len()
        invariant
            i <= volumes@.len(),
            r@.len() == i,
            forall|j: int| 0 <= j < i ==> (#[trigger] r@[j]).deep_view() == asked_mount(volumes@[j]),
        decreases volumes@.len() - i,
    {
        let v = &volumes[i];
        r.push(
            MountConfig {
                volume_id: v.volume_id.clone(),
                mount_path: v.mount_path.clone(),
                subpath: copy_text(&v.subpath),
                readonly: v.readonly,
            },
        );
        i = i + 1;
    }
    proof {
        assert(r.deep_view() =~= volumes@.map_values(
            |v: DaytonaVolumeMountRequest| asked_mount(v),
        ));
    }
    r
}

/// What a request says about the sandbox itself.
pub open spec fn asked_options(request: DaytonaCreateSandboxRequest) -> OptionsView {
    OptionsView {
        name: request.name.deep_view(),
        user: request.user.deep_view(),
        env: request.env.deep_view(),
        labels: request.labels.deep_view(),
        public: request.public == Some(true),
        target: request.target.deep_view(),
        network_block_all: request.network_block_all == Some(true),
        network_allow_list: request.network_allow_list.deep_view(),
        auto_stop_interval: request.auto_stop_interval,
        auto_archive_interval: request.auto_archive_interval,
        auto_delete_interval: request.auto_delete_interval,
    }
}

/// A request for a sandbox, taken apart.
pub struct AskedSandbox {
    pub resources: ResourceLimits,
    pub mounts: Vec<MountConfig>,
    pub options: SandboxCreateOptions,
}

/// Takes a request for a sandbox apart: the limits, the mounts, and what is said of the sandbox.
pub fn handle_daytona_create_sandbox(request: DaytonaCreateSandboxRequest) -> (r: AskedSandbox)
    ensures
        r.resources == sized_limits(request.cpu, request.memory, request.disk),
        r.mounts.deep_view() == request.volumes@.map_values(
            |v: DaytonaVolumeMountRequest| asked_mount(v),
        ),
        r.options.deep_view() == asked_options(request),
{
    let mounts = asked_mounts(&request.volumes);
    let resources = size_limits(request.cpu, request.memory, request.disk);
    let public = match request.public {
        Some(b) => b,
        None => false,
    };
    let network_block_all = match request.network_block_all {
        Some(b) => b,
        None => false,
    };
    AskedSandbox {
        resources,
        mounts,
        options: SandboxCreateOptions {
            name: request.name,
            user: request.user,
            env: request.env,
            labels: request.labels,
            public,
            target: request.target,
            network_block_all,
            network_allow_list: request.network_allow_list,
            auto_stop_interval: request.auto_stop_interval,
            auto_archive_interval: request.auto_archive_interval,
            auto_delete_interval: request.auto_delete_interval,
        },
    }
}

/// A request for a sandbox on a snapshot that is known by its path.
pub struct AskedStart {
    pub snapshot_path: String,
    pub snapshot_id: String,
    pub resources: ResourceLimits,
    pub mounts: Vec<MountConfig>,
    pub options: SandboxCreateOptions,
}

/// Takes a request for a sandbox on a path apart. The id of the newest snapshot there goes with it.
pub fn handle_start(metadata: &Metadata, request: StartRequest) -> (r: AskedStart)
    ensures
        r.snapshot_path@ == request.snapshot@,
        r.snapshot_id@ == id_at(metadata.deep_view(), request.snapshot@),
        r.resources == limits_of(request.resources),
        r.mounts.deep_view() == request.mounts.deep_view(),
        r.options.deep_view() == no_options(),
{
    let snapshot_id = snapshot_id_at(metadata, request.snapshot.as_str());
    AskedStart {
        snapshot_path: request.snapshot,
        snapshot_id,
        resources: limits_or_default(request.resources),
        mounts: request.mounts,
        options: SandboxCreateOptions::default(),
    }
}

// Sandboxes on record

/// The sandbox with this id.
pub open spec fn by_id(m: MetadataView, id: Seq<char>) -> Result<SandboxView, ErrorView> {
    match lookup(m.sandboxes, id) {
        Some(s) => Ok(s),
        None => Err(ErrorView::About(Complaint::SandboxNotFound, id)),
    }
}

/// The sandbox with this id.
pub fn sandbox_by_id<'a>(metadata: &'a Metadata, id: &str) -> (r: Result<&'a SandboxMetadata, Error>)
    ensures
        outcome(r) == by_id(metadata.deep_view(), id@),
{
    match metadata.sandboxes.get(id) {
        Some(s) => Ok(s),
        None => Err(about(Complaint::SandboxNotFound, id)),
    }
}

/// Whether a sandbox has this id or this name.
pub open spec fn goes_by(sandbox: SandboxView, id_or_name: Seq<char>) -> bool {
    sandbox.id == id_or_name || sandbox.name == Some(id_or_name)
}

/// Whether a sandbox has this id or this name.
pub fn sandbox_name_matches(sandbox: &SandboxMetadata, id_or_name: &str) -> (r: bool)
    ensures
        r == goes_by(sandbox.deep_view(), id_or_name@),
{
    if same(sandbox.id.as_str(), id_or_name) {
        return true;
    }
    match &sandbox.name {
        Some(n) => same(n.as_str(), id_or_name),
        None => false,
    }
}

/// The position of the first sandbox with this id or name; the length of `s` where none has it.
pub open spec fn first_called(s: Seq<(Seq<char>, SandboxView)>, id_or_name: Seq<char>) -> int
    decreases s.len(),
{
    if s.len() == 0 || goes_by(s[0].1, id_or_name) {
        0
    } else {
        1 + first_called(s.drop_first(), id_or_name)
    }
}

/// The first sandbox with this id or name.
pub open spec fn called(m: MetadataView, id_or_name: Seq<char>) -> Option<SandboxView> {
    let k = first_called(m.sandboxes, id_or_name);
    if k < m.sandboxes.len() {
        Some(m.sandboxes[k].1)
    } else {
        None
    }
}

/// The first position is determined by what stands before it.
proof fn lemma_first_called(s: Seq<(Seq<char>, SandboxView)>, id_or_name: Seq<char>, k: int)
    requires
        0 <= k <= s.len(),
        k < s.len() ==> goes_by(s[k].1, id_or_name),
        forall|i: int| 0 <= i < k ==> !goes_by((#[trigger] s[i]).1, id_or_name),
    ensures
        first_called(s, id_or_name) == k,
    decreases s.len(),
{
    if k > 0 {
        let t = s.drop_first();
        assert(!goes_by(s[0].1, id_or_name));
        assert forall|i: int| 0 <= i < k - 1 implies !goes_by((#[trigger] t[i]).1, id_or_name) by {
            assert(t[i] == s[i + 1]);
        }
        lemma_first_called(t, id_or_name, k - 1);
    }
}

/// The first sandbox with this id or name.
pub fn find_sandbox_by_id_or_name<'a>(metadata: &'a Metadata, id_or_name: &str) -> (r: Option<
    &'a SandboxMetadata,
>)
    ensures
        r.deep_view() == called(metadata.deep_view(), id_or_name@),
{
    let ghost s = metadata.sandboxes.deep_view();
    let n: usize = metadata.sandboxes.len();
    let mut i: usize = 0;
    while i < n
        invariant
            i <= n,
            n == s.len(),
            s == metadata.sandboxes.deep_view(),
            forall|j: int| 0 <= j < i ==> !goes_by((#[trigger] s[j]).1, id_or_name@),
        decreases n - i,
    {
        if sandbox_name_matches(metadata.sandboxes.value_at(i), id_or_name) {
            proof {
                lemma_first_called(s, id_or_name@, i as int);
            }
            return Some(metadata.sandboxes.value_at(i));
        }
        i = i + 1;
    }
    proof {
        lemma_first_called(s, id_or_name@, n as int);
    }
    None
}

/// The sandbox with this id or name, or the failure to find it.
pub open spec fn named_sandbox(m: MetadataView, id_or_name: Seq<char>) -> Result<
    SandboxView,
    ErrorView,
> {
    match called(m, id_or_name) {
        Some(s) => Ok(s),
        None => Err(ErrorView::About(Complaint::SandboxNotFound, id_or_name)),
    }
}

/// The sandbox with this id or name, or the failure to find it.
pub fn sandbox_named<'a>(metadata: &'a Metadata, id_or_name: &str) -> (r: Result<
    &'a SandboxMetadata,
    Error,
>)
    ensures
        outcome(r) == named_sandbox(metadata.deep_view(), id_or_name@),
{
    match find_sandbox_by_id_or_name(metadata, id_or_name) {
        Some(s) => Ok(s),
        None => Err(about(Complaint::SandboxNotFound, id_or_name)),
    }
}

/// What is changed about a sandbox.
pub enum Change {
    /// It runs.
    Start,
    /// It is stopped.
    Stop,
    /// It has these labels.
    Labels(StringMap<String>),
}

/// The mathematical value of a `Change`.
pub enum ChangeView {
    Start,
    Stop,
    Labels(Seq<(Seq<char>, Seq<char>)>),
}

impl DeepView for Change {
    type V = ChangeView;

    open spec fn deep_view(&self) -> ChangeView {
        match self {
            Change::Start => ChangeView::Start,
            Change::Stop => ChangeView::Stop,
            Change::Labels(labels) => ChangeView::Labels(labels.deep_view()),
        }
    }
}

/// The sandbox after the change at the time `now`.
pub open spec fn changed(sandbox: SandboxView, change: ChangeView, now: Seq<char>) -> SandboxView {
    match change {
        ChangeView::Start => SandboxView { state: "started"@, updated_at: Some(now), ..sandbox },
        ChangeView::Stop => SandboxView { state: "stopped"@, updated_at: Some(now), ..sandbox },
        ChangeView::Labels(labels) => SandboxView { labels, updated_at: Some(now), ..sandbox },
    }
}

/// Changes the sandbox with this id at the time `now`.
pub fn change_sandbox_at(metadata: &mut Metadata, id: &str, change: Change, now: String) -> (r:
    Result<SandboxMetadata, Error>)
    ensures
        match by_id(old(metadata).deep_view(), id@) {
            Ok(s) => {
                let after = changed(s, change.deep_view(), now@);
                &&& outcome(r) == Ok::<SandboxView, ErrorView>(after)
                &&& final(metadata).deep_view() == with_sandbox(
                    old(metadata).deep_view(),
                    id@,
                    after,
                )
            },
            Err(e) => {
                &&& outcome(r) == Err::<SandboxView, ErrorView>(e)
                &&& final(metadata).deep_view() == old(metadata).deep_view()
            },
        },
{
    let mut sandbox = match sandbox_by_id(metadata, id) {
        Ok(s) => s.clone(),
        Err(e) => {
            return Err(e);
        },
    };
    match change {
        Change::Start => {
            sandbox.state = "started".to_owned();
        },
        Change::Stop => {
            sandbox.state = "stopped".to_owned();
        },
        Change::Labels(labels) => {
            sandbox.labels = labels;
        },
    }
    sandbox.updated_at = Some(now);
    metadata.sandboxes.insert(id.to_owned(), sandbox.clone());
    Ok(sandbox)
}

/// Whether changing the sandbox with this id, at some time, leads from one state of the records to
/// another and to this result.
pub open spec fn change_leads(
    before: MetadataView,
    id: Seq<char>,
    change: ChangeView,
    now: Seq<char>,
    after: MetadataView,
    result: Result<SandboxView, ErrorView>,
) -> bool {
    match by_id(before, id) {
        Ok(s) => {
            let new = changed(s, change, now);
            result == Ok::<SandboxView, ErrorView>(new) && after == with_sandbox(before, id, new)
        },
        Err(e) => result == Err::<SandboxView, ErrorView>(e) && after == before,
    }
}

/// Changes the sandbox with this id now.
pub fn change_sandbox(metadata: &mut Metadata, id: &str, change: Change) -> (r: Result<
    SandboxMetadata,
    Error,
>)
    ensures
        exists|now: Seq<char>|
            clock_text(now) && #[trigger] change_leads(
                old(metadata).deep_view(),
                id@,
                change.deep_view(),
                now,
                final(metadata).deep_view(),
                outcome(r),
            ),
{
    let now = now_text();
    let ghost nv = now@;
    let ghost before = metadata.deep_view();
    let ghost cv = change.deep_view();
    let r = change_sandbox_at(metadata, id, change, now);
    proof {
        assert(change_leads(before, id@, cv, nv, metadata.deep_view(), outcome(r)));
    }
    r
}

/// The records without the sandbox.
pub open spec fn sandbox_removed(m: MetadataView, id: Seq<char>) -> MetadataView {
    MetadataView { sandboxes: without(m.sandboxes, id), ..m }
}

/// Takes the sandbox with this id or name off the records.
pub fn delete_sandbox(metadata: &mut Metadata, id_or_name: &str) -> (r: Result<
    SandboxMetadata,
    Error,
>)
    ensures
        outcome(r) == named_sandbox(old(metadata).deep_view(), id_or_name@),
        final(metadata).deep_view() == match named_sandbox(
            old(metadata).deep_view(),
            id_or_name@,
        ) {
            Ok(s) => sandbox_removed(old(metadata).deep_view(), s.id),
            Err(_) => old(metadata).deep_view(),
        },
{
    let sandbox = match sandbox_named(metadata, id_or_name) {
        Ok(s) => s.clone(),
        Err(e) => {
            return Err(e);
        },
    };
    metadata.sandboxes.remove(sandbox.id.as_str());
    Ok(sandbox)
}

/// The message that tells that a sandbox is gone.
pub fn destroyed_message(id: &str) -> (r: String)
    ensures
        r@ == "Destroyed sandbox "@ + id@,
{
    glue("Destroyed sandbox ", id)
}

/// A sandbox that was taken off the records is no longer found under its id, and every other one
/// is.
pub proof fn law_deleted_sandbox_is_gone(m: MetadataView, id: Seq<char>, other: Seq<char>)
    requires
        distinct(m.sandboxes),
    ensures
        by_id(sandbox_removed(m, id), id) is Err,
        other != id ==> by_id(sandbox_removed(m, id), other) == by_id(m, other),
{
    law_taken_out_is_not_found(m.sandboxes, id, other);
}

/// Stopping a sandbox and starting it again changes nothing about it but the time of the last
/// change, and starting leaves it started.
pub proof fn law_stop_then_start(sandbox: SandboxView, t1: Seq<char>, t2: Seq<char>)
    ensures
        changed(changed(sandbox, ChangeView::Stop, t1), ChangeView::Start, t2) == (SandboxView {
            state: "started"@,
            updated_at: Some(t2),
            ..sandbox
        }),
        changed(sandbox, ChangeView::Start, t1).id == sandbox.id,
        changed(sandbox, ChangeView::Stop, t1).mounts == sandbox.mounts,
{
}

/// Everything on record but for the artifacts.
pub fn list_all(metadata: Metadata) -> (r: ListResponse)
    ensures
        r.snapshots.deep_view() == values(metadata.deep_view().snapshots),
        r.sandboxes.deep_view() == values(metadata.deep_view().sandboxes),
        r.volumes.deep_view() == values(metadata.deep_view().volumes),
{
    ListResponse {
        snapshots: metadata.snapshots.into_values(),
        sandboxes: metadata.sandboxes.into_values(),
        volumes: metadata.volumes.into_values(),
    }
}

/// The directory with the files of the sandbox with this id.
pub fn merged_dir_of(metadata: &Metadata, id: &str) -> (r: Result<String, Error>)
    ensures
        outcome(r) == match by_id(metadata.deep_view(), id@) {
            Ok(s) => Ok::<Seq<char>, ErrorView>(merged_of(s.dir)),
            Err(e) => Err(e),
        },
{
    match sandbox_by_id(metadata, id) {
        Ok(s) => Ok(join(s.dir.as_str(), "merged")),
        Err(e) => Err(e),
    }
}

// Snapshots of sandboxes

/// Where a snapshot of a sandbox is copied from and to.
#[derive(Debug)]
pub struct SnapshotPlan {
    pub id: String,
    pub source: String,
    pub path: String,
}

/// The directory of the snapshot with this id.
pub open spec fn snapshot_dir_of(home: Seq<char>, id: Seq<char>) -> Seq<char> {
    joined(joined(data_dir(home), "snapshots"@), id)
}

/// Plans a snapshot of the sandbox with this id, under an id of its own.
pub fn plan_snapshot(metadata: &Metadata, home: &str, sandbox_id: &str) -> (r: Result<
    SnapshotPlan,
    Error,
>)
    ensures
        match by_id(metadata.deep_view(), sandbox_id@) {
            Ok(s) => r matches Ok(p) && uuid_text(p.id@) && p.source@ == merged_of(s.dir) && p.path@
                == snapshot_dir_of(home@, p.id@),
            Err(e) => r matches Err(f) && f.deep_view() == e,
        },
{
    let source = match merged_dir_of(metadata, sandbox_id) {
        Ok(dir) => dir,
        Err(e) => {
            return Err(e);
        },
    };
    let id = new_id();
    let dir = get_snapshots_dir(home);
    let path = join(dir.as_str(), id.as_str());
    Ok(SnapshotPlan { id, source, path })
}

/// A snapshot of which nothing is known but where it lies.
pub open spec fn bare_snapshot(id: Seq<char>, path: Seq<char>, now: Seq<char>) -> SnapshotView {
    SnapshotView {
        id,
        path,
        created_at: now,
        entrypoint: None,
        cmd: None,
        env: None,
        name: None,
        description: None,
    }
}

/// Puts a snapshot of a sandbox on record.
pub fn record_snapshot(metadata: &mut Metadata, plan: &SnapshotPlan)
    ensures
        exists|now: Seq<char>|
            clock_text(now) && final(metadata).deep_view() == with_snapshot(
                old(metadata).deep_view(),
                #[trigger] bare_snapshot(plan.id@, plan.path@, now),
            ),
{
    let now = now_text();
    let snapshot = SnapshotMetadata {
        id: plan.id.clone(),
        path: plan.path.clone(),
        created_at: now,
        entrypoint: None,
        cmd: None,
        env: None,
        name: None,
        description: None,
    };
    proof {
        assert(snapshot.deep_view() == bare_snapshot(plan.id@, plan.path@, now@));
    }
    add_snapshot(metadata, snapshot);
}

/// Whether a sandbox was started from the snapshot.
pub open spec fn snapshot_used(m: MetadataView, id: Seq<char>) -> bool {
    exists|i: int| 0 <= i < m.sandboxes.len() && (#[trigger] m.sandboxes[i]).1.snapshot_id == id
}

/// The snapshot that can be deleted.
pub open spec fn deletable_snapshot(m: MetadataView, id: Seq<char>) -> Result<
    SnapshotView,
    ErrorView,
> {
    if snapshot_used(m, id) {
        Err(ErrorView::About(Complaint::SnapshotInUse, id))
    } else {
        match lookup(m.snapshots, id) {
            Some(s) => Ok(s),
            None => Err(ErrorView::About(Complaint::SnapshotNotFound, id)),
        }
    }
}

/// The records after the snapshot was deleted, or was not.
pub open spec fn snapshot_deleted(m: MetadataView, id: Seq<char>) -> MetadataView {
    match deletable_snapshot(m, id) {
        Ok(_) => MetadataView { snapshots: without(m.snapshots, id), ..m },
        Err(_) => m,
    }
}

/// Takes a snapshot off the records, unless a sandbox was started from it.
pub fn delete_snapshot(metadata: &mut Metadata, id: &str) -> (r: Result<SnapshotMetadata, Error>)
    ensures
        outcome(r) == deletable_snapshot(old(metadata).deep_view(), id@),
        final(metadata).deep_view() == snapshot_deleted(old(metadata).deep_view(), id@),
{
    let ghost s = metadata.sandboxes.deep_view();
    let n: usize = metadata.sandboxes.len();
    let mut i: usize = 0;
    while i < n
        invariant
            i <= n,
            n == s.len(),
            *metadata == *old(metadata),
            s == metadata.sandboxes.deep_view(),
            forall|j: int| 0 <= j < i ==> (#[trigger] s[j]).1.snapshot_id != id@,
        decreases n - i,
    {
        if same(metadata.sandboxes.value_at(i).snapshot_id.as_str(), id) {
            proof {
                assert(s[i as int].1.snapshot_id == id@);
            }
            return Err(about(Complaint::SnapshotInUse, id));
        }
        i = i + 1;
    }
    match metadata.snapshots.remove(id) {
        Some(snapshot) => Ok(snapshot),
        None => Err(about(Complaint::SnapshotNotFound, id)),
    }
}

/// A snapshot that a sandbox was started from stays on record.
pub proof fn law_used_snapshot_stays(m: MetadataView, id: Seq<char>)
    requires
        snapshot_used(m, id),
    ensures
        snapshot_deleted(m, id) == m,
        deletable_snapshot(m, id) is Err,
{
}

/// A snapshot that was deleted is not found, every other one is, and every sandbox still has the
/// snapshot that it was started from.
pub proof fn law_deleted_snapshot_is_gone(m: MetadataView, id: Seq<char>, other: Seq<char>)
    requires
        distinct(m.snapshots),
        deletable_snapshot(m, id) is Ok,
    ensures
        lookup(snapshot_deleted(m, id).snapshots, id) is None,
        other != id ==> lookup(snapshot_deleted(m, id).snapshots, other) == lookup(
            m.snapshots,
            other,
        ),
        snapshot_used(m, other) ==> lookup(snapshot_deleted(m, id).snapshots, other) == lookup(
            m.snapshots,
            other,
        ),
{
    law_taken_out_is_not_found(m.snapshots, id, other);
}

// Volumes

/// The directory of the volume with this id.
pub open spec fn volume_dir_of(home: Seq<char>, id: Seq<char>) -> Seq<char> {
    joined(joined(home, ".moulin/volumes"@), id)
}

/// A new volume: its id, and where it lies.
#[derive(Debug)]
pub struct VolumePlan {
    pub id: String,
    pub path: String,
}

/// Plans a volume under an id of its own.
pub fn plan_volume(home: &str) -> (r: VolumePlan)
    ensures
        uuid_text(r.id@),
        r.path@ == volume_dir_of(home@, r.id@),
{
    let id = new_id();
    let dir = get_volumes_dir(home);
    let path = join(dir.as_str(), id.as_str());
    VolumePlan { id, path }
}

/// The records with one more volume.
pub open spec fn with_volume(m: MetadataView, volume: VolumeView) -> MetadataView {
    MetadataView { volumes: put(m.volumes, volume.id, volume), ..m }
}

/// Puts a volume on record that was made at the time `now`.
pub fn record_volume_at(metadata: &mut Metadata, plan: VolumePlan, name: String, now: String) -> (r:
    VolumeResponse)
    ensures
        r.deep_view() == (VolumeView {
            id: plan.id@,
            name: name@,
            path: plan.path@,
            created_at: now@,
        }),
        final(metadata).deep_view() == with_volume(old(metadata).deep_view(), r.deep_view()),
{
    let volume = VolumeMetadata {
        id: plan.id.clone(),
        name: name.clone(),
        path: plan.path.clone(),
        created_at: now.clone(),
    };
    metadata.volumes.insert(plan.id.clone(), volume);
    VolumeResponse { id: plan.id, name, path: plan.path, created_at: now }
}

/// Puts a volume on record that was made now.
pub fn record_volume(metadata: &mut Metadata, plan: VolumePlan, name: String) -> (r: VolumeResponse)
    ensures
        r.id@ == plan.id@,
        r.name@ == name@,
        r.path@ == plan.path@,
        clock_text(r.created_at@),
        final(metadata).deep_view() == with_volume(old(metadata).deep_view(), r.deep_view()),
{
    let now = now_text();
    record_volume_at(metadata, plan, name, now)
}

/// Tells a volume.
fn volume_response(v: &VolumeMetadata) -> (r: VolumeResponse)
    ensures
        r.deep_view() == v.deep_view(),
{
    VolumeResponse {
        id: v.id.clone(),
        name: v.name.clone(),
        path: v.path.clone(),
        created_at: v.created_at.clone(),
    }
}

/// The volumes on record.
pub fn list_volumes(metadata: &Metadata) -> (r: Vec<VolumeResponse>)
    ensures
        r.deep_view() == values(metadata.deep_view().volumes),
{
    let ghost s = metadata.volumes.deep_view();
    let n: usize = metadata.volumes.len();
    let mut r: Vec<VolumeResponse> = Vec::new();
    let mut i: usize = 0;
    while i < n
        invariant
            i <= n,
            n == s.len(),
            s == metadata.volumes.deep_view(),
            r@.len() == i,
            forall|j: int| 0 <= j < i ==> (#[trigger] r@[j]).deep_view() == s[j].1,
        decreases n - i,
    {
        r.push(volume_response(metadata.volumes.value_at(i)));
        i = i + 1;
    }
    proof {
        assert(r.deep_view() =~= values(s));
    }
    r
}

/// Whether the mounts show the volume.
pub open spec fn mounts_volume(mounts: Seq<MountView>, id: Seq<char>) -> bool {
    exists|i: int| 0 <= i < mounts.len() && (#[trigger] mounts[i]).volume_id == id
}

/// Whether the mounts show the volume.
fn shows_volume(mounts: &Vec<MountConfig>, id: &str) -> (r: bool)
    ensures
        r == mounts_volume(mounts.deep_view(), id@),
{
    let ghost s = mounts.deep_view();
    let mut i: usize = 0;
    while i < mounts.len()
        invariant
            i <= mounts@.len(),
            s == mounts.deep_view(),
            forall|j: int| 0 <= j < i ==> (#[trigger] s[j]).volume_id != id@,
        decreases mounts@.len() - i,
    {
        if same(mounts[i].volume_id.as_str(), id) {
            proof {
                assert(s[i as int].volume_id == id@);
            }
            return true;
        }
        i = i + 1;
    }
    false
}

/// The position of the first sandbox that the volume is mounted in; the length of `s` where there
/// is none.
pub open spec fn first_user(s: Seq<(Seq<char>, SandboxView)>, id: Seq<char>) -> int
    decreases s.len(),
{
    if s.len() == 0 || mounts_volume(s[0].1.mounts, id) {
        0
    } else {
        1 + first_user(s.drop_first(), id)
    }
}

/// The first position is determined by what stands before it.
proof fn lemma_first_user(s: Seq<(Seq<char>, SandboxView)>, id: Seq<char>, k: int)
    requires
        0 <= k <= s.len(),
        k < s.len() ==> mounts_volume(s[k].1.mounts, id),
        forall|i: int| 0 <= i < k ==> !mounts_volume((#[trigger] s[i]).1.mounts, id),
    ensures
        first_user(s, id) == k,
    decreases s.len(),
{
    if k > 0 {
        let t = s.drop_first();
        assert(!mounts_volume(s[0].1.mounts, id));
        assert forall|i: int| 0 <= i < k - 1 implies !mounts_volume(
            (#[trigger] t[i]).1.mounts,
            id,
        ) by {
            assert(t[i] == s[i + 1]);
        }
        lemma_first_user(t, id, k - 1);
    }
}

/// The volume that can be deleted.
pub open spec fn deletable_volume(m: MetadataView, id: Seq<char>) -> Result<VolumeView, ErrorView> {
    let k = first_user(m.sandboxes, id);
    if k < m.sandboxes.len() {
        Err(ErrorView::Between(Conflict::VolumeInUse, id, m.sandboxes[k].1.id))
    } else {
        match lookup(m.volumes, id) {
            Some(v) => Ok(v),
            None => Err(ErrorView::About(Complaint::VolumeNotFound, id)),
        }
    }
}

/// The records after the volume was deleted, or was not.
pub open spec fn volume_deleted(m: MetadataView, id: Seq<char>) -> MetadataView {
    match deletable_volume(m, id) {
        Ok(_) => MetadataView { volumes: without(m.volumes, id), ..m },
        Err(_) => m,
    }
}

/// Takes a volume off the records, unless it is mounted in a sandbox.
pub fn delete_volume(metadata: &mut Metadata, id: &str) -> (r: Result<VolumeMetadata, Error>)
    ensures
        outcome(r) == deletable_volume(old(metadata).deep_view(), id@),
        final(metadata).deep_view() == volume_deleted(old(metadata).deep_view(), id@),
{
    let ghost s = metadata.sandboxes.deep_view();
    let n: usize = metadata.sandboxes.len();
    let mut i: usize = 0;
    while i < n
        invariant
            i <= n,
            n == s.len(),
            *metadata == *old(metadata),
            s == metadata.sandboxes.deep_view(),
            forall|j: int| 0 <= j < i ==> !mounts_volume((#[trigger] s[j]).1.mounts, id@),
        decreases n - i,
    {
        let sandbox = metadata.sandboxes.value_at(i);
        if shows_volume(&sandbox.mounts, id) {
            proof {
                lemma_first_user(s, id@, i as int);
            }
            return Err(Error::Between(Conflict::VolumeInUse, id.to_owned(), sandbox.id.clone()));
        }
        i = i + 1;
    }
    proof {
        lemma_first_user(s, id@, n as int);
    }
    match metadata.volumes.remove(id) {
        Some(volume) => Ok(volume),
        None => Err(about(Complaint::VolumeNotFound, id)),
    }
}

/// The message that tells that a volume is gone.
pub fn volume_deleted_message(id: &str) -> (r: String)
    ensures
        r@ == "Deleted volume "@ + id@,
{
    glue("Deleted volume ", id)
}

/// Where `first_user` points, the volume is mounted, and nowhere before.
proof fn lemma_user_mounts(s: Seq<(Seq<char>, SandboxView)>, id: Seq<char>)
    ensures
        0 <= first_user(s, id) <= s.len(),
        first_user(s, id) < s.len() ==> mounts_volume(s[first_user(s, id)].1.mounts, id),
        forall|i: int| 0 <= i < first_user(s, id) ==> !mounts_volume((#[trigger] s[i]).1.mounts, id),
    decreases s.len(),
{
    if s.len() > 0 && !mounts_volume(s[0].1.mounts, id) {
        let t = s.drop_first();
        lemma_user_mounts(t, id);
        assert forall|i: int| 0 <= i < first_user(s, id) implies !mounts_volume(
            (#[trigger] s[i]).1.mounts,
            id,
        ) by {
            if i > 0 {
                assert(s[i] == t[i - 1]);
            }
        }
    }
}

/// A volume that is mounted in a sandbox stays on record.
pub proof fn law_mounted_volume_stays(m: MetadataView, id: Seq<char>, i: int)
    requires
        0 <= i < m.sandboxes.len(),
        mounts_volume(m.sandboxes[i].1.mounts, id),
    ensures
        volume_deleted(m, id) == m,
        deletable_volume(m, id) is Err,
{
    lemma_user_mounts(m.sandboxes, id);
}

/// Deleting a volume leaves every other one, and every mount of every sandbox still has its volume.
pub proof fn law_deleted_volume_is_gone(m: MetadataView, id: Seq<char>, other: Seq<char>)
    requires
        distinct(m.volumes),
        deletable_volume(m, id) is Ok,
    ensures
        lookup(volume_deleted(m, id).volumes, id) is None,
        other != id ==> lookup(volume_deleted(m, id).volumes, other) == lookup(m.volumes, other),
        forall|i: int|
            0 <= i < m.sandboxes.len() ==> !mounts_volume((#[trigger] m.sandboxes[i]).1.mounts, id),
{
    law_taken_out_is_not_found(m.volumes, id, other);
    lemma_user_mounts(m.sandboxes, id);
}

/// A volume that was put on record is found under its id, the others stay, and a mount of it is
/// accepted where its place and its path inside the volume are in order.
pub proof fn law_new_volume_is_found(
    m: MetadataView,
    volume: VolumeView,
    other: Seq<char>,
    mount: MountView,
)
    ensures
        lookup(with_volume(m, volume).volumes, volume.id) == Some(volume),
        other != volume.id ==> lookup(with_volume(m, volume).volumes, other) == lookup(
            m.volumes,
            other,
        ),
        mount.volume_id == volume.id && mount.mount_path.len() > 0 && mount.mount_path[0] == '/'
            && !has_text(mount.mount_path, ".."@) && (mount.subpath is Some ==> !climbs(
            mount.subpath->0,
        )) ==> bound(with_volume(m, volume), mount) is Ok,
{
    law_put_is_found(m.volumes, volume.id, volume, other);
}

/// Whether every volume that the mounts show is on record.
pub open spec fn volumes_known(volumes: Seq<(Seq<char>, VolumeView)>, mounts: Seq<MountView>) -> bool {
    forall|j: int| 0 <= j < mounts.len() ==> has_key(volumes, (#[trigger] mounts[j]).volume_id)
}

/// Whether every volume that is mounted in a sandbox is on record.
pub open spec fn mounts_are_kept(m: MetadataView) -> bool {
    forall|i: int|
        0 <= i < m.sandboxes.len() ==> volumes_known(
            m.volumes,
            (#[trigger] m.sandboxes[i]).1.mounts,
        )
}

/// Putting a sandbox on record whose volumes are known keeps the volumes of all known.
proof fn lemma_put_keeps_mounts(m: MetadataView, key: Seq<char>, sandbox: SandboxView)
    requires
        mounts_are_kept(m),
        volumes_known(m.volumes, sandbox.mounts),
    ensures
        mounts_are_kept(with_sandbox(m, key, sandbox)),
{
    lemma_position(m.sandboxes, key);
    let after = with_sandbox(m, key, sandbox);
    assert forall|i: int| 0 <= i < after.sandboxes.len() implies volumes_known(
        after.volumes,
        (#[trigger] after.sandboxes[i]).1.mounts,
    ) by {
        if i != position(m.sandboxes, key) {
            assert(after.sandboxes[i] == m.sandboxes[i]);
        }
    }
}

/// Every volume that is mounted in a sandbox is on record, and stays so: sandboxes start with mounts
/// that were accepted, changing or removing a sandbox leaves the mounts of the others, and a volume
/// goes only where no sandbox shows it.
pub proof fn law_mounts_keep_their_volumes(
    m: MetadataView,
    home: Seq<char>,
    snapshot_path: Seq<char>,
    started_as: SandboxView,
    id: Seq<char>,
    change: ChangeView,
    now: Seq<char>,
    volume: VolumeView,
)
    requires
        mounts_are_kept(m),
        distinct(m.volumes),
    ensures
        planned(m, home, snapshot_path, started_as.id, started_as.mounts) is Ok ==> mounts_are_kept(
            with_sandbox(m, started_as.id, started_as),
        ),
        by_id(m, id) matches Ok(s) ==> mounts_are_kept(
            with_sandbox(m, id, changed(s, change, now)),
        ),
        mounts_are_kept(sandbox_removed(m, id)),
        mounts_are_kept(with_volume(m, volume)),
        mounts_are_kept(volume_deleted(m, id)),
{
    if planned(m, home, snapshot_path, started_as.id, started_as.mounts) is Ok {
        assert forall|j: int| 0 <= j < started_as.mounts.len() implies has_key(
            m.volumes,
            (#[trigger] started_as.mounts[j]).volume_id,
        ) by {
            law_accepted_mounts_are_sound(m, started_as.mounts, j);
        }
        lemma_put_keeps_mounts(m, started_as.id, started_as);
    }
    if let Ok(s) = by_id(m, id) {
        lemma_position(m.sandboxes, id);
        let k = position(m.sandboxes, id);
        assert(volumes_known(m.volumes, m.sandboxes[k].1.mounts));
        lemma_put_keeps_mounts(m, id, changed(s, change, now));
    }
    lemma_position(m.sandboxes, id);
    let less = sandbox_removed(m, id);
    assert forall|i: int| 0 <= i < less.sandboxes.len() implies volumes_known(
        less.volumes,
        (#[trigger] less.sandboxes[i]).1.mounts,
    ) by {
        let k = position(m.sandboxes, id);
        if i < k {
            assert(less.sandboxes[i] == m.sandboxes[i]);
        } else {
            assert(less.sandboxes[i] == m.sandboxes[i + 1]);
        }
    }
    let more = with_volume(m, volume);
    assert forall|i: int| 0 <= i < more.sandboxes.len() implies volumes_known(
        more.volumes,
        (#[trigger] more.sandboxes[i]).1.mounts,
    ) by {
        let mounts = m.sandboxes[i].1.mounts;
        assert(volumes_known(m.volumes, mounts));
        assert forall|j: int| 0 <= j < mounts.len() implies has_key(
            more.volumes,
            (#[trigger] mounts[j]).volume_id,
        ) by {
            law_put_is_found(m.volumes, volume.id, volume, mounts[j].volume_id);
        }
    }
    if deletable_volume(m, id) is Ok {
        let fewer = volume_deleted(m, id);
        lemma_user_mounts(m.sandboxes, id);
        assert forall|i: int| 0 <= i < fewer.sandboxes.len() implies volumes_known(
            fewer.volumes,
            (#[trigger] fewer.sandboxes[i]).1.mounts,
        ) by {
            let mounts = m.sandboxes[i].1.mounts;
            assert(volumes_known(m.volumes, mounts));
            assert(!mounts_volume(mounts, id));
            assert forall|j: int| 0 <= j < mounts.len() implies has_key(
                fewer.volumes,
                (#[trigger] mounts[j]).volume_id,
            ) by {
                law_taken_out_is_not_found(m.volumes, id, mounts[j].volume_id);
            }
        }
    }
}

/// A mount is accepted as it was asked for: at its place, as writable as it says, and showing its
/// volume or the path inside it; and where it is not, the first thing that is wrong is told.
pub proof fn law_mount_is_accepted_or_told(m: MetadataView, mount: MountView)
    ensures
        ({
            let volume = lookup(m.volumes, mount.volume_id);
            let absolute = mount.mount_path.len() > 0 && mount.mount_path[0] == '/';
            match bound(m, mount) {
                Ok(b) => {
                    &&& volume is Some && absolute && !has_text(mount.mount_path, ".."@)
                    &&& b.container_path == mount.mount_path
                    &&& b.readonly == mount.readonly
                    &&& mount.subpath is None ==> b.host_path == volume->0.path
                    &&& b.host_path == mount_root(volume->0.path, mount.subpath)
                },
                Err(e) => e == if volume is None {
                    ErrorView::About(Complaint::VolumeNotFound, mount.volume_id)
                } else if !absolute {
                    ErrorView::About(Complaint::MountNotAbsolute, mount.mount_path)
                } else if has_text(mount.mount_path, ".."@) {
                    ErrorView::About(Complaint::MountClimbs, mount.mount_path)
                } else {
                    ErrorView::Plain(Fault::SubpathClimbs)
                },
            }
        }),
        bound(m, mount) == Err::<BindView, ErrorView>(ErrorView::Plain(Fault::SubpathClimbs)) ==> (
        mount.subpath matches Some(s) && climbs(s)),
{
}

/// Mounts are accepted together or not at all: where each is in order, all appear in their order, and
/// else the first one that is not is told.
pub proof fn law_first_wrong_mount_is_told(m: MetadataView, mounts: Seq<MountView>, i: int)
    ensures
        0 <= i < mounts.len() && bound(m, mounts[i]) is Err && (forall|j: int|
            0 <= j < i ==> bound(m, #[trigger] mounts[j]) is Ok) ==> all_bound(m, mounts) == Err::<
            Seq<BindView>,
            ErrorView,
        >(bound(m, mounts[i])->Err_0),
        (forall|j: int| 0 <= j < mounts.len() ==> bound(m, #[trigger] mounts[j]) is Ok) ==> (all_bound(
            m,
            mounts,
        ) matches Ok(all) && all.len() == mounts.len() && forall|j: int|
            0 <= j < mounts.len() ==> bound(m, mounts[j]) == Ok::<BindView, ErrorView>(
                #[trigger] all[j],
            )),
    decreases mounts.len(),
{
    if mounts.len() > 0 {
        let t = mounts.drop_last();
        let n = mounts.len() - 1;
        law_first_wrong_mount_is_told(m, t, i);
        lemma_bound_length(m, t);
        if 0 <= i < mounts.len() && bound(m, mounts[i]) is Err && (forall|j: int|
            0 <= j < i ==> bound(m, #[trigger] mounts[j]) is Ok) {
            if i < n {
                assert(t[i] == mounts[i]);
                assert forall|j: int| 0 <= j < i implies bound(m, #[trigger] t[j]) is Ok by {
                    assert(t[j] == mounts[j]);
                }
            } else {
                assert forall|j: int| 0 <= j < t.len() implies bound(m, #[trigger] t[j]) is Ok by {
                    assert(t[j] == mounts[j]);
                }
            }
        }
        if forall|j: int| 0 <= j < mounts.len() ==> bound(m, #[trigger] mounts[j]) is Ok {
            assert forall|j: int| 0 <= j < t.len() implies bound(m, #[trigger] t[j]) is Ok by {
                assert(t[j] == mounts[j]);
            }
            let before = all_bound(m, t)->Ok_0;
            let all = all_bound(m, mounts)->Ok_0;
            assert(bound(m, mounts[n]) is Ok);
            assert forall|j: int| 0 <= j < mounts.len() implies bound(m, mounts[j]) == Ok::<
                BindView,
                ErrorView,
            >(#[trigger] all[j]) by {
                if j < n {
                    assert(all[j] == before[j]);
                    assert(t[j] == mounts[j]);
                }
            }
        }
    }
}

/// A sandbox lies in a directory of its own under its id, and its files are its snapshot, which stays
/// below, and its own layer above it; its mounts are those that were accepted.
pub proof fn law_sandbox_lies_over_its_snapshot(
    m: MetadataView,
    home: Seq<char>,
    snapshot_path: Seq<char>,
    id: Seq<char>,
    mounts: Seq<MountView>,
)
    ensures
        match planned(m, home, snapshot_path, id, mounts) {
            Ok(p) => {
                let dir = joined(joined(joined(home, ".moulin"@), "sandboxes"@), id);
                &&& p.id == id
                &&& p.dir == dir
                &&& p.overlay.lower_dirs == seq![snapshot_path]
                &&& p.overlay.upper_dir == joined(dir, "upper"@)
                &&& p.overlay.work_dir == joined(dir, "work"@)
                &&& p.overlay.merged_dir == joined(dir, "merged"@)
                &&& all_bound(m, mounts) == Ok::<Seq<BindView>, ErrorView>(p.bind_mounts)
            },
            Err(e) => all_bound(m, mounts) == Err::<Seq<BindView>, ErrorView>(e),
        },
{
}

/// A sandbox that was started is on record as it was asked for, as started, and with no process and
/// no address yet.
pub proof fn law_started_sandbox_is_as_asked(
    plan: PlanView,
    snapshot_id: Seq<char>,
    resources: ResourceLimits,
    mounts: Seq<MountView>,
    options: OptionsView,
    created_at: Seq<char>,
    updated_at: Seq<char>,
)
    ensures
        ({
            let s = started(
                plan,
                snapshot_id,
                resources,
                mounts,
                options,
                created_at,
                updated_at,
            );
            &&& s.id == plan.id && s.dir == plan.dir
            &&& s.snapshot_id == snapshot_id
            &&& s.resources == resources
            &&& s.mounts == mounts
            &&& s.created_at == created_at && s.updated_at == Some(updated_at)
            &&& s.state == "started"@
            &&& s.pid is None && s.ip is None
            &&& s.name == options.name && s.user == options.user
            &&& s.env == options.env && s.labels == options.labels
            &&& s.public == options.public
            &&& s.target == options.target
            &&& s.network_block_all == options.network_block_all
            &&& s.network_allow_list == options.network_allow_list
            &&& s.auto_stop_interval == options.auto_stop_interval
            &&& s.auto_archive_interval == options.auto_archive_interval
            &&& s.auto_delete_interval == options.auto_delete_interval
        }),
{
}

/// What a request says of the sandbox is kept as it is; what it does not say of who may see it and of
/// its network counts as no.
pub proof fn law_request_is_kept(request: DaytonaCreateSandboxRequest, v: DaytonaVolumeMountRequest)
    ensures
        ({
            let o = asked_options(request);
            &&& o.name == request.name.deep_view()
            &&& o.user == request.user.deep_view()
            &&& o.env == request.env.deep_view()
            &&& o.labels == request.labels.deep_view()
            &&& o.target == request.target.deep_view()
            &&& o.network_allow_list == request.network_allow_list.deep_view()
            &&& o.auto_stop_interval == request.auto_stop_interval
            &&& o.auto_archive_interval == request.auto_archive_interval
            &&& o.auto_delete_interval == request.auto_delete_interval
            &&& request.public matches Some(b) ==> o.public == b
            &&& request.public is None ==> !o.public
            &&& request.network_block_all matches Some(b) ==> o.network_block_all == b
            &&& request.network_block_all is None ==> !o.network_block_all
        }),
        ({
            let a = asked_mount(v);
            &&& a.volume_id == v.volume_id@
            &&& a.mount_path == v.mount_path@
            &&& a.subpath == v.subpath.deep_view()
            &&& a.readonly == v.readonly
        }),
        no_options().name is None && no_options().labels.len() == 0 && no_options().env.len() == 0
            && !no_options().public && !no_options().network_block_all,
{
}

/// A snapshot that a request names is looked for by its id, else by its name, of which the first on
/// record counts, and else taken as a path where something is there; otherwise it is told.
pub proof fn law_reference_is_looked_up(
    m: MetadataView,
    reference: Seq<char>,
    on_host: bool,
    i: int,
    dockerfile: Option<Seq<char>>,
    name: Option<Seq<char>>,
    labels: Seq<(Seq<char>, Seq<char>)>,
)
    ensures
        ({
            let r = chosen(m, Some(reference), dockerfile, name, labels, on_host);
            let known = lookup(m.snapshots, reference);
            let unnamed = forall|j: int|
                0 <= j < m.snapshots.len() ==> (#[trigger] m.snapshots[j]).1.name != Some(reference);
            &&& known matches Some(s) ==> r == Ok::<ChoiceView, ErrorView>(
                ChoiceView::Use { id: s.id, path: s.path },
            )
            &&& known is None && 0 <= i < m.snapshots.len() && m.snapshots[i].1.name == Some(reference)
                && (forall|j: int|
                0 <= j < i ==> (#[trigger] m.snapshots[j]).1.name != Some(reference)) ==> r == Ok::<
                ChoiceView,
                ErrorView,
            >(ChoiceView::Use { id: m.snapshots[i].1.id, path: m.snapshots[i].1.path })
            &&& known is None && unnamed && on_host ==> (r matches Ok(ChoiceView::Use { path, .. })
                && path == reference)
            &&& known is None && unnamed && !on_host ==> r == Err::<ChoiceView, ErrorView>(
                ErrorView::About(Complaint::SnapshotNotFound, reference),
            )
        }),
{
    let w = WantedView::Named(reference);
    let s = m.snapshots;
    if 0 <= i < s.len() && s[i].1.name == Some(reference) && (forall|j: int|
        0 <= j < i ==> (#[trigger] s[j]).1.name != Some(reference)) {
        lemma_first_wanted(s, w, i);
    }
    if forall|j: int| 0 <= j < s.len() ==> (#[trigger] s[j]).1.name != Some(reference) {
        lemma_first_wanted(s, w, s.len() as int);
    }
}

/// Without a snapshot the Dockerfile of the request is built, and without that the language counts
/// that its labels tell: the newest snapshot of the image for it, or a build of that image.
pub proof fn law_language_decides_last(
    m: MetadataView,
    dockerfile: Seq<char>,
    name: Option<Seq<char>>,
    labels: Seq<(Seq<char>, Seq<char>)>,
    on_host: bool,
    image: Seq<char>,
)
    requires
        image == image_for(
            match lookup(labels, "code-toolbox-language"@) {
                Some(language) => language,
                None => "python"@,
            },
        ),
    ensures
        chosen(m, None, Some(dockerfile), name, labels, on_host) == Ok::<ChoiceView, ErrorView>(
            ChoiceView::BuildFile {
                dockerfile,
                name,
                description: "Built from Daytona buildInfo"@,
            },
        ),
        chosen(m, None, None, name, labels, on_host) matches Ok(c) && match c {
            ChoiceView::Use { id, path } => exists|j: int|
                0 <= j < m.snapshots.len() && (#[trigger] m.snapshots[j]).1.name == Some(image)
                    && m.snapshots[j].1.id == id && m.snapshots[j].1.path == path,
            ChoiceView::BuildImage { image: built, .. } => built == image && forall|j: int|
                0 <= j < m.snapshots.len() ==> (#[trigger] m.snapshots[j]).1.name != Some(image),
            ChoiceView::BuildFile { .. } => false,
        },
{
    let w = WantedView::Named(image);
    lemma_newest_is_one(m.snapshots, w);
    assert forall|j: int|
        0 <= j < m.snapshots.len() && (#[trigger] m.snapshots[j]).1.name == Some(image) implies newest(
        m.snapshots,
        w,
    ) is Some by {
        law_newest_is_newest(m.snapshots, w, j);
    }
    if newest(m.snapshots, w) is Some {
        let j = choose|j: int|
            0 <= j < m.snapshots.len() && (#[trigger] m.snapshots[j]).1 == newest(m.snapshots, w)->0;
        assert(m.snapshots[j].1.name == Some(image));
    }
}

/// Of snapshots that are equally new the last on record counts.
pub proof fn law_last_of_the_newest_counts(
    s: Seq<(Seq<char>, SnapshotView)>,
    w: WantedView,
    key: Seq<char>,
    x: SnapshotView,
)
    ensures
        wanted(w, x) && (newest(s, w) matches Some(b) ==> b.created_at == x.created_at) ==> newest(
            s.push((key, x)),
            w,
        ) == Some(x),
        !wanted(w, x) ==> newest(s.push((key, x)), w) == newest(s, w),
{
    assert(s.push((key, x)).drop_last() =~= s);
    crate::order::law_order_is_irreflexive(codes(x.created_at));
}

/// The image for a language: one for the web, one for pages with Vue, one for data, one each for
/// driving a browser and for serving files, and Python for all the rest.
pub proof fn law_languages_have_images(language: Seq<char>)
    ensures
        image_for("typescript"@) == "nextjs"@,
        image_for("javascript"@) == "nextjs"@,
        image_for("node"@) == "nextjs"@,
        image_for("vue"@) == "vue3-vite"@,
        image_for("vue3"@) == "vue3-vite"@,
        image_for("vite"@) == "vue3-vite"@,
        image_for("analysis"@) == "data-analysis"@,
        image_for("data-analysis"@) == "data-analysis"@,
        image_for("puppeteer"@) == "puppeteer"@,
        image_for("nginx"@) == "nginx"@,
        language != "typescript"@ && language != "javascript"@ && language != "node"@ && language
            != "vue"@ && language != "vue3"@ && language != "vite"@ && language != "analysis"@
            && language != "data-analysis"@ && language != "puppeteer"@ && language != "nginx"@
            ==> image_for(language) == "python"@,
{
    reveal_strlit("typescript");
    reveal_strlit("javascript");
    reveal_strlit("node");
    reveal_strlit("vue");
    reveal_strlit("vue3");
    reveal_strlit("vite");
    reveal_strlit("analysis");
    reveal_strlit("data-analysis");
    reveal_strlit("puppeteer");
    reveal_strlit("nginx");
    assert("typescript"@[0] == 't' && "javascript"@[0] == 'j' && "node"@[0] == 'n' && "vue"@[0] == 'v' && "vue3"@[0] == 'v' && "vite"@[0] == 'v' && "analysis"@[0] == 'a' && "data-analysis"@[0] == 'd' && "puppeteer"@[0] == 'p' && "nginx"@[0] == 'n');
}

/// A sandbox is found by its id or by its name, the first on record that goes by either; one that
/// nobody goes by is told.
pub proof fn law_sandbox_is_found_by_either(m: MetadataView, called_as: Seq<char>, i: int)
    ensures
        0 <= i < m.sandboxes.len() && (m.sandboxes[i].1.id == called_as || m.sandboxes[i].1.name == Some(
            called_as,
        )) && (forall|j: int|
            0 <= j < i ==> (#[trigger] m.sandboxes[j]).1.id != called_as && m.sandboxes[j].1.name
                != Some(called_as)) ==> named_sandbox(m, called_as) == Ok::<SandboxView, ErrorView>(
            m.sandboxes[i].1,
        ),
        (forall|j: int|
            0 <= j < m.sandboxes.len() ==> (#[trigger] m.sandboxes[j]).1.id != called_as
                && m.sandboxes[j].1.name != Some(called_as)) ==> named_sandbox(m, called_as) == Err::<
            SandboxView,
            ErrorView,
        >(ErrorView::About(Complaint::SandboxNotFound, called_as)),
        lookup(m.sandboxes, called_as) matches Some(s) ==> by_id(m, called_as) == Ok::<
            SandboxView,
            ErrorView,
        >(s),
        lookup(m.sandboxes, called_as) is None ==> by_id(m, called_as) == Err::<
            SandboxView,
            ErrorView,
        >(ErrorView::About(Complaint::SandboxNotFound, called_as)),
{
    let s = m.sandboxes;
    if 0 <= i < s.len() && (s[i].1.id == called_as || s[i].1.name == Some(called_as)) && (forall|
        j: int,
    |
        0 <= j < i ==> (#[trigger] s[j]).1.id != called_as && s[j].1.name != Some(called_as)) {
        lemma_first_called(s, called_as, i);
    }
    if forall|j: int|
        0 <= j < s.len() ==> (#[trigger] s[j]).1.id != called_as && s[j].1.name != Some(called_as) {
        lemma_first_called(s, called_as, s.len() as int);
    }
}

/// A change sets what it is about and the time of the last change, in the record of its sandbox, and
/// nothing else there or in any other record.
pub proof fn law_change_touches_one_thing(
    before: MetadataView,
    id: Seq<char>,
    change: ChangeView,
    now: Seq<char>,
    after: MetadataView,
    result: Result<SandboxView, ErrorView>,
    other: Seq<char>,
)
    requires
        change_leads(before, id, change, now, after, result),
    ensures
        match lookup(before.sandboxes, id) {
            Some(s) => {
                &&& result matches Ok(t) && lookup(after.sandboxes, id) == Some(t) && {
                    &&& t.updated_at == Some(now)
                    &&& t.state == match change {
                        ChangeView::Start => "started"@,
                        ChangeView::Stop => "stopped"@,
                        ChangeView::Labels(_) => s.state,
                    }
                    &&& t.labels == match change {
                        ChangeView::Labels(labels) => labels,
                        _ => s.labels,
                    }
                    &&& t == (SandboxView {
                        updated_at: t.updated_at,
                        state: t.state,
                        labels: t.labels,
                        ..s
                    })
                }
                &&& other != id ==> lookup(after.sandboxes, other) == lookup(before.sandboxes, other)
            },
            None => result == Err::<SandboxView, ErrorView>(
                ErrorView::About(Complaint::SandboxNotFound, id),
            ) && after == before,
        },
        after.snapshots == before.snapshots,
        after.volumes == before.volumes,
        after.build_artifacts == before.build_artifacts,
{
    if let Some(s) = lookup(before.sandboxes, id) {
        law_put_is_found(before.sandboxes, id, changed(s, change, now), other);
    }
}

/// A snapshot goes just where it is on record and no sandbox was started from it; of the two reasons
/// against it the one that it is in use is told first. Nothing but the snapshots changes.
pub proof fn law_snapshot_goes_or_is_told(m: MetadataView, id: Seq<char>)
    ensures
        ({
            let used = exists|i: int|
                0 <= i < m.sandboxes.len() && (#[trigger] m.sandboxes[i]).1.snapshot_id == id;
            deletable_snapshot(m, id) == if used {
                Err::<SnapshotView, ErrorView>(ErrorView::About(Complaint::SnapshotInUse, id))
            } else {
                match lookup(m.snapshots, id) {
                    Some(s) => Ok(s),
                    None => Err(ErrorView::About(Complaint::SnapshotNotFound, id)),
                }
            }
        }),
        snapshot_deleted(m, id).sandboxes == m.sandboxes,
        snapshot_deleted(m, id).volumes == m.volumes,
        snapshot_deleted(m, id).build_artifacts == m.build_artifacts,
        deletable_snapshot(m, id) is Err ==> snapshot_deleted(m, id) == m,
{
}

/// A volume goes just where it is on record and no sandbox shows it; where one does, the first that
/// does is told. Nothing but the volumes changes.
pub proof fn law_volume_goes_or_is_told(m: MetadataView, id: Seq<char>, i: int, k: int)
    ensures
        0 <= i < m.sandboxes.len() && 0 <= k < m.sandboxes[i].1.mounts.len()
            && m.sandboxes[i].1.mounts[k].volume_id == id && (forall|j: int, l: int|
            0 <= j < i && 0 <= l < m.sandboxes[j].1.mounts.len() ==> (
            #[trigger] m.sandboxes[j].1.mounts[l]).volume_id != id) ==> deletable_volume(m, id)
            == Err::<VolumeView, ErrorView>(
            ErrorView::Between(Conflict::VolumeInUse, id, m.sandboxes[i].1.id),
        ),
        (forall|j: int, l: int|
            0 <= j < m.sandboxes.len() && 0 <= l < m.sandboxes[j].1.mounts.len() ==> (
            #[trigger] m.sandboxes[j].1.mounts[l]).volume_id != id) ==> deletable_volume(m, id)
            == match lookup(m.volumes, id) {
            Some(v) => Ok::<VolumeView, ErrorView>(v),
            None => Err(ErrorView::About(Complaint::VolumeNotFound, id)),
        },
        volume_deleted(m, id).sandboxes == m.sandboxes,
        volume_deleted(m, id).snapshots == m.snapshots,
        volume_deleted(m, id).build_artifacts == m.build_artifacts,
        deletable_volume(m, id) is Err ==> volume_deleted(m, id) == m,
{
    let s = m.sandboxes;
    if 0 <= i < s.len() && 0 <= k < s[i].1.mounts.len() && s[i].1.mounts[k].volume_id == id && (forall|
        j: int,
        l: int,
    |
        0 <= j < i && 0 <= l < s[j].1.mounts.len() ==> (#[trigger] s[j].1.mounts[l]).volume_id != id) {
        assert(mounts_volume(s[i].1.mounts, id));
        lemma_first_user(s, id, i);
    }
    if forall|j: int, l: int|
        0 <= j < s.len() && 0 <= l < s[j].1.mounts.len() ==> (#[trigger] s[j].1.mounts[l]).volume_id
            != id {
        lemma_first_user(s, id, s.len() as int);
    }
}

/// Everything is kept below one directory in the home of the user: sandboxes, snapshots and volumes,
/// each under its id.
pub proof fn law_everything_has_its_place(home: Seq<char>, id: Seq<char>, m: MetadataView, now: Seq<char>)
    ensures
        sandbox_dir_of(home, id) == joined(joined(joined(home, ".moulin"@), "sandboxes"@), id),
        snapshot_dir_of(home, id) == joined(joined(joined(home, ".moulin"@), "snapshots"@), id),
        volume_dir_of(home, id) == joined(joined(home, ".moulin/volumes"@), id),
        sandbox_removed(m, id).snapshots == m.snapshots,
        sandbox_removed(m, id).volumes == m.volumes,
        sandbox_removed(m, id).build_artifacts == m.build_artifacts,
        ({
            let s = bare_snapshot(id, home, now);
            s.id == id && s.path == home && s.created_at == now && s.env is None && s.cmd is None
                && s.entrypoint is None && s.name is None && s.description is None
        }),
{
}

/// A sandbox that is started from a path goes with the id of a snapshot there, the newest, and with
/// none where no snapshot lies there; slashes at the end of a path do not count.
pub proof fn law_path_finds_its_snapshot(m: MetadataView, path: Seq<char>, i: int)
    requires
        path.len() > 0,
    ensures
        same_place(path, path + seq!['/']),
        0 <= i < m.snapshots.len() && same_place(m.snapshots[i].1.path, path) ==> exists|j: int|
            0 <= j < m.snapshots.len() && same_place((#[trigger] m.snapshots[j]).1.path, path)
                && m.snapshots[j].1.id == id_at(m, path) && !precedes(
                codes(m.snapshots[j].1.created_at),
                codes(m.snapshots[i].1.created_at),
            ),
        (forall|j: int|
            0 <= j < m.snapshots.len() ==> !same_place((#[trigger] m.snapshots[j]).1.path, path))
            ==> id_at(m, path).len() == 0,
        forall|a: Seq<char>, b: Seq<char>| #[trigger] same_place(a, b) <==> parts(a) == parts(b),
{
    let none = Seq::<char>::empty();
    law_components_stand_between_slashes(path, none);
    assert(path + seq!['/'] + none =~= path + seq!['/']);
    let w = WantedView::At(path);
    let s = m.snapshots;
    lemma_newest_is_one(s, w);
    if 0 <= i < s.len() && same_place(s[i].1.path, path) {
        law_newest_is_newest(s, w, i);
        let j = choose|j: int| 0 <= j < s.len() && (#[trigger] s[j]).1 == newest(s, w)->0;
        assert(same_place(s[j].1.path, path));
    }
}

} // verus!
