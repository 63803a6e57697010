//! Moving files and directories of sandboxes, also from one file system to another.
use crate::error::{Error, ErrorView};
use crate::snapshot::{
    copy_bytes, entry_path, lemma_entry_mirrored, mirrored, path_of_entry, walked,
};
use vstd::prelude::*;

verus! {

/// The name of an entry of a directory.
#[derive(Debug)]
pub struct EntryName {
    pub bytes: Vec<u8>,
}

impl DeepView for EntryName {
    type V = Seq<u8>;

    open spec fn deep_view(&self) -> Seq<u8> {
        self.bytes@
    }
}

/// A directory that is being copied, with the names of the entries that are left.
#[derive(Debug)]
pub struct Folder {
    pub src: Vec<u8>,
    pub dst: Vec<u8>,
    pub left: Vec<EntryName>,
}

/// The mathematical value of a `Folder`.
#[verifier::ext_equal]
pub struct FolderView {
    pub src: Seq<u8>,
    pub dst: Seq<u8>,
    pub left: Seq<Seq<u8>>,
}

impl DeepView for Folder {
    type V = FolderView;

    open spec fn deep_view(&self) -> FolderView {
        FolderView { src: self.src@, dst: self.dst@, left: self.left.deep_view() }
    }
}

/// What a move waits for.
#[derive(Debug)]
pub enum MoveStage {
    /// The directory that the destination lies in.
    Parent,
    /// The source under its new name.
    Renamed,
    /// What is to be copied from `src` to `dst`.
    Kind { src: Vec<u8>, dst: Vec<u8> },
    /// The directory `dst`.
    FolderMade { src: Vec<u8>, dst: Vec<u8> },
    /// The names of the entries of the directory `src`.
    Names { src: Vec<u8>, dst: Vec<u8> },
    /// The directory that the file `dst` lies in.
    FileParent { src: Vec<u8>, dst: Vec<u8> },
    /// A file at its new place.
    Copied,
    /// What the source is, now that all of it is copied.
    Leftover,
    /// The end of the source.
    Removed,
}

/// The mathematical value of a `MoveStage`.
#[verifier::ext_equal]
pub enum MoveStageView {
    Parent,
    Renamed,
    Kind { src: Seq<u8>, dst: Seq<u8> },
    FolderMade { src: Seq<u8>, dst: Seq<u8> },
    Names { src: Seq<u8>, dst: Seq<u8> },
    FileParent { src: Seq<u8>, dst: Seq<u8> },
    Copied,
    Leftover,
    Removed,
}

impl DeepView for MoveStage {
    type V = MoveStageView;

    open spec fn deep_view(&self) -> MoveStageView {
        match self {
            MoveStage::Parent => MoveStageView::Parent,
            MoveStage::Renamed => MoveStageView::Renamed,
            MoveStage::Kind { src, dst } => MoveStageView::Kind { src: src@, dst: dst@ },
            MoveStage::FolderMade { src, dst } => MoveStageView::FolderMade {
                src: src@,
                dst: dst@,
            },
            MoveStage::Names { src, dst } => MoveStageView::Names { src: src@, dst: dst@ },
            MoveStage::FileParent { src, dst } => MoveStageView::FileParent {
                src: src@,
                dst: dst@,
            },
            MoveStage::Copied => MoveStageView::Copied,
            MoveStage::Leftover => MoveStageView::Leftover,
            MoveStage::Removed => MoveStageView::Removed,
        }
    }
}

/// A move in progress: the directories that it is copying, the innermost last.
#[derive(Debug)]
pub struct Move {
    pub source: Vec<u8>,
    pub destination: Vec<u8>,
    pub stack: Vec<Folder>,
    pub stage: MoveStage,
}

/// The mathematical value of a `Move`.
#[verifier::ext_equal]
pub struct MoveView {
    pub source: Seq<u8>,
    pub destination: Seq<u8>,
    pub stack: Seq<FolderView>,
    pub stage: MoveStageView,
}

impl DeepView for Move {
    type V = MoveView;

    open spec fn deep_view(&self) -> MoveView {
        MoveView {
            source: self.source@,
            destination: self.destination@,
            stack: self.stack.deep_view(),
            stage: self.stage.deep_view(),
        }
    }
}

/// What the file system is to do or to tell.
#[derive(Debug)]
pub enum MoveAction {
    /// Make the directory that the path lies in.
    MakeParent(Vec<u8>),
    /// Give the source a new name.
    Rename { source: Vec<u8>, destination: Vec<u8> },
    /// Tell whether the path itself is a directory, links not followed.
    TellKind(Vec<u8>),
    /// Make the directory.
    MakeDir(Vec<u8>),
    /// Tell the names of the entries of the directory.
    List(Vec<u8>),
    /// Copy the file.
    CopyFile { src: Vec<u8>, dst: Vec<u8> },
    /// Tell whether the path leads to a directory.
    LeadsToDir(Vec<u8>),
    /// Remove the directory with all that is in it.
    RemoveTree(Vec<u8>),
    /// Remove the file.
    RemoveFile(Vec<u8>),
}

/// The mathematical value of a `MoveAction`.
#[verifier::ext_equal]
pub enum MoveActionView {
    MakeParent(Seq<u8>),
    Rename { source: Seq<u8>, destination: Seq<u8> },
    TellKind(Seq<u8>),
    MakeDir(Seq<u8>),
    List(Seq<u8>),
    CopyFile { src: Seq<u8>, dst: Seq<u8> },
    LeadsToDir(Seq<u8>),
    RemoveTree(Seq<u8>),
    RemoveFile(Seq<u8>),
}

impl DeepView for MoveAction {
    type V = MoveActionView;

    open spec fn deep_view(&self) -> MoveActionView {
        match self {
            MoveAction::MakeParent(p) => MoveActionView::MakeParent(p@),
            MoveAction::Rename { source, destination } => MoveActionView::Rename {
                source: source@,
                destination: destination@,
            },
            MoveAction::TellKind(p) => MoveActionView::TellKind(p@),
            MoveAction::MakeDir(p) => MoveActionView::MakeDir(p@),
            MoveAction::List(p) => MoveActionView::List(p@),
            MoveAction::CopyFile { src, dst } => MoveActionView::CopyFile { src: src@, dst: dst@ },
            MoveAction::LeadsToDir(p) => MoveActionView::LeadsToDir(p@),
            MoveAction::RemoveTree(p) => MoveActionView::RemoveTree(p@),
            MoveAction::RemoveFile(p) => MoveActionView::RemoveFile(p@),
        }
    }
}

/// How it went.
#[derive(Debug)]
pub enum MoveEvent {
    Done,
    /// It is a directory, or is not.
    IsDir(bool),
    /// The directory has entries with these names.
    Names(Vec<EntryName>),
    Failed(String),
}

/// The mathematical value of a `MoveEvent`.
#[verifier::ext_equal]
pub enum MoveEventView {
    Done,
    IsDir(bool),
    Names(Seq<Seq<u8>>),
    Failed(Seq<char>),
}

impl DeepView for MoveEvent {
    type V = MoveEventView;

    open spec fn deep_view(&self) -> MoveEventView {
        match self {
            MoveEvent::Done => MoveEventView::Done,
            MoveEvent::IsDir(yes) => MoveEventView::IsDir(*yes),
            MoveEvent::Names(names) => MoveEventView::Names(names.deep_view()),
            MoveEvent::Failed(text) => MoveEventView::Failed(text@),
        }
    }
}

/// Where a move stands: something is to be done, all is done, or it has failed.
#[derive(Debug)]
pub enum MoveStep {
    Do { task: Move, action: MoveAction },
    Done,
    Fail(Error),
}

/// The mathematical value of a `MoveStep`.
#[verifier::ext_equal]
pub enum MoveStepView {
    Do { task: MoveView, action: MoveActionView },
    Done,
    Fail(ErrorView),
}

impl DeepView for MoveStep {
    type V = MoveStepView;

    open spec fn deep_view(&self) -> MoveStepView {
        match self {
            MoveStep::Do { task, action } => MoveStepView::Do {
                task: task.deep_view(),
                action: action.deep_view(),
            },
            MoveStep::Done => MoveStepView::Done,
            MoveStep::Fail(e) => MoveStepView::Fail(e.deep_view()),
        }
    }
}

/// Turns to copying what is at `src` to `dst`.
pub open spec fn copy_from(m: MoveView, src: Seq<u8>, dst: Seq<u8>) -> MoveStepView {
    MoveStepView::Do {
        task: MoveView { stage: MoveStageView::Kind { src, dst }, ..m },
        action: MoveActionView::TellKind(src),
    }
}

/// Turns to the first entry that is left in the innermost directory that has any left; where none
/// has, the source is copied, and what is left of it is to be removed.
pub open spec fn next_item(m: MoveView) -> MoveStepView
    decreases m.stack.len(),
{
    if m.stack.len() == 0 {
        MoveStepView::Do {
            task: MoveView { stage: MoveStageView::Leftover, ..m },
            action: MoveActionView::LeadsToDir(m.source),
        }
    } else {
        let top = m.stack.last();
        if top.left.len() == 0 {
            next_item(MoveView { stack: m.stack.drop_last(), ..m })
        } else {
            let rest = FolderView { left: top.left.drop_first(), ..top };
            copy_from(
                MoveView { stack: m.stack.drop_last().push(rest), ..m },
                entry_path(top.src, top.left[0]),
                entry_path(top.dst, top.left[0]),
            )
        }
    }
}

/// The start of a move.
pub open spec fn moving(source: Seq<u8>, destination: Seq<u8>) -> MoveStepView {
    MoveStepView::Do {
        task: MoveView {
            source,
            destination,
            stack: Seq::empty(),
            stage: MoveStageView::Parent,
        },
        action: MoveActionView::MakeParent(destination),
    }
}

/// What follows where something was done.
pub open spec fn after_done(m: MoveView) -> MoveStepView {
    match m.stage {
        MoveStageView::Parent => MoveStepView::Do {
            task: MoveView { stage: MoveStageView::Renamed, ..m },
            action: MoveActionView::Rename { source: m.source, destination: m.destination },
        },
        MoveStageView::FolderMade { src, dst } => MoveStepView::Do {
            task: MoveView { stage: MoveStageView::Names { src, dst }, ..m },
            action: MoveActionView::List(src),
        },
        MoveStageView::FileParent { src, dst } => MoveStepView::Do {
            task: MoveView { stage: MoveStageView::Copied, ..m },
            action: MoveActionView::CopyFile { src, dst },
        },
        MoveStageView::Copied => next_item(m),
        _ => MoveStepView::Done,
    }
}

/// What follows where it was told whether something is a directory.
pub open spec fn after_kind(m: MoveView, yes: bool) -> MoveStepView {
    match m.stage {
        MoveStageView::Kind { src, dst } => if yes {
            MoveStepView::Do {
                task: MoveView { stage: MoveStageView::FolderMade { src, dst }, ..m },
                action: MoveActionView::MakeDir(dst),
            }
        } else {
            MoveStepView::Do {
                task: MoveView { stage: MoveStageView::FileParent { src, dst }, ..m },
                action: MoveActionView::MakeParent(dst),
            }
        },
        _ => MoveStepView::Do {
            task: MoveView { stage: MoveStageView::Removed, ..m },
            action: if yes {
                MoveActionView::RemoveTree(m.source)
            } else {
                MoveActionView::RemoveFile(m.source)
            },
        },
    }
}

/// What follows from how it went: where the source cannot get a new name it is copied and removed,
/// and any other failure ends the whole.
pub open spec fn moved_on(m: MoveView, event: MoveEventView) -> MoveStepView {
    match event {
        MoveEventView::Failed(text) => if m.stage is Renamed {
            copy_from(m, m.source, m.destination)
        } else {
            MoveStepView::Fail(ErrorView::Outside(text))
        },
        MoveEventView::Done => after_done(m),
        MoveEventView::IsDir(yes) => after_kind(m, yes),
        MoveEventView::Names(names) => match m.stage {
            MoveStageView::Names { src, dst } => next_item(
                MoveView { stack: m.stack.push(FolderView { src, dst, left: names }), ..m },
            ),
            _ => next_item(m),
        },
    }
}

/// Whether an event is what the move waits for.
pub open spec fn wanted_event(m: MoveView, event: MoveEventView) -> bool {
    match event {
        MoveEventView::Done => m.stage is Parent || m.stage is Renamed || m.stage is FolderMade
            || m.stage is FileParent || m.stage is Copied || m.stage is Removed,
        MoveEventView::IsDir(_) => m.stage is Kind || m.stage is Leftover,
        MoveEventView::Names(_) => m.stage is Names,
        MoveEventView::Failed(_) => !(m.stage is Leftover),
    }
}

/// Starts moving a file or a directory.
pub fn move_path(source: Vec<u8>, destination: Vec<u8>) -> (r: MoveStep)
    ensures
        r.deep_view() == moving(source@, destination@),
{
    let path = copy_bytes(&destination);
    let stack: Vec<Folder> = Vec::new();
    proof {
        assert(stack.deep_view() =~= Seq::<FolderView>::empty());
    }
    MoveStep::Do {
        task: Move { source, destination, stack, stage: MoveStage::Parent },
        action: MoveAction::MakeParent(path),
    }
}

/// Turns to copying what is at `src` to `dst`.
fn start_copy(task: Move, src: Vec<u8>, dst: Vec<u8>) -> (r: MoveStep)
    ensures
        r.deep_view() == copy_from(task.deep_view(), src@, dst@),
{
    let path = copy_bytes(&src);
    MoveStep::Do {
        task: Move { stage: MoveStage::Kind { src, dst }, ..task },
        action: MoveAction::TellKind(path),
    }
}

/// Turns to the next entry, or to what is left of the source.
fn copy_path_recursive(task: Move) -> (r: MoveStep)
    ensures
        r.deep_view() == next_item(task.deep_view()),
{
    let mut now = task;
    loop
        invariant
            next_item(now.deep_view()) == next_item(task.deep_view()),
        decreases now.stack@.len(),
    {
        let ghost whole = now.deep_view();
        let ghost all = now.stack.deep_view();
        match now.stack.pop() {
            None => {
                proof {
                    assert(now.deep_view() == whole);
                }
                let path = copy_bytes(&now.source);
                return MoveStep::Do {
                    task: Move { stage: MoveStage::Leftover, ..now },
                    action: MoveAction::LeadsToDir(path),
                };
            },
            Some(folder) => {
                proof {
                    assert(all.last() == folder.deep_view());
                    assert(now.stack.deep_view() =~= all.drop_last());
                }
                let mut top = folder;
                if top.left.len() > 0 {
                    let ghost names = top.left@;
                    let ghost views = top.left.deep_view();
                    let name = top.left.remove(0);
                    proof {
                        assert(views[0] == name.deep_view());
                        assert forall|j: int| 0 <= j < top.left@.len() implies (#[trigger] top.left@[j]).deep_view()
                            == views.drop_first()[j] by {
                            assert(top.left@[j] == names[j + 1]);
                        }
                        assert(top.left.deep_view() =~= views.drop_first());
                    }
                    let src = path_of_entry(&top.src, &name.bytes);
                    let dst = path_of_entry(&top.dst, &name.bytes);
                    let ghost outer = now.stack.deep_view();
                    let ghost tv = top.deep_view();
                    now.stack.push(top);
                    proof {
                        assert(now.stack.deep_view() =~= outer.push(tv));
                    }
                    return start_copy(now, src, dst);
                }
            },
        }
    }
}

impl Move {
    /// Goes on after what was done.
    pub fn advance(self, event: MoveEvent) -> (r: MoveStep)
        requires
            wanted_event(self.deep_view(), event.deep_view()),
        ensures
            r.deep_view() == moved_on(self.deep_view(), event.deep_view()),
    {
        let mut task = self;
        let mut stage = MoveStage::Removed;
        std::mem::swap(&mut task.stage, &mut stage);
        match event {
            MoveEvent::Failed(text) => {
                if let MoveStage::Renamed = stage {
                    let src = copy_bytes(&task.source);
                    let dst = copy_bytes(&task.destination);
                    return start_copy(task, src, dst);
                }
                MoveStep::Fail(Error::Outside(text))
            },
            MoveEvent::Done => match stage {
                MoveStage::Parent => {
                    let source = copy_bytes(&task.source);
                    let destination = copy_bytes(&task.destination);
                    MoveStep::Do {
                        task: Move { stage: MoveStage::Renamed, ..task },
                        action: MoveAction::Rename { source, destination },
                    }
                },
                MoveStage::FolderMade { src, dst } => {
                    let path = copy_bytes(&src);
                    MoveStep::Do {
                        task: Move { stage: MoveStage::Names { src, dst }, ..task },
                        action: MoveAction::List(path),
                    }
                },
                MoveStage::FileParent { src, dst } => MoveStep::Do {
                    task: Move { stage: MoveStage::Copied, ..task },
                    action: MoveAction::CopyFile { src, dst },
                },
                MoveStage::Copied => {
                    task.stage = MoveStage::Copied;
                    copy_path_recursive(task)
                },
                _ => MoveStep::Done,
            },
            MoveEvent::IsDir(yes) => match stage {
                MoveStage::Kind { src, dst } => {
                    let path = copy_bytes(&dst);
                    if yes {
                        MoveStep::Do {
                            task: Move { stage: MoveStage::FolderMade { src, dst }, ..task },
                            action: MoveAction::MakeDir(path),
                        }
                    } else {
                        MoveStep::Do {
                            task: Move { stage: MoveStage::FileParent { src, dst }, ..task },
                            action: MoveAction::MakeParent(path),
                        }
                    }
                },
                _ => {
                    let path = copy_bytes(&task.source);
                    let action = if yes {
                        MoveAction::RemoveTree(path)
                    } else {
                        MoveAction::RemoveFile(path)
                    };
                    MoveStep::Do { task: Move { stage: MoveStage::Removed, ..task }, action }
                },
            },
            MoveEvent::Names(names) => {
                match stage {
                    MoveStage::Names { src, dst } => {
                        let ghost before = task.stack.deep_view();
                        let kept = MoveStage::Names { src: copy_bytes(&src), dst: copy_bytes(&dst) };
                        let folder = Folder { src, dst, left: names };
                        let ghost fv = folder.deep_view();
                        task.stack.push(folder);
                        task.stage = kept;
                        proof {
                            assert(task.stack.deep_view() =~= before.push(fv));
                        }
                    },
                    other => {
                        task.stage = other;
                    },
                }
                copy_path_recursive(task)
            },
        }
    }
}

/// Whether everything that a move is about lies at the same place below its source and below its
/// destination.
pub open spec fn move_keeps_places(m: MoveView) -> bool {
    let a = m.source;
    let b = m.destination;
    &&& forall|i: int|
        0 <= i < m.stack.len() ==> mirrored(a, b, (#[trigger] m.stack[i]).src, m.stack[i].dst)
    &&& match m.stage {
        MoveStageView::Kind { src, dst } => mirrored(a, b, src, dst),
        MoveStageView::FolderMade { src, dst } => mirrored(a, b, src, dst),
        MoveStageView::Names { src, dst } => mirrored(a, b, src, dst),
        MoveStageView::FileParent { src, dst } => mirrored(a, b, src, dst),
        MoveStageView::Leftover => m.stack.len() == 0,
        MoveStageView::Removed => m.stack.len() == 0,
        _ => true,
    }
}

/// Whether `p` lies below `b` where something lies below `a`.
pub open spec fn has_counterpart(a: Seq<u8>, b: Seq<u8>, p: Seq<u8>) -> bool {
    exists|src: Seq<u8>| mirrored(a, b, src, p)
}

/// Whether an action of a move from `a` to `b` makes nothing but places below `b`, each from the same
/// place below `a`, and removes nothing but `a`.
pub open spec fn move_acts_in_place(action: MoveActionView, a: Seq<u8>, b: Seq<u8>) -> bool {
    match action {
        MoveActionView::MakeParent(p) => p == b || has_counterpart(a, b, p),
        MoveActionView::Rename { source, destination } => source == a && destination == b,
        MoveActionView::MakeDir(p) => has_counterpart(a, b, p),
        MoveActionView::CopyFile { src, dst } => mirrored(a, b, src, dst),
        MoveActionView::RemoveTree(p) => p == a,
        MoveActionView::RemoveFile(p) => p == a,
        _ => true,
    }
}

/// Whether a step of a move from `a` to `b` is about the same places in both.
pub open spec fn move_step_in_place(step: MoveStepView, a: Seq<u8>, b: Seq<u8>) -> bool {
    step matches MoveStepView::Do { task, action } ==> {
        &&& task.source == a
        &&& task.destination == b
        &&& move_keeps_places(task)
        &&& move_acts_in_place(action, a, b)
    }
}

/// The next entry goes to the same place.
proof fn lemma_next_item_in_place(m: MoveView)
    requires
        forall|i: int|
            0 <= i < m.stack.len() ==> mirrored(
                m.source,
                m.destination,
                (#[trigger] m.stack[i]).src,
                m.stack[i].dst,
            ),
    ensures
        move_step_in_place(next_item(m), m.source, m.destination),
    decreases m.stack.len(),
{
    if m.stack.len() > 0 {
        let top = m.stack.last();
        let outer = m.stack.drop_last();
        assert(m.stack[m.stack.len() - 1] == top);
        assert forall|i: int| 0 <= i < outer.len() implies mirrored(
            m.source,
            m.destination,
            (#[trigger] outer[i]).src,
            outer[i].dst,
        ) by {
            assert(outer[i] == m.stack[i]);
        }
        if top.left.len() == 0 {
            lemma_next_item_in_place(MoveView { stack: outer, ..m });
        } else {
            lemma_entry_mirrored(m.source, m.destination, top.src, top.dst, top.left[0]);
        }
    }
}

/// Whatever the file system does, a move makes nothing but places below its destination, each from
/// the same place below its source, and removes nothing but its source.
pub proof fn law_move_keeps_places(m: MoveView, event: MoveEventView, a: Seq<u8>, b: Seq<u8>)
    ensures
        move_step_in_place(moving(a, b), a, b),
        move_keeps_places(m) && wanted_event(m, event) ==> move_step_in_place(
            moved_on(m, event),
            m.source,
            m.destination,
        ),
{
    if move_keeps_places(m) && wanted_event(m, event) {
        let none = Seq::<Seq<u8>>::empty();
        assert(walked(m.source, none) == m.source && walked(m.destination, none) == m.destination);
        assert(mirrored(m.source, m.destination, m.source, m.destination));
        match event {
            MoveEventView::Names(names) => {
                if let MoveStageView::Names { src, dst } = m.stage {
                    lemma_next_item_in_place(
                        MoveView { stack: m.stack.push(FolderView { src, dst, left: names }), ..m },
                    );
                }
            },
            MoveEventView::Done => {
                lemma_next_item_in_place(m);
            },
            MoveEventView::IsDir(yes) => {
                if let MoveStageView::Kind { src, dst } = m.stage {
                    assert(has_counterpart(m.source, m.destination, dst)) by {
                        assert(mirrored(m.source, m.destination, src, dst));
                    }
                }
            },
            MoveEventView::Failed(_) => {},
        }
    }
}

/// How many entries are left in all the directories.
pub open spec fn names_left(stack: Seq<FolderView>) -> nat
    decreases stack.len(),
{
    if stack.len() == 0 {
        0
    } else {
        names_left(stack.drop_last()) + stack.last().left.len()
    }
}

/// Turning to the next entry takes one of those that are left, and turns to the source itself only
/// where none is.
proof fn lemma_next_item_counts(m: MoveView)
    ensures
        next_item(m) matches MoveStepView::Do { task, action } && {
            &&& names_left(m.stack) > 0 ==> task.stage is Kind && action is TellKind && names_left(
                task.stack,
            ) + 1 == names_left(m.stack)
            &&& names_left(m.stack) == 0 ==> task.stage is Leftover && action is LeadsToDir
                && task.stack.len() == 0
        },
    decreases m.stack.len(),
{
    if m.stack.len() > 0 {
        let top = m.stack.last();
        let outer = m.stack.drop_last();
        if top.left.len() == 0 {
            lemma_next_item_counts(MoveView { stack: outer, ..m });
        } else {
            let rest = FolderView { left: top.left.drop_first(), ..top };
            assert(outer.push(rest).drop_last() =~= outer);
        }
    }
}

/// The source goes last: it is asked for its end only after every entry that was found in it was
/// turned to, and is removed only after that; and every entry is turned to once.
pub proof fn law_source_goes_last(m: MoveView, event: MoveEventView)
    requires
        wanted_event(m, event),
    ensures
        moved_on(m, event) matches MoveStepView::Do { task, action } ==> {
            &&& action is RemoveTree || action is RemoveFile ==> m.stage is Leftover
            &&& task.stage is Leftover ==> names_left(task.stack) == 0 && (m.stage is Copied
                || m.stage is Names)
        },
        m.stage is Copied && event is Done && names_left(m.stack) > 0 ==> (moved_on(m, event)
            matches MoveStepView::Do { task, action } && task.stage is Kind && names_left(task.stack)
            + 1 == names_left(m.stack)),
{
    lemma_next_item_counts(m);
    if let MoveEventView::Names(names) = event {
        if let MoveStageView::Names { src, dst } = m.stage {
            lemma_next_item_counts(
                MoveView { stack: m.stack.push(FolderView { src, dst, left: names }), ..m },
            );
        }
    }
}

/// The names that were told of a directory all wait to be turned to: after them as many more entries
/// are left as were told, but for the one that is turned to at once, which is the first of them.
pub proof fn law_every_told_name_waits(m: MoveView, names: Seq<Seq<u8>>, src: Seq<u8>, dst: Seq<u8>)
    requires
        m.stage == (MoveStageView::Names { src, dst }),
    ensures
        moved_on(m, MoveEventView::Names(names)) matches MoveStepView::Do { task, action } && {
            &&& action is TellKind <==> names_left(m.stack) + names.len() > 0
            &&& action is TellKind ==> names_left(task.stack) + 1 == names_left(m.stack) + names.len()
            &&& !(action is TellKind) ==> action is LeadsToDir && task.stage is Leftover
            &&& names.len() > 0 ==> action == MoveActionView::TellKind(entry_path(src, names[0]))
                && task.stage == (MoveStageView::Kind {
                src: entry_path(src, names[0]),
                dst: entry_path(dst, names[0]),
            })
        },
{
    let pushed = m.stack.push(FolderView { src, dst, left: names });
    assert(pushed.drop_last() =~= m.stack);
    lemma_next_item_counts(MoveView { stack: pushed, ..m });
}

/// How often a path stands in a list.
pub open spec fn times(s: Seq<Seq<u8>>, x: Seq<u8>) -> nat
    decreases s.len(),
{
    if s.len() == 0 {
        0
    } else {
        times(s.drop_last(), x) + if s.last() == x {
            1nat
        } else {
            0nat
        }
    }
}

/// The paths of the entries of a directory.
pub open spec fn paths_in(dir: Seq<u8>, names: Seq<Seq<u8>>) -> Seq<Seq<u8>> {
    Seq::new(names.len(), |i: int| entry_path(dir, names[i]))
}

/// Where the move stands after the events, one after the other.
pub open spec fn moved(start: MoveStepView, events: Seq<MoveEventView>) -> MoveStepView
    decreases events.len(),
{
    if events.len() == 0 {
        start
    } else {
        match moved(start, events.drop_last()) {
            MoveStepView::Do { task, .. } => moved_on(task, events.last()),
            other => other,
        }
    }
}

/// Whether every one of the events is what the move waits for when it comes.
pub open spec fn all_wanted(start: MoveStepView, events: Seq<MoveEventView>) -> bool
    decreases events.len(),
{
    events.len() > 0 ==> {
        &&& all_wanted(start, events.drop_last())
        &&& moved(start, events.drop_last()) matches MoveStepView::Do { task, .. } && wanted_event(
            task,
            events.last(),
        )
    }
}

/// The paths that the move has turned to, in order.
pub open spec fn turned_to(start: MoveStepView, events: Seq<MoveEventView>) -> Seq<Seq<u8>>
    decreases events.len(),
{
    if events.len() == 0 {
        Seq::empty()
    } else {
        let before = turned_to(start, events.drop_last());
        match moved(start, events) {
            MoveStepView::Do { action: MoveActionView::TellKind(p), .. } => before.push(p),
            _ => before,
        }
    }
}

/// The paths of the entries that the move was told of, in order.
pub open spec fn told_of(start: MoveStepView, events: Seq<MoveEventView>) -> Seq<Seq<u8>>
    decreases events.len(),
{
    if events.len() == 0 {
        Seq::empty()
    } else {
        let before = told_of(start, events.drop_last());
        match (moved(start, events.drop_last()), events.last()) {
            (
                MoveStepView::Do { action: MoveActionView::List(dir), .. },
                MoveEventView::Names(names),
            ) => before + paths_in(dir, names),
            _ => before,
        }
    }
}

/// The paths of the entries that are left.
spec fn left_paths(stack: Seq<FolderView>) -> Seq<Seq<u8>>
    decreases stack.len(),
{
    if stack.len() == 0 {
        Seq::empty()
    } else {
        left_paths(stack.drop_last()) + paths_in(stack.last().src, stack.last().left)
    }
}

/// What stands in two lists stands in the one after the other as often as in both.
proof fn lemma_times_add(a: Seq<Seq<u8>>, b: Seq<Seq<u8>>, x: Seq<u8>)
    ensures
        times(a + b, x) == times(a, x) + times(b, x),
    decreases b.len(),
{
    if b.len() == 0 {
        assert(a + b =~= a);
    } else {
        lemma_times_add(a, b.drop_last(), x);
        assert((a + b).drop_last() =~= a + b.drop_last());
        assert((a + b).last() == b.last());
    }
}

/// The next entry is one of those that are left.
proof fn lemma_next_item_is_left(m: MoveView, x: Seq<u8>)
    ensures
        next_item(m) matches MoveStepView::Do { task, action } && {
            &&& task.source == m.source
            &&& match action {
                MoveActionView::TellKind(p) => task.stage is Kind && times(left_paths(task.stack), x)
                    + times(seq![p], x) == times(left_paths(m.stack), x),
                _ => action is LeadsToDir && task.stage is Leftover && task.stack.len() == 0 && times(
                    left_paths(m.stack),
                    x,
                ) == 0,
            }
        },
    decreases m.stack.len(),
{
    if m.stack.len() > 0 {
        let top = m.stack.last();
        let outer = m.stack.drop_last();
        let here = paths_in(top.src, top.left);
        lemma_times_add(left_paths(outer), here, x);
        if top.left.len() == 0 {
            lemma_next_item_is_left(MoveView { stack: outer, ..m }, x);
        } else {
            let rest = FolderView { left: top.left.drop_first(), ..top };
            let p = entry_path(top.src, top.left[0]);
            assert(outer.push(rest).drop_last() =~= outer);
            assert(here =~= seq![p] + paths_in(top.src, rest.left));
            lemma_times_add(seq![p], paths_in(top.src, rest.left), x);
            lemma_times_add(left_paths(outer), paths_in(top.src, rest.left), x);
        }
    }
}

/// What holds in the course of a move of `source`.
spec fn accounted(
    step: MoveStepView,
    turned: Seq<Seq<u8>>,
    told: Seq<Seq<u8>>,
    source: Seq<u8>,
    x: Seq<u8>,
) -> bool {
    match step {
        MoveStepView::Do { task, action } => {
            &&& task.source == source
            &&& action is List <==> task.stage is Names
            &&& action is TellKind <==> task.stage is Kind
            &&& action is LeadsToDir <==> task.stage is Leftover
            &&& action is RemoveTree || action is RemoveFile <==> task.stage is Removed
            &&& action matches MoveActionView::List(dir) ==> task.stage->Names_src == dir
            &&& task.stage is Leftover || task.stage is Removed ==> task.stack.len() == 0
            &&& if task.stage is Parent || task.stage is Renamed {
                task.stack.len() == 0 && turned.len() == 0 && told.len() == 0
            } else {
                times(turned, x) + times(left_paths(task.stack), x) == times(told, x) + times(
                    seq![source],
                    x,
                )
            }
        },
        MoveStepView::Done => (turned.len() == 0 && told.len() == 0) || times(turned, x) == times(
            told,
            x,
        ) + times(seq![source], x),
        MoveStepView::Fail(_) => true,
    }
}

/// A move accounts for everything that it was told of.
proof fn lemma_accounted(
    source: Seq<u8>,
    destination: Seq<u8>,
    events: Seq<MoveEventView>,
    x: Seq<u8>,
)
    requires
        all_wanted(moving(source, destination), events),
    ensures
        ({
            let start = moving(source, destination);
            accounted(
                moved(start, events),
                turned_to(start, events),
                told_of(start, events),
                source,
                x,
            )
        }),
    decreases events.len(),
{
    let start = moving(source, destination);
    if events.len() > 0 {
        let before = events.drop_last();
        lemma_accounted(source, destination, before, x);
        let turned = turned_to(start, before);
        let told = told_of(start, before);
        if let MoveStepView::Do { task, action } = moved(start, before) {
            assert(turned.push(source).drop_last() =~= turned);
            assert(seq![source].drop_last() =~= Seq::<Seq<u8>>::empty());
            assert(left_paths(Seq::<FolderView>::empty()) =~= Seq::<Seq<u8>>::empty());
            match events.last() {
                MoveEventView::Names(names) => {
                    if let MoveStageView::Names { src, dst } = task.stage {
                        let folder = FolderView { src, dst, left: names };
                        let pushed = task.stack.push(folder);
                        assert(pushed.drop_last() =~= task.stack);
                        lemma_times_add(left_paths(task.stack), paths_in(src, names), x);
                        lemma_times_add(told, paths_in(src, names), x);
                        lemma_next_item_is_left(MoveView { stack: pushed, ..task }, x);
                        lemma_push_times(turned, x, moved(start, events));
                    }
                },
                MoveEventView::Done => {
                    if task.stage is Copied {
                        lemma_next_item_is_left(task, x);
                        lemma_push_times(turned, x, moved(start, events));
                    }
                    if task.stage is Removed {
                        assert(task.stack =~= Seq::<FolderView>::empty());
                    }
                },
                MoveEventView::Failed(_) => {
                    if task.stage is Renamed {
                        assert(task.stack =~= Seq::<FolderView>::empty());
                        assert(turned =~= Seq::<Seq<u8>>::empty());
                        assert(turned.push(source) =~= seq![source]);
                        assert(told =~= Seq::<Seq<u8>>::empty());
                    }
                },
                MoveEventView::IsDir(_) => {},
            }
        }
    }
}

/// Turning to a path counts it once more.
proof fn lemma_push_times(turned: Seq<Seq<u8>>, x: Seq<u8>, step: MoveStepView)
    ensures
        step matches MoveStepView::Do { action: MoveActionView::TellKind(p), .. } ==> times(
            turned.push(p),
            x,
        ) == times(turned, x) + times(seq![p], x),
{
    if let MoveStepView::Do { action: MoveActionView::TellKind(p), .. } = step {
        assert(turned.push(p) =~= turned + seq![p]);
        lemma_times_add(turned, seq![p], x);
    }
}

/// However a move by copying went: before its source is removed, and before anything is even asked
/// about the removal, every entry that it was told of has been turned to, as often as it was told of
/// it, and so has the source itself; and nothing else has.
pub proof fn law_all_is_copied_before_the_source_goes(
    source: Seq<u8>,
    destination: Seq<u8>,
    events: Seq<MoveEventView>,
    x: Seq<u8>,
)
    requires
        all_wanted(moving(source, destination), events),
    ensures
        ({
            let start = moving(source, destination);
            let turned = times(turned_to(start, events), x);
            let told = times(told_of(start, events), x);
            moved(start, events) matches MoveStepView::Do { action, .. } ==> (action is LeadsToDir
                || action is RemoveTree || action is RemoveFile) ==> turned == told + if x == source {
                1nat
            } else {
                0nat
            }
        }),
{
    lemma_accounted(source, destination, events, x);
    let start = moving(source, destination);
    assert(seq![source].drop_last() =~= Seq::<Seq<u8>>::empty());
    if let MoveStepView::Do { task, .. } = moved(start, events) {
        if task.stage is Leftover || task.stage is Removed {
            assert(task.stack =~= Seq::<FolderView>::empty());
            assert(left_paths(task.stack) =~= Seq::<Seq<u8>>::empty());
        }
    }
}

/// What is turned to is copied as what it is: a directory is made at the new place and then listed,
/// and anything else is copied there after the directory around it was made.
pub proof fn law_entry_is_copied_as_it_is(m: MoveView, src: Seq<u8>, dst: Seq<u8>)
    requires
        m.stage == (MoveStageView::Kind { src, dst }),
    ensures
        moved_on(m, MoveEventView::IsDir(true)) matches MoveStepView::Do { task, action } && {
            &&& action == MoveActionView::MakeDir(dst)
            &&& task.stack == m.stack
            &&& moved_on(task, MoveEventView::Done) matches MoveStepView::Do {
                task: next,
                action: MoveActionView::List(dir),
            } && dir == src && next.stack == m.stack && next.stage == (MoveStageView::Names {
                src,
                dst,
            })
        },
        moved_on(m, MoveEventView::IsDir(false)) matches MoveStepView::Do { task, action } && {
            &&& action == MoveActionView::MakeParent(dst)
            &&& task.stack == m.stack
            &&& moved_on(task, MoveEventView::Done) matches MoveStepView::Do {
                task: next,
                action: MoveActionView::CopyFile { src: from, dst: to },
            } && from == src && to == dst && next.stack == m.stack && next.stage is Copied
        },
{
}

/// A move is tried as a new name first, after the directory around the destination was made. Where
/// that succeeds it is done; only where it fails the source is copied, and what it is decides how it
/// is removed. Any other failure ends the move.
pub proof fn law_rename_comes_first(a: Seq<u8>, b: Seq<u8>, text: Seq<char>, m: MoveView, yes: bool)
    ensures
        moving(a, b) matches MoveStepView::Do { task, action } && {
            &&& action == MoveActionView::MakeParent(b)
            &&& moved_on(task, MoveEventView::Done) matches MoveStepView::Do { task: next, action: second }
                && {
                &&& second == (MoveActionView::Rename { source: a, destination: b })
                &&& moved_on(next, MoveEventView::Done) is Done
                &&& moved_on(next, MoveEventView::Failed(text)) matches MoveStepView::Do {
                    task: last,
                    action: MoveActionView::TellKind(p),
                } && p == a && last.stack.len() == 0 && last.stage == (MoveStageView::Kind {
                    src: a,
                    dst: b,
                })
            }
        },
        m.stage is Leftover ==> (moved_on(m, MoveEventView::IsDir(yes)) matches MoveStepView::Do {
            task,
            action,
        } && task.stage is Removed && action == if yes {
            MoveActionView::RemoveTree(m.source)
        } else {
            MoveActionView::RemoveFile(m.source)
        }),
        m.stage is Removed ==> moved_on(m, MoveEventView::Done) is Done,
        !(m.stage is Renamed) ==> moved_on(m, MoveEventView::Failed(text)) == MoveStepView::Fail(
            ErrorView::Outside(text),
        ),
{
}

/// The names that a file system tells are seen whole, each in its place.
pub proof fn law_told_names_are_seen_whole(names: Vec<EntryName>, i: int)
    ensures
        MoveEvent::Names(names).deep_view() matches MoveEventView::Names(all) && all.len()
            == names@.len() && (0 <= i < names@.len() ==> all[i] == names@[i].bytes@),
{
}

} // verus!
