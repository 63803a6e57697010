//! The directories of the program, and copying a file tree.
use crate::error::{Error, ErrorView};
use crate::path::{join, joined};
use vstd::prelude::*;

verus! {

/// The directory of everything that the program keeps for the user whose home is `home`.
pub open spec fn data_dir(home: Seq<char>) -> Seq<char> {
    joined(home, ".moulin"@)
}

/// The directory of build artifacts.
pub open spec fn artifacts_dir(home: Seq<char>) -> Seq<char> {
    joined(data_dir(home), "build-artifacts"@)
}

/// The directory of everything that the program keeps.
pub fn get_data_dir(home: &str) -> (r: String)
    ensures
        r@ == data_dir(home@),
{
    join(home, ".moulin")
}

/// The directory of base images.
pub fn get_bases_dir(home: &str) -> (r: String)
    ensures
        r@ == joined(data_dir(home@), "bases"@),
{
    let dir = get_data_dir(home);
    join(dir.as_str(), "bases")
}

/// The directory of the layers that build steps made.
pub fn get_cache_dir(home: &str) -> (r: String)
    ensures
        r@ == joined(data_dir(home@), "cache"@),
{
    let dir = get_data_dir(home);
    join(dir.as_str(), "cache")
}

/// The directory of build artifacts.
pub fn get_build_artifacts_dir(home: &str) -> (r: String)
    ensures
        r@ == artifacts_dir(home@),
{
    let dir = get_data_dir(home);
    join(dir.as_str(), "build-artifacts")
}

/// The directory of snapshots.
pub fn get_snapshots_dir(home: &str) -> (r: String)
    ensures
        r@ == joined(data_dir(home@), "snapshots"@),
{
    let dir = get_data_dir(home);
    join(dir.as_str(), "snapshots")
}

/// The directory of sandboxes.
pub fn get_sandboxes_dir(home: &str) -> (r: String)
    ensures
        r@ == joined(data_dir(home@), "sandboxes"@),
{
    let dir = get_data_dir(home);
    join(dir.as_str(), "sandboxes")
}

/// What an entry of a directory is.
#[derive(Debug, Clone, Copy, PartialEq, Eq, Structural)]
pub enum EntryKind {
    Dir,
    Symlink,
    File,
}

/// An entry of a directory: its name, and what it is.
#[derive(Debug)]
pub struct DirItem {
    pub name: Vec<u8>,
    pub kind: EntryKind,
}

/// The mathematical value of a `DirItem`.
#[verifier::ext_equal]
pub struct ItemView {
    pub name: Seq<u8>,
    pub kind: EntryKind,
}

impl DeepView for DirItem {
    type V = ItemView;

    open spec fn deep_view(&self) -> ItemView {
        ItemView { name: self.name@, kind: self.kind }
    }
}

/// The path of an entry of a directory.
pub open spec fn entry_path(dir: Seq<u8>, name: Seq<u8>) -> Seq<u8> {
    if dir.len() == 0 || dir.last() == 0x2f {
        dir + name
    } else {
        dir.push(0x2f) + name
    }
}

/// The path of an entry of a directory.
pub(crate) fn path_of_entry(dir: &Vec<u8>, name: &Vec<u8>) -> (r: Vec<u8>)
    ensures
        r@ == entry_path(dir@, name@),
{
    let mut r: Vec<u8> = Vec::new();
    r.extend_from_slice(dir.as_slice());
    if dir.len() > 0 && dir[dir.len() - 1] != 0x2f {
        r.push(0x2f);
    }
    r.extend_from_slice(name.as_slice());
    proof {
        assert(r@ =~= entry_path(dir@, name@));
    }
    r
}

/// A directory that is being copied, with the entries that are left. Files get a second name as
/// long as `try_hardlink` holds, and else are copied.
#[derive(Debug)]
pub struct Frame {
    pub src: Vec<u8>,
    pub dst: Vec<u8>,
    pub left: Vec<DirItem>,
    pub try_hardlink: bool,
}

/// The mathematical value of a `Frame`.
#[verifier::ext_equal]
pub struct FrameView {
    pub src: Seq<u8>,
    pub dst: Seq<u8>,
    pub left: Seq<ItemView>,
    pub try_hardlink: bool,
}

impl DeepView for Frame {
    type V = FrameView;

    open spec fn deep_view(&self) -> FrameView {
        FrameView {
            src: self.src@,
            dst: self.dst@,
            left: self.left.deep_view(),
            try_hardlink: self.try_hardlink,
        }
    }
}

/// What a copy waits for.
#[derive(Debug)]
pub enum Awaiting {
    /// The directory at `dst`.
    Made { src: Vec<u8>, dst: Vec<u8>, try_hardlink: bool },
    /// The entries of the directory at `src`.
    Listed { src: Vec<u8>, dst: Vec<u8>, try_hardlink: bool },
    /// An entry at its new place.
    Copied,
    /// A second name `dst` for the file `src`.
    Linked { src: Vec<u8>, dst: Vec<u8> },
    /// A file at its new place that could not get a second name there.
    Fallback,
}

/// The mathematical value of an `Awaiting`.
#[verifier::ext_equal]
pub enum AwaitingView {
    Made { src: Seq<u8>, dst: Seq<u8>, try_hardlink: bool },
    Listed { src: Seq<u8>, dst: Seq<u8>, try_hardlink: bool },
    Copied,
    Linked { src: Seq<u8>, dst: Seq<u8> },
    Fallback,
}

impl DeepView for Awaiting {
    type V = AwaitingView;

    open spec fn deep_view(&self) -> AwaitingView {
        match self {
            Awaiting::Made { src, dst, try_hardlink } => AwaitingView::Made {
                src: src@,
                dst: dst@,
                try_hardlink: *try_hardlink,
            },
            Awaiting::Listed { src, dst, try_hardlink } => AwaitingView::Listed {
                src: src@,
                dst: dst@,
                try_hardlink: *try_hardlink,
            },
            Awaiting::Copied => AwaitingView::Copied,
            Awaiting::Linked { src, dst } => AwaitingView::Linked { src: src@, dst: dst@ },
            Awaiting::Fallback => AwaitingView::Fallback,
        }
    }
}

/// A copy of a file tree in progress: the directories that it is in, the innermost last.
#[derive(Debug)]
pub struct TreeCopy {
    pub stack: Vec<Frame>,
    pub awaiting: Awaiting,
}

/// The mathematical value of a `TreeCopy`.
#[verifier::ext_equal]
pub struct CopyView {
    pub stack: Seq<FrameView>,
    pub awaiting: AwaitingView,
}

impl DeepView for TreeCopy {
    type V = CopyView;

    open spec fn deep_view(&self) -> CopyView {
        CopyView { stack: self.stack.deep_view(), awaiting: self.awaiting.deep_view() }
    }
}

/// What is done to the file system.
#[derive(Debug)]
pub enum CopyAction {
    /// Make the directory, with the permissions of another where one is named.
    MakeDir { dst: Vec<u8>, like: Option<Vec<u8>> },
    /// List a directory.
    List(Vec<u8>),
    /// Make a link that leads to the same place; one that is there already may stay.
    MakeLink { src: Vec<u8>, dst: Vec<u8> },
    /// Make a second name for a file.
    HardLink { src: Vec<u8>, dst: Vec<u8> },
    /// Copy the bytes of a file.
    CopyFile { src: Vec<u8>, dst: Vec<u8> },
}

/// The mathematical value of a `CopyAction`.
#[verifier::ext_equal]
pub enum CopyActionView {
    MakeDir { dst: Seq<u8>, like: Option<Seq<u8>> },
    List(Seq<u8>),
    MakeLink { src: Seq<u8>, dst: Seq<u8> },
    HardLink { src: Seq<u8>, dst: Seq<u8> },
    CopyFile { src: Seq<u8>, dst: Seq<u8> },
}

impl DeepView for CopyAction {
    type V = CopyActionView;

    open spec fn deep_view(&self) -> CopyActionView {
        match self {
            CopyAction::MakeDir { dst, like } => CopyActionView::MakeDir {
                dst: dst@,
                like: match like {
                    Some(l) => Some(l@),
                    None => None,
                },
            },
            CopyAction::List(src) => CopyActionView::List(src@),
            CopyAction::MakeLink { src, dst } => CopyActionView::MakeLink { src: src@, dst: dst@ },
            CopyAction::HardLink { src, dst } => CopyActionView::HardLink { src: src@, dst: dst@ },
            CopyAction::CopyFile { src, dst } => CopyActionView::CopyFile { src: src@, dst: dst@ },
        }
    }
}

/// How it went.
#[derive(Debug)]
pub enum CopyEvent {
    Done,
    /// The directory has these entries.
    Listed(Vec<DirItem>),
    /// It failed: the number of the error, where it has one, and its text.
    Failed { code: Option<i32>, text: String },
}

/// The mathematical value of a `CopyEvent`.
#[verifier::ext_equal]
pub enum CopyEventView {
    Done,
    Listed(Seq<ItemView>),
    Failed { code: Option<i32>, text: Seq<char> },
}

impl DeepView for CopyEvent {
    type V = CopyEventView;

    open spec fn deep_view(&self) -> CopyEventView {
        match self {
            CopyEvent::Done => CopyEventView::Done,
            CopyEvent::Listed(items) => CopyEventView::Listed(items.deep_view()),
            CopyEvent::Failed { code, text } => CopyEventView::Failed { code: *code, text: text@ },
        }
    }
}

/// Where a copy stands: something is to be done, all is there, or it has failed.
#[derive(Debug)]
pub enum CopyStep {
    Do { copy: TreeCopy, action: CopyAction },
    Done,
    Fail(Error),
}

/// The mathematical value of a `CopyStep`.
#[verifier::ext_equal]
pub enum CopyStepView {
    Do { copy: CopyView, action: CopyActionView },
    Done,
    Fail(ErrorView),
}

impl DeepView for CopyStep {
    type V = CopyStepView;

    open spec fn deep_view(&self) -> CopyStepView {
        match self {
            CopyStep::Do { copy, action } => CopyStepView::Do {
                copy: copy.deep_view(),
                action: action.deep_view(),
            },
            CopyStep::Done => CopyStepView::Done,
            CopyStep::Fail(e) => CopyStepView::Fail(e.deep_view()),
        }
    }
}

/// The error number of a link between two file systems.
pub const EXDEV: i32 = 18;

/// The copy of one entry of the innermost directory, which is left with the others.
pub open spec fn copy_entry(outer: Seq<FrameView>, top: FrameView, item: ItemView) -> CopyStepView {
    let src = entry_path(top.src, item.name);
    let dst = entry_path(top.dst, item.name);
    let stack = outer.push(top);
    match item.kind {
        EntryKind::Dir => CopyStepView::Do {
            copy: CopyView {
                stack,
                awaiting: AwaitingView::Made { src, dst, try_hardlink: top.try_hardlink },
            },
            action: CopyActionView::MakeDir { dst, like: Some(src) },
        },
        EntryKind::Symlink => CopyStepView::Do {
            copy: CopyView { stack, awaiting: AwaitingView::Copied },
            action: CopyActionView::MakeLink { src, dst },
        },
        EntryKind::File => if top.try_hardlink {
            CopyStepView::Do {
                copy: CopyView { stack, awaiting: AwaitingView::Linked { src, dst } },
                action: CopyActionView::HardLink { src, dst },
            }
        } else {
            CopyStepView::Do {
                copy: CopyView { stack, awaiting: AwaitingView::Copied },
                action: CopyActionView::CopyFile { src, dst },
            }
        },
    }
}

/// The next entry: the first that is left in the innermost directory that has any left.
pub open spec fn next_entry(stack: Seq<FrameView>) -> CopyStepView
    decreases stack.len(),
{
    if stack.len() == 0 {
        CopyStepView::Done
    } else {
        let top = stack.last();
        if top.left.len() == 0 {
            next_entry(stack.drop_last())
        } else {
            copy_entry(
                stack.drop_last(),
                FrameView { left: top.left.drop_first(), ..top },
                top.left[0],
            )
        }
    }
}

/// The start of copying the tree at `src` to `dst`.
pub open spec fn copying(src: Seq<u8>, dst: Seq<u8>) -> CopyStepView {
    CopyStepView::Do {
        copy: CopyView {
            stack: Seq::empty(),
            awaiting: AwaitingView::Made { src, dst, try_hardlink: true },
        },
        action: CopyActionView::MakeDir { dst, like: None },
    }
}

/// The innermost directory is walked through once more, without second names.
pub open spec fn walk_again(stack: Seq<FrameView>) -> CopyStepView {
    let top = stack.last();
    CopyStepView::Do {
        copy: CopyView {
            stack: stack.drop_last(),
            awaiting: AwaitingView::Listed { src: top.src, dst: top.dst, try_hardlink: false },
        },
        action: CopyActionView::List(top.src),
    }
}

/// What follows from how it went: a link between two file systems makes way for a copy, and any
/// other failure ends the whole.
pub open spec fn copied_on(c: CopyView, event: CopyEventView) -> CopyStepView {
    match event {
        CopyEventView::Failed { code, text } => match c.awaiting {
            AwaitingView::Linked { src, dst } => if code == Some(EXDEV) {
                CopyStepView::Do {
                    copy: CopyView { awaiting: AwaitingView::Fallback, ..c },
                    action: CopyActionView::CopyFile { src, dst },
                }
            } else {
                CopyStepView::Fail(ErrorView::Outside(text))
            },
            _ => CopyStepView::Fail(ErrorView::Outside(text)),
        },
        CopyEventView::Listed(items) => match c.awaiting {
            AwaitingView::Listed { src, dst, try_hardlink } => next_entry(
                c.stack.push(FrameView { src, dst, left: items, try_hardlink }),
            ),
            _ => next_entry(c.stack),
        },
        CopyEventView::Done => match c.awaiting {
            AwaitingView::Made { src, dst, try_hardlink } => CopyStepView::Do {
                copy: CopyView {
                    awaiting: AwaitingView::Listed { src, dst, try_hardlink },
                    ..c
                },
                action: CopyActionView::List(src),
            },
            AwaitingView::Fallback => walk_again(c.stack),
            _ => next_entry(c.stack),
        },
    }
}

/// Whether an event is what the copy waits for.
pub open spec fn awaited(c: CopyView, event: CopyEventView) -> bool {
    match event {
        CopyEventView::Done => !(c.awaiting is Listed) && (c.awaiting is Fallback ==> c.stack.len()
            > 0),
        CopyEventView::Listed(_) => c.awaiting is Listed,
        CopyEventView::Failed { .. } => true,
    }
}

/// Copies the next entry.
fn hardlink_copy_inner(stack: Vec<Frame>) -> (r: CopyStep)
    ensures
        r.deep_view() == next_entry(stack.deep_view()),
{
    let mut outer = stack;
    loop
        invariant
            next_entry(outer.deep_view()) == next_entry(stack.deep_view()),
        decreases outer@.len(),
    {
        let ghost all = outer.deep_view();
        match outer.pop() {
            None => {
                return CopyStep::Done;
            },
            Some(frame) => {
                proof {
                    assert(all.last() == frame.deep_view());
                    assert(outer.deep_view() =~= all.drop_last());
                }
                let mut top = frame;
                if top.left.len() > 0 {
                    let ghost items = top.left@;
                    let ghost views = top.left.deep_view();
                    let item = top.left.remove(0);
                    proof {
                        assert(views[0] == item.deep_view());
                        assert forall|j: int| 0 <= j < top.left@.len() implies (#[trigger] top.left@[j]).deep_view()
                            == views.drop_first()[j] by {
                            assert(top.left@[j] == items[j + 1]);
                        }
                        assert(top.left.deep_view() =~= views.drop_first());
                    }
                    return step_into(outer, top, item);
                }
            },
        }
    }
}

/// Copies an entry of the innermost directory.
fn step_into(outer: Vec<Frame>, top: Frame, item: DirItem) -> (r: CopyStep)
    ensures
        r.deep_view() == copy_entry(outer.deep_view(), top.deep_view(), item.deep_view()),
{
    let src = path_of_entry(&top.src, &item.name);
    let dst = path_of_entry(&top.dst, &item.name);
    let try_hardlink = top.try_hardlink;
    let mut stack = outer;
    let ghost before = stack.deep_view();
    let ghost tv = top.deep_view();
    stack.push(top);
    proof {
        assert(stack.deep_view() =~= before.push(tv));
    }
    match item.kind {
        EntryKind::Dir => {
            let like = copy_bytes(&src);
            let made = copy_bytes(&dst);
            CopyStep::Do {
                copy: TreeCopy { stack, awaiting: Awaiting::Made { src, dst, try_hardlink } },
                action: CopyAction::MakeDir { dst: made, like: Some(like) },
            }
        },
        EntryKind::Symlink => CopyStep::Do {
            copy: TreeCopy { stack, awaiting: Awaiting::Copied },
            action: CopyAction::MakeLink { src, dst },
        },
        EntryKind::File => {
            if try_hardlink {
                let from = copy_bytes(&src);
                let to = copy_bytes(&dst);
                CopyStep::Do {
                    copy: TreeCopy { stack, awaiting: Awaiting::Linked { src, dst } },
                    action: CopyAction::HardLink { src: from, dst: to },
                }
            } else {
                CopyStep::Do {
                    copy: TreeCopy { stack, awaiting: Awaiting::Copied },
                    action: CopyAction::CopyFile { src, dst },
                }
            }
        },
    }
}

/// A copy of bytes.
pub(crate) fn copy_bytes(v: &Vec<u8>) -> (r: Vec<u8>)
    ensures
        r@ == v@,
{
    let mut r: Vec<u8> = Vec::new();
    r.extend_from_slice(v.as_slice());
    proof {
        assert(r@ =~= v@);
    }
    r
}

/// Walks through the innermost directory once more, without second names.
fn hardlink_copy_inner_remaining(stack: Vec<Frame>) -> (r: CopyStep)
    requires
        stack@.len() > 0,
    ensures
        r.deep_view() == walk_again(stack.deep_view()),
{
    let mut stack = stack;
    let ghost all = stack.deep_view();
    match stack.pop() {
        Some(top) => {
            proof {
                assert(all.last() == top.deep_view());
                assert(stack.deep_view() =~= all.drop_last());
            }
            let listed = copy_bytes(&top.src);
            CopyStep::Do {
                copy: TreeCopy {
                    stack,
                    awaiting: Awaiting::Listed { src: top.src, dst: top.dst, try_hardlink: false },
                },
                action: CopyAction::List(listed),
            }
        },
        None => CopyStep::Done,
    }
}

/// Starts copying the tree at `src` to `dst`: files get second names where the file system can give
/// them, directories and symbolic links are made anew.
pub fn hardlink_copy(src: Vec<u8>, dst: Vec<u8>) -> (r: CopyStep)
    ensures
        r.deep_view() == copying(src@, dst@),
{
    let made = copy_bytes(&dst);
    let stack: Vec<Frame> = Vec::new();
    proof {
        assert(stack.deep_view() =~= Seq::<FrameView>::empty());
    }
    CopyStep::Do {
        copy: TreeCopy { stack, awaiting: Awaiting::Made { src, dst, try_hardlink: true } },
        action: CopyAction::MakeDir { dst: made, like: None },
    }
}

impl TreeCopy {
    /// Goes on after what was done.
    pub fn advance(self, event: CopyEvent) -> (r: CopyStep)
        requires
            awaited(self.deep_view(), event.deep_view()),
        ensures
            r.deep_view() == copied_on(self.deep_view(), event.deep_view()),
    {
        let mut stack = self.stack;
        match event {
            CopyEvent::Failed { code, text } => {
                if let Awaiting::Linked { src, dst } = self.awaiting {
                    if let Some(n) = code {
                        if n == EXDEV {
                            return CopyStep::Do {
                                copy: TreeCopy { stack, awaiting: Awaiting::Fallback },
                                action: CopyAction::CopyFile { src, dst },
                            };
                        }
                    }
                }
                CopyStep::Fail(Error::Outside(text))
            },
            CopyEvent::Listed(items) => {
                if let Awaiting::Listed { src, dst, try_hardlink } = self.awaiting {
                    let ghost before = stack.deep_view();
                    let frame = Frame { src, dst, left: items, try_hardlink };
                    let ghost fv = frame.deep_view();
                    stack.push(frame);
                    proof {
                        assert(stack.deep_view() =~= before.push(fv));
                    }
                }
                hardlink_copy_inner(stack)
            },
            CopyEvent::Done => match self.awaiting {
                Awaiting::Made { src, dst, try_hardlink } => {
                    let listed = copy_bytes(&src);
                    CopyStep::Do {
                        copy: TreeCopy {
                            stack,
                            awaiting: Awaiting::Listed { src, dst, try_hardlink },
                        },
                        action: CopyAction::List(listed),
                    }
                },
                Awaiting::Fallback => {
                    proof {
                        assert(stack.deep_view().len() == stack@.len());
                    }
                    hardlink_copy_inner_remaining(stack)
                },
                _ => hardlink_copy_inner(stack),
            },
        }
    }
}

/// The place that names lead to from `root`.
pub open spec fn walked(root: Seq<u8>, names: Seq<Seq<u8>>) -> Seq<u8>
    decreases names.len(),
{
    if names.len() == 0 {
        root
    } else {
        entry_path(walked(root, names.drop_last()), names.last())
    }
}

/// Whether the same names lead from `a` to `src` and from `b` to `dst`.
pub open spec fn mirrored(a: Seq<u8>, b: Seq<u8>, src: Seq<u8>, dst: Seq<u8>) -> bool {
    exists|names: Seq<Seq<u8>>| src == #[trigger] walked(a, names) && dst == walked(b, names)
}

/// Whether everything that a copy from `a` to `b` is about lies at the same place in both.
pub open spec fn keeps_places(c: CopyView, a: Seq<u8>, b: Seq<u8>) -> bool {
    &&& forall|i: int|
        0 <= i < c.stack.len() ==> mirrored(a, b, (#[trigger] c.stack[i]).src, c.stack[i].dst)
    &&& match c.awaiting {
        AwaitingView::Made { src, dst, .. } => mirrored(a, b, src, dst),
        AwaitingView::Listed { src, dst, .. } => mirrored(a, b, src, dst),
        AwaitingView::Linked { src, dst } => mirrored(a, b, src, dst),
        AwaitingView::Copied => true,
        AwaitingView::Fallback => c.stack.len() > 0,
    }
    &&& c.awaiting is Linked ==> c.stack.len() > 0
}

/// Whether an action of a copy from `a` to `b` changes only the place in `b` that it takes from the
/// same place in `a`.
pub open spec fn acts_in_place(action: CopyActionView, a: Seq<u8>, b: Seq<u8>) -> bool {
    match action {
        CopyActionView::MakeDir { dst, like } => match like {
            Some(src) => mirrored(a, b, src, dst),
            None => dst == b,
        },
        CopyActionView::List(_) => true,
        CopyActionView::MakeLink { src, dst } => mirrored(a, b, src, dst),
        CopyActionView::HardLink { src, dst } => mirrored(a, b, src, dst),
        CopyActionView::CopyFile { src, dst } => mirrored(a, b, src, dst),
    }
}

/// Whether a step of a copy from `a` to `b` is about the same places in both.
pub open spec fn step_in_place(step: CopyStepView, a: Seq<u8>, b: Seq<u8>) -> bool {
    step matches CopyStepView::Do { copy, action } ==> keeps_places(copy, a, b) && acts_in_place(
        action,
        a,
        b,
    )
}

/// An entry lies at the same place where its directory does.
pub proof fn lemma_entry_mirrored(a: Seq<u8>, b: Seq<u8>, src: Seq<u8>, dst: Seq<u8>, name: Seq<u8>)
    requires
        mirrored(a, b, src, dst),
    ensures
        mirrored(a, b, entry_path(src, name), entry_path(dst, name)),
{
    let names = choose|names: Seq<Seq<u8>>|
        src == #[trigger] walked(a, names) && dst == walked(b, names);
    let longer = names.push(name);
    assert(longer.drop_last() =~= names);
    assert(walked(a, longer) == entry_path(src, name));
}

/// The next entry is copied to the same place.
proof fn lemma_next_in_place(stack: Seq<FrameView>, a: Seq<u8>, b: Seq<u8>)
    requires
        forall|i: int|
            0 <= i < stack.len() ==> mirrored(a, b, (#[trigger] stack[i]).src, stack[i].dst),
    ensures
        step_in_place(next_entry(stack), a, b),
    decreases stack.len(),
{
    if stack.len() > 0 {
        let top = stack.last();
        let outer = stack.drop_last();
        assert(mirrored(a, b, top.src, top.dst)) by {
            assert(stack[stack.len() - 1] == top);
        }
        assert forall|i: int| 0 <= i < outer.len() implies mirrored(
            a,
            b,
            (#[trigger] outer[i]).src,
            outer[i].dst,
        ) by {
            assert(outer[i] == stack[i]);
        }
        if top.left.len() == 0 {
            lemma_next_in_place(outer, a, b);
        } else {
            lemma_entry_mirrored(a, b, top.src, top.dst, top.left[0].name);
        }
    }
}

/// Whatever the file system does, a copy from `a` to `b` puts every entry of the one at the same
/// place of the other, and touches nothing else.
pub proof fn law_copy_keeps_places(c: CopyView, event: CopyEventView, a: Seq<u8>, b: Seq<u8>)
    ensures
        step_in_place(copying(a, b), a, b),
        keeps_places(c, a, b) && awaited(c, event) ==> step_in_place(copied_on(c, event), a, b),
{
    let none = Seq::<Seq<u8>>::empty();
    assert(walked(a, none) == a && walked(b, none) == b);
    if keeps_places(c, a, b) && awaited(c, event) {
        match event {
            CopyEventView::Listed(items) => {
                if let AwaitingView::Listed { src, dst, try_hardlink } = c.awaiting {
                    lemma_next_in_place(
                        c.stack.push(FrameView { src, dst, left: items, try_hardlink }),
                        a,
                        b,
                    );
                }
            },
            CopyEventView::Done => {
                lemma_next_in_place(c.stack, a, b);
                if c.awaiting is Fallback {
                    assert(c.stack[c.stack.len() - 1] == c.stack.last());
                }
            },
            _ => {},
        }
    }
}

/// Whether no directory of a copy, and none that it turns to next, gives second names.
pub open spec fn only_copies(c: CopyView) -> bool {
    &&& forall|i: int| 0 <= i < c.stack.len() ==> !(#[trigger] c.stack[i]).try_hardlink
    &&& match c.awaiting {
        AwaitingView::Made { try_hardlink, .. } => !try_hardlink,
        AwaitingView::Listed { try_hardlink, .. } => !try_hardlink,
        AwaitingView::Linked { .. } => false,
        _ => true,
    }
}

/// In a tree that is copied without second names none is asked for.
proof fn lemma_next_only_copies(stack: Seq<FrameView>)
    requires
        forall|i: int| 0 <= i < stack.len() ==> !(#[trigger] stack[i]).try_hardlink,
    ensures
        next_entry(stack) matches CopyStepView::Do { copy, action } ==> only_copies(copy)
            && !(action is HardLink),
    decreases stack.len(),
{
    if stack.len() > 0 {
        let outer = stack.drop_last();
        assert(stack[stack.len() - 1] == stack.last());
        assert forall|i: int| 0 <= i < outer.len() implies !(#[trigger] outer[i]).try_hardlink by {
            assert(outer[i] == stack[i]);
        }
        if stack.last().left.len() == 0 {
            lemma_next_only_copies(outer);
        }
    }
}

/// Once a copy gives no second names, it gives none to the end of the tree: no link is tried again
/// between two file systems.
pub proof fn law_copy_mode_stays(c: CopyView, event: CopyEventView)
    requires
        only_copies(c),
        awaited(c, event),
    ensures
        copied_on(c, event) matches CopyStepView::Do { copy, action } ==> only_copies(copy)
            && !(action is HardLink),
{
    lemma_next_only_copies(c.stack);
    if let CopyEventView::Listed(items) = event {
        if let AwaitingView::Listed { src, dst, try_hardlink } = c.awaiting {
            lemma_next_only_copies(c.stack.push(FrameView { src, dst, left: items, try_hardlink }));
        }
    }
}

/// How many entries are left in all the directories.
pub open spec fn entries_left(stack: Seq<FrameView>) -> nat
    decreases stack.len(),
{
    if stack.len() == 0 {
        0
    } else {
        entries_left(stack.drop_last()) + stack.last().left.len()
    }
}

/// A copy leaves nothing out: each step takes one of the entries that are left, and the copy is done
/// when none is.
pub proof fn law_nothing_is_left_out(stack: Seq<FrameView>)
    ensures
        next_entry(stack) is Done <==> entries_left(stack) == 0,
        next_entry(stack) matches CopyStepView::Do { copy, .. } ==> entries_left(copy.stack) + 1
            == entries_left(stack),
        !(next_entry(stack) is Fail),
    decreases stack.len(),
{
    if stack.len() > 0 {
        let top = stack.last();
        let outer = stack.drop_last();
        if top.left.len() == 0 {
            law_nothing_is_left_out(outer);
        } else {
            let after = FrameView { left: top.left.drop_first(), ..top };
            assert(outer.push(after).drop_last() =~= outer);
        }
    }
}

/// An entry lies in its directory: the name follows the path of the directory behind one slash, which
/// is put in only where the path does not end with one.
pub proof fn law_entry_follows_its_directory(dir: Seq<u8>, name: Seq<u8>)
    ensures
        dir.len() > 0 && dir.last() != 0x2f ==> entry_path(dir, name) == dir + seq![0x2fu8] + name,
        dir.len() == 0 || dir.last() == 0x2f ==> entry_path(dir, name) == dir + name,
{
    assert(dir.push(0x2f) =~= dir + seq![0x2fu8]);
}

/// The entries that were told of a directory all wait to be copied: after them as many more are left
/// as were told, but for the first of them, which is copied at once, as what it is and to the same
/// name. A file gets a second name where the directory still gives them, and else is copied.
pub proof fn law_every_told_entry_waits(
    c: CopyView,
    items: Seq<ItemView>,
    src: Seq<u8>,
    dst: Seq<u8>,
    try_hardlink: bool,
)
    requires
        c.awaiting == (AwaitingView::Listed { src, dst, try_hardlink }),
    ensures
        ({
            let r = copied_on(c, CopyEventView::Listed(items));
            &&& r is Done <==> entries_left(c.stack) + items.len() == 0
            &&& r matches CopyStepView::Do { copy, .. } ==> entries_left(copy.stack) + 1
                == entries_left(c.stack) + items.len()
            &&& !(r is Fail)
            &&& items.len() > 0 ==> (r matches CopyStepView::Do { action, .. } && {
                let from = entry_path(src, items[0].name);
                let to = entry_path(dst, items[0].name);
                action == match items[0].kind {
                    EntryKind::Dir => CopyActionView::MakeDir { dst: to, like: Some(from) },
                    EntryKind::Symlink => CopyActionView::MakeLink { src: from, dst: to },
                    EntryKind::File => if try_hardlink {
                        CopyActionView::HardLink { src: from, dst: to }
                    } else {
                        CopyActionView::CopyFile { src: from, dst: to }
                    },
                }
            })
        }),
{
    let pushed = c.stack.push(FrameView { src, dst, left: items, try_hardlink });
    assert(pushed.drop_last() =~= c.stack);
    law_nothing_is_left_out(pushed);
}

/// What follows when something was done: a directory that was made is listed, an entry that is at its
/// place makes way for one of those that are left, and a file that had to be copied has its whole
/// directory listed once more, to be copied without second names.
pub proof fn law_done_leads_on(c: CopyView, text: Seq<char>)
    ensures
        c.awaiting matches AwaitingView::Made { src, dst, try_hardlink } ==> copied_on(
            c,
            CopyEventView::Done,
        ) == (CopyStepView::Do {
            copy: CopyView {
                stack: c.stack,
                awaiting: AwaitingView::Listed { src, dst, try_hardlink },
            },
            action: CopyActionView::List(src),
        }),
        c.awaiting is Copied || c.awaiting is Linked ==> {
            let r = copied_on(c, CopyEventView::Done);
            &&& r is Done <==> entries_left(c.stack) == 0
            &&& r matches CopyStepView::Do { copy, .. } ==> entries_left(copy.stack) + 1 == entries_left(
                c.stack,
            )
            &&& !(r is Fail)
        },
        c.awaiting is Fallback && c.stack.len() > 0 ==> copied_on(c, CopyEventView::Done) == (
        CopyStepView::Do {
            copy: CopyView {
                stack: c.stack.drop_last(),
                awaiting: AwaitingView::Listed {
                    src: c.stack.last().src,
                    dst: c.stack.last().dst,
                    try_hardlink: false,
                },
            },
            action: CopyActionView::List(c.stack.last().src),
        }),
        c.awaiting matches AwaitingView::Linked { src, dst } ==> copied_on(
            c,
            CopyEventView::Failed { code: Some(18i32), text },
        ) == (CopyStepView::Do {
            copy: CopyView { stack: c.stack, awaiting: AwaitingView::Fallback },
            action: CopyActionView::CopyFile { src, dst },
        }),
{
    law_nothing_is_left_out(c.stack);
}

/// Any failure but that of a link between two file systems ends the copy with its text.
pub proof fn law_failure_ends_the_copy(c: CopyView, code: Option<i32>, text: Seq<char>)
    requires
        !(c.awaiting is Linked) || code != Some(18i32),
    ensures
        copied_on(c, CopyEventView::Failed { code, text }) == CopyStepView::Fail(
            ErrorView::Outside(text),
        ),
{
}

/// Everything is kept below one directory in the home of the user; entries are seen as they are.
pub proof fn law_data_lies_in_the_home(home: Seq<char>, item: DirItem, items: Vec<DirItem>, i: int)
    ensures
        data_dir(home) == joined(home, ".moulin"@),
        artifacts_dir(home) == joined(joined(home, ".moulin"@), "build-artifacts"@),
        item.deep_view().name == item.name@ && item.deep_view().kind == item.kind,
        CopyEvent::Listed(items).deep_view() matches CopyEventView::Listed(all) && all.len()
            == items@.len() && (0 <= i < items@.len() ==> all[i] == items@[i].deep_view()),
{
}

} // verus!
