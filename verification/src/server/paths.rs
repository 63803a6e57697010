//! Finding the file on the host that a path inside a sandbox stands for.
use crate::error::{about, Complaint, Error, ErrorView, Fault};
use crate::metadata::{Metadata, MetadataView, MountConfig, MountView, SandboxMetadata, SandboxView};
use crate::path::{
    climbs, components, confined, file_name, has_climb, is_under, join, joined, lies_under,
    law_confined_is_transitive, law_inside_is_transitive, law_join_is_confined,
    name_of, parent, parent_of, parts, show, shown, under, Components, Parts,
};
use crate::table::lookup;
use crate::text::{
    after_prefix, glue, law_trimmed_end_is, law_trimmed_start_is, lemma_one_piece, lemma_pieces_at,
    pieces, same, starts, starts_with, strip_prefix, to_chars, trim_end, trim_start, trimmed_end,
    trimmed_start, Class,
};
use vstd::prelude::*;

verus! {

/// What the file system is asked.
#[derive(Debug)]
pub enum Question {
    /// Whether there is something at the path, links followed.
    Exists(String),
    /// The absolute path with all links followed.
    Canonicalize(String),
    /// Whether the path itself is a symbolic link; it is none where nothing is there.
    IsSymlink(String),
    /// Where the symbolic link leads.
    ReadLink(String),
}

/// The mathematical value of a `Question`.
pub enum QuestionView {
    Exists(Seq<char>),
    Canonicalize(Seq<char>),
    IsSymlink(Seq<char>),
    ReadLink(Seq<char>),
}

impl DeepView for Question {
    type V = QuestionView;

    open spec fn deep_view(&self) -> QuestionView {
        match self {
            Question::Exists(s) => QuestionView::Exists(s@),
            Question::Canonicalize(s) => QuestionView::Canonicalize(s@),
            Question::IsSymlink(s) => QuestionView::IsSymlink(s@),
            Question::ReadLink(s) => QuestionView::ReadLink(s@),
        }
    }
}

/// What the file system answers.
#[derive(Debug)]
pub enum Answer {
    Flag(bool),
    Path(String),
    Failed(String),
}

/// The mathematical value of an `Answer`.
pub enum AnswerView {
    Flag(bool),
    Path(Seq<char>),
    Failed(Seq<char>),
}

impl DeepView for Answer {
    type V = AnswerView;

    open spec fn deep_view(&self) -> AnswerView {
        match self {
            Answer::Flag(b) => AnswerView::Flag(*b),
            Answer::Path(s) => AnswerView::Path(s@),
            Answer::Failed(s) => AnswerView::Failed(s@),
        }
    }
}

/// Whether an answer is of the kind that the question asks for. A path that lies in no directory is
/// never a link.
pub open spec fn suits(q: QuestionView, a: AnswerView) -> bool {
    match q {
        QuestionView::Exists(_) => a is Flag,
        QuestionView::Canonicalize(_) => a is Path || a is Failed,
        QuestionView::IsSymlink(path) => a is Failed || a == AnswerView::Flag(false) || (a
            == AnswerView::Flag(true) && parent_of(parts(path)) is Some),
        QuestionView::ReadLink(_) => a is Path || a is Failed,
    }
}

/// A path that ends in nothing, with the links on its way that lead to nothing: those before `taken`
/// have been looked at.
pub struct Chase {
    pub found: String,
    pub root: String,
    pub links: Vec<String>,
    pub taken: usize,
}

/// The mathematical value of a `Chase`.
#[verifier::ext_equal]
pub struct ChaseView {
    pub found: Seq<char>,
    pub root: Seq<char>,
    pub links: Seq<Seq<char>>,
    pub taken: nat,
}

impl DeepView for Chase {
    type V = ChaseView;

    open spec fn deep_view(&self) -> ChaseView {
        ChaseView {
            found: self.found@,
            root: self.root@,
            links: self.links.deep_view(),
            taken: self.taken as nat,
        }
    }
}

/// How far a path has been resolved. The names below an ancestor are kept with the last one first,
/// and the links that lead to nothing, each once, in the order in which they were met.
pub enum Stage {
    /// Asking whether the path is there.
    Probe { joined: String },
    /// Asking for the real path of what is there.
    Real { joined: String },
    /// Asking whether a path that leads to nothing is a symbolic link.
    Gap { at: Components, below: Vec<String>, links: Vec<String> },
    /// Asking whether an ancestor is there.
    Climb { ancestor: Components, below: Vec<String>, links: Vec<String> },
    /// Asking for the real path of the nearest ancestor that is there.
    Anchor { ancestor: Components, below: Vec<String>, links: Vec<String> },
    /// Asking for the real path of the root.
    Root { found: String, there: bool, links: Vec<String> },
    /// Asking whether what was found is a symbolic link.
    Kind { found: String, root: String },
    /// Asking where it leads.
    Target { found: String, root: String },
    /// Asking for the real path of where it leads.
    Follow { found: String, root: String, target: String },
    /// Asking where a link leads that leads to nothing.
    Lead { chase: Chase, link: String },
    /// Asking whether an ancestor of where it leads is there.
    Seek { chase: Chase, at: Components, below: Vec<String> },
    /// Asking whether an ancestor that leads to nothing is a symbolic link.
    Hole { chase: Chase, at: Components, below: Vec<String> },
    /// Asking for the real path of the nearest ancestor that is there.
    Reach { chase: Chase, at: Components, below: Vec<String> },
}

/// The mathematical value of a `Stage`.
#[verifier::ext_equal]
pub enum StageView {
    Probe { joined: Seq<char> },
    Real { joined: Seq<char> },
    Gap { at: Parts, below: Seq<Seq<char>>, links: Seq<Seq<char>> },
    Climb { ancestor: Parts, below: Seq<Seq<char>>, links: Seq<Seq<char>> },
    Anchor { ancestor: Parts, below: Seq<Seq<char>>, links: Seq<Seq<char>> },
    Root { found: Seq<char>, there: bool, links: Seq<Seq<char>> },
    Kind { found: Seq<char>, root: Seq<char> },
    Target { found: Seq<char>, root: Seq<char> },
    Follow { found: Seq<char>, root: Seq<char>, target: Seq<char> },
    Lead { chase: ChaseView, link: Seq<char> },
    Seek { chase: ChaseView, at: Parts, below: Seq<Seq<char>> },
    Hole { chase: ChaseView, at: Parts, below: Seq<Seq<char>> },
    Reach { chase: ChaseView, at: Parts, below: Seq<Seq<char>> },
}

impl DeepView for Stage {
    type V = StageView;

    open spec fn deep_view(&self) -> StageView {
        match self {
            Stage::Probe { joined } => StageView::Probe { joined: joined@ },
            Stage::Real { joined } => StageView::Real { joined: joined@ },
            Stage::Gap { at, below, links } => StageView::Gap {
                at: at.deep_view(),
                below: below.deep_view(),
                links: links.deep_view(),
            },
            Stage::Climb { ancestor, below, links } => StageView::Climb {
                ancestor: ancestor.deep_view(),
                below: below.deep_view(),
                links: links.deep_view(),
            },
            Stage::Anchor { ancestor, below, links } => StageView::Anchor {
                ancestor: ancestor.deep_view(),
                below: below.deep_view(),
                links: links.deep_view(),
            },
            Stage::Root { found, there, links } => StageView::Root {
                found: found@,
                there: *there,
                links: links.deep_view(),
            },
            Stage::Kind { found, root } => StageView::Kind { found: found@, root: root@ },
            Stage::Target { found, root } => StageView::Target { found: found@, root: root@ },
            Stage::Follow { found, root, target } => StageView::Follow {
                found: found@,
                root: root@,
                target: target@,
            },
            Stage::Lead { chase, link } => StageView::Lead { chase: chase.deep_view(), link: link@ },
            Stage::Seek { chase, at, below } => StageView::Seek {
                chase: chase.deep_view(),
                at: at.deep_view(),
                below: below.deep_view(),
            },
            Stage::Hole { chase, at, below } => StageView::Hole {
                chase: chase.deep_view(),
                at: at.deep_view(),
                below: below.deep_view(),
            },
            Stage::Reach { chase, at, below } => StageView::Reach {
                chase: chase.deep_view(),
                at: at.deep_view(),
                below: below.deep_view(),
            },
        }
    }
}

/// A path that is being resolved inside the directory `merged`.
pub struct Resolver {
    pub merged: String,
    pub stage: Stage,
}

/// The mathematical value of a `Resolver`.
#[verifier::ext_equal]
pub struct ResolverView {
    pub merged: Seq<char>,
    pub stage: StageView,
}

impl DeepView for Resolver {
    type V = ResolverView;

    open spec fn deep_view(&self) -> ResolverView {
        ResolverView { merged: self.merged@, stage: self.stage.deep_view() }
    }
}

/// The end of resolving a path, or what is to be asked next.
pub enum Resolution {
    Done(String),
    Refused(Error),
    Ask(Resolver),
}

/// The mathematical value of a `Resolution`.
#[verifier::ext_equal]
pub enum ResolutionView {
    Done(Seq<char>),
    Refused(ErrorView),
    Ask(ResolverView),
}

impl DeepView for Resolution {
    type V = ResolutionView;

    open spec fn deep_view(&self) -> ResolutionView {
        match self {
            Resolution::Done(s) => ResolutionView::Done(s@),
            Resolution::Refused(e) => ResolutionView::Refused(e.deep_view()),
            Resolution::Ask(r) => ResolutionView::Ask(r.deep_view()),
        }
    }
}

/// What a path that is being resolved needs to know.
pub open spec fn asks(r: ResolverView) -> QuestionView {
    match r.stage {
        StageView::Probe { joined } => QuestionView::Exists(joined),
        StageView::Real { joined } => QuestionView::Canonicalize(joined),
        StageView::Gap { at, .. } => QuestionView::IsSymlink(shown(at)),
        StageView::Climb { ancestor, .. } => QuestionView::Exists(shown(ancestor)),
        StageView::Anchor { ancestor, .. } => QuestionView::Canonicalize(shown(ancestor)),
        StageView::Root { .. } => QuestionView::Canonicalize(r.merged),
        StageView::Kind { found, .. } => QuestionView::IsSymlink(found),
        StageView::Target { found, .. } => QuestionView::ReadLink(found),
        StageView::Follow { target, .. } => QuestionView::Canonicalize(target),
        StageView::Lead { link, .. } => QuestionView::ReadLink(link),
        StageView::Seek { at, .. } => QuestionView::Exists(shown(at)),
        StageView::Hole { at, .. } => QuestionView::IsSymlink(shown(at)),
        StageView::Reach { at, .. } => QuestionView::Canonicalize(shown(at)),
    }
}

impl Resolver {
    /// What is to be asked next.
    pub fn question(&self) -> (r: Question)
        ensures
            r.deep_view() == asks(self.deep_view()),
    {
        match &self.stage {
            Stage::Probe { joined } => Question::Exists(joined.clone()),
            Stage::Real { joined } => Question::Canonicalize(joined.clone()),
            Stage::Gap { at, .. } => Question::IsSymlink(show(at)),
            Stage::Climb { ancestor, .. } => Question::Exists(show(ancestor)),
            Stage::Anchor { ancestor, .. } => Question::Canonicalize(show(ancestor)),
            Stage::Root { .. } => Question::Canonicalize(self.merged.clone()),
            Stage::Kind { found, .. } => Question::IsSymlink(found.clone()),
            Stage::Target { found, .. } => Question::ReadLink(found.clone()),
            Stage::Follow { target, .. } => Question::Canonicalize(target.clone()),
            Stage::Lead { link, .. } => Question::ReadLink(link.clone()),
            Stage::Seek { at, .. } => Question::Exists(show(at)),
            Stage::Hole { at, .. } => Question::IsSymlink(show(at)),
            Stage::Reach { at, .. } => Question::Canonicalize(show(at)),
        }
    }
}

/// Resolving is refused for this reason.
pub open spec fn refused(f: Fault) -> ResolutionView {
    ResolutionView::Refused(ErrorView::Plain(f))
}

/// Going on in this stage.
pub open spec fn go_on(merged: Seq<char>, stage: StageView) -> ResolutionView {
    ResolutionView::Ask(ResolverView { merged, stage })
}

/// One step up from `at`, which leads to nothing.
pub open spec fn step_up(
    merged: Seq<char>,
    at: Parts,
    below: Seq<Seq<char>>,
    links: Seq<Seq<char>>,
) -> ResolutionView {
    match parent_of(at) {
        None => refused(Fault::NoAncestor),
        Some(up) => match name_of(at) {
            None => refused(Fault::NoFileName),
            Some(name) => go_on(
                merged,
                StageView::Climb { ancestor: up, below: below.push(name), links },
            ),
        },
    }
}

/// The links with one more, unless it is among them.
pub open spec fn noted(links: Seq<Seq<char>>, link: Seq<char>) -> Seq<Seq<char>> {
    if links.contains(link) {
        links
    } else {
        links.push(link)
    }
}

/// Turns to the next link that leads to nothing; where none is left, the path is handed out.
pub open spec fn next_link(merged: Seq<char>, c: ChaseView) -> ResolutionView {
    if c.taken >= c.links.len() {
        ResolutionView::Done(c.found)
    } else {
        go_on(
            merged,
            StageView::Lead {
                chase: ChaseView { taken: c.taken + 1, ..c },
                link: c.links[c.taken as int],
            },
        )
    }
}

/// One step up from `at`, a place that a link leads to and that leads to nothing.
pub open spec fn seek_up(
    merged: Seq<char>,
    chase: ChaseView,
    at: Parts,
    below: Seq<Seq<char>>,
) -> ResolutionView {
    match parent_of(at) {
        None => refused(Fault::LinkEscapesRoot),
        Some(up) => go_on(
            merged,
            StageView::Seek { chase, at: up, below: below.push(at.names.last()) },
        ),
    }
}

/// One name further from `base`, where nothing is there: two dots take the last name back.
pub open spec fn stepped(base: Parts, name: Seq<char>) -> Parts {
    if name != ".."@ {
        Parts { names: base.names.push(name), ..base }
    } else if base.names.len() > 0 {
        Parts { names: base.names.drop_last(), ..base }
    } else {
        base
    }
}

/// The place that the names lead to from `base`, the last one first, where nothing is there.
pub open spec fn walked(base: Parts, below: Seq<Seq<char>>) -> Parts
    decreases below.len(),
{
    if below.len() == 0 {
        base
    } else {
        walked(stepped(base, below.last()), below.drop_last())
    }
}

/// The place that a link leads to: from its own directory where `target` is relative.
pub open spec fn target_of(link: Seq<char>, target: Seq<char>) -> Seq<char> {
    if target.len() > 0 && target[0] == '/' {
        target
    } else {
        joined(parent_text(link), target)
    }
}

/// `base` with the names put behind it, the last one first.
pub open spec fn extended(base: Seq<char>, below: Seq<Seq<char>>) -> Seq<char>
    decreases below.len(),
{
    if below.len() == 0 {
        base
    } else {
        extended(joined(base, below.last()), below.drop_last())
    }
}

/// The start of resolving `user_path` inside `merged`: a path with two dots between slashes is
/// refused at once.
pub open spec fn resolving(merged: Seq<char>, user_path: Seq<char>) -> ResolutionView {
    let stripped = trimmed_start(user_path, Class::Only('/'));
    if climbs(stripped) {
        refused(Fault::PathClimbs)
    } else {
        go_on(merged, StageView::Probe { joined: joined(merged, stripped) })
    }
}

/// What follows from the answer to what was asked.
pub open spec fn advanced(r: ResolverView, a: AnswerView) -> ResolutionView {
    match a {
        AnswerView::Failed(text) => ResolutionView::Refused(ErrorView::Outside(text)),
        AnswerView::Flag(yes) => match r.stage {
            StageView::Probe { joined } => if yes {
                go_on(r.merged, StageView::Real { joined })
            } else {
                go_on(
                    r.merged,
                    StageView::Gap { at: parts(joined), below: Seq::empty(), links: Seq::empty() },
                )
            },
            StageView::Gap { at, below, links } => step_up(
                r.merged,
                at,
                below,
                if yes {
                    noted(links, shown(at))
                } else {
                    links
                },
            ),
            StageView::Climb { ancestor, below, links } => if yes {
                go_on(r.merged, StageView::Anchor { ancestor, below, links })
            } else {
                go_on(r.merged, StageView::Gap { at: ancestor, below, links })
            },
            StageView::Kind { found, root } => if yes {
                go_on(r.merged, StageView::Target { found, root })
            } else {
                ResolutionView::Done(found)
            },
            StageView::Seek { chase, at, below } => if yes {
                go_on(r.merged, StageView::Reach { chase, at, below })
            } else {
                go_on(r.merged, StageView::Hole { chase, at, below })
            },
            StageView::Hole { chase, at, below } => seek_up(
                r.merged,
                if yes {
                    ChaseView { links: noted(chase.links, shown(at)), ..chase }
                } else {
                    chase
                },
                at,
                below,
            ),
            _ => refused(Fault::EscapesRoot),
        },
        AnswerView::Path(path) => match r.stage {
            StageView::Real { .. } => go_on(
                r.merged,
                StageView::Root { found: path, there: true, links: Seq::empty() },
            ),
            StageView::Anchor { below, links, .. } => go_on(
                r.merged,
                StageView::Root { found: extended(path, below), there: false, links },
            ),
            StageView::Root { found, there, links } => if !under(parts(found), parts(path)) {
                refused(Fault::EscapesRoot)
            } else if there {
                go_on(r.merged, StageView::Kind { found, root: path })
            } else {
                next_link(r.merged, ChaseView { found, root: path, links, taken: 0 })
            },
            StageView::Target { found, root } => go_on(
                r.merged,
                StageView::Follow { found, root, target: target_of(found, path) },
            ),
            StageView::Follow { found, root, .. } => if under(parts(path), parts(root)) {
                ResolutionView::Done(found)
            } else {
                refused(Fault::LinkEscapesRoot)
            },
            StageView::Lead { chase, link } => go_on(
                r.merged,
                StageView::Seek { chase, at: parts(target_of(link, path)), below: Seq::empty() },
            ),
            StageView::Reach { chase, below, .. } => if under(
                walked(parts(path), below),
                parts(chase.root),
            ) {
                next_link(r.merged, chase)
            } else {
                refused(Fault::LinkEscapesRoot)
            },
            _ => refused(Fault::EscapesRoot),
        },
    }
}

/// The directory that a path lies in; empty where it has none.
pub open spec fn parent_text(path: Seq<char>) -> Seq<char> {
    match parent_of(parts(path)) {
        Some(up) => shown(up),
        None => Seq::empty(),
    }
}

/// Goes one step up.
fn climb(merged: String, at: &Components, below: Vec<String>, links: Vec<String>) -> (r: Resolution)
    ensures
        r.deep_view() == step_up(
            merged@,
            at.deep_view(),
            below.deep_view(),
            links.deep_view(),
        ),
{
    match parent(at) {
        None => Resolution::Refused(Error::Plain(Fault::NoAncestor)),
        Some(up) => match file_name(at) {
            None => Resolution::Refused(Error::Plain(Fault::NoFileName)),
            Some(name) => {
                let mut below = below;
                let ghost before = below.deep_view();
                let ghost nv = name@;
                below.push(name);
                proof {
                    assert(below.deep_view() =~= before.push(nv));
                }
                Resolution::Ask(
                    Resolver { merged, stage: Stage::Climb { ancestor: up, below, links } },
                )
            },
        },
    }
}

/// Notes one more link.
fn note(links: Vec<String>, link: String) -> (r: Vec<String>)
    ensures
        r.deep_view() == noted(links.deep_view(), link@),
{
    let mut all = links;
    let ghost s = all.deep_view();
    let mut i: usize = 0;
    while i < all.len()
        invariant
            i <= all@.len(),
            s == all.deep_view(),
            s == links.deep_view(),
            forall|j: int| 0 <= j < i ==> #[trigger] s[j] != link@,
        decreases all@.len() - i,
    {
        proof {
            assert(s[i as int] == all@[i as int]@);
        }
        if same(all[i].as_str(), link.as_str()) {
            proof {
                assert(s.contains(link@));
            }
            return all;
        }
        i = i + 1;
    }
    proof {
        assert(!s.contains(link@));
    }
    let ghost lv = link@;
    all.push(link);
    proof {
        assert(all.deep_view() =~= s.push(lv));
    }
    all
}

/// Turns to the next link.
fn turn_to_link(merged: String, chase: Chase) -> (r: Resolution)
    ensures
        r.deep_view() == next_link(merged@, chase.deep_view()),
{
    if chase.taken >= chase.links.len() {
        Resolution::Done(chase.found)
    } else {
        let link = chase.links[chase.taken].clone();
        let taken: usize = chase.taken + 1;
        let chase = Chase { taken, ..chase };
        Resolution::Ask(Resolver { merged, stage: Stage::Lead { chase, link } })
    }
}

/// Goes one step up from a place that a link leads to.
fn climb_from_link(merged: String, chase: Chase, at: &Components, below: Vec<String>) -> (r:
    Resolution)
    ensures
        r.deep_view() == seek_up(
            merged@,
            chase.deep_view(),
            at.deep_view(),
            below.deep_view(),
        ),
{
    match parent(at) {
        None => Resolution::Refused(Error::Plain(Fault::LinkEscapesRoot)),
        Some(up) => {
            let mut below = below;
            let ghost before = below.deep_view();
            let name = at.names[at.names.len() - 1].clone();
            let ghost nv = name@;
            below.push(name);
            proof {
                assert(nv == at.deep_view().names.last());
                assert(below.deep_view() =~= before.push(nv));
            }
            Resolution::Ask(Resolver { merged, stage: Stage::Seek { chase, at: up, below } })
        },
    }
}

/// Walks from `base` where nothing is there.
fn walk(base: Components, below: Vec<String>) -> (r: Components)
    ensures
        r.deep_view() == walked(base.deep_view(), below.deep_view()),
{
    let rooted = base.rooted;
    let mut names = base.names;
    let mut left = below;
    while left.len() > 0
        invariant
            walked(Parts { rooted, names: names.deep_view() }, left.deep_view()) == walked(
                base.deep_view(),
                below.deep_view(),
            ),
        decreases left@.len(),
    {
        let ghost before = left.deep_view();
        let ghost so_far = names.deep_view();
        if let Some(name) = left.pop() {
            let ghost nv = name@;
            proof {
                assert(left.deep_view() =~= before.drop_last());
                assert(before.last() == nv);
            }
            if !same(name.as_str(), "..") {
                names.push(name);
                proof {
                    assert(names.deep_view() =~= so_far.push(nv));
                }
            } else if names.len() > 0 {
                names.pop();
                proof {
                    assert(names.deep_view() =~= so_far.drop_last());
                }
            }
        }
    }
    Components { rooted, names }
}

/// The place that a link leads to.
fn place_of_link(link: &str, target: String) -> (r: String)
    ensures
        r@ == target_of(link@, target@),
{
    let chars = to_chars(target.as_str());
    if chars.len() > 0 && chars[0] == '/' {
        target
    } else {
        let at = components(link);
        let up = match parent(&at) {
            Some(up) => show(&up),
            None => String::new(),
        };
        join(up.as_str(), target.as_str())
    }
}

/// Puts the names behind `base`.
fn extend(base: String, below: Vec<String>) -> (r: String)
    ensures
        r@ == extended(base@, below.deep_view()),
{
    let mut path = base;
    let mut left = below;
    while left.len() > 0
        invariant
            extended(path@, left.deep_view()) == extended(base@, below.deep_view()),
        decreases left@.len(),
    {
        let ghost before = left.deep_view();
        if let Some(name) = left.pop() {
            proof {
                assert(left.deep_view() =~= before.drop_last());
                assert(before.last() == name@);
            }
            path = join(path.as_str(), name.as_str());
        }
    }
    path
}

/// Starts resolving a path inside the root directory of a sandbox.
pub fn resolve_sandbox_path(merged_dir: &str, user_path: &str) -> (r: Resolution)
    ensures
        r.deep_view() == resolving(merged_dir@, user_path@),
{
    let stripped = trim_start(user_path, Class::Only('/'));
    if has_climb(stripped.as_str()) {
        Resolution::Refused(Error::Plain(Fault::PathClimbs))
    } else {
        let joined = join(merged_dir, stripped.as_str());
        Resolution::Ask(Resolver { merged: merged_dir.to_owned(), stage: Stage::Probe { joined } })
    }
}

impl Resolver {
    /// Goes on with the answer to what was asked.
    pub fn advance(self, answer: Answer) -> (r: Resolution)
        requires
            suits(asks(self.deep_view()), answer.deep_view()),
        ensures
            r.deep_view() == advanced(self.deep_view(), answer.deep_view()),
    {
        let merged = self.merged;
        match answer {
            Answer::Failed(text) => Resolution::Refused(Error::Outside(text)),
            Answer::Flag(yes) => match self.stage {
                Stage::Probe { joined } => {
                    if yes {
                        Resolution::Ask(Resolver { merged, stage: Stage::Real { joined } })
                    } else {
                        let at = components(joined.as_str());
                        let below: Vec<String> = Vec::new();
                        let links: Vec<String> = Vec::new();
                        proof {
                            assert(below.deep_view() =~= Seq::<Seq<char>>::empty());
                            assert(links.deep_view() =~= Seq::<Seq<char>>::empty());
                        }
                        Resolution::Ask(Resolver { merged, stage: Stage::Gap { at, below, links } })
                    }
                },
                Stage::Gap { at, below, links } => {
                    if yes {
                        let links = note(links, show(&at));
                        climb(merged, &at, below, links)
                    } else {
                        climb(merged, &at, below, links)
                    }
                },
                Stage::Climb { ancestor, below, links } => {
                    if yes {
                        Resolution::Ask(
                            Resolver { merged, stage: Stage::Anchor { ancestor, below, links } },
                        )
                    } else {
                        Resolution::Ask(
                            Resolver { merged, stage: Stage::Gap { at: ancestor, below, links } },
                        )
                    }
                },
                Stage::Kind { found, root } => {
                    if yes {
                        Resolution::Ask(Resolver { merged, stage: Stage::Target { found, root } })
                    } else {
                        Resolution::Done(found)
                    }
                },
                Stage::Seek { chase, at, below } => {
                    if yes {
                        Resolution::Ask(Resolver { merged, stage: Stage::Reach { chase, at, below } })
                    } else {
                        Resolution::Ask(Resolver { merged, stage: Stage::Hole { chase, at, below } })
                    }
                },
                Stage::Hole { chase, at, below } => {
                    if yes {
                        let Chase { found, root, links, taken } = chase;
                        let links = note(links, show(&at));
                        climb_from_link(merged, Chase { found, root, links, taken }, &at, below)
                    } else {
                        climb_from_link(merged, chase, &at, below)
                    }
                },
                _ => Resolution::Refused(Error::Plain(Fault::EscapesRoot)),
            },
            Answer::Path(path) => match self.stage {
                Stage::Real { .. } => {
                    let links: Vec<String> = Vec::new();
                    proof {
                        assert(links.deep_view() =~= Seq::<Seq<char>>::empty());
                    }
                    Resolution::Ask(
                        Resolver { merged, stage: Stage::Root { found: path, there: true, links } },
                    )
                },
                Stage::Anchor { below, links, .. } => {
                    let found = extend(path, below);
                    Resolution::Ask(
                        Resolver { merged, stage: Stage::Root { found, there: false, links } },
                    )
                },
                Stage::Root { found, there, links } => {
                    if !is_under(found.as_str(), path.as_str()) {
                        Resolution::Refused(Error::Plain(Fault::EscapesRoot))
                    } else if there {
                        Resolution::Ask(
                            Resolver { merged, stage: Stage::Kind { found, root: path } },
                        )
                    } else {
                        turn_to_link(merged, Chase { found, root: path, links, taken: 0 })
                    }
                },
                Stage::Target { found, root } => {
                    let target = place_of_link(found.as_str(), path);
                    Resolution::Ask(
                        Resolver { merged, stage: Stage::Follow { found, root, target } },
                    )
                },
                Stage::Follow { found, root, .. } => {
                    if is_under(path.as_str(), root.as_str()) {
                        Resolution::Done(found)
                    } else {
                        Resolution::Refused(Error::Plain(Fault::LinkEscapesRoot))
                    }
                },
                Stage::Lead { chase, link } => {
                    let place = place_of_link(link.as_str(), path);
                    let at = components(place.as_str());
                    let below: Vec<String> = Vec::new();
                    proof {
                        assert(below.deep_view() =~= Seq::<Seq<char>>::empty());
                    }
                    Resolution::Ask(Resolver { merged, stage: Stage::Seek { chase, at, below } })
                },
                Stage::Reach { chase, below, .. } => {
                    let place = walk(components(path.as_str()), below);
                    if lies_under(&place, &components(chase.root.as_str())) {
                        turn_to_link(merged, chase)
                    } else {
                        Resolution::Refused(Error::Plain(Fault::LinkEscapesRoot))
                    }
                },
                _ => Resolution::Refused(Error::Plain(Fault::EscapesRoot)),
            },
        }
    }
}

/// Where the answers lead that were given so far.
pub open spec fn run(
    merged: Seq<char>,
    user_path: Seq<char>,
    answers: Seq<AnswerView>,
) -> ResolutionView
    decreases answers.len(),
{
    if answers.len() == 0 {
        resolving(merged, user_path)
    } else {
        match run(merged, user_path, answers.drop_last()) {
            ResolutionView::Ask(r) => advanced(r, answers.last()),
            end => end,
        }
    }
}

/// Leading slashes do not hide two dots.
proof fn lemma_climb_behind_slashes(s: Seq<char>)
    requires
        climbs(s),
    ensures
        climbs(trimmed_start(s, Class::Only('/'))),
    decreases s.len(),
{
    if s.len() > 0 && s[0] == '/' {
        let rest = s.drop_first();
        let none = Seq::<char>::empty();
        assert(none.push('/') + rest =~= s);
        lemma_pieces_at(none, '/', rest);
        let p = pieces(s, Class::Only('/'));
        let k = choose|k: int| 0 <= k < p.len() && p[k] == ".."@;
        assert(pieces(none, Class::Only('/')) =~= seq![none]);
        reveal_strlit("..");
        assert(k > 0);
        assert(pieces(rest, Class::Only('/'))[k - 1] == ".."@);
        lemma_climb_behind_slashes(rest);
    }
}

/// A path with two dots between slashes is refused before the file system is asked anything.
pub proof fn law_two_dots_are_refused(merged: Seq<char>, user_path: Seq<char>)
    requires
        climbs(user_path),
    ensures
        resolving(merged, user_path) == refused(Fault::PathClimbs),
{
    lemma_climb_behind_slashes(user_path);
}

/// Whether `path` is where the mount appears, or lies below it.
pub open spec fn covers(mount_path: Seq<char>, path: Seq<char>) -> bool {
    let m = trimmed_end(mount_path, Class::Only('/'));
    let p = trimmed_end(path, Class::Only('/'));
    p == m || starts(p, m + "/"@)
}

/// The position of the first mount that covers `path`; the number of mounts where none does.
pub open spec fn first_mount(mounts: Seq<MountView>, path: Seq<char>) -> int
    decreases mounts.len(),
{
    if mounts.len() == 0 || covers(mounts[0].mount_path, path) {
        0
    } else {
        1 + first_mount(mounts.drop_first(), path)
    }
}

/// The mount that `path` belongs to.
pub open spec fn mount_of(mounts: Seq<MountView>, path: Seq<char>) -> Option<MountView> {
    let k = first_mount(mounts, path);
    if k < mounts.len() {
        Some(mounts[k])
    } else {
        None
    }
}

/// The first mount is determined by those that stand before it.
proof fn lemma_first_mount(mounts: Seq<MountView>, path: Seq<char>, k: int)
    requires
        0 <= k <= mounts.len(),
        k < mounts.len() ==> covers(mounts[k].mount_path, path),
        forall|i: int| 0 <= i < k ==> !covers((#[trigger] mounts[i]).mount_path, path),
    ensures
        first_mount(mounts, path) == k,
    decreases mounts.len(),
{
    if k > 0 {
        let rest = mounts.drop_first();
        assert(!covers(mounts[0].mount_path, path));
        assert forall|i: int| 0 <= i < k - 1 implies !covers((#[trigger] rest[i]).mount_path, path) by {
            assert(rest[i] == mounts[i + 1]);
        }
        lemma_first_mount(rest, path, k - 1);
    }
}

/// Whether `path` is where the mount appears, or lies below it.
fn is_covered(mount_path: &str, path: &str) -> (r: bool)
    ensures
        r == covers(mount_path@, path@),
{
    let m = trim_end(mount_path, Class::Only('/'));
    let p = trim_end(path, Class::Only('/'));
    let start = glue(m.as_str(), "/");
    same(p.as_str(), m.as_str()) || starts_with(p.as_str(), start.as_str())
}

/// The position of the mount that `path` belongs to.
fn find_mount(mounts: &Vec<MountConfig>, path: &str) -> (r: usize)
    ensures
        r == first_mount(mounts.deep_view(), path@),
        r <= mounts@.len(),
{
    let ghost s = mounts.deep_view();
    let mut i: usize = 0;
    while i < mounts.len()
        invariant
            i <= mounts@.len(),
            s == mounts.deep_view(),
            forall|j: int| 0 <= j < i ==> !covers((#[trigger] s[j]).mount_path, path@),
        ensures
            i <= mounts@.len(),
            s == mounts.deep_view(),
            forall|j: int| 0 <= j < i ==> !covers((#[trigger] s[j]).mount_path, path@),
            i < mounts@.len() ==> covers(s[i as int].mount_path, path@),
        decreases mounts@.len() - i,
    {
        if is_covered(mounts[i].mount_path.as_str(), path) {
            break;
        }
        i = i + 1;
    }
    proof {
        lemma_first_mount(s, path@, i as int);
    }
    i
}

/// The directory of the host that a mount shows: the volume, or a directory in it. Leading slashes
/// of the path inside the volume do not count.
pub open spec fn mount_root(volume_path: Seq<char>, subpath: Option<Seq<char>>) -> Seq<char> {
    match subpath {
        Some(s) => {
            let inner = trimmed_start(s, Class::Only('/'));
            if inner.len() > 0 {
                joined(volume_path, inner)
            } else {
                volume_path
            }
        },
        None => volume_path,
    }
}

/// The directory of the host that a mount shows.
pub fn root_of_mount(volume_path: &str, subpath: &Option<String>) -> (r: String)
    ensures
        r@ == mount_root(volume_path@, subpath.deep_view()),
{
    match subpath {
        Some(s) => {
            let inner = trim_start(s.as_str(), Class::Only('/'));
            if inner.as_str().is_empty() {
                volume_path.to_owned()
            } else {
                join(volume_path, inner.as_str())
            }
        },
        None => volume_path.to_owned(),
    }
}

/// What follows the mount in a path: the path inside the mount.
pub open spec fn path_in_mount(mount_path: Seq<char>, path: Seq<char>) -> Seq<char> {
    let rest = match after_prefix(path, trimmed_end(mount_path, Class::Only('/'))) {
        Some(rest) => rest,
        None => Seq::empty(),
    };
    trimmed_start(rest, Class::Only('/'))
}

/// The place inside a mounted volume that `path` stands for.
pub open spec fn in_mount(m: MetadataView, mount: MountView, path: Seq<char>) -> ResolutionView {
    match lookup(m.volumes, mount.volume_id) {
        None => ResolutionView::Refused(
            ErrorView::About(Complaint::VolumeNotFound, mount.volume_id),
        ),
        Some(volume) => {
            let relative = path_in_mount(mount.mount_path, path);
            let root = mount_root(volume.path, mount.subpath);
            if climbs(relative) {
                refused(Fault::PathClimbs)
            } else if relative.len() == 0 {
                ResolutionView::Done(root)
            } else {
                ResolutionView::Done(joined(root, relative))
            }
        },
    }
}

/// The directory that shows the files of a sandbox.
pub open spec fn merged_of(dir: Seq<char>) -> Seq<char> {
    joined(dir, "merged"@)
}

/// The place on the host that a path inside a sandbox stands for: in a volume where one is mounted
/// there, else in the file system of the sandbox.
pub open spec fn located(sandbox: SandboxView, m: MetadataView, path: Seq<char>) -> ResolutionView {
    match mount_of(sandbox.mounts, path) {
        Some(mount) => in_mount(m, mount, path),
        None => resolving(merged_of(sandbox.dir), path),
    }
}

/// Starts finding the place on the host that a path inside a sandbox stands for.
pub fn resolve_file_path(sandbox: &SandboxMetadata, metadata: &Metadata, user_path: &str) -> (r:
    Resolution)
    ensures
        r.deep_view() == located(sandbox.deep_view(), metadata.deep_view(), user_path@),
{
    let k: usize = find_mount(&sandbox.mounts, user_path);
    if k < sandbox.mounts.len() {
        let mount = &sandbox.mounts[k];
        let volume = match metadata.volumes.get(mount.volume_id.as_str()) {
            Some(volume) => volume,
            None => {
                return Resolution::Refused(
                    about(Complaint::VolumeNotFound, mount.volume_id.as_str()),
                );
            },
        };
        let mount_path = trim_end(mount.mount_path.as_str(), Class::Only('/'));
        let rest = match strip_prefix(user_path, mount_path.as_str()) {
            Some(rest) => rest,
            None => String::new(),
        };
        let relative = trim_start(rest.as_str(), Class::Only('/'));
        if has_climb(relative.as_str()) {
            return Resolution::Refused(Error::Plain(Fault::PathClimbs));
        }
        let root = root_of_mount(volume.path.as_str(), &mount.subpath);
        if relative.as_str().is_empty() {
            Resolution::Done(root)
        } else {
            Resolution::Done(join(root.as_str(), relative.as_str()))
        }
    } else {
        let merged = join(sandbox.dir.as_str(), "merged");
        resolve_sandbox_path(merged.as_str(), user_path)
    }
}

/// Whether `path` lies in a mount that can only be read, be it inside one that can be written.
pub open spec fn read_only(mounts: Seq<MountView>, path: Seq<char>) -> bool {
    exists|i: int|
        0 <= i < mounts.len() && covers((#[trigger] mounts[i]).mount_path, path)
            && mounts[i].readonly
}

/// Whether a path inside a sandbox lies in a mount that can only be read.
pub fn is_readonly_mount(sandbox: &SandboxMetadata, user_path: &str) -> (r: bool)
    ensures
        r == read_only(sandbox.mounts.deep_view(), user_path@),
{
    let ghost s = sandbox.mounts.deep_view();
    let mut i: usize = 0;
    while i < sandbox.mounts.len()
        invariant
            i <= sandbox.mounts@.len(),
            s == sandbox.mounts.deep_view(),
            forall|j: int|
                0 <= j < i ==> !(covers((#[trigger] s[j]).mount_path, user_path@) && s[j].readonly),
        decreases sandbox.mounts@.len() - i,
    {
        proof {
            assert(s[i as int] == sandbox.mounts@[i as int].deep_view());
        }
        if sandbox.mounts[i].readonly && is_covered(
            sandbox.mounts[i].mount_path.as_str(),
            user_path,
        ) {
            return true;
        }
        i = i + 1;
    }
    false
}

/// Nothing is left of the leading slashes.
proof fn lemma_no_leading_slash(s: Seq<char>)
    ensures
        trimmed_start(s, Class::Only('/')).len() > 0 ==> trimmed_start(s, Class::Only('/'))[0] != '/',
    decreases s.len(),
{
    if s.len() > 0 && s[0] == '/' {
        lemma_no_leading_slash(s.drop_first());
    }
}

/// Leading slashes do not bring two dots.
proof fn lemma_no_climb_behind_slashes(s: Seq<char>)
    requires
        climbs(trimmed_start(s, Class::Only('/'))),
    ensures
        climbs(s),
    decreases s.len(),
{
    if s.len() > 0 && s[0] == '/' {
        let rest = s.drop_first();
        let none = Seq::<char>::empty();
        lemma_no_climb_behind_slashes(rest);
        assert(none.push('/') + rest =~= s);
        lemma_pieces_at(none, '/', rest);
        let p = pieces(rest, Class::Only('/'));
        let k = choose|k: int| 0 <= k < p.len() && p[k] == ".."@;
        assert(pieces(none, Class::Only('/')) =~= seq![none]);
        assert(pieces(s, Class::Only('/'))[k + 1] == ".."@);
    }
}

/// The directory that a mount shows lies in its volume, be the path inside the volume absolute or
/// not; where that path does not climb, no two dots lead out of the volume.
pub proof fn law_mount_root_lies_in_volume(volume_path: Seq<char>, subpath: Option<Seq<char>>)
    ensures
        under(parts(mount_root(volume_path, subpath)), parts(volume_path)),
        (subpath matches Some(s) ==> !climbs(s)) ==> confined(
            parts(mount_root(volume_path, subpath)),
            parts(volume_path),
        ),
{
    let names = parts(volume_path).names;
    assert(names.take(names.len() as int) =~= names);
    assert(names.skip(names.len() as int) =~= Seq::<Seq<char>>::empty());
    if let Some(s) = subpath {
        let inner = trimmed_start(s, Class::Only('/'));
        lemma_no_leading_slash(s);
        if inner.len() > 0 {
            law_join_is_confined(volume_path, inner);
            if climbs(inner) {
                lemma_no_climb_behind_slashes(s);
            }
        }
    }
}

/// A place in a mounted volume lies in the directory of the volume on the host, whatever the path
/// inside the volume that is mounted; where that path does not climb, no two dots lead out of the
/// volume.
pub proof fn law_mounted_path_lies_in_volume(
    m: MetadataView,
    mount: MountView,
    path: Seq<char>,
    place: Seq<char>,
)
    requires
        in_mount(m, mount, path) == ResolutionView::Done(place),
    ensures
        lookup(m.volumes, mount.volume_id) matches Some(volume) && {
            &&& under(parts(place), parts(volume.path))
            &&& (mount.subpath matches Some(s) ==> !climbs(s)) ==> confined(
                parts(place),
                parts(volume.path),
            )
        },
{
    let volume_path = lookup(m.volumes, mount.volume_id)->0.path;
    let root = mount_root(volume_path, mount.subpath);
    let relative = path_in_mount(mount.mount_path, path);
    let rest = match after_prefix(path, trimmed_end(mount.mount_path, Class::Only('/'))) {
        Some(rest) => rest,
        None => Seq::empty(),
    };
    lemma_no_leading_slash(rest);
    law_mount_root_lies_in_volume(volume_path, mount.subpath);
    if relative.len() > 0 {
        law_join_is_confined(root, relative);
        law_inside_is_transitive(parts(place), parts(root), parts(volume_path));
        if confined(parts(root), parts(volume_path)) {
            law_confined_is_transitive(parts(place), parts(root), parts(volume_path));
        }
    }
}

/// A path is looked up in the first mount that covers it, and in the file system of the sandbox
/// where none does. It can be written only where no mount that covers it is read-only.
pub proof fn law_one_mount_decides(
    sandbox: SandboxView,
    m: MetadataView,
    path: Seq<char>,
)
    ensures
        match mount_of(sandbox.mounts, path) {
            Some(mount) => {
                &&& covers(mount.mount_path, path)
                &&& sandbox.mounts.contains(mount)
                &&& located(sandbox, m, path) == in_mount(m, mount, path)
                &&& mount.readonly ==> read_only(sandbox.mounts, path)
            },
            None => {
                &&& located(sandbox, m, path) == resolving(merged_of(sandbox.dir), path)
                &&& !read_only(sandbox.mounts, path)
                &&& forall|i: int|
                    0 <= i < sandbox.mounts.len() ==> !covers(
                        (#[trigger] sandbox.mounts[i]).mount_path,
                        path,
                    )
            },
        },
        !read_only(sandbox.mounts, path) ==> forall|i: int|
            0 <= i < sandbox.mounts.len() && covers(
                (#[trigger] sandbox.mounts[i]).mount_path,
                path,
            ) ==> !sandbox.mounts[i].readonly,
{
    lemma_mount_covers(sandbox.mounts, path);
}

/// What `first_mount` finds covers the path, and nothing before it does.
proof fn lemma_mount_covers(mounts: Seq<MountView>, path: Seq<char>)
    ensures
        0 <= first_mount(mounts, path) <= mounts.len(),
        first_mount(mounts, path) < mounts.len() ==> covers(
            mounts[first_mount(mounts, path)].mount_path,
            path,
        ),
        forall|i: int|
            0 <= i < first_mount(mounts, path) ==> !covers((#[trigger] mounts[i]).mount_path, path),
    decreases mounts.len(),
{
    if mounts.len() > 0 && !covers(mounts[0].mount_path, path) {
        let rest = mounts.drop_first();
        lemma_mount_covers(rest, path);
        assert forall|i: int| 0 <= i < first_mount(mounts, path) implies !covers(
            (#[trigger] mounts[i]).mount_path,
            path,
        ) by {
            if i > 0 {
                assert(mounts[i] == rest[i - 1]);
            }
        }
    }
}

/// Slashes at the end of a mount or of a path do not count; and without them a mount covers its own
/// place and all that follows behind a slash, and nothing else.
pub proof fn law_mount_covers_what_lies_below(m: Seq<char>, path: Seq<char>)
    requires
        m.len() > 0 ==> m.last() != '/',
        path.len() > 0 ==> path.last() != '/',
    ensures
        covers(m, path) <==> path == m || (path.len() > m.len() && path.take(m.len() as int) == m
            && path[m.len() as int] == '/'),
        covers(m.push('/'), path) == covers(m, path),
        covers(m, path.push('/')) == covers(m, path),
{
    let slash = Class::Only('/');
    reveal_strlit("/");
    law_trimmed_end_is(m, slash, m.len() as int);
    law_trimmed_end_is(path, slash, path.len() as int);
    law_trimmed_end_is(m.push('/'), slash, m.len() as int);
    law_trimmed_end_is(path.push('/'), slash, path.len() as int);
    assert(m.take(m.len() as int) =~= m);
    assert(path.take(path.len() as int) =~= path);
    assert(m.push('/').take(m.len() as int) =~= m);
    assert(path.push('/').take(path.len() as int) =~= path);
    let n = m.len() as int;
    if path.len() > n {
        let front = path.take(n + 1);
        if starts(path, m + "/"@) {
            assert(front == m + "/"@);
            assert(path.take(n) =~= front.take(n));
            assert((m + "/"@).take(n) =~= m);
            assert(front[n] == '/');
        }
        if path.take(n) == m && path[n] == '/' {
            assert(front =~= m + "/"@) by {
                assert forall|i: int| 0 <= i < n implies front[i] == m[i] by {
                    assert(path.take(n)[i] == path[i]);
                }
            }
        }
    }
}

/// A path below a mount stands for the same path below the directory that the mount shows; the place
/// of the mount stands for that directory itself. Two dots are refused, and so is a volume that is
/// not on record.
pub proof fn law_path_in_mount_is_kept(m: MetadataView, mount: MountView, relative: Seq<char>)
    requires
        mount.mount_path.len() > 0 ==> mount.mount_path.last() != '/',
        relative.len() > 0,
        relative[0] != '/',
    ensures
        ({
            let at = mount.mount_path;
            let below = at + seq!['/'] + relative;
            match lookup(m.volumes, mount.volume_id) {
                None => in_mount(m, mount, below) == ResolutionView::Refused(
                    ErrorView::About(Complaint::VolumeNotFound, mount.volume_id),
                ),
                Some(volume) => {
                    let root = mount_root(volume.path, mount.subpath);
                    &&& in_mount(m, mount, at) == ResolutionView::Done(root)
                    &&& !climbs(relative) ==> in_mount(m, mount, below) == ResolutionView::Done(
                        joined(root, relative),
                    )
                    &&& climbs(relative) ==> in_mount(m, mount, below) == ResolutionView::Refused(
                        ErrorView::Plain(Fault::PathClimbs),
                    )
                },
            }
        }),
{
    let slash = Class::Only('/');
    let at = mount.mount_path;
    let n = at.len() as int;
    let below = at + seq!['/'] + relative;
    law_trimmed_end_is(at, slash, n);
    assert(at.take(n) =~= at);
    assert(below.take(n) =~= at);
    let rest = below.skip(n);
    assert(rest =~= seq!['/'] + relative);
    law_trimmed_start_is(rest, slash, 1);
    assert(rest.skip(1) =~= relative);
    let none = Seq::<char>::empty();
    assert(at.skip(n) =~= none);
    law_trimmed_start_is(none, slash, 0);
    assert(none.skip(0) =~= none);
    reveal_strlit("..");
    lemma_one_piece(none, slash);
    assert(!climbs(none)) by {
        assert(pieces(none, slash) =~= seq![none]);
        if seq![none].contains(".."@) {
            let i = choose|i: int| 0 <= i < 1 && seq![none][i] == ".."@;
            assert(seq![none][i].len() == 0);
        }
    }
}

/// The first mount that covers a path decides about it, and without one the path is looked for below
/// the files of the sandbox.
pub proof fn law_first_covering_mount_counts(
    sandbox: SandboxView,
    m: MetadataView,
    path: Seq<char>,
    i: int,
)
    ensures
        0 <= i < sandbox.mounts.len() && covers(sandbox.mounts[i].mount_path, path) && (forall|j: int|
            0 <= j < i ==> !covers((#[trigger] sandbox.mounts[j]).mount_path, path)) ==> located(
            sandbox,
            m,
            path,
        ) == in_mount(m, sandbox.mounts[i], path),
        (forall|j: int|
            0 <= j < sandbox.mounts.len() ==> !covers((#[trigger] sandbox.mounts[j]).mount_path, path))
            ==> located(sandbox, m, path) == resolving(joined(sandbox.dir, "merged"@), path),
        read_only(sandbox.mounts, path) <==> exists|j: int|
            0 <= j < sandbox.mounts.len() && covers((#[trigger] sandbox.mounts[j]).mount_path, path)
                && sandbox.mounts[j].readonly,
{
    let s = sandbox.mounts;
    if 0 <= i < s.len() && covers(s[i].mount_path, path) && (forall|j: int|
        0 <= j < i ==> !covers((#[trigger] s[j]).mount_path, path)) {
        lemma_first_mount(s, path, i);
    }
    if forall|j: int| 0 <= j < s.len() ==> !covers((#[trigger] s[j]).mount_path, path) {
        lemma_first_mount(s, path, s.len() as int);
    }
}

/// A mount shows its volume, or the path inside it, of which slashes at the start do not count.
pub proof fn law_mount_shows_a_part(volume_path: Seq<char>, inner: Seq<char>, slashes: int)
    requires
        0 <= slashes <= inner.len(),
        forall|i: int| 0 <= i < slashes ==> #[trigger] inner[i] == '/',
        slashes < inner.len() ==> inner[slashes] != '/',
    ensures
        mount_root(volume_path, None) == volume_path,
        mount_root(volume_path, Some(inner)) == if slashes == inner.len() {
            volume_path
        } else {
            joined(volume_path, inner.skip(slashes))
        },
{
    law_trimmed_start_is(inner, Class::Only('/'), slashes);
}

/// A path without two dots is first asked for below the root, whatever slashes it starts with; the
/// file system is asked about nothing else.
pub proof fn law_path_is_asked_for_below_the_root(
    merged: Seq<char>,
    user_path: Seq<char>,
    slashes: int,
)
    requires
        0 <= slashes <= user_path.len(),
        forall|i: int| 0 <= i < slashes ==> #[trigger] user_path[i] == '/',
        slashes < user_path.len() ==> user_path[slashes] != '/',
    ensures
        climbs(user_path) ==> resolving(merged, user_path) == ResolutionView::Refused(
            ErrorView::Plain(Fault::PathClimbs),
        ),
        !climbs(user_path) ==> (resolving(merged, user_path) matches ResolutionView::Ask(r) && r.merged
            == merged && asks(r) == QuestionView::Exists(joined(merged, user_path.skip(slashes)))),
{
    law_trimmed_start_is(user_path, Class::Only('/'), slashes);
    if climbs(user_path) {
        lemma_climb_behind_slashes(user_path);
    } else if climbs(trimmed_start(user_path, Class::Only('/'))) {
        lemma_no_climb_behind_slashes(user_path);
    }
}

/// What is there is handed out by its real path where that lies in the real root and is no link, and
/// refused where it lies outside. A link is handed out where it really leads into the root, and else
/// refused.
pub proof fn law_what_is_there_is_found(
    merged: Seq<char>,
    user_path: Seq<char>,
    found: Seq<char>,
    root: Seq<char>,
    target: Seq<char>,
    spot: Seq<char>,
)
    requires
        !climbs(user_path),
    ensures
        ({
            let there = seq![
                AnswerView::Flag(true),
                AnswerView::Path(found),
                AnswerView::Path(root),
            ];
            let link = there.push(AnswerView::Flag(true)).push(AnswerView::Path(target)).push(
                AnswerView::Path(spot),
            );
            &&& under(parts(found), parts(root)) ==> run(
                merged,
                user_path,
                there.push(AnswerView::Flag(false)),
            ) == ResolutionView::Done(found)
            &&& !under(parts(found), parts(root)) ==> run(merged, user_path, there)
                == ResolutionView::Refused(ErrorView::Plain(Fault::EscapesRoot))
            &&& under(parts(found), parts(root)) && under(parts(spot), parts(root)) ==> run(
                merged,
                user_path,
                link,
            ) == ResolutionView::Done(found)
            &&& under(parts(found), parts(root)) && !under(parts(spot), parts(root)) ==> run(
                merged,
                user_path,
                link,
            ) == ResolutionView::Refused(ErrorView::Plain(Fault::LinkEscapesRoot))
        }),
{
    if climbs(trimmed_start(user_path, Class::Only('/'))) {
        lemma_no_climb_behind_slashes(user_path);
    }
    let a = seq![AnswerView::Flag(true)];
    let b = a.push(AnswerView::Path(found));
    let c = b.push(AnswerView::Path(root));
    let there = seq![AnswerView::Flag(true), AnswerView::Path(found), AnswerView::Path(root)];
    assert(c =~= there);
    assert(a.drop_last() =~= Seq::<AnswerView>::empty());
    assert(b.drop_last() =~= a);
    assert(c.drop_last() =~= b);
    assert(run(merged, user_path, Seq::<AnswerView>::empty()) == resolving(merged, user_path));
    assert(run(merged, user_path, a) is Ask);
    assert(run(merged, user_path, b) is Ask);
    let d = c.push(AnswerView::Flag(true));
    let e = d.push(AnswerView::Path(target));
    let f = e.push(AnswerView::Path(spot));
    let g = c.push(AnswerView::Flag(false));
    assert(d.drop_last() =~= c);
    assert(e.drop_last() =~= d);
    assert(f.drop_last() =~= e);
    assert(g.drop_last() =~= c);
    if under(parts(found), parts(root)) {
        assert(run(merged, user_path, c) is Ask);
        assert(run(merged, user_path, d) is Ask);
        assert(run(merged, user_path, e) is Ask);
    }
}

/// A file that is not there yet is handed out behind the real path of its directory, where that lies
/// in the real root, so that it can be made.
pub proof fn law_new_file_is_placed(
    merged: Seq<char>,
    user_path: Seq<char>,
    name: Seq<char>,
    spot: Seq<char>,
    root: Seq<char>,
)
    requires
        !climbs(user_path),
        name_of(parts(joined(merged, trimmed_start(user_path, Class::Only('/'))))) == Some(name),
        under(parts(joined(spot, name)), parts(root)),
    ensures
        run(
            merged,
            user_path,
            seq![
                AnswerView::Flag(false),
                AnswerView::Flag(false),
                AnswerView::Flag(true),
                AnswerView::Path(spot),
                AnswerView::Path(root),
            ],
        ) == ResolutionView::Done(joined(spot, name)),
{
    if climbs(trimmed_start(user_path, Class::Only('/'))) {
        lemma_no_climb_behind_slashes(user_path);
    }
    let none = Seq::<AnswerView>::empty();
    let a = none.push(AnswerView::Flag(false));
    let b = a.push(AnswerView::Flag(false));
    let c = b.push(AnswerView::Flag(true));
    let d = c.push(AnswerView::Path(spot));
    let e = d.push(AnswerView::Path(root));
    assert(e =~= seq![
        AnswerView::Flag(false),
        AnswerView::Flag(false),
        AnswerView::Flag(true),
        AnswerView::Path(spot),
        AnswerView::Path(root),
    ]);
    assert(a.drop_last() =~= none);
    assert(b.drop_last() =~= a);
    assert(c.drop_last() =~= b);
    assert(d.drop_last() =~= c);
    assert(e.drop_last() =~= d);
    assert(run(merged, user_path, none) == resolving(merged, user_path));
    assert(run(merged, user_path, a) is Ask);
    assert(run(merged, user_path, b) is Ask);
    assert(run(merged, user_path, c) is Ask);
    let below = Seq::<Seq<char>>::empty().push(name);
    assert(below.drop_last() =~= Seq::<Seq<char>>::empty());
    assert(extended(spot, below) == extended(joined(spot, name), below.drop_last()));
    assert(extended(joined(spot, name), Seq::<Seq<char>>::empty()) == joined(spot, name));
    assert(run(merged, user_path, d) is Ask);
}

/// Names that are not there are put behind what is, the nearest first; where a link leads to nothing,
/// its names are followed one by one, and two dots take the last one back.
pub proof fn law_names_are_put_behind(
    base: Seq<char>,
    at: Parts,
    below: Seq<Seq<char>>,
    name: Seq<char>,
    link: Seq<char>,
    target: Seq<char>,
)
    ensures
        extended(base, Seq::<Seq<char>>::empty()) == base,
        extended(base, below.push(name)) == extended(joined(base, name), below),
        walked(at, Seq::<Seq<char>>::empty()) == at,
        name != ".."@ ==> walked(at, below.push(name)) == walked(
            Parts { rooted: at.rooted, names: at.names.push(name) },
            below,
        ),
        at.names.len() > 0 ==> walked(at, below.push(".."@)) == walked(
            Parts { rooted: at.rooted, names: at.names.drop_last() },
            below,
        ),
        target.len() > 0 && target[0] == '/' ==> target_of(link, target) == target,
        !(target.len() > 0 && target[0] == '/') ==> (match parent_of(parts(link)) {
            Some(up) => target_of(link, target) == joined(shown(up), target),
            None => target_of(link, target) == joined(Seq::<char>::empty(), target),
        }),
{
    assert(below.push(name).drop_last() =~= below);
    assert(below.push(".."@).drop_last() =~= below);
}

/// What the file system fails at ends the whole, with its text.
pub proof fn law_failure_is_handed_on(r: ResolverView, text: Seq<char>)
    ensures
        advanced(r, AnswerView::Failed(text)) == ResolutionView::Refused(ErrorView::Outside(text)),
{
}

/// Each answer leads on: from a name that leads nowhere to the directory around it, until one is
/// there; from what is there to its real path; from that to the root; and from there to the links
/// that were met, one after the other, until none is left.
pub proof fn law_each_answer_leads_on(r: ResolverView, path: Seq<char>, yes: bool)
    ensures
        r.stage matches StageView::Gap { at, .. } ==> match (parent_of(at), name_of(at)) {
            (Some(up), Some(_)) => advanced(r, AnswerView::Flag(yes)) matches ResolutionView::Ask(next)
                && asks(next) == QuestionView::Exists(shown(up)),
            (Some(_), None) => advanced(r, AnswerView::Flag(yes)) == ResolutionView::Refused(
                ErrorView::Plain(Fault::NoFileName),
            ),
            _ => advanced(r, AnswerView::Flag(yes)) == ResolutionView::Refused(
                ErrorView::Plain(Fault::NoAncestor),
            ),
        },
        r.stage matches StageView::Climb { ancestor, .. } ==> (advanced(r, AnswerView::Flag(yes))
            matches ResolutionView::Ask(next) && asks(next) == if yes {
            QuestionView::Canonicalize(shown(ancestor))
        } else {
            QuestionView::IsSymlink(shown(ancestor))
        }),
        r.stage is Anchor ==> (advanced(r, AnswerView::Path(path)) matches ResolutionView::Ask(next)
            && asks(next) == QuestionView::Canonicalize(r.merged)),
        r.stage matches StageView::Root { found, there, links } ==> {
            let end = advanced(r, AnswerView::Path(path));
            &&& !under(parts(found), parts(path)) ==> end == ResolutionView::Refused(
                ErrorView::Plain(Fault::EscapesRoot),
            )
            &&& under(parts(found), parts(path)) && !there && links.len() == 0 ==> end
                == ResolutionView::Done(found)
            &&& under(parts(found), parts(path)) && !there && links.len() > 0 ==> (end
                matches ResolutionView::Ask(next) && asks(next) == QuestionView::ReadLink(links[0]))
        },
        r.stage matches StageView::Lead { link, .. } ==> (advanced(r, AnswerView::Path(path))
            matches ResolutionView::Ask(next) && asks(next) == QuestionView::Exists(
            shown(parts(target_of(link, path))),
        )),
        r.stage matches StageView::Seek { at, .. } ==> (advanced(r, AnswerView::Flag(yes))
            matches ResolutionView::Ask(next) && asks(next) == if yes {
            QuestionView::Canonicalize(shown(at))
        } else {
            QuestionView::IsSymlink(shown(at))
        }),
        r.stage matches StageView::Hole { at, .. } ==> match parent_of(at) {
            Some(up) => advanced(r, AnswerView::Flag(yes)) matches ResolutionView::Ask(next) && asks(
                next,
            ) == QuestionView::Exists(shown(up)),
            None => advanced(r, AnswerView::Flag(yes)) == ResolutionView::Refused(
                ErrorView::Plain(Fault::LinkEscapesRoot),
            ),
        },
        r.stage matches StageView::Reach { chase, below, .. } ==> {
            let inside = under(walked(parts(path), below), parts(chase.root));
            let end = advanced(r, AnswerView::Path(path));
            &&& !inside ==> end == ResolutionView::Refused(ErrorView::Plain(Fault::LinkEscapesRoot))
            &&& inside && chase.taken >= chase.links.len() ==> end == ResolutionView::Done(chase.found)
            &&& inside && chase.taken < chase.links.len() ==> (end matches ResolutionView::Ask(next)
                && asks(next) == QuestionView::ReadLink(chase.links[chase.taken as int]))
        },
{
}

} // verus!
