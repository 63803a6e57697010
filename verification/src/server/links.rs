//! What is known of a path that was handed out: where it lies, and where the links on its way lead.
use crate::path::{joined, name_of, parent_of, parts, shown, under, Parts};
use crate::server::paths::{
    advanced, asks, extended, next_link, noted, run, seek_up, target_of, walked, AnswerView,
    ChaseView, QuestionView, ResolutionView, ResolverView, StageView,
};
use crate::text::{trimmed_start, Class};
use vstd::prelude::*;

verus! {

/// A path that is resolved in a root directory, and the answers that the file system has given.
pub struct Dialogue {
    pub merged: Seq<char>,
    pub user_path: Seq<char>,
    pub answers: Seq<AnswerView>,
}

impl Dialogue {
    /// Where the answers have led.
    pub open spec fn end(self) -> ResolutionView {
        run(self.merged, self.user_path, self.answers)
    }

    /// The dialogue after the first `k` answers.
    pub open spec fn earlier(self, k: int) -> Dialogue {
        Dialogue { answers: self.answers.take(k), ..self }
    }

    /// Whether the answer at position `k` is `a`, given to the question `q`.
    pub open spec fn tells(self, k: int, q: QuestionView, a: AnswerView) -> bool {
        &&& 0 <= k < self.answers.len()
        &&& self.answers[k] == a
        &&& self.earlier(k).end() matches ResolutionView::Ask(r) && asks(r) == q
    }

    /// Whether the question `q` was answered with `a`.
    pub open spec fn told(self, q: QuestionView, a: AnswerView) -> bool {
        exists|k: int| self.tells(k, q, a)
    }

    /// The path that is resolved, before links are followed.
    pub open spec fn place(self) -> Seq<char> {
        joined(self.merged, trimmed_start(self.user_path, Class::Only('/')))
    }

    /// The components of that path.
    pub open spec fn start(self) -> Parts {
        parts(self.place())
    }
}

/// The first `n` names of a path.
pub open spec fn upper_part(at: Parts, n: int) -> Parts {
    Parts { rooted: at.rooted, names: at.names.take(n) }
}

/// The names of a path after the first `n`, the last one first.
pub open spec fn names_below(at: Parts, n: int) -> Seq<Seq<char>> {
    Seq::new((at.names.len() - n) as nat, |j: int| at.names[at.names.len() - 1 - j])
}

/// Whether the file system has told of `at` that it is no link, or that it is one, which is then
/// among `links`.
pub open spec fn known(d: Dialogue, links: Seq<Seq<char>>, at: Parts) -> bool {
    ||| d.told(QuestionView::IsSymlink(shown(at)), AnswerView::Flag(false))
    ||| d.told(QuestionView::IsSymlink(shown(at)), AnswerView::Flag(true)) && links.contains(shown(at))
}

/// Whether this is known of every name of `at` after the first `n`.
pub open spec fn known_below(d: Dialogue, links: Seq<Seq<char>>, at: Parts, n: int) -> bool {
    &&& 0 <= n <= at.names.len()
    &&& forall|j: int| n < j <= at.names.len() ==> known(d, links, #[trigger] upper_part(at, j))
}

/// Whether `spot` is the real path of the first `n` names of `at`, with the names after them known.
pub open spec fn anchored(
    d: Dialogue,
    links: Seq<Seq<char>>,
    at: Parts,
    n: int,
    spot: Seq<char>,
) -> bool {
    &&& known_below(d, links, at, n)
    &&& d.told(QuestionView::Canonicalize(shown(upper_part(at, n))), AnswerView::Path(spot))
}

/// Whether `link` leads to `target`, of which the first `n` names really lie at `spot`, and the place
/// that the other names lead to from there lies in the root.
pub open spec fn leads_to(
    d: Dialogue,
    root: Seq<char>,
    links: Seq<Seq<char>>,
    link: Seq<char>,
    target: Seq<char>,
    n: int,
    spot: Seq<char>,
) -> bool {
    &&& d.told(QuestionView::ReadLink(link), AnswerView::Path(target))
    &&& anchored(d, links, parts(target_of(link, target)), n, spot)
    &&& under(
        walked(parts(spot), names_below(parts(target_of(link, target)), n)),
        parts(root),
    )
}

/// Whether `link` leads to a place in the root, by the names below the nearest ancestor that is
/// there, of which each is no link, or one of `links`.
pub open spec fn leads_inside(
    d: Dialogue,
    root: Seq<char>,
    links: Seq<Seq<char>>,
    link: Seq<char>,
) -> bool {
    exists|target: Seq<char>, n: int, spot: Seq<char>|
        leads_to(d, root, links, link, target, n, spot)
}

/// Whether the path `p` stands behind the nearest ancestor that is there, which really lies at
/// `spot` and has `n` names, and the links below that ancestor are among `links`.
pub open spec fn stands_behind(
    d: Dialogue,
    links: Seq<Seq<char>>,
    p: Seq<char>,
    n: int,
    spot: Seq<char>,
) -> bool {
    &&& anchored(d, links, d.start(), n, spot)
    &&& p == extended(spot, names_below(d.start(), n))
}

/// Whether `p` ends in nothing, and the links below the nearest ancestor that is there are among
/// `links`.
pub open spec fn ends_in_nothing(d: Dialogue, links: Seq<Seq<char>>, p: Seq<char>) -> bool {
    exists|n: int, spot: Seq<char>| stands_behind(d, links, p, n, spot)
}

/// Whether every one of `links`, as far as the first `taken`, leads to a place in the root.
pub open spec fn all_lead_inside(
    d: Dialogue,
    root: Seq<char>,
    links: Seq<Seq<char>>,
    taken: int,
) -> bool {
    forall|i: int| 0 <= i < taken ==> leads_inside(d, root, links, #[trigger] links[i])
}

/// Whether `p` ends in nothing, and every link below the nearest ancestor that is there leads to a
/// place in the root, as does every link on the way of such a link.
pub open spec fn clear_to_nothing(
    d: Dialogue,
    root: Seq<char>,
    p: Seq<char>,
    links: Seq<Seq<char>>,
) -> bool {
    &&& ends_in_nothing(d, links, p)
    &&& all_lead_inside(d, root, links, links.len() as int)
}

/// Whether something is there, and `p` is its real path.
pub open spec fn is_there(d: Dialogue, p: Seq<char>) -> bool {
    &&& d.told(QuestionView::Exists(d.place()), AnswerView::Flag(true))
    &&& d.told(QuestionView::Canonicalize(d.place()), AnswerView::Path(p))
}

/// Whether `p` is a link that leads to `target`, which really lies at `spot`, in the root.
pub open spec fn followed(
    d: Dialogue,
    root: Seq<char>,
    p: Seq<char>,
    target: Seq<char>,
    spot: Seq<char>,
) -> bool {
    &&& d.told(QuestionView::IsSymlink(p), AnswerView::Flag(true))
    &&& d.told(QuestionView::ReadLink(p), AnswerView::Path(target))
    &&& d.told(QuestionView::Canonicalize(target_of(p, target)), AnswerView::Path(spot))
    &&& under(parts(spot), parts(root))
}

/// Whether no link at `p` leads out of the root: something is there, and its real path is no link, or
/// one that leads to a place in the root; or `p` ends in nothing, and the links on its way lead to
/// places in the root.
pub open spec fn clear(d: Dialogue, root: Seq<char>, p: Seq<char>) -> bool {
    ||| is_there(d, p) && d.told(QuestionView::IsSymlink(p), AnswerView::Flag(false))
    ||| is_there(d, p) && exists|target: Seq<char>, spot: Seq<char>|
        followed(d, root, p, target, spot)
    ||| exists|links: Seq<Seq<char>>| clear_to_nothing(d, root, p, links)
}

/// Whether the file system has told that `root` is the real path of the root, and `p` lies in it.
pub open spec fn vouched(d: Dialogue, p: Seq<char>, root: Seq<char>) -> bool {
    &&& d.told(QuestionView::Canonicalize(d.merged), AnswerView::Path(root))
    &&& under(parts(p), parts(root))
}

/// Whether `p` lies in the root that the file system has told, and no link at `p` leads out of it.
pub open spec fn safe(d: Dialogue, p: Seq<char>) -> bool {
    exists|root: Seq<char>| #[trigger] vouched(d, p, root) && clear(d, root, p)
}

/// Whether climbing from the path has come to `at`, with all below it known.
spec fn climbed(d: Dialogue, at: Parts, below: Seq<Seq<char>>, links: Seq<Seq<char>>) -> bool {
    &&& at == upper_part(d.start(), at.names.len() as int)
    &&& below == names_below(d.start(), at.names.len() as int)
    &&& known_below(d, links, d.start(), at.names.len() as int)
}

/// Whether the links that were looked at lead to places in the root, but for the last one.
spec fn chased(d: Dialogue, c: ChaseView) -> bool {
    &&& vouched(d, c.found, c.root)
    &&& ends_in_nothing(d, c.links, c.found)
    &&& 0 < c.taken <= c.links.len()
    &&& all_lead_inside(d, c.root, c.links, c.taken - 1)
}

/// Whether `link` leads to `target`, and climbing from there has come to `at`.
spec fn sought(
    d: Dialogue,
    links: Seq<Seq<char>>,
    link: Seq<char>,
    at: Parts,
    below: Seq<Seq<char>>,
    target: Seq<char>,
) -> bool {
    let full = parts(target_of(link, target));
    &&& d.told(QuestionView::ReadLink(link), AnswerView::Path(target))
    &&& at == upper_part(full, at.names.len() as int)
    &&& below == names_below(full, at.names.len() as int)
    &&& known_below(d, links, full, at.names.len() as int)
}

/// Whether climbing from where the last link leads has come to `at`.
spec fn seeking(d: Dialogue, c: ChaseView, at: Parts, below: Seq<Seq<char>>) -> bool {
    let link = c.links[c.taken - 1];
    &&& chased(d, c)
    &&& exists|target: Seq<char>| sought(d, c.links, link, at, below, target)
}

/// What holds in each stage.
spec fn kept(d: Dialogue, at: ResolutionView) -> bool {
    match at {
        ResolutionView::Refused(_) => true,
        ResolutionView::Done(p) => safe(d, p),
        ResolutionView::Ask(r) => {
            &&& r.merged == d.merged
            &&& match r.stage {
                StageView::Probe { joined } => joined == d.place(),
                StageView::Real { joined } => {
                    &&& joined == d.place()
                    &&& d.told(QuestionView::Exists(joined), AnswerView::Flag(true))
                },
                StageView::Gap { at, below, links } => climbed(d, at, below, links),
                StageView::Climb { ancestor, below, links } => climbed(d, ancestor, below, links),
                StageView::Anchor { ancestor, below, links } => climbed(d, ancestor, below, links),
                StageView::Root { found, there, links } => if there {
                    is_there(d, found)
                } else {
                    ends_in_nothing(d, links, found)
                },
                StageView::Kind { found, root } => vouched(d, found, root) && is_there(d, found),
                StageView::Target { found, root } => {
                    &&& vouched(d, found, root)
                    &&& is_there(d, found)
                    &&& d.told(QuestionView::IsSymlink(found), AnswerView::Flag(true))
                },
                StageView::Follow { found, root, target } => {
                    &&& vouched(d, found, root)
                    &&& is_there(d, found)
                    &&& d.told(QuestionView::IsSymlink(found), AnswerView::Flag(true))
                    &&& exists|t: Seq<char>|
                        target == target_of(found, t) && #[trigger] d.told(
                            QuestionView::ReadLink(found),
                            AnswerView::Path(t),
                        )
                },
                StageView::Lead { chase, link } => chased(d, chase) && link == chase.links[chase.taken
                    - 1],
                StageView::Seek { chase, at, below } => seeking(d, chase, at, below),
                StageView::Hole { chase, at, below } => seeking(d, chase, at, below),
                StageView::Reach { chase, at, below } => seeking(d, chase, at, below),
            }
        },
    }
}

/// Whether `e` is `d` with one more answer.
spec fn follows(e: Dialogue, d: Dialogue) -> bool {
    &&& e.answers.len() > 0
    &&& d == e.earlier(e.answers.len() - 1)
}

/// Whether `more` holds all of `links`.
spec fn extends(more: Seq<Seq<char>>, links: Seq<Seq<char>>) -> bool {
    forall|link: Seq<char>| #[trigger] links.contains(link) ==> more.contains(link)
}

/// What was told stays told.
proof fn lemma_told_stays(e: Dialogue, d: Dialogue, q: QuestionView, a: AnswerView)
    requires
        follows(e, d),
        d.told(q, a),
    ensures
        e.told(q, a),
{
    let k = choose|k: int| d.tells(k, q, a);
    assert(d.answers.take(k) =~= e.answers.take(k));
    assert(d.earlier(k) == e.earlier(k));
    assert(e.tells(k, q, a));
}

/// What was just answered is told.
proof fn lemma_just_told(e: Dialogue, d: Dialogue, r: ResolverView)
    requires
        follows(e, d),
        d.end() == ResolutionView::Ask(r),
    ensures
        e.told(asks(r), e.answers.last()),
        e.end() == advanced(r, e.answers.last()),
{
    let k = e.answers.len() - 1;
    assert(e.answers.take(k) =~= e.answers.drop_last());
    assert(e.tells(k, asks(r), e.answers.last()));
}

/// What is known of names stays known.
proof fn lemma_known_stays(
    e: Dialogue,
    d: Dialogue,
    more: Seq<Seq<char>>,
    links: Seq<Seq<char>>,
    at: Parts,
    n: int,
)
    requires
        follows(e, d),
        extends(more, links),
        known_below(d, links, at, n),
    ensures
        known_below(e, more, at, n),
{
    assert forall|j: int| n < j <= at.names.len() implies known(e, more, #[trigger] upper_part(at, j)) by {
        let q = QuestionView::IsSymlink(shown(upper_part(at, j)));
        assert(known(d, links, upper_part(at, j)));
        if d.told(q, AnswerView::Flag(false)) {
            lemma_told_stays(e, d, q, AnswerView::Flag(false));
        } else {
            lemma_told_stays(e, d, q, AnswerView::Flag(true));
        }
    }
}

/// A link that leads to a place in the root does so whatever is asked besides.
proof fn lemma_leads_stays(
    e: Dialogue,
    d: Dialogue,
    root: Seq<char>,
    more: Seq<Seq<char>>,
    links: Seq<Seq<char>>,
    link: Seq<char>,
)
    requires
        follows(e, d),
        extends(more, links),
        leads_inside(d, root, links, link),
    ensures
        leads_inside(e, root, more, link),
{
    let (target, n, spot) = choose|target: Seq<char>, n: int, spot: Seq<char>|
        leads_to(d, root, links, link, target, n, spot);
    let at = parts(target_of(link, target));
    lemma_told_stays(e, d, QuestionView::ReadLink(link), AnswerView::Path(target));
    lemma_known_stays(e, d, more, links, at, n);
    lemma_told_stays(
        e,
        d,
        QuestionView::Canonicalize(shown(upper_part(at, n))),
        AnswerView::Path(spot),
    );
    assert(leads_to(e, root, more, link, target, n, spot));
}

/// A path that ends in nothing does so whatever is asked besides.
proof fn lemma_nothing_stays(
    e: Dialogue,
    d: Dialogue,
    more: Seq<Seq<char>>,
    links: Seq<Seq<char>>,
    p: Seq<char>,
)
    requires
        follows(e, d),
        extends(more, links),
        ends_in_nothing(d, links, p),
    ensures
        ends_in_nothing(e, more, p),
{
    let (n, spot) = choose|n: int, spot: Seq<char>| stands_behind(d, links, p, n, spot);
    lemma_known_stays(e, d, more, links, d.start(), n);
    lemma_told_stays(
        e,
        d,
        QuestionView::Canonicalize(shown(upper_part(d.start(), n))),
        AnswerView::Path(spot),
    );
    assert(stands_behind(e, more, p, n, spot));
}

/// What was vouched for stays so.
proof fn lemma_vouched_stays(e: Dialogue, d: Dialogue, p: Seq<char>, root: Seq<char>)
    requires
        follows(e, d),
        vouched(d, p, root),
    ensures
        vouched(e, p, root),
{
    lemma_told_stays(e, d, QuestionView::Canonicalize(d.merged), AnswerView::Path(root));
}

/// What is there stays so.
proof fn lemma_there_stays(e: Dialogue, d: Dialogue, p: Seq<char>)
    requires
        follows(e, d),
        is_there(d, p),
    ensures
        is_there(e, p),
{
    lemma_told_stays(e, d, QuestionView::Exists(d.place()), AnswerView::Flag(true));
    lemma_told_stays(e, d, QuestionView::Canonicalize(d.place()), AnswerView::Path(p));
}

/// Noting one more link keeps those that were noted.
proof fn lemma_noted(links: Seq<Seq<char>>, link: Seq<char>)
    ensures
        extends(noted(links, link), links),
        noted(links, link).contains(link),
        links.len() <= noted(links, link).len(),
        forall|i: int| 0 <= i < links.len() ==> noted(links, link)[i] == #[trigger] links[i],
{
    let more = noted(links, link);
    if !links.contains(link) {
        assert(more[links.len() as int] == link);
        assert forall|l: Seq<char>| #[trigger] links.contains(l) implies more.contains(l) by {
            let k = choose|k: int| 0 <= k < links.len() && links[k] == l;
            assert(more[k] == l);
        }
    }
}

/// What holds of the links that were looked at stays so when more are noted.
proof fn lemma_chased_stays(e: Dialogue, d: Dialogue, c: ChaseView, more: Seq<Seq<char>>)
    requires
        follows(e, d),
        chased(d, c),
        extends(more, c.links),
        c.links.len() <= more.len(),
        forall|i: int| 0 <= i < c.links.len() ==> more[i] == #[trigger] c.links[i],
    ensures
        chased(e, ChaseView { links: more, ..c }),
{
    lemma_vouched_stays(e, d, c.found, c.root);
    lemma_nothing_stays(e, d, more, c.links, c.found);
    assert forall|i: int| 0 <= i < c.taken - 1 implies leads_inside(
        e,
        c.root,
        more,
        #[trigger] more[i],
    ) by {
        assert(more[i] == c.links[i]);
        assert(leads_inside(d, c.root, c.links, c.links[i]));
        lemma_leads_stays(e, d, c.root, more, c.links, c.links[i]);
    }
}

/// What holds of the names below stays so one step up, once the name is known.
proof fn lemma_known_one_more(d: Dialogue, links: Seq<Seq<char>>, at: Parts, n: int)
    requires
        known_below(d, links, at, n),
        n > 0,
        known(d, links, upper_part(at, n)),
    ensures
        known_below(d, links, at, n - 1),
{
    assert forall|j: int| n - 1 < j <= at.names.len() implies known(
        d,
        links,
        #[trigger] upper_part(at, j),
    ) by {
        if j == n {
        }
    }
}

/// A link that was looked at is one more that leads to a place in the root.
proof fn lemma_one_more_inside(
    d: Dialogue,
    c: ChaseView,
    target: Seq<char>,
    at: Parts,
    below: Seq<Seq<char>>,
    spot: Seq<char>,
)
    requires
        chased(d, c),
        sought(d, c.links, c.links[c.taken - 1], at, below, target),
        d.told(QuestionView::Canonicalize(shown(at)), AnswerView::Path(spot)),
        under(walked(parts(spot), below), parts(c.root)),
    ensures
        all_lead_inside(d, c.root, c.links, c.taken as int),
{
    let link = c.links[c.taken - 1];
    assert(leads_to(d, c.root, c.links, link, target, at.names.len() as int, spot));
    assert(leads_inside(d, c.root, c.links, link));
    assert forall|i: int| 0 <= i < c.taken implies leads_inside(
        d,
        c.root,
        c.links,
        #[trigger] c.links[i],
    ) by {
        if i < c.taken - 1 {
            assert(all_lead_inside(d, c.root, c.links, c.taken - 1));
        }
    }
}

/// The next link is looked at, or the path is handed out, once all links so far lead to places in
/// the root.
proof fn lemma_next_link(d: Dialogue, c: ChaseView)
    requires
        vouched(d, c.found, c.root),
        ends_in_nothing(d, c.links, c.found),
        c.taken <= c.links.len(),
        all_lead_inside(d, c.root, c.links, c.taken as int),
    ensures
        kept(d, next_link(d.merged, c)),
{
    if c.taken >= c.links.len() {
        assert(clear_to_nothing(d, c.root, c.found, c.links));
        assert(clear(d, c.root, c.found));
        assert(safe(d, c.found));
    }
}

/// The answer to whether `at` is a link makes it known.
proof fn lemma_answer_is_known(
    e: Dialogue,
    d: Dialogue,
    links: Seq<Seq<char>>,
    full: Parts,
    at: Parts,
    yes: bool,
)
    requires
        follows(e, d),
        at == upper_part(full, at.names.len() as int),
        known_below(d, links, full, at.names.len() as int),
        parent_of(at) is Some,
        e.told(QuestionView::IsSymlink(shown(at)), AnswerView::Flag(yes)),
    ensures
        ({
            let more = if yes {
                noted(links, shown(at))
            } else {
                links
            };
            let up = parent_of(at)->0;
            &&& up == upper_part(full, up.names.len() as int)
            &&& up.names.len() == at.names.len() - 1
            &&& known_below(e, more, full, up.names.len() as int)
        }),
{
    let more = if yes {
        noted(links, shown(at))
    } else {
        links
    };
    let n = at.names.len() as int;
    let up = parent_of(at)->0;
    lemma_noted(links, shown(at));
    lemma_known_stays(e, d, more, links, full, n);
    lemma_known_one_more(e, more, full, n);
    assert(up.names =~= full.names.take(n - 1));
}

/// One more answer while climbing keeps what holds.
proof fn lemma_climb_step(e: Dialogue, d: Dialogue, r: ResolverView)
    requires
        follows(e, d),
        d.end() == ResolutionView::Ask(r),
        kept(d, ResolutionView::Ask(r)),
        r.stage is Probe || r.stage is Gap || r.stage is Climb || r.stage is Anchor,
    ensures
        kept(e, advanced(r, e.answers.last())),
{
    lemma_just_told(e, d, r);
    let a = e.answers.last();
    let start = d.start();
    match r.stage {
        StageView::Probe { joined } => {
            let n = start.names.len() as int;
            assert(start.names.take(n) =~= start.names);
            assert(upper_part(start, n) == start);
            assert(names_below(start, n) =~= Seq::<Seq<char>>::empty());
        },
        StageView::Gap { at, below, links } => {
            if let AnswerView::Flag(yes) = a {
                let n = at.names.len() as int;
                if parent_of(at) is Some {
                    lemma_answer_is_known(e, d, links, start, at, yes);
                    if let Some(name) = name_of(at) {
                        assert(name == start.names[n - 1]);
                        assert(below.push(name) =~= names_below(start, n - 1));
                    }
                }
            }
        },
        StageView::Climb { ancestor, below, links } => {
            lemma_known_stays(e, d, links, links, start, ancestor.names.len() as int);
        },
        StageView::Anchor { ancestor, below, links } => {
            let n = ancestor.names.len() as int;
            lemma_known_stays(e, d, links, links, start, n);
            if let AnswerView::Path(spot) = a {
                assert(stands_behind(e, links, extended(spot, below), n, spot));
            }
        },
        _ => {},
    }
}

/// One more answer about the root or what was found keeps what holds.
proof fn lemma_found_step(e: Dialogue, d: Dialogue, r: ResolverView)
    requires
        follows(e, d),
        d.end() == ResolutionView::Ask(r),
        kept(d, ResolutionView::Ask(r)),
        r.stage is Real || r.stage is Root || r.stage is Kind || r.stage is Target || r.stage is Follow,
    ensures
        kept(e, advanced(r, e.answers.last())),
{
    lemma_just_told(e, d, r);
    let a = e.answers.last();
    match r.stage {
        StageView::Real { joined } => {
            lemma_told_stays(e, d, QuestionView::Exists(joined), AnswerView::Flag(true));
        },
        StageView::Root { found, there, links } => {
            if let AnswerView::Path(root) = a {
                if under(parts(found), parts(root)) {
                    assert(vouched(e, found, root));
                    if there {
                        lemma_there_stays(e, d, found);
                    } else {
                        lemma_nothing_stays(e, d, links, links, found);
                        lemma_next_link(e, ChaseView { found, root, links, taken: 0 });
                    }
                }
            }
        },
        StageView::Kind { found, root } => {
            lemma_vouched_stays(e, d, found, root);
            lemma_there_stays(e, d, found);
            if a == AnswerView::Flag(false) {
                assert(clear(e, root, found));
                assert(safe(e, found));
            }
        },
        StageView::Target { found, root } => {
            lemma_vouched_stays(e, d, found, root);
            lemma_there_stays(e, d, found);
            lemma_told_stays(e, d, QuestionView::IsSymlink(found), AnswerView::Flag(true));
        },
        StageView::Follow { found, root, target } => {
            lemma_vouched_stays(e, d, found, root);
            lemma_there_stays(e, d, found);
            lemma_told_stays(e, d, QuestionView::IsSymlink(found), AnswerView::Flag(true));
            let t = choose|t: Seq<char>|
                target == target_of(found, t) && #[trigger] d.told(
                    QuestionView::ReadLink(found),
                    AnswerView::Path(t),
                );
            lemma_told_stays(e, d, QuestionView::ReadLink(found), AnswerView::Path(t));
            if let AnswerView::Path(spot) = a {
                if under(parts(spot), parts(root)) {
                    assert(followed(e, root, found, t, spot));
                    assert(clear(e, root, found));
                    assert(safe(e, found));
                }
            }
        },
        _ => {},
    }
}

/// Reading where a link leads keeps what holds.
proof fn lemma_lead_step(e: Dialogue, d: Dialogue, r: ResolverView)
    requires
        follows(e, d),
        d.end() == ResolutionView::Ask(r),
        kept(d, ResolutionView::Ask(r)),
        r.stage is Lead,
    ensures
        kept(e, advanced(r, e.answers.last())),
{
    lemma_just_told(e, d, r);
    let chase = r.stage->Lead_chase;
    let link = r.stage->link;
    lemma_chased_stays(e, d, chase, chase.links);
    if let AnswerView::Path(target) = e.answers.last() {
        let full = parts(target_of(link, target));
        let n = full.names.len() as int;
        assert(full.names.take(n) =~= full.names);
        assert(upper_part(full, n) == full);
        assert(names_below(full, n) =~= Seq::<Seq<char>>::empty());
        assert(sought(e, chase.links, link, full, Seq::empty(), target));
    }
}

/// What is known of the place that a link leads to stays so.
proof fn lemma_sought_stays(
    e: Dialogue,
    d: Dialogue,
    links: Seq<Seq<char>>,
    link: Seq<char>,
    at: Parts,
    below: Seq<Seq<char>>,
    target: Seq<char>,
)
    requires
        follows(e, d),
        sought(d, links, link, at, below, target),
    ensures
        sought(e, links, link, at, below, target),
{
    let full = parts(target_of(link, target));
    lemma_told_stays(e, d, QuestionView::ReadLink(link), AnswerView::Path(target));
    lemma_known_stays(e, d, links, links, full, at.names.len() as int);
}

/// The answer to whether something is there keeps what holds.
proof fn lemma_seek_step(e: Dialogue, d: Dialogue, r: ResolverView)
    requires
        follows(e, d),
        d.end() == ResolutionView::Ask(r),
        kept(d, ResolutionView::Ask(r)),
        r.stage is Seek,
    ensures
        kept(e, advanced(r, e.answers.last())),
{
    let chase = r.stage->Seek_chase;
    let at = r.stage->Seek_at;
    let below = r.stage->Seek_below;
    let link = chase.links[chase.taken - 1];
    let target = choose|target: Seq<char>| sought(d, chase.links, link, at, below, target);
    lemma_chased_stays(e, d, chase, chase.links);
    lemma_sought_stays(e, d, chase.links, link, at, below, target);
    assert(seeking(e, chase, at, below));
}

/// The answer to whether a place that leads to nothing is a link keeps what holds.
proof fn lemma_hole_step(e: Dialogue, d: Dialogue, r: ResolverView, yes: bool)
    requires
        follows(e, d),
        d.end() == ResolutionView::Ask(r),
        kept(d, ResolutionView::Ask(r)),
        r.stage is Hole,
        e.answers.last() == AnswerView::Flag(yes),
    ensures
        kept(e, advanced(r, e.answers.last())),
{
    lemma_just_told(e, d, r);
    let chase = r.stage->Hole_chase;
    let at = r.stage->Hole_at;
    let below = r.stage->Hole_below;
    let link = chase.links[chase.taken - 1];
    let target = choose|target: Seq<char>| sought(d, chase.links, link, at, below, target);
    let more = if yes {
        noted(chase.links, shown(at))
    } else {
        chase.links
    };
    let wider = ChaseView { links: more, ..chase };
    lemma_told_stays(e, d, QuestionView::ReadLink(link), AnswerView::Path(target));
    lemma_noted(chase.links, shown(at));
    lemma_chased_stays(e, d, chase, more);
    if let Some(up) = parent_of(at) {
        let full = parts(target_of(link, target));
        let n = at.names.len() as int;
        lemma_answer_is_known(e, d, chase.links, full, at, yes);
        assert(more[chase.taken - 1] == link);
        assert(at.names.last() == full.names[n - 1]);
        assert(below.push(at.names.last()) =~= names_below(full, n - 1));
        assert(sought(e, more, link, up, below.push(at.names.last()), target));
        assert(seeking(e, wider, up, below.push(at.names.last())));
    }
    assert(advanced(r, e.answers.last()) == seek_up(d.merged, wider, at, below));
}

/// The real path of the nearest ancestor of where a link leads keeps what holds.
proof fn lemma_reach_step(e: Dialogue, d: Dialogue, r: ResolverView)
    requires
        follows(e, d),
        d.end() == ResolutionView::Ask(r),
        kept(d, ResolutionView::Ask(r)),
        r.stage is Reach,
    ensures
        kept(e, advanced(r, e.answers.last())),
{
    lemma_just_told(e, d, r);
    let chase = r.stage->Reach_chase;
    let at = r.stage->Reach_at;
    let below = r.stage->Reach_below;
    let link = chase.links[chase.taken - 1];
    let target = choose|target: Seq<char>| sought(d, chase.links, link, at, below, target);
    lemma_chased_stays(e, d, chase, chase.links);
    lemma_sought_stays(e, d, chase.links, link, at, below, target);
    if let AnswerView::Path(spot) = e.answers.last() {
        if under(walked(parts(spot), below), parts(chase.root)) {
            lemma_one_more_inside(e, chase, target, at, below, spot);
            lemma_next_link(e, chase);
        }
    }
}

/// A path that was handed out stays safe when more is answered.
proof fn lemma_safe_stays(e: Dialogue, d: Dialogue, p: Seq<char>)
    requires
        follows(e, d),
        safe(d, p),
    ensures
        safe(e, p),
{
    let root = choose|root: Seq<char>| #[trigger] vouched(d, p, root) && clear(d, root, p);
    lemma_vouched_stays(e, d, p, root);
    let q = QuestionView::IsSymlink(p);
    if is_there(d, p) && d.told(q, AnswerView::Flag(false)) {
        lemma_there_stays(e, d, p);
        lemma_told_stays(e, d, q, AnswerView::Flag(false));
    } else if is_there(d, p) && exists|target: Seq<char>, spot: Seq<char>| followed(d, root, p, target, spot) {
        let (target, spot) = choose|target: Seq<char>, spot: Seq<char>|
            followed(d, root, p, target, spot);
        lemma_there_stays(e, d, p);
        lemma_told_stays(e, d, q, AnswerView::Flag(true));
        lemma_told_stays(e, d, QuestionView::ReadLink(p), AnswerView::Path(target));
        lemma_told_stays(
            e,
            d,
            QuestionView::Canonicalize(target_of(p, target)),
            AnswerView::Path(spot),
        );
        assert(followed(e, root, p, target, spot));
    } else {
        let links = choose|links: Seq<Seq<char>>| clear_to_nothing(d, root, p, links);
        lemma_nothing_stays(e, d, links, links, p);
        assert forall|i: int| 0 <= i < links.len() implies leads_inside(
            e,
            root,
            links,
            #[trigger] links[i],
        ) by {
            lemma_leads_stays(e, d, root, links, links, links[i]);
        }
        assert(clear_to_nothing(e, root, p, links));
    }
    assert(clear(e, root, p));
}

/// What holds in each stage holds whatever was answered.
proof fn lemma_stages_keep(d: Dialogue)
    ensures
        kept(d, d.end()),
    decreases d.answers.len(),
{
    if d.answers.len() > 0 {
        let before = d.earlier(d.answers.len() - 1);
        lemma_stages_keep(before);
        assert(before.answers =~= d.answers.drop_last());
        match before.end() {
            ResolutionView::Ask(r) => {
                lemma_just_told(d, before, r);
                if r.stage is Probe || r.stage is Gap || r.stage is Climb || r.stage is Anchor {
                    lemma_climb_step(d, before, r);
                } else if r.stage is Real || r.stage is Root || r.stage is Kind || r.stage is Target
                    || r.stage is Follow {
                    lemma_found_step(d, before, r);
                } else if r.stage is Lead {
                    lemma_lead_step(d, before, r);
                } else if r.stage is Seek {
                    lemma_seek_step(d, before, r);
                } else if r.stage is Hole {
                    if let AnswerView::Flag(yes) = d.answers.last() {
                        lemma_hole_step(d, before, r, yes);
                    }
                } else if r.stage is Reach {
                    lemma_reach_step(d, before, r);
                }
            },
            ResolutionView::Done(p) => {
                lemma_safe_stays(d, before, p);
            },
            ResolutionView::Refused(_) => {},
        }
    }
}

/// Whatever the file system answers, a path that is handed out lies in the real root of the
/// sandbox, as the file system told it.
pub proof fn law_resolved_path_lies_in_root(d: Dialogue, path: Seq<char>)
    requires
        d.end() == ResolutionView::Done(path),
    ensures
        exists|root: Seq<char>| vouched(d, path, root),
{
    lemma_stages_keep(d);
}

/// Whatever the file system answers, it has told of a path that is handed out, and of every name of
/// it that leads to nothing, that it is no link, or that it is one and leads to a place in the root.
/// So it has of every link on the way of such a link.
pub proof fn law_links_lead_inside(d: Dialogue, path: Seq<char>)
    requires
        d.end() == ResolutionView::Done(path),
    ensures
        safe(d, path),
{
    lemma_stages_keep(d);
}

/// The links that lead to nothing and were met so far.
pub open spec fn links_met(stage: StageView) -> Seq<Seq<char>> {
    match stage {
        StageView::Gap { links, .. } => links,
        StageView::Climb { links, .. } => links,
        StageView::Anchor { links, .. } => links,
        StageView::Root { links, .. } => links,
        StageView::Lead { chase, .. } => chase.links,
        StageView::Seek { chase, .. } => chase.links,
        StageView::Hole { chase, .. } => chase.links,
        StageView::Reach { chase, .. } => chase.links,
        _ => Seq::empty(),
    }
}

/// How many of `n` links can still be looked at, twice, and one more while one is read.
pub open spec fn links_left(stage: StageView, n: nat) -> int {
    match stage {
        StageView::Lead { chase, .. } => 2 * (n - chase.taken) + 1,
        StageView::Seek { chase, .. } => 2 * (n - chase.taken),
        StageView::Hole { chase, .. } => 2 * (n - chase.taken),
        StageView::Reach { chase, .. } => 2 * (n - chase.taken),
        _ => 2 * (n as int),
    }
}

/// A bound on how many questions are left until the next link is read.
pub open spec fn questions_left(stage: StageView) -> nat {
    match stage {
        StageView::Probe { joined } => 2 * parts(joined).names.len() + 8,
        StageView::Climb { ancestor, .. } => 2 * ancestor.names.len() + 7,
        StageView::Gap { at, .. } => 2 * at.names.len() + 6,
        StageView::Real { .. } => 5,
        StageView::Anchor { .. } => 5,
        StageView::Root { .. } => 4,
        StageView::Kind { .. } => 3,
        StageView::Target { .. } => 2,
        StageView::Follow { .. } => 1,
        StageView::Lead { .. } => 0,
        StageView::Seek { at, .. } => 2 * at.names.len() + 2,
        StageView::Hole { at, .. } => 2 * at.names.len() + 1,
        StageView::Reach { .. } => 1,
    }
}

/// Resolving a path comes to an end, whatever the file system answers, as long as it tells of no more
/// than `n` links that lead to nothing: each question leaves fewer links to read, or as many and
/// fewer questions before the next, and neither count falls below zero. No link is met twice.
pub proof fn law_resolving_ends(r: ResolverView, a: AnswerView, n: nat)
    requires
        advanced(r, a) matches ResolutionView::Ask(next) && links_met(next.stage).len() <= n,
    ensures
        advanced(r, a) matches ResolutionView::Ask(next) && {
            &&& {
                ||| links_left(next.stage, n) < links_left(r.stage, n)
                ||| links_left(next.stage, n) == links_left(r.stage, n) && questions_left(next.stage)
                    < questions_left(r.stage)
            }
            &&& links_left(r.stage, n) >= 0 ==> links_left(next.stage, n) >= 0
            &&& links_met(r.stage).no_duplicates() ==> links_met(next.stage).no_duplicates()
        },
{
}

} // verus!
