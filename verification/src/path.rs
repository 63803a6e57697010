//! Paths as text, and the components that decide whether two of them are the same.
use crate::text::{
    glue, glue3, lemma_one_piece, lemma_pieces_at, lemma_pieces_nonempty, pieces, same, split,
    to_chars, Class,
};
use vstd::prelude::*;

verus! {

/// `arg` taken from `base`: an absolute `arg` stands for itself, any other is put behind `base`
/// with a slash between them unless `base` is empty or ends in one.
pub open spec fn joined(base: Seq<char>, arg: Seq<char>) -> Seq<char> {
    if arg.len() > 0 && arg[0] == '/' {
        arg
    } else if base.len() > 0 && base.last() != '/' {
        base + "/"@ + arg
    } else {
        base + arg
    }
}

/// Takes `arg` from `base`.
pub fn join(base: &str, arg: &str) -> (r: String)
    ensures
        r@ == joined(base@, arg@),
{
    let b = to_chars(base);
    let a = to_chars(arg);
    if a.len() > 0 && a[0] == '/' {
        arg.to_owned()
    } else if b.len() > 0 && b[b.len() - 1] != '/' {
        glue3(base, "/", arg)
    } else {
        glue(base, arg)
    }
}

/// The components of a path: whether it starts at the root, and the names from there.
#[verifier::ext_equal]
pub struct Parts {
    pub rooted: bool,
    pub names: Seq<Seq<char>>,
}

/// The members of `p` that name a component: empty ones and single dots do not, but a single dot at
/// the start of a relative path does.
pub open spec fn names_from(p: Seq<Seq<char>>, rooted: bool) -> Seq<Seq<char>>
    decreases p.len(),
{
    if p.len() == 0 {
        Seq::empty()
    } else {
        let before = names_from(p.drop_last(), rooted);
        let leading = p.len() == 1 && !rooted;
        if p.last().len() == 0 || (p.last() == "."@ && !leading) {
            before
        } else {
            before.push(p.last())
        }
    }
}

/// The components of `s`.
pub open spec fn parts(s: Seq<char>) -> Parts {
    let rooted = s.len() > 0 && s[0] == '/';
    Parts { rooted, names: names_from(pieces(s, Class::Only('/')), rooted) }
}

/// A path taken apart.
pub struct Components {
    pub rooted: bool,
    pub names: Vec<String>,
}

impl DeepView for Components {
    type V = Parts;

    open spec fn deep_view(&self) -> Parts {
        Parts { rooted: self.rooted, names: self.names.deep_view() }
    }
}

/// Takes `s` apart.
pub fn components(s: &str) -> (r: Components)
    ensures
        r.deep_view() == parts(s@),
{
    let v = to_chars(s);
    let rooted = v.len() > 0 && v[0] == '/';
    let all = split(s, Class::Only('/'));
    let ghost p = all.deep_view();
    let mut names: Vec<String> = Vec::new();
    let mut i: usize = 0;
    proof {
        assert(p.take(0) =~= Seq::<Seq<char>>::empty());
        assert(names.deep_view() =~= Seq::<Seq<char>>::empty());
    }
    while i < all.len()
        invariant
            i <= all@.len(),
            p == all.deep_view(),
            names.deep_view() == names_from(p.take(i as int), rooted),
        decreases all@.len() - i,
    {
        proof {
            assert(p.take(i + 1).drop_last() =~= p.take(i as int));
            assert(p.take(i + 1).last() == all@[i as int]@);
        }
        let ghost before = names.deep_view();
        let empty = all[i].as_str().is_empty();
        let dot = same(all[i].as_str(), ".");
        if empty || (dot && !(i == 0 && !rooted)) {
        } else {
            names.push(all[i].clone());
            proof {
                assert(names.deep_view() =~= before.push(all@[i as int]@));
            }
        }
        i = i + 1;
    }
    proof {
        assert(p.take(p.len() as int) =~= p);
    }
    Components { rooted, names }
}

/// The names with slashes between them.
pub open spec fn strung(names: Seq<Seq<char>>) -> Seq<char>
    decreases names.len(),
{
    if names.len() == 0 {
        Seq::empty()
    } else if names.len() == 1 {
        names[0]
    } else {
        strung(names.drop_last()) + "/"@ + names.last()
    }
}

/// The components written as a path.
pub open spec fn shown(p: Parts) -> Seq<char> {
    if p.rooted {
        "/"@ + strung(p.names)
    } else {
        strung(p.names)
    }
}

/// Writes components as a path.
pub fn show(c: &Components) -> (r: String)
    ensures
        r@ == shown(c.deep_view()),
{
    let ghost names = c.names.deep_view();
    let mut r = String::new();
    let mut i: usize = 0;
    proof {
        assert(names.take(0) =~= Seq::<Seq<char>>::empty());
    }
    while i < c.names.len()
        invariant
            i <= c.names@.len(),
            names == c.names.deep_view(),
            r@ == strung(names.take(i as int)),
        decreases c.names@.len() - i,
    {
        proof {
            assert(names.take(i + 1).drop_last() =~= names.take(i as int));
            assert(names.take(i + 1).last() == c.names@[i as int]@);
        }
        if i == 0 {
            r = c.names[0].clone();
        } else {
            r = glue3(r.as_str(), "/", c.names[i].as_str());
        }
        i = i + 1;
    }
    proof {
        assert(names.take(names.len() as int) =~= names);
    }
    if c.rooted {
        glue("/", r.as_str())
    } else {
        r
    }
}

/// The path without its last component; `None` for the root and for the empty path.
pub open spec fn parent_of(p: Parts) -> Option<Parts> {
    if p.names.len() == 0 {
        None
    } else {
        Some(Parts { rooted: p.rooted, names: p.names.drop_last() })
    }
}

/// The last component where it is a name, which two dots and a single dot are not.
pub open spec fn name_of(p: Parts) -> Option<Seq<char>> {
    if p.names.len() == 0 || p.names.last() == ".."@ || p.names.last() == "."@ {
        None
    } else {
        Some(p.names.last())
    }
}

/// The path without its last component.
pub fn parent(c: &Components) -> (r: Option<Components>)
    ensures
        r.deep_view() == parent_of(c.deep_view()),
{
    if c.names.len() == 0 {
        return None;
    }
    let mut names = c.names.clone();
    proof {
        assert(names.deep_view() =~= c.names.deep_view());
    }
    let ghost before = names.deep_view();
    names.pop();
    proof {
        assert(names.deep_view() =~= before.drop_last());
    }
    Some(Components { rooted: c.rooted, names })
}

/// The last component where it is a name.
pub fn file_name(c: &Components) -> (r: Option<String>)
    ensures
        r.deep_view() == name_of(c.deep_view()),
{
    let n: usize = c.names.len();
    if n == 0 {
        return None;
    }
    let last = c.names[n - 1].clone();
    if same(last.as_str(), "..") || same(last.as_str(), ".") {
        None
    } else {
        Some(last)
    }
}

/// Whether `p` lies in `base` or is `base`, going by components.
pub open spec fn under(p: Parts, base: Parts) -> bool {
    ||| !base.rooted && base.names.len() == 0
    ||| p.rooted == base.rooted && base.names.len() <= p.names.len() && p.names.take(
        base.names.len() as int,
    ) == base.names
}

/// Whether `p` lies in `base` or is `base`.
pub fn is_under(p: &str, base: &str) -> (r: bool)
    ensures
        r == under(parts(p@), parts(base@)),
{
    lies_under(&components(p), &components(base))
}

/// Whether `c` lies in `b` or is `b`.
pub fn lies_under(c: &Components, b: &Components) -> (r: bool)
    ensures
        r == under(c.deep_view(), b.deep_view()),
{
    let ghost pn = c.names.deep_view();
    let ghost bn = b.names.deep_view();
    if !b.rooted && b.names.len() == 0 {
        return true;
    }
    if c.rooted != b.rooted || b.names.len() > c.names.len() {
        return false;
    }
    let mut i: usize = 0;
    while i < b.names.len()
        invariant
            i <= b.names@.len() <= c.names@.len(),
            pn == c.names.deep_view(),
            bn == b.names.deep_view(),
            c.rooted == b.rooted,
            b.rooted || b.names@.len() > 0,
            forall|j: int| 0 <= j < i ==> pn[j] == #[trigger] bn[j],
        decreases b.names@.len() - i,
    {
        if !same(c.names[i].as_str(), b.names[i].as_str()) {
            proof {
                assert(pn.take(bn.len() as int)[i as int] != bn[i as int]);
            }
            return false;
        }
        i = i + 1;
    }
    proof {
        assert(pn.take(bn.len() as int) =~= bn);
    }
    true
}

/// Whether the two paths have the same components.
pub open spec fn same_place(a: Seq<char>, b: Seq<char>) -> bool {
    parts(a) == parts(b)
}

/// Whether the two paths have the same components.
pub fn is_same_path(a: &str, b: &str) -> (r: bool)
    ensures
        r == same_place(a@, b@),
{
    let x = components(a);
    let y = components(b);
    let ghost xn = x.names.deep_view();
    let ghost yn = y.names.deep_view();
    if x.rooted != y.rooted || x.names.len() != y.names.len() {
        proof {
            assert(x.rooted != y.rooted || xn.len() != yn.len());
        }
        return false;
    }
    let mut i: usize = 0;
    while i < x.names.len()
        invariant
            i <= x.names@.len(),
            x.names@.len() == y.names@.len(),
            xn == x.names.deep_view(),
            yn == y.names.deep_view(),
            parts(a@) == x.deep_view(),
            parts(b@) == y.deep_view(),
            forall|j: int| 0 <= j < i ==> xn[j] == #[trigger] yn[j],
        decreases x.names@.len() - i,
    {
        if !same(x.names[i].as_str(), y.names[i].as_str()) {
            proof {
                assert(xn[i as int] != yn[i as int]);
            }
            return false;
        }
        i = i + 1;
    }
    proof {
        assert(xn =~= yn);
    }
    true
}

/// Whether one of the pieces between slashes is two dots.
pub open spec fn climbs(s: Seq<char>) -> bool {
    pieces(s, Class::Only('/')).contains(".."@)
}

/// Whether one of the pieces between slashes is two dots.
pub fn has_climb(s: &str) -> (r: bool)
    ensures
        r == climbs(s@),
{
    let all = split(s, Class::Only('/'));
    let ghost p = all.deep_view();
    let mut i: usize = 0;
    while i < all.len()
        invariant
            i <= all@.len(),
            p == all.deep_view(),
            p == pieces(s@, Class::Only('/')),
            forall|j: int| 0 <= j < i ==> #[trigger] p[j] != ".."@,
        decreases all@.len() - i,
    {
        if same(all[i].as_str(), "..") {
            proof {
                assert(p[i as int] == ".."@);
            }
            return true;
        }
        i = i + 1;
    }
    false
}

/// What lies in a directory inside another lies in that other too.
pub proof fn law_inside_is_transitive(a: Parts, b: Parts, c: Parts)
    requires
        under(a, b),
        under(b, c),
    ensures
        under(a, c),
{
    if c.rooted || c.names.len() > 0 {
        assert(a.names.take(c.names.len() as int) =~= b.names.take(c.names.len() as int)) by {
            if !b.rooted && b.names.len() == 0 {
            } else {
                assert forall|i: int| 0 <= i < c.names.len() implies a.names[i] == b.names[i] by {
                    assert(a.names.take(b.names.len() as int)[i] == b.names[i]);
                }
            }
        }
    }
}

/// The names of a longer list are those of its first part and those of the rest.
proof fn lemma_names_of_both(p: Seq<Seq<char>>, q: Seq<Seq<char>>, rooted: bool)
    requires
        p.len() >= 1,
    ensures
        names_from(p + q, rooted) == names_from(p, rooted) + names_from(q, true),
    decreases q.len(),
{
    if q.len() == 0 {
        assert(p + q =~= p);
        assert(names_from(p, rooted) + names_from(q, true) =~= names_from(p, rooted));
    } else {
        lemma_names_of_both(p, q.drop_last(), rooted);
        assert((p + q).drop_last() =~= p + q.drop_last());
        assert(names_from(p + q, rooted) =~= names_from(p, rooted) + names_from(q, true));
    }
}

/// Every name of a path is one of its pieces.
proof fn lemma_names_are_pieces(p: Seq<Seq<char>>, rooted: bool, name: Seq<char>)
    requires
        names_from(p, rooted).contains(name),
    ensures
        p.contains(name),
    decreases p.len(),
{
    if p.len() > 0 {
        let before = names_from(p.drop_last(), rooted);
        let k = choose|k: int| 0 <= k < names_from(p, rooted).len() && names_from(p, rooted)[k] == name;
        if k < before.len() {
            assert(before[k] == name);
            lemma_names_are_pieces(p.drop_last(), rooted, name);
            let i = choose|i: int| 0 <= i < p.drop_last().len() && p.drop_last()[i] == name;
            assert(p[i] == name);
        } else {
            assert(p[p.len() - 1] == name);
        }
    }
}

/// A relative path taken from a directory lies in that directory, going by components, and adds
/// its own names to those of the directory; where none of its pieces is two dots, none of the
/// names that it adds is.
pub proof fn law_join_stays_inside(base: Seq<char>, arg: Seq<char>)
    requires
        base.len() > 0,
        arg.len() > 0 ==> arg[0] != '/',
    ensures
        under(parts(joined(base, arg)), parts(base)),
        parts(joined(base, arg)).rooted == parts(base).rooted,
        parts(joined(base, arg)).names == parts(base).names + names_from(
            pieces(arg, Class::Only('/')),
            true,
        ),
        !climbs(arg) ==> !names_from(pieces(arg, Class::Only('/')), true).contains(".."@),
{
    let class = Class::Only('/');
    let rooted = base[0] == '/';
    let whole = joined(base, arg);
    reveal_strlit("/");
    if base.last() == '/' {
        let b = base.drop_last();
        assert(whole =~= b.push('/') + arg);
        lemma_pieces_at(b, '/', arg);
        lemma_pieces_nonempty(b, class);
        lemma_names_of_both(pieces(b, class), pieces(arg, class), rooted);
        let p = pieces(b, class).push(Seq::empty());
        assert(pieces(base, class) == p);
        assert(p.drop_last() =~= pieces(b, class));
        assert(names_from(p, rooted) == names_from(pieces(b, class), rooted));
    } else {
        assert(whole =~= base.push('/') + arg);
        lemma_pieces_at(base, '/', arg);
        lemma_pieces_nonempty(base, class);
        lemma_names_of_both(pieces(base, class), pieces(arg, class), rooted);
    }
    let extra = names_from(pieces(arg, class), true);
    assert(whole[0] == base[0]);
    assert((parts(base).names + extra).take(parts(base).names.len() as int) =~= parts(base).names);
    if extra.contains(".."@) {
        lemma_names_are_pieces(pieces(arg, class), true, ".."@);
    }
}

/// Whether `p` lies in `base` or is `base`, and no two dots lead out of it.
pub open spec fn confined(p: Parts, base: Parts) -> bool {
    under(p, base) && !p.names.skip(base.names.len() as int).contains(".."@)
}

/// What is confined to a place that is confined to another is confined to that one.
pub proof fn law_confined_is_transitive(a: Parts, b: Parts, c: Parts)
    requires
        confined(a, b),
        confined(b, c),
    ensures
        confined(a, c),
{
    law_inside_is_transitive(a, b, c);
    let n = c.names.len() as int;
    let rest = a.names.skip(n);
    if rest.contains(".."@) {
        let k = choose|k: int| 0 <= k < rest.len() && rest[k] == ".."@;
        if n + k < b.names.len() {
            assert(a.names.take(b.names.len() as int)[n + k] == a.names[n + k]);
            assert(b.names.skip(n)[k] == ".."@);
        } else {
            assert(a.names.skip(b.names.len() as int)[n + k - b.names.len()] == ".."@);
        }
    }
}

/// A relative path taken from a directory is confined to it where none of its pieces is two dots.
pub proof fn law_join_is_confined(base: Seq<char>, arg: Seq<char>)
    requires
        arg.len() > 0 ==> arg[0] != '/',
    ensures
        under(parts(joined(base, arg)), parts(base)),
        !climbs(arg) ==> confined(parts(joined(base, arg)), parts(base)),
{
    let n = parts(base).names.len() as int;
    let whole = parts(joined(base, arg));
    if base.len() > 0 {
        law_join_stays_inside(base, arg);
        assert(whole.names.skip(n) =~= names_from(pieces(arg, Class::Only('/')), true));
    } else {
        assert(base + arg =~= arg);
        let none = seq![Seq::<char>::empty()];
        assert(pieces(base, Class::Only('/')) =~= none);
        assert(none.drop_last() =~= Seq::<Seq<char>>::empty());
        assert(names_from(none.drop_last(), false) =~= Seq::<Seq<char>>::empty());
        assert(parts(base).names =~= Seq::<Seq<char>>::empty());
        assert(whole.names.skip(0) =~= whole.names);
        if whole.names.contains(".."@) {
            lemma_names_are_pieces(pieces(arg, Class::Only('/')), false, ".."@);
        }
    }
}

/// A name without slashes is one piece, and the component that it names.
pub proof fn lemma_plain_name(name: Seq<char>)
    requires
        name.len() > 0,
        name != "."@,
        forall|i: int| 0 <= i < name.len() ==> #[trigger] name[i] != '/',
    ensures
        pieces(name, Class::Only('/')) == seq![name],
        names_from(seq![name], true) == seq![name],
{
    lemma_one_piece(name, Class::Only('/'));
    assert(seq![name].drop_last() =~= Seq::<Seq<char>>::empty());
    assert(names_from(seq![name].drop_last(), true) =~= Seq::<Seq<char>>::empty());
    assert(names_from(seq![name], true) =~= seq![name]);
}

/// A plain name taken from a directory is a direct child of the directory.
pub proof fn law_child_of_directory(base: Seq<char>, name: Seq<char>)
    requires
        base.len() > 0,
        name.len() > 0,
        name != "."@,
        forall|i: int| 0 <= i < name.len() ==> #[trigger] name[i] != '/',
    ensures
        parts(joined(base, name)).rooted == parts(base).rooted,
        parts(joined(base, name)).names == parts(base).names.push(name),
{
    lemma_plain_name(name);
    law_join_stays_inside(base, name);
    assert(parts(base).names + seq![name] =~= parts(base).names.push(name));
}

/// Joining: an absolute path stands for itself; any other is put behind the base, with one slash
/// between them, which the base may bring itself.
pub proof fn law_join_puts_one_slash(base: Seq<char>, arg: Seq<char>)
    ensures
        arg.len() > 0 && arg[0] == '/' ==> joined(base, arg) == arg,
        !(arg.len() > 0 && arg[0] == '/') && base.len() > 0 && base.last() != '/' ==> joined(base, arg)
            == base + seq!['/'] + arg && joined(base.push('/'), arg) == joined(base, arg),
        !(arg.len() > 0 && arg[0] == '/') ==> joined(Seq::<char>::empty(), arg) == arg,
{
    reveal_strlit("/");
    assert("/"@ =~= seq!['/']);
    assert(Seq::<char>::empty() + arg =~= arg);
    assert(base.push('/') + arg =~= base + seq!['/'] + arg);
}

/// The components of a path stand between its slashes: a further name adds one, a single dot and an
/// empty one add none, and a slash at the start makes the path absolute.
pub proof fn law_components_stand_between_slashes(a: Seq<char>, name: Seq<char>)
    requires
        a.len() > 0,
        forall|i: int| 0 <= i < name.len() ==> #[trigger] name[i] != '/',
    ensures
        parts(a).rooted <==> a[0] == '/',
        parts(a + seq!['/'] + name).rooted == parts(a).rooted,
        parts(a + seq!['/'] + name).names == if name.len() == 0 || name == "."@ {
            parts(a).names
        } else {
            parts(a).names.push(name)
        },
        name.len() > 0 ==> parts(name) == (Parts { rooted: false, names: seq![name] }),
        parts(Seq::<char>::empty()) == (Parts { rooted: false, names: Seq::empty() }),
{
    let slash = Class::Only('/');
    let whole = a + seq!['/'] + name;
    let rooted = parts(a).rooted;
    assert(whole[0] == a[0]);
    assert(a.push('/') + name =~= whole);
    lemma_pieces_at(a, '/', name);
    assert forall|i: int| 0 <= i < name.len() implies !slash.has(#[trigger] name[i]) by {}
    lemma_one_piece(name, slash);
    lemma_pieces_nonempty(a, slash);
    let p = pieces(a, slash);
    assert((p + seq![name]).drop_last() =~= p);
    assert((p + seq![name]).last() == name);
    let nothing = Seq::<Seq<char>>::empty();
    assert(names_from(nothing, false) =~= nothing);
    if name.len() > 0 {
        assert(seq![name].drop_last() =~= nothing);
        assert(seq![name].last() == name);
        assert(names_from(seq![name], false) =~= seq![name]);
        assert(name[0] != '/');
    }
    let none = Seq::<char>::empty();
    lemma_one_piece(none, slash);
    assert(seq![none].drop_last() =~= nothing);
    assert(seq![none].last() == none);
}

/// The parent of an entry of a directory is the directory, and its name is the name, unless that is
/// two dots.
pub proof fn law_parent_and_name(a: Seq<char>, name: Seq<char>)
    requires
        a.len() > 0,
        name.len() > 0,
        name != "."@,
        forall|i: int| 0 <= i < name.len() ==> #[trigger] name[i] != '/',
    ensures
        parent_of(parts(a + seq!['/'] + name)) == Some(parts(a)),
        name_of(parts(a + seq!['/'] + name)) == if name == ".."@ {
            None
        } else {
            Some(name)
        },
        parent_of(parts("/"@)) is None,
{
    law_components_stand_between_slashes(a, name);
    assert(parts(a).names.push(name).drop_last() =~= parts(a).names);
    reveal_strlit("/");
    let none = Seq::<char>::empty();
    let slash = Class::Only('/');
    assert(none.push('/') + none =~= "/"@);
    lemma_pieces_at(none, '/', none);
    lemma_one_piece(none, slash);
    let p = seq![none] + seq![none];
    let nothing = Seq::<Seq<char>>::empty();
    assert(pieces("/"@, slash) =~= p);
    assert(p.drop_last() =~= seq![none]);
    assert(seq![none].drop_last() =~= nothing);
    assert(p.last() == none && seq![none].last() == none);
    assert(names_from(nothing, true) =~= nothing);
    assert(names_from(seq![none], true) =~= nothing);
    assert(names_from(p, true) =~= nothing);
}

/// A path climbs just where one of its names is two dots.
pub proof fn law_two_dots_climb(a: Seq<char>, b: Seq<char>, name: Seq<char>)
    requires
        forall|i: int| 0 <= i < name.len() ==> #[trigger] name[i] != '/',
    ensures
        climbs(a + seq!['/'] + b) <==> climbs(a) || climbs(b),
        climbs(name) <==> name == ".."@,
{
    let slash = Class::Only('/');
    assert(a.push('/') + b =~= a + seq!['/'] + b);
    lemma_pieces_at(a, '/', b);
    let p = pieces(a, slash);
    let q = pieces(b, slash);
    let dots = ".."@;
    if p.contains(dots) {
        let i = choose|i: int| 0 <= i < p.len() && p[i] == dots;
        assert((p + q)[i] == dots);
    }
    if q.contains(dots) {
        let i = choose|i: int| 0 <= i < q.len() && q[i] == dots;
        assert((p + q)[p.len() + i] == dots);
    }
    if (p + q).contains(dots) {
        let i = choose|i: int| 0 <= i < (p + q).len() && (p + q)[i] == dots;
        if i < p.len() {
            assert(p[i] == dots);
        } else {
            assert(q[i - p.len()] == dots);
        }
    }
    assert forall|i: int| 0 <= i < name.len() implies !slash.has(#[trigger] name[i]) by {}
    lemma_one_piece(name, slash);
    assert(seq![name][0] == name);
}

/// A path lies in a base just where the base is empty, or it is as absolute as the base and starts
/// with the components of it.
pub proof fn law_inside_goes_by_components(p: Parts, base: Parts)
    ensures
        under(p, base) <==> (!base.rooted && base.names.len() == 0) || (p.rooted == base.rooted
            && base.names.len() <= p.names.len() && forall|i: int|
            0 <= i < base.names.len() ==> #[trigger] p.names[i] == base.names[i]),
{
    if base.names.len() <= p.names.len() {
        let front = p.names.take(base.names.len() as int);
        if forall|i: int| 0 <= i < base.names.len() ==> #[trigger] p.names[i] == base.names[i] {
            assert(front =~= base.names);
        }
        if front == base.names {
            assert forall|i: int| 0 <= i < base.names.len() implies #[trigger] p.names[i]
                == base.names[i] by {
                assert(front[i] == p.names[i]);
            }
        }
    }
}

/// Components are written with slashes between them, and before the first where the path is
/// absolute.
pub proof fn law_components_are_written(rooted: bool, names: Seq<Seq<char>>, name: Seq<char>)
    ensures
        shown(Parts { rooted, names: seq![name] }) == if rooted {
            "/"@ + name
        } else {
            name
        },
        names.len() > 0 ==> shown(Parts { rooted, names: names.push(name) }) == shown(
            Parts { rooted, names },
        ) + "/"@ + name,
{
    assert(names.push(name).drop_last() =~= names);
    if names.len() > 0 {
        assert(shown(Parts { rooted, names: names.push(name) }) =~= shown(Parts { rooted, names })
            + "/"@ + name);
    }
}

} // verus!
