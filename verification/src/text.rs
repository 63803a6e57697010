//! Text as sequences of characters: trimming, splitting and gluing.
use vstd::prelude::*;

verus! {

/// Appends one character to a string.
///
/// Trusted: `std::string::String::push` leaves the old text in place and adds `c` at its end.
pub assume_specification[ String::push ](s: &mut String, c: char)
    ensures
        final(s)@ == old(s)@.push(c),
;

/// The characters with the Unicode property `White_Space`.
pub open spec fn is_white(c: char) -> bool {
    let n = c as u32;
    ||| 0x9 <= n <= 0xd
    ||| n == 0x20
    ||| n == 0x85
    ||| n == 0xa0
    ||| n == 0x1680
    ||| 0x2000 <= n <= 0x200a
    ||| n == 0x2028
    ||| n == 0x2029
    ||| n == 0x202f
    ||| n == 0x205f
    ||| n == 0x3000
}

/// Whether `c` is white space.
pub fn white(c: char) -> (r: bool)
    ensures
        r == is_white(c),
{
    let n: u32 = c as u32;
    (0x9 <= n && n <= 0xd) || n == 0x20 || n == 0x85 || n == 0xa0 || n == 0x1680 || (0x2000 <= n && n
        <= 0x200a) || n == 0x2028 || n == 0x2029 || n == 0x202f || n == 0x205f || n == 0x3000
}

/// The characters of `s`.
pub fn to_chars(s: &str) -> (r: Vec<char>)
    ensures
        r@ == s@,
{
    let mut r: Vec<char> = Vec::new();
    for c in it: s.chars()
        invariant
            r@ == it.seq().take(it.index() as int),
    {
        r.push(c);
    }
    r
}

/// The text between two positions of `v`.
pub fn slice_text(v: &Vec<char>, from: usize, to: usize) -> (r: String)
    requires
        from <= to <= v@.len(),
    ensures
        r@ == v@.subrange(from as int, to as int),
{
    let mut r = String::new();
    let mut i: usize = from;
    while i < to
        invariant
            from <= i <= to <= v@.len(),
            r@ == v@.subrange(from as int, i as int),
        decreases to - i,
    {
        r.push(v[i]);
        i = i + 1;
    }
    r
}


/// What a text is cut or trimmed at: white space, or one character.
#[derive(Clone, Copy)]
pub enum Class {
    White,
    Only(char),
}

impl Class {
    /// Whether `c` belongs to the class.
    pub open spec fn has(self, c: char) -> bool {
        match self {
            Class::White => is_white(c),
            Class::Only(x) => c == x,
        }
    }

    /// Whether `c` belongs to the class.
    pub fn test(self, c: char) -> (r: bool)
        ensures
            r == self.has(c),
    {
        match self {
            Class::White => white(c),
            Class::Only(x) => c == x,
        }
    }
}

/// `s` without the characters of `class` at its start.
pub open spec fn trimmed_start(s: Seq<char>, class: Class) -> Seq<char>
    decreases s.len(),
{
    if s.len() > 0 && class.has(s[0]) {
        trimmed_start(s.drop_first(), class)
    } else {
        s
    }
}

/// `s` without the characters of `class` at its end.
pub open spec fn trimmed_end(s: Seq<char>, class: Class) -> Seq<char>
    decreases s.len(),
{
    if s.len() > 0 && class.has(s.last()) {
        trimmed_end(s.drop_last(), class)
    } else {
        s
    }
}

/// `s` without the characters of `class` at either end.
pub open spec fn trimmed(s: Seq<char>, class: Class) -> Seq<char> {
    trimmed_end(trimmed_start(s, class), class)
}

/// `s` without white space at either end.
pub open spec fn bare(s: Seq<char>) -> Seq<char> {
    trimmed(s, Class::White)
}

/// Removes the characters of `class` from the start of `s`.
pub fn trim_start(s: &str, class: Class) -> (r: String)
    ensures
        r@ == trimmed_start(s@, class),
{
    let v = to_chars(s);
    let mut i: usize = 0;
    proof {
        assert(v@.skip(0) =~= v@);
    }
    while i < v.len() && class.test(v[i])
        invariant
            i <= v@.len(),
            trimmed_start(v@.skip(i as int), class) == trimmed_start(v@, class),
        decreases v@.len() - i,
    {
        proof {
            assert(v@.skip(i as int).drop_first() =~= v@.skip(i + 1));
        }
        i = i + 1;
    }
    proof {
        assert(v@.skip(i as int) =~= v@.subrange(i as int, v@.len() as int));
    }
    slice_text(&v, i, v.len())
}

/// Removes the characters of `class` from the end of `s`.
pub fn trim_end(s: &str, class: Class) -> (r: String)
    ensures
        r@ == trimmed_end(s@, class),
{
    let v = to_chars(s);
    let mut n: usize = v.len();
    proof {
        assert(v@.take(n as int) =~= v@);
    }
    while n > 0 && class.test(v[n - 1])
        invariant
            n <= v@.len(),
            trimmed_end(v@.take(n as int), class) == trimmed_end(v@, class),
        decreases n,
    {
        proof {
            assert(v@.take(n as int).drop_last() =~= v@.take(n - 1));
        }
        n = n - 1;
    }
    proof {
        assert(v@.take(n as int) =~= v@.subrange(0, n as int));
    }
    slice_text(&v, 0, n)
}

/// Removes the characters of `class` from both ends of `s`.
pub fn trim_both(s: &str, class: Class) -> (r: String)
    ensures
        r@ == trimmed(s@, class),
{
    let t = trim_start(s, class);
    trim_end(t.as_str(), class)
}

/// Removes white space from both ends of `s`.
pub fn trim(s: &str) -> (r: String)
    ensures
        r@ == bare(s@),
{
    trim_both(s, Class::White)
}

/// The position of the first character of `class` in `s`, or the length of `s` where it has none.
pub open spec fn first_of(s: Seq<char>, class: Class) -> int
    decreases s.len(),
{
    if s.len() == 0 || class.has(s[0]) {
        0
    } else {
        1 + first_of(s.drop_first(), class)
    }
}

/// `first_of` is the least position that holds a character of the class.
pub proof fn lemma_first_of(s: Seq<char>, class: Class)
    ensures
        0 <= first_of(s, class) <= s.len(),
        first_of(s, class) < s.len() ==> class.has(s[first_of(s, class)]),
        forall|i: int| 0 <= i < first_of(s, class) ==> !class.has(#[trigger] s[i]),
    decreases s.len(),
{
    if s.len() == 0 || class.has(s[0]) {
    } else {
        let t = s.drop_first();
        lemma_first_of(t, class);
        assert forall|i: int| 0 <= i < first_of(s, class) implies !class.has(#[trigger] s[i]) by {
            if i > 0 {
                assert(s[i] == t[i - 1]);
            }
        }
    }
}

/// The first position with a character of the class is determined by what stands before it.
pub proof fn lemma_first_of_is(s: Seq<char>, class: Class, k: int)
    requires
        0 <= k <= s.len(),
        k < s.len() ==> class.has(s[k]),
        forall|i: int| 0 <= i < k ==> !class.has(#[trigger] s[i]),
    ensures
        first_of(s, class) == k,
{
    lemma_first_of(s, class);
    let f = first_of(s, class);
    if f < k {
        assert(!class.has(s[f]));
    } else if k < f {
        assert(!class.has(s[k]));
    }
}

/// Whether `s` holds a character of the class.
pub open spec fn holds(s: Seq<char>, class: Class) -> bool {
    first_of(s, class) < s.len()
}

/// The position of the first character of `class` in `v`.
pub fn find_first(v: &Vec<char>, class: Class) -> (r: usize)
    ensures
        r == first_of(v@, class),
{
    let mut i: usize = 0;
    while i < v.len() && !class.test(v[i])
        invariant
            i <= v@.len(),
            forall|j: int| 0 <= j < i ==> !class.has(#[trigger] v@[j]),
        decreases v@.len() - i,
    {
        i = i + 1;
    }
    proof {
        lemma_first_of_is(v@, class, i as int);
    }
    i
}

/// Whether `s` holds a character of `class`.
pub fn contains_class(s: &str, class: Class) -> (r: bool)
    ensures
        r == holds(s@, class),
{
    let v = to_chars(s);
    find_first(&v, class) < v.len()
}

/// `s` cut at its first character of `class`, which is dropped; `None` where it has none.
pub open spec fn cut_once(s: Seq<char>, class: Class) -> Option<(Seq<char>, Seq<char>)> {
    let i = first_of(s, class);
    if i < s.len() {
        Some((s.take(i), s.skip(i + 1)))
    } else {
        None
    }
}

/// Cuts `s` at its first character of `class`.
pub fn split_once(s: &str, class: Class) -> (r: Option<(String, String)>)
    ensures
        r.deep_view() == cut_once(s@, class),
{
    let v = to_chars(s);
    let i: usize = find_first(&v, class);
    if i < v.len() {
        let a = slice_text(&v, 0, i);
        let b = slice_text(&v, i + 1, v.len());
        proof {
            assert(v@.subrange(0, i as int) =~= v@.take(i as int));
            assert(v@.subrange(i + 1, v@.len() as int) =~= v@.skip(i + 1));
        }
        Some((a, b))
    } else {
        None
    }
}

/// `s` cut at every character of `class`, the pieces in order and at least one of them: a cut
/// starts a new piece, every other character extends the last one.
pub open spec fn pieces(s: Seq<char>, class: Class) -> Seq<Seq<char>>
    decreases s.len(),
{
    if s.len() == 0 {
        seq![Seq::<char>::empty()]
    } else {
        let p = pieces(s.drop_last(), class);
        if class.has(s.last()) {
            p.push(Seq::empty())
        } else {
            p.drop_last().push(p.last().push(s.last()))
        }
    }
}

/// Every text has at least one piece.
pub proof fn lemma_pieces_nonempty(s: Seq<char>, class: Class)
    ensures
        pieces(s, class).len() >= 1,
    decreases s.len(),
{
    if s.len() > 0 {
        lemma_pieces_nonempty(s.drop_last(), class);
    }
}

/// A text that is glued together at a character has the pieces of both parts, cut at that character.
pub proof fn lemma_pieces_at(a: Seq<char>, x: char, b: Seq<char>)
    ensures
        pieces(a.push(x) + b, Class::Only(x)) == pieces(a, Class::Only(x)) + pieces(
            b,
            Class::Only(x),
        ),
    decreases b.len(),
{
    let class = Class::Only(x);
    let whole = a.push(x) + b;
    lemma_pieces_nonempty(b, class);
    if b.len() == 0 {
        assert(whole =~= a.push(x));
        assert(a.push(x).drop_last() =~= a);
        assert(pieces(whole, class) =~= pieces(a, class) + pieces(b, class));
    } else {
        let c = b.drop_last();
        lemma_pieces_at(a, x, c);
        lemma_pieces_nonempty(c, class);
        assert(whole.drop_last() =~= a.push(x) + c);
        assert(pieces(whole, class) =~= pieces(a, class) + pieces(b, class));
    }
}

/// A text without a character of the class is one piece.
pub proof fn lemma_one_piece(s: Seq<char>, class: Class)
    requires
        forall|i: int| 0 <= i < s.len() ==> !class.has(#[trigger] s[i]),
    ensures
        pieces(s, class) == seq![s],
    decreases s.len(),
{
    if s.len() == 0 {
        assert(s =~= Seq::<char>::empty());
        assert(pieces(s, class) =~= seq![s]);
    } else {
        let t = s.drop_last();
        assert forall|i: int| 0 <= i < t.len() implies !class.has(#[trigger] t[i]) by {
            assert(t[i] == s[i]);
        }
        lemma_one_piece(t, class);
        assert(t.push(s.last()) =~= s);
        assert(pieces(s, class) =~= seq![s]);
    }
}

/// Cuts `s` at every character of `class`.
pub fn split(s: &str, class: Class) -> (r: Vec<String>)
    ensures
        r.deep_view() == pieces(s@, class),
        r@.len() >= 1,
{
    let v = to_chars(s);
    let mut done: Vec<String> = Vec::new();
    let mut current = String::new();
    let mut i: usize = 0;
    proof {
        assert(v@.take(0) =~= Seq::<char>::empty());
        assert(done.deep_view().push(current@) =~= pieces(v@.take(0), class));
    }
    while i < v.len()
        invariant
            i <= v@.len(),
            done.deep_view().push(current@) == pieces(v@.take(i as int), class),
        decreases v@.len() - i,
    {
        proof {
            assert(v@.take(i + 1).drop_last() =~= v@.take(i as int));
            assert(v@.take(i + 1).last() == v@[i as int]);
        }
        let ghost before = done.deep_view();
        let ghost last = current@;
        if class.test(v[i]) {
            done.push(current);
            current = String::new();
            proof {
                assert(done.deep_view() =~= before.push(last));
            }
        } else {
            current.push(v[i]);
            proof {
                assert(before.push(last).drop_last() =~= before);
            }
        }
        i = i + 1;
    }
    proof {
        assert(v@.take(v@.len() as int) =~= v@);
    }
    let ghost before = done.deep_view();
    let ghost last = current@;
    done.push(current);
    proof {
        assert(done.deep_view() =~= before.push(last));
    }
    done
}


/// The members of `p` that are not empty, in order.
pub open spec fn nonempty(p: Seq<Seq<char>>) -> Seq<Seq<char>>
    decreases p.len(),
{
    if p.len() == 0 {
        Seq::empty()
    } else if p.last().len() == 0 {
        nonempty(p.drop_last())
    } else {
        nonempty(p.drop_last()).push(p.last())
    }
}

/// The runs of characters of `s` between white space.
pub open spec fn words(s: Seq<char>) -> Seq<Seq<char>> {
    nonempty(pieces(s, Class::White))
}

/// The words of `s`.
pub fn split_whitespace(s: &str) -> (r: Vec<String>)
    ensures
        r.deep_view() == words(s@),
{
    let all = split(s, Class::White);
    let mut r: Vec<String> = Vec::new();
    let mut i: usize = 0;
    proof {
        assert(all.deep_view().take(0) =~= Seq::<Seq<char>>::empty());
        assert(r.deep_view() =~= Seq::<Seq<char>>::empty());
    }
    while i < all.len()
        invariant
            i <= all@.len(),
            r.deep_view() == nonempty(all.deep_view().take(i as int)),
        decreases all@.len() - i,
    {
        proof {
            assert(all.deep_view().take(i + 1).drop_last() =~= all.deep_view().take(i as int));
        }
        let ghost before = r.deep_view();
        if !all[i].as_str().is_empty() {
            r.push(all[i].clone());
            proof {
                assert(r.deep_view() =~= before.push(all@[i as int]@));
            }
        }
        i = i + 1;
    }
    proof {
        assert(all.deep_view().take(all@.len() as int) =~= all.deep_view());
    }
    r
}

/// `s` without one carriage return at its end.
pub open spec fn without_return(s: Seq<char>) -> Seq<char> {
    if s.len() > 0 && s.last() == '\r' {
        s.drop_last()
    } else {
        s
    }
}

/// The lines of `s`: each ends before a line feed, which takes one carriage return with it; the
/// text after the last line feed is a line of its own unless it is empty.
pub open spec fn lines_of(s: Seq<char>) -> Seq<Seq<char>> {
    let p = pieces(s, Class::Only('\n'));
    let ended = p.drop_last().map_values(|l: Seq<char>| without_return(l));
    if p.last().len() == 0 {
        ended
    } else {
        ended.push(p.last())
    }
}

/// Drops one carriage return from the end of `s`.
pub fn strip_return(s: &str) -> (r: String)
    ensures
        r@ == without_return(s@),
{
    let v = to_chars(s);
    let n: usize = v.len();
    proof {
        assert(v@.subrange(0, n as int) =~= v@);
    }
    if n > 0 && v[n - 1] == '\r' {
        proof {
            assert(v@.subrange(0, n - 1) =~= v@.drop_last());
        }
        slice_text(&v, 0, n - 1)
    } else {
        slice_text(&v, 0, n)
    }
}

/// The lines of `s`.
pub fn lines(s: &str) -> (r: Vec<String>)
    ensures
        r.deep_view() == lines_of(s@),
{
    let all = split(s, Class::Only('\n'));
    let ghost p = pieces(s@, Class::Only('\n'));
    let ghost f = |l: Seq<char>| without_return(l);
    let n: usize = all.len();
    let mut r: Vec<String> = Vec::new();
    let mut i: usize = 0;
    proof {
        assert(r.deep_view() =~= p.take(0).map_values(f));
    }
    while i < n - 1
        invariant
            n == all@.len(),
            n >= 1,
            i <= n - 1,
            all.deep_view() == p,
            f == (|l: Seq<char>| without_return(l)),
            r.deep_view() == p.take(i as int).map_values(f),
        decreases n - i,
    {
        let ghost before = r.deep_view();
        let line = strip_return(all[i].as_str());
        let ghost lv = line@;
        r.push(line);
        proof {
            assert(p[i as int] == all@[i as int]@);
            assert(r.deep_view() =~= before.push(lv));
            assert(p.take(i + 1).map_values(f) =~= p.take(i as int).map_values(f).push(f(p[i as int])));
        }
        i = i + 1;
    }
    proof {
        assert(p.take(n - 1) =~= p.drop_last());
        assert(p.last() == all@[n - 1]@);
    }
    let ghost before = r.deep_view();
    if !all[n - 1].as_str().is_empty() {
        r.push(all[n - 1].clone());
        proof {
            assert(r.deep_view() =~= before.push(p.last()));
        }
    }
    r
}

/// Whether `p` stands at the start of `s`.
pub open spec fn starts(s: Seq<char>, p: Seq<char>) -> bool {
    p.len() <= s.len() && s.take(p.len() as int) == p
}

/// Whether `p` stands at the end of `s`.
pub open spec fn ends(s: Seq<char>, p: Seq<char>) -> bool {
    p.len() <= s.len() && s.skip(s.len() - p.len()) == p
}

/// What follows `p` at the start of `s`; `None` where `s` does not start so.
pub open spec fn after_prefix(s: Seq<char>, p: Seq<char>) -> Option<Seq<char>> {
    if starts(s, p) {
        Some(s.skip(p.len() as int))
    } else {
        None
    }
}

/// Whether `p` stands in `s` from position `i`.
pub open spec fn stands_at(s: Seq<char>, p: Seq<char>, i: int) -> bool {
    0 <= i && i + p.len() <= s.len() && s.subrange(i, i + p.len()) == p
}

/// Whether `p` stands anywhere in `s`.
pub open spec fn has_text(s: Seq<char>, p: Seq<char>) -> bool {
    exists|i: int| stands_at(s, p, i)
}

/// Whether `p` stands in `v` from position `at`.
pub fn stands(v: &Vec<char>, p: &Vec<char>, at: usize) -> (r: bool)
    ensures
        r == stands_at(v@, p@, at as int),
{
    if at > v.len() || p.len() > v.len() - at {
        return false;
    }
    let mut i: usize = 0;
    while i < p.len()
        invariant
            i <= p@.len(),
            at + p@.len() <= v.len(),
            forall|j: int| 0 <= j < i ==> v@[at + j] == #[trigger] p@[j],
        decreases p@.len() - i,
    {
        if v[at + i] != p[i] {
            proof {
                assert(v@.subrange(at as int, at + p@.len())[i as int] != p@[i as int]);
            }
            return false;
        }
        i = i + 1;
    }
    proof {
        assert(v@.subrange(at as int, at + p@.len()) =~= p@);
    }
    true
}

/// Whether `s` starts with `p`.
pub fn starts_with(s: &str, p: &str) -> (r: bool)
    ensures
        r == starts(s@, p@),
{
    let v = to_chars(s);
    let q = to_chars(p);
    proof {
        if q@.len() <= v@.len() {
            assert(v@.subrange(0, q@.len() as int) =~= v@.take(q@.len() as int));
        }
    }
    stands(&v, &q, 0)
}

/// Whether `s` ends with `p`.
pub fn ends_with(s: &str, p: &str) -> (r: bool)
    ensures
        r == ends(s@, p@),
{
    let v = to_chars(s);
    let q = to_chars(p);
    if q.len() > v.len() {
        return false;
    }
    proof {
        assert(v@.subrange(v@.len() - q@.len(), v@.len() as int) =~= v@.skip(v@.len() - q@.len()));
    }
    stands(&v, &q, v.len() - q.len())
}

/// What follows `p` at the start of `s`.
pub fn strip_prefix(s: &str, p: &str) -> (r: Option<String>)
    ensures
        r.deep_view() == after_prefix(s@, p@),
{
    if starts_with(s, p) {
        let v = to_chars(s);
        let q = to_chars(p);
        proof {
            assert(v@.subrange(q@.len() as int, v@.len() as int) =~= v@.skip(q@.len() as int));
        }
        Some(slice_text(&v, q.len(), v.len()))
    } else {
        None
    }
}

/// Whether `p` stands anywhere in `s`.
pub fn contains_text(s: &str, p: &str) -> (r: bool)
    ensures
        r == has_text(s@, p@),
{
    let v = to_chars(s);
    let q = to_chars(p);
    let mut i: usize = 0;
    while i <= v.len()
        invariant
            i <= v@.len() + 1,
            v@ == s@,
            q@ == p@,
            forall|j: int| 0 <= j < i ==> !stands_at(v@, q@, j),
        decreases v@.len() + 1 - i,
    {
        if stands(&v, &q, i) {
            return true;
        }
        if i == v.len() {
            proof {
                assert forall|j: int| !stands_at(v@, q@, j) by {
                    if j > i {
                    }
                }
            }
            return false;
        }
        i = i + 1;
    }
    false
}

/// `s` with every `c` replaced by `by`.
pub open spec fn replaced(s: Seq<char>, c: char, by: Seq<char>) -> Seq<char>
    decreases s.len(),
{
    if s.len() == 0 {
        Seq::empty()
    } else if s.last() == c {
        replaced(s.drop_last(), c, by) + by
    } else {
        replaced(s.drop_last(), c, by).push(s.last())
    }
}

/// Replaces every `c` in `s` by `by`.
pub fn replace(s: &str, c: char, by: &str) -> (r: String)
    ensures
        r@ == replaced(s@, c, by@),
{
    let v = to_chars(s);
    let mut r = String::new();
    let mut i: usize = 0;
    proof {
        assert(v@.take(0) =~= Seq::<char>::empty());
    }
    while i < v.len()
        invariant
            i <= v@.len(),
            r@ == replaced(v@.take(i as int), c, by@),
        decreases v@.len() - i,
    {
        proof {
            assert(v@.take(i + 1).drop_last() =~= v@.take(i as int));
        }
        if v[i] == c {
            r.append(by);
        } else {
            r.push(v[i]);
        }
        i = i + 1;
    }
    proof {
        assert(v@.take(v@.len() as int) =~= v@);
    }
    r
}

/// `s` with every occurrence of `from` replaced by `to`, read from the left.
pub open spec fn rewritten(s: Seq<char>, from: Seq<char>, to: Seq<char>) -> Seq<char>
    decreases s.len(),
{
    if from.len() == 0 || s.len() < from.len() {
        s
    } else if starts(s, from) {
        to + rewritten(s.skip(from.len() as int), from, to)
    } else {
        seq![s[0]] + rewritten(s.drop_first(), from, to)
    }
}

/// Replaces every occurrence of `from` in `s` by `to`.
pub fn rewrite(s: &str, from: &str, to: &str) -> (r: String)
    requires
        from@.len() > 0,
    ensures
        r@ == rewritten(s@, from@, to@),
{
    let v = to_chars(s);
    let f = to_chars(from);
    let ghost fv = from@;
    let ghost tv = to@;
    let mut r = String::new();
    let mut i: usize = 0;
    proof {
        assert(v@.skip(0) =~= v@);
        assert(r@ + rewritten(v@.skip(0), fv, tv) =~= rewritten(v@, fv, tv));
    }
    while i < v.len()
        invariant
            i <= v@.len(),
            v@ == s@,
            f@ == fv,
            fv == from@,
            tv == to@,
            fv.len() > 0,
            r@ + rewritten(v@.skip(i as int), fv, tv) == rewritten(v@, fv, tv),
        decreases v@.len() - i,
    {
        let ghost rest = v@.skip(i as int);
        let ghost before = r@;
        if stands(&v, &f, i) {
            proof {
                assert(rest.take(fv.len() as int) =~= v@.subrange(i as int, i + fv.len()));
                assert(rest.skip(fv.len() as int) =~= v@.skip(i + fv.len()));
            }
            r.append(to);
            i = i + f.len();
            proof {
                assert(r@ + rewritten(v@.skip(i as int), fv, tv) =~= before + (tv + rewritten(
                    v@.skip(i as int),
                    fv,
                    tv,
                )));
            }
        } else {
            proof {
                if fv.len() <= rest.len() {
                    assert(rest.take(fv.len() as int) =~= v@.subrange(i as int, i + fv.len()));
                }
                assert(rest.drop_first() =~= v@.skip(i + 1));
            }
            r.push(v[i]);
            proof {
                if rest.len() < fv.len() {
                    assert(rewritten(v@.skip(i + 1), fv, tv) == v@.skip(i + 1));
                    assert(r@ + v@.skip(i + 1) =~= before + rest);
                } else {
                    assert(r@ + rewritten(v@.skip(i + 1), fv, tv) =~= before + (seq![rest[0]]
                        + rewritten(v@.skip(i + 1), fv, tv)));
                }
            }
            i = i + 1;
        }
    }
    proof {
        assert(v@.skip(i as int) =~= Seq::<char>::empty());
        assert(r@ + rewritten(v@.skip(i as int), fv, tv) =~= r@);
    }
    r
}

/// Whether two texts are the same.
pub fn same(a: &str, b: &str) -> (r: bool)
    ensures
        r == (a@ == b@),
{
    let x = a.to_owned();
    let y = b.to_owned();
    x == y
}

/// `a` followed by `b`.
pub fn glue(a: &str, b: &str) -> (r: String)
    ensures
        r@ == a@ + b@,
{
    let mut r = a.to_owned();
    r.append(b);
    r
}

/// `a`, `b` and `c` one after the other.
pub fn glue3(a: &str, b: &str, c: &str) -> (r: String)
    ensures
        r@ == a@ + b@ + c@,
{
    let mut r = glue(a, b);
    r.append(c);
    r
}

/// What is left where the start is trimmed: all from the first character that is not of the class.
pub proof fn law_trimmed_start_is(s: Seq<char>, class: Class, k: int)
    requires
        0 <= k <= s.len(),
        forall|i: int| 0 <= i < k ==> class.has(#[trigger] s[i]),
        k < s.len() ==> !class.has(s[k]),
    ensures
        trimmed_start(s, class) == s.skip(k),
    decreases s.len(),
{
    if k > 0 {
        let t = s.drop_first();
        assert(class.has(s[0]));
        assert forall|i: int| 0 <= i < k - 1 implies class.has(#[trigger] t[i]) by {
            assert(t[i] == s[i + 1]);
        }
        law_trimmed_start_is(t, class, k - 1);
        assert(t.skip(k - 1) =~= s.skip(k));
    } else {
        assert(s.skip(0) =~= s);
    }
}

/// What is left where the end is trimmed: all up to the last character that is not of the class.
pub proof fn law_trimmed_end_is(s: Seq<char>, class: Class, k: int)
    requires
        0 <= k <= s.len(),
        forall|i: int| k <= i < s.len() ==> class.has(#[trigger] s[i]),
        k > 0 ==> !class.has(s[k - 1]),
    ensures
        trimmed_end(s, class) == s.take(k),
    decreases s.len(),
{
    if k < s.len() {
        let t = s.drop_last();
        assert(class.has(s[s.len() - 1]));
        assert forall|i: int| k <= i < t.len() implies class.has(#[trigger] t[i]) by {
            assert(t[i] == s[i]);
        }
        law_trimmed_end_is(t, class, k);
        assert(t.take(k) =~= s.take(k));
    } else {
        assert(s.take(k) =~= s);
    }
}

/// A text is cut at the first character of the class: what stands before it and what stands behind
/// it come out whole.
pub proof fn law_cut_at_the_first(a: Seq<char>, c: char, b: Seq<char>, class: Class)
    requires
        class.has(c),
        forall|i: int| 0 <= i < a.len() ==> !class.has(#[trigger] a[i]),
    ensures
        cut_once(a + seq![c] + b, class) == Some((a, b)),
        cut_once(a, class) is None,
{
    let s = a + seq![c] + b;
    let k = a.len() as int;
    assert(s[k] == c);
    assert forall|i: int| 0 <= i < k implies !class.has(#[trigger] s[i]) by {
        assert(s[i] == a[i]);
    }
    lemma_first_of_is(s, class, k);
    assert(s.take(k) =~= a);
    assert(s.skip(k + 1) =~= b);
    lemma_first_of_is(a, class, k);
}

/// White space at the ends goes, and what stands between it stays whole.
pub proof fn law_bare_drops_white(a: Seq<char>, s: Seq<char>, b: Seq<char>)
    requires
        forall|i: int| 0 <= i < a.len() ==> is_white(#[trigger] a[i]),
        forall|i: int| 0 <= i < b.len() ==> is_white(#[trigger] b[i]),
        s.len() > 0 ==> !is_white(s[0]) && !is_white(s.last()),
    ensures
        bare(a + s + b) == s,
{
    let all = a + s + b;
    if s.len() > 0 {
        let k = a.len() as int;
        assert(all[k] == s[0]);
        assert forall|i: int| 0 <= i < k implies Class::White.has(#[trigger] all[i]) by {
            assert(all[i] == a[i]);
        }
        law_trimmed_start_is(all, Class::White, k);
        let rest = all.skip(k);
        let n = s.len() as int;
        assert(rest =~= s + b);
        assert forall|i: int| n <= i < rest.len() implies Class::White.has(#[trigger] rest[i]) by {
            assert(rest[i] == b[i - n]);
        }
        assert(rest[n - 1] == s.last());
        law_trimmed_end_is(rest, Class::White, n);
        assert(rest.take(n) =~= s);
    } else {
        assert forall|i: int| 0 <= i < all.len() implies Class::White.has(#[trigger] all[i]) by {
            if i < a.len() {
                assert(all[i] == a[i]);
            } else {
                assert(all[i] == b[i - a.len()]);
            }
        }
        law_trimmed_start_is(all, Class::White, all.len() as int);
        assert(all.skip(all.len() as int) =~= s);
    }
}

/// Replacing in two texts, one after the other.
proof fn lemma_replaced_add(a: Seq<char>, b: Seq<char>, c: char, by: Seq<char>)
    ensures
        replaced(a + b, c, by) == replaced(a, c, by) + replaced(b, c, by),
    decreases b.len(),
{
    if b.len() == 0 {
        assert(a + b =~= a);
        assert(replaced(a, c, by) + Seq::<char>::empty() =~= replaced(a, c, by));
    } else {
        lemma_replaced_add(a, b.drop_last(), c, by);
        assert((a + b).drop_last() =~= a + b.drop_last());
        let front = replaced(a, c, by);
        let back = replaced(b.drop_last(), c, by);
        assert((front + back) + by =~= front + (back + by));
        assert((front + back).push(b.last()) =~= front + back.push(b.last()));
    }
}

/// Replacing where there is nothing to replace.
proof fn lemma_replaced_none(a: Seq<char>, c: char, by: Seq<char>)
    requires
        forall|k: int| 0 <= k < a.len() ==> #[trigger] a[k] != c,
    ensures
        replaced(a, c, by) == a,
    decreases a.len(),
{
    if a.len() > 0 {
        let t = a.drop_last();
        assert forall|k: int| 0 <= k < t.len() implies #[trigger] t[k] != c by {
            assert(t[k] == a[k]);
        }
        lemma_replaced_none(t, c, by);
        assert(a[a.len() - 1] != c);
        assert(t.push(a.last()) =~= a);
    } else {
        assert(a =~= Seq::<char>::empty());
    }
}

/// Replacing goes one by one: what is not the character stays, and each one that is makes way for
/// the text.
pub proof fn law_replaced_is_one_by_one(a: Seq<char>, b: Seq<char>, c: char, by: Seq<char>)
    ensures
        replaced(a + b, c, by) == replaced(a, c, by) + replaced(b, c, by),
        replaced(seq![c], c, by) == by,
        (forall|k: int| 0 <= k < a.len() ==> #[trigger] a[k] != c) ==> replaced(a, c, by) == a,
{
    let none = Seq::<char>::empty();
    assert(seq![c].drop_last() =~= none);
    assert(seq![c].last() == c);
    assert(replaced(none, c, by) =~= none);
    assert(none + by =~= by);
    lemma_replaced_add(a, b, c, by);
    if forall|k: int| 0 <= k < a.len() ==> #[trigger] a[k] != c {
        lemma_replaced_none(a, c, by);
    }
}

/// A text with one such character.
pub proof fn law_replaced_once(a: Seq<char>, c: char, b: Seq<char>, by: Seq<char>)
    requires
        forall|k: int| 0 <= k < a.len() ==> #[trigger] a[k] != c,
        forall|k: int| 0 <= k < b.len() ==> #[trigger] b[k] != c,
    ensures
        replaced(a, c, by) == a,
        replaced(a + seq![c] + b, c, by) == a + by + b,
{
    law_replaced_is_one_by_one(a, seq![c], c, by);
    law_replaced_is_one_by_one(a + seq![c], b, c, by);
    law_replaced_is_one_by_one(b, b, c, by);
}

/// A text is cut at a character of the class into the pieces of what stands before it and those of
/// what stands behind it; and where there is none, it is one piece.
pub proof fn law_pieces_are_cut_at(a: Seq<char>, c: char, b: Seq<char>, class: Class)
    requires
        class.has(c),
    ensures
        pieces(a + seq![c] + b, class) == pieces(a, class) + pieces(b, class),
        (forall|i: int| 0 <= i < a.len() ==> !class.has(#[trigger] a[i])) ==> pieces(a, class) == seq![a],
    decreases b.len(),
{
    let whole = a + seq![c] + b;
    lemma_pieces_nonempty(b, class);
    if b.len() == 0 {
        assert(whole.drop_last() =~= a);
        assert(whole.last() == c);
        assert(pieces(whole, class) =~= pieces(a, class) + pieces(b, class));
    } else {
        let d = b.drop_last();
        law_pieces_are_cut_at(a, c, d, class);
        lemma_pieces_nonempty(d, class);
        assert(whole.drop_last() =~= a + seq![c] + d);
        assert(pieces(whole, class) =~= pieces(a, class) + pieces(b, class));
    }
    if forall|i: int| 0 <= i < a.len() ==> !class.has(#[trigger] a[i]) {
        lemma_one_piece(a, class);
    }
}

/// The members of two lists that are not empty.
proof fn lemma_nonempty_add(p: Seq<Seq<char>>, q: Seq<Seq<char>>)
    ensures
        nonempty(p + q) == nonempty(p) + nonempty(q),
    decreases q.len(),
{
    if q.len() == 0 {
        assert(p + q =~= p);
        assert(nonempty(p) + nonempty(q) =~= nonempty(p));
    } else {
        lemma_nonempty_add(p, q.drop_last());
        assert((p + q).drop_last() =~= p + q.drop_last());
        assert((p + q).last() == q.last());
        assert(nonempty(p + q) =~= nonempty(p) + nonempty(q));
    }
}

/// White space parts words: a text has the words of what stands before it and those of what stands
/// behind it; a text without white space is one word, and the empty text has none.
pub proof fn law_white_space_parts_words(a: Seq<char>, c: char, b: Seq<char>)
    requires
        is_white(c),
    ensures
        words(a + seq![c] + b) == words(a) + words(b),
        a.len() > 0 && (forall|i: int| 0 <= i < a.len() ==> !is_white(#[trigger] a[i])) ==> words(a)
            == seq![a],
        words(Seq::<char>::empty()).len() == 0,
{
    law_pieces_are_cut_at(a, c, b, Class::White);
    lemma_nonempty_add(pieces(a, Class::White), pieces(b, Class::White));
    let nothing = Seq::<Seq<char>>::empty();
    assert(nonempty(nothing) =~= nothing);
    if a.len() > 0 && (forall|i: int| 0 <= i < a.len() ==> !is_white(#[trigger] a[i])) {
        assert forall|i: int| 0 <= i < a.len() implies !Class::White.has(#[trigger] a[i]) by {}
        lemma_one_piece(a, Class::White);
        assert(seq![a].drop_last() =~= nothing);
        assert(seq![a].last() == a);
        assert(nonempty(seq![a]) =~= seq![a]);
    }
    let none = Seq::<char>::empty();
    lemma_one_piece(none, Class::White);
    assert(seq![none].drop_last() =~= nothing);
    assert(seq![none].last() == none);
}

/// A line ends before a line feed, and one carriage return before that goes with it; what follows the
/// last line feed is a line unless it is empty.
pub proof fn law_lines_end_at_line_feeds(a: Seq<char>, b: Seq<char>)
    requires
        forall|i: int| 0 <= i < a.len() ==> #[trigger] a[i] != '\n',
    ensures
        lines_of(a + seq!['\n'] + b) == seq![
            if a.len() > 0 && a.last() == '\r' {
                a.drop_last()
            } else {
                a
            },
        ] + lines_of(b),
        a.len() > 0 ==> lines_of(a) == seq![a],
        lines_of(Seq::<char>::empty()).len() == 0,
{
    let feed = Class::Only('\n');
    let strip = |l: Seq<char>| without_return(l);
    law_pieces_are_cut_at(a, '\n', b, feed);
    lemma_pieces_nonempty(b, feed);
    assert forall|i: int| 0 <= i < a.len() implies !feed.has(#[trigger] a[i]) by {}
    let p = pieces(a + seq!['\n'] + b, feed);
    let q = pieces(b, feed);
    assert(p =~= seq![a] + q);
    assert(p.drop_last() =~= seq![a] + q.drop_last());
    assert(p.drop_last().map_values(strip) =~= seq![without_return(a)] + q.drop_last().map_values(
        strip,
    ));
    assert(lines_of(a + seq!['\n'] + b) =~= seq![without_return(a)] + lines_of(b));
    assert(seq![a].drop_last().map_values(strip) =~= Seq::<Seq<char>>::empty());
    if a.len() > 0 {
        assert(lines_of(a) =~= seq![a]);
    }
    let none = Seq::<char>::empty();
    lemma_one_piece(none, feed);
    assert(seq![none].drop_last().map_values(strip) =~= Seq::<Seq<char>>::empty());
}

/// Rewriting: what stands before the first occurrence of a text stays, the occurrence makes way for
/// the other text, and what follows is rewritten in turn; a text without an occurrence stays.
pub proof fn law_rewritten_in_turn(a: Seq<char>, from: Seq<char>, to: Seq<char>, b: Seq<char>)
    requires
        from.len() > 0,
        forall|i: int| 0 <= i < a.len() ==> !(#[trigger] stands_at(a + from + b, from, i)),
    ensures
        rewritten(a + from + b, from, to) == a + to + rewritten(b, from, to),
    decreases a.len(),
{
    let s = a + from + b;
    if a.len() == 0 {
        assert(s =~= from + b);
        assert(s.take(from.len() as int) =~= from);
        assert(s.skip(from.len() as int) =~= b);
        assert(a + to =~= to);
    } else {
        let t = a.drop_first();
        assert(!stands_at(s, from, 0));
        assert(s.subrange(0, from.len() as int) =~= s.take(from.len() as int));
        assert(s.drop_first() =~= t + from + b);
        assert forall|i: int| 0 <= i < t.len() implies !(#[trigger] stands_at(t + from + b, from, i)) by {
            assert(!stands_at(s, from, i + 1));
            if i + from.len() <= (t + from + b).len() {
                assert(s.subrange(i + 1, i + 1 + from.len()) =~= (t + from + b).subrange(
                    i,
                    i + from.len(),
                ));
            }
        }
        law_rewritten_in_turn(t, from, to, b);
        assert(seq![s[0]] + (t + to + rewritten(b, from, to)) =~= a + to + rewritten(b, from, to));
    }
}

/// A text in which another does not occur is not rewritten.
pub proof fn law_nothing_to_rewrite(s: Seq<char>, from: Seq<char>, to: Seq<char>)
    requires
        !has_text(s, from),
    ensures
        rewritten(s, from, to) == s,
    decreases s.len(),
{
    if from.len() > 0 && s.len() >= from.len() {
        let t = s.drop_first();
        assert(!stands_at(s, from, 0));
        assert(s.subrange(0, from.len() as int) =~= s.take(from.len() as int));
        assert forall|i: int| !(#[trigger] stands_at(t, from, i)) by {
            if stands_at(t, from, i) {
                assert(s.subrange(i + 1, i + 1 + from.len()) =~= t.subrange(i, i + from.len()));
                assert(stands_at(s, from, i + 1));
            }
        }
        law_nothing_to_rewrite(t, from, to);
        assert(seq![s[0]] + t =~= s);
    }
}

/// A class has the characters that it says: white space those that Unicode calls so, and the other
/// one its own.
pub proof fn law_classes_have_their_characters(c: char, x: char)
    ensures
        Class::Only(x).has(c) <==> c == x,
        Class::White.has(c) <==> is_white(c),
        is_white(' ') && is_white('\t') && is_white('\n') && is_white('\r'),
        0x21 <= c as u32 && c as u32 <= 0x7e ==> !is_white(c),
        (c as u32) < 0x80 ==> (is_white(c) <==> c as u32 == 0x20 || (0x9 <= c as u32 && c as u32
            <= 0xd)),
{
}

/// A text starts with another just where it is that text and something behind it, ends with another
/// just where it is something and that text, and holds another just where that stands between two
/// others; what follows a start is what stands behind it.
pub proof fn law_starts_and_ends(s: Seq<char>, p: Seq<char>, a: Seq<char>, b: Seq<char>)
    ensures
        starts(p + b, p),
        ends(a + p, p),
        has_text(a + p + b, p),
        after_prefix(p + b, p) == Some(b),
        starts(s, p) ==> s == p + s.skip(p.len() as int),
        ends(s, p) ==> s == s.take(s.len() - p.len()) + p,
        has_text(s, p) ==> exists|x: Seq<char>, y: Seq<char>| s == #[trigger] (x + p + y),
        !starts(s, p) ==> after_prefix(s, p) is None,
{
    assert((p + b).take(p.len() as int) =~= p);
    assert((p + b).skip(p.len() as int) =~= b);
    assert((a + p).skip(a.len() as int) =~= p);
    let k = a.len() as int;
    assert((a + p + b).subrange(k, k + p.len()) =~= p);
    assert(stands_at(a + p + b, p, k));
    if starts(s, p) {
        assert(s =~= s.take(p.len() as int) + s.skip(p.len() as int));
    }
    if ends(s, p) {
        assert(s =~= s.take(s.len() - p.len()) + s.skip(s.len() - p.len()));
    }
    if has_text(s, p) {
        let i = choose|i: int| stands_at(s, p, i);
        let x = s.take(i);
        let y = s.skip(i + p.len());
        assert(s =~= x + s.subrange(i, i + p.len()) + y);
        assert(s == x + p + y);
    }
}

} // verus!
