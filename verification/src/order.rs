//! The order of texts, and sorting.
use crate::text::to_chars;
use vstd::prelude::*;

verus! {

/// Whether `a` stands before `b` when rows of numbers are ordered number by number, a shorter row
/// before the longer ones that it starts.
pub open spec fn precedes(a: Seq<int>, b: Seq<int>) -> bool
    decreases a.len(),
{
    if b.len() == 0 {
        false
    } else if a.len() == 0 {
        true
    } else if a[0] != b[0] {
        a[0] < b[0]
    } else {
        precedes(a.drop_first(), b.drop_first())
    }
}

/// No row stands before itself.
pub proof fn law_order_is_irreflexive(a: Seq<int>)
    ensures
        !precedes(a, a),
    decreases a.len(),
{
    if a.len() > 0 {
        law_order_is_irreflexive(a.drop_first());
    }
}

/// Of two different rows one stands before the other.
pub proof fn law_order_is_total(a: Seq<int>, b: Seq<int>)
    ensures
        a == b || precedes(a, b) || precedes(b, a),
    decreases a.len(),
{
    if a.len() == 0 && b.len() == 0 {
        assert(a =~= b);
    } else if a.len() > 0 && b.len() > 0 && a[0] == b[0] {
        law_order_is_total(a.drop_first(), b.drop_first());
        if a.drop_first() == b.drop_first() {
            assert(a =~= seq![a[0]] + a.drop_first());
            assert(b =~= seq![b[0]] + b.drop_first());
        }
    }
}

/// What stands before a row stands before all that come after it.
pub proof fn law_order_is_transitive(a: Seq<int>, b: Seq<int>, c: Seq<int>)
    requires
        precedes(a, b),
        precedes(b, c),
    ensures
        precedes(a, c),
    decreases a.len(),
{
    if a.len() > 0 && a[0] == b[0] && b[0] == c[0] {
        law_order_is_transitive(a.drop_first(), b.drop_first(), c.drop_first());
    }
}

/// The codes of the characters of `s`. Texts are ordered by them, which is also the order of their
/// bytes.
pub open spec fn codes(s: Seq<char>) -> Seq<int> {
    Seq::new(s.len(), |i: int| s[i] as int)
}

/// Whether the text `a` stands before `b`.
pub fn is_before(a: &str, b: &str) -> (r: bool)
    ensures
        r == precedes(codes(a@), codes(b@)),
{
    let x = to_chars(a);
    let y = to_chars(b);
    let ghost xs = codes(a@);
    let ghost ys = codes(b@);
    let mut i: usize = 0;
    proof {
        assert(xs.skip(0) =~= xs);
        assert(ys.skip(0) =~= ys);
    }
    while i < x.len() && i < y.len()
        invariant
            i <= x@.len(),
            i <= y@.len(),
            x@ == a@,
            y@ == b@,
            xs == codes(a@),
            ys == codes(b@),
            precedes(xs.skip(i as int), ys.skip(i as int)) == precedes(xs, ys),
        decreases x@.len() - i,
    {
        let c: char = x[i];
        let d: char = y[i];
        if c != d {
            return c < d;
        }
        proof {
            assert(xs.skip(i as int).drop_first() =~= xs.skip(i + 1));
            assert(ys.skip(i as int).drop_first() =~= ys.skip(i + 1));
        }
        i = i + 1;
    }
    i < y.len()
}

/// Whether `a` comes before `b` in a listing that goes up, or down.
pub open spec fn comes_first(a: Seq<int>, b: Seq<int>, down: bool) -> bool {
    if down {
        precedes(b, a)
    } else {
        precedes(a, b)
    }
}

/// An item that is sorted by a row of numbers.
pub trait Keyed: DeepView + Sized {
    /// The row that the item is sorted by.
    spec fn key_of(item: Self::V) -> Seq<int>;

    /// Whether the item stands before `other`.
    fn stands_before(&self, other: &Self) -> (r: bool)
        ensures
            r == precedes(Self::key_of(self.deep_view()), Self::key_of(other.deep_view())),
    ;
}

/// `x` put into the sorted `s`, in front of the items with the same key.
pub open spec fn placed<T: Keyed>(x: T::V, s: Seq<T::V>, down: bool) -> Seq<T::V>
    decreases s.len(),
{
    if s.len() > 0 && comes_first(T::key_of(s[0]), T::key_of(x), down) {
        seq![s[0]] + placed::<T>(x, s.drop_first(), down)
    } else {
        seq![x] + s
    }
}

/// The items of `s` by their keys, those with the same key in the order in which they stood.
pub open spec fn sorted<T: Keyed>(s: Seq<T::V>, down: bool) -> Seq<T::V>
    decreases s.len(),
{
    if s.len() == 0 {
        s
    } else {
        placed::<T>(s[0], sorted::<T>(s.drop_first(), down), down)
    }
}

/// Where `placed` puts an item.
proof fn lemma_placed_at<T: Keyed>(x: T::V, s: Seq<T::V>, down: bool, k: int)
    requires
        0 <= k <= s.len(),
        forall|i: int| 0 <= i < k ==> comes_first(T::key_of(#[trigger] s[i]), T::key_of(x), down),
        k < s.len() ==> !comes_first(T::key_of(s[k]), T::key_of(x), down),
    ensures
        placed::<T>(x, s, down) == s.insert(k, x),
    decreases k,
{
    if k == 0 {
        assert(seq![x] + s =~= s.insert(0, x));
    } else {
        let t = s.drop_first();
        assert forall|i: int| 0 <= i < k - 1 implies comes_first(
            T::key_of(#[trigger] t[i]),
            T::key_of(x),
            down,
        ) by {
            assert(t[i] == s[i + 1]);
        }
        lemma_placed_at::<T>(x, t, down, k - 1);
        assert(seq![s[0]] + t.insert(k - 1, x) =~= s.insert(k, x));
    }
}

/// Puts `x` into the sorted `v`.
fn place<T: Keyed>(v: &mut Vec<T>, x: T, down: bool)
    ensures
        final(v).deep_view() == placed::<T>(x.deep_view(), old(v).deep_view(), down),
{
    let ghost s = v.deep_view();
    let mut i: usize = 0;
    while i < v.len()
        invariant
            i <= v@.len(),
            s == v.deep_view(),
            forall|j: int|
                0 <= j < i ==> comes_first(
                    T::key_of(#[trigger] s[j]),
                    T::key_of(x.deep_view()),
                    down,
                ),
        ensures
            i <= v@.len(),
            s == v.deep_view(),
            forall|j: int|
                0 <= j < i ==> comes_first(
                    T::key_of(#[trigger] s[j]),
                    T::key_of(x.deep_view()),
                    down,
                ),
            i < v@.len() ==> !comes_first(T::key_of(s[i as int]), T::key_of(x.deep_view()), down),
        decreases v@.len() - i,
    {
        proof {
            assert(s[i as int] == v@[i as int].deep_view());
        }
        let first = if down {
            x.stands_before(&v[i])
        } else {
            v[i].stands_before(&x)
        };
        if !first {
            break;
        }
        i = i + 1;
    }
    proof {
        lemma_placed_at::<T>(x.deep_view(), s, down, i as int);
    }
    let ghost xv = x.deep_view();
    v.insert(i, x);
    proof {
        assert(v.deep_view() =~= s.insert(i as int, xv));
    }
}

/// Sorts the items by their keys, upwards or downwards.
pub fn sort<T: Keyed>(items: Vec<T>, down: bool) -> (r: Vec<T>)
    ensures
        r.deep_view() == sorted::<T>(items.deep_view(), down),
{
    let mut left = items;
    let ghost all = left.deep_view();
    let mut r: Vec<T> = Vec::new();
    proof {
        assert(all.skip(all.len() as int) =~= Seq::<T::V>::empty());
        assert(r.deep_view() =~= Seq::<T::V>::empty());
    }
    while left.len() > 0
        invariant
            left@.len() <= all.len(),
            left.deep_view() == all.take(left@.len() as int),
            r.deep_view() == sorted::<T>(all.skip(left@.len() as int), down),
        decreases left@.len(),
    {
        let ghost n = left@.len() as int;
        if let Some(x) = left.pop() {
            proof {
                assert(all.skip(n - 1)[0] == x.deep_view()) by {
                    assert(all.take(n)[n - 1] == x.deep_view());
                }
                assert(all.skip(n - 1).drop_first() =~= all.skip(n));
                assert(left.deep_view() =~= all.take(n - 1));
            }
            place(&mut r, x, down);
        }
    }
    proof {
        assert(all.skip(0) =~= all);
    }
    r
}

/// Whether no item of `s` comes before one that stands in front of it.
pub open spec fn in_order<T: Keyed>(s: Seq<T::V>, down: bool) -> bool {
    forall|i: int, j: int|
        0 <= i < j < s.len() ==> !comes_first(
            T::key_of(#[trigger] s[j]),
            T::key_of(#[trigger] s[i]),
            down,
        )
}

/// Going up or down, an item that comes before a second one does not follow a third one that
/// comes before it.
proof fn lemma_comes_first(a: Seq<int>, b: Seq<int>, c: Seq<int>, down: bool)
    requires
        comes_first(a, b, down),
        !comes_first(c, b, down),
    ensures
        !comes_first(c, a, down),
{
    if comes_first(c, a, down) {
        if down {
            law_order_is_transitive(b, a, c);
        } else {
            law_order_is_transitive(c, a, b);
        }
    }
}

/// Putting an item into an ordered listing keeps the order and adds the item to the others.
proof fn lemma_placed<T: Keyed>(x: T::V, s: Seq<T::V>, down: bool)
    requires
        in_order::<T>(s, down),
    ensures
        in_order::<T>(placed::<T>(x, s, down), down),
        placed::<T>(x, s, down).to_multiset() == s.to_multiset().insert(x),
        placed::<T>(x, s, down).len() == s.len() + 1,
        forall|i: int| #![auto] 0 <= i < placed::<T>(x, s, down).len() ==> (placed::<T>(x, s, down)[i] == x
            || s.contains(placed::<T>(x, s, down)[i])),
    decreases s.len(),
{
    broadcast use vstd::seq_lib::group_to_multiset_ensures;

    let p = placed::<T>(x, s, down);
    if s.len() > 0 && comes_first(T::key_of(s[0]), T::key_of(x), down) {
        let t = s.drop_first();
        assert forall|i: int, j: int| 0 <= i < j < t.len() implies !comes_first(
            T::key_of(#[trigger] t[j]),
            T::key_of(#[trigger] t[i]),
            down,
        ) by {
            assert(t[i] == s[i + 1] && t[j] == s[j + 1]);
        }
        lemma_placed::<T>(x, t, down);
        let q = placed::<T>(x, t, down);
        assert forall|i: int, j: int| 0 <= i < j < p.len() implies !comes_first(
            T::key_of(#[trigger] p[j]),
            T::key_of(#[trigger] p[i]),
            down,
        ) by {
            if i == 0 {
                assert(p[j] == q[j - 1]);
                if q[j - 1] == x {
                    if comes_first(T::key_of(x), T::key_of(s[0]), down) {
                        law_order_is_irreflexive(T::key_of(x));
                        lemma_comes_first(T::key_of(s[0]), T::key_of(x), T::key_of(x), down);
                    }
                } else {
                    let k = choose|k: int| 0 <= k < t.len() && t[k] == q[j - 1];
                    assert(s[k + 1] == q[j - 1]);
                }
            } else {
                assert(p[i] == q[i - 1] && p[j] == q[j - 1]);
            }
        }
        assert forall|i: int| #![auto] 0 <= i < p.len() implies p[i] == x || s.contains(p[i]) by {
            if i == 0 {
                assert(s[0] == p[0]);
            } else {
                assert(p[i] == q[i - 1]);
                if q[i - 1] != x {
                    let k = choose|k: int| 0 <= k < t.len() && t[k] == q[i - 1];
                    assert(s[k + 1] == p[i]);
                }
            }
        }
        assert(p =~= seq![s[0]] + q);
        assert(s =~= seq![s[0]] + t);
        vstd::seq_lib::lemma_multiset_commutative(seq![s[0]], q);
        vstd::seq_lib::lemma_multiset_commutative(seq![s[0]], t);
        assert(p.to_multiset() =~= s.to_multiset().insert(x));
    } else {
        assert(p =~= seq![x] + s);
        assert forall|i: int, j: int| 0 <= i < j < p.len() implies !comes_first(
            T::key_of(#[trigger] p[j]),
            T::key_of(#[trigger] p[i]),
            down,
        ) by {
            assert(p[j] == s[j - 1]);
            if i == 0 {
                if comes_first(T::key_of(s[j - 1]), T::key_of(x), down) && j > 1 {
                    assert(!comes_first(T::key_of(s[j - 1]), T::key_of(s[0]), down));
                    lemma_not_between(
                        T::key_of(s[j - 1]),
                        T::key_of(s[0]),
                        T::key_of(x),
                        down,
                    );
                }
            } else {
                assert(p[i] == s[i - 1]);
            }
        }
        assert forall|i: int| #![auto] 0 <= i < p.len() implies p[i] == x || s.contains(p[i]) by {
            if i > 0 {
                assert(s[i - 1] == p[i]);
            }
        }
        vstd::seq_lib::lemma_multiset_commutative(seq![x], s);
        assert(seq![x].to_multiset() =~= vstd::multiset::Multiset::empty().insert(x)) by {
            assert(Seq::<T::V>::empty().push(x) =~= seq![x]);
        }
        assert(p.to_multiset() =~= s.to_multiset().insert(x));
    }
}

/// Where a first item does not come before a second, nor the second before a third, the first does
/// not come before the third.
proof fn lemma_not_between(a: Seq<int>, b: Seq<int>, c: Seq<int>, down: bool)
    requires
        !comes_first(a, b, down),
        !comes_first(b, c, down),
    ensures
        !comes_first(a, c, down),
{
    law_order_is_total(a, b);
    law_order_is_total(b, c);
    if a != b && b != c && comes_first(a, c, down) {
        if down {
            law_order_is_transitive(a, b, c);
            law_order_is_transitive(c, a, c);
            law_order_is_irreflexive(c);
        } else {
            law_order_is_transitive(c, b, a);
            law_order_is_transitive(a, c, a);
            law_order_is_irreflexive(a);
        }
    }
}

/// Sorting puts the items in order and loses none of them.
pub proof fn law_sorting_orders<T: Keyed>(s: Seq<T::V>, down: bool)
    ensures
        in_order::<T>(sorted::<T>(s, down), down),
        sorted::<T>(s, down).to_multiset() == s.to_multiset(),
        sorted::<T>(s, down).len() == s.len(),
    decreases s.len(),
{
    if s.len() > 0 {
        let t = s.drop_first();
        law_sorting_orders::<T>(t, down);
        lemma_placed::<T>(s[0], sorted::<T>(t, down), down);
        lemma_first_and_rest(s);
    }
}

/// A sequence holds its first item besides those that follow it.
proof fn lemma_first_and_rest<A>(s: Seq<A>)
    requires
        s.len() > 0,
    ensures
        s.to_multiset() == s.drop_first().to_multiset().insert(s[0]),
{
    broadcast use vstd::seq_lib::group_to_multiset_ensures;

    let t = s.drop_first();
    assert(s =~= seq![s[0]] + t);
    vstd::seq_lib::lemma_multiset_commutative(seq![s[0]], t);
    assert(seq![s[0]].to_multiset() =~= vstd::multiset::Multiset::empty().insert(s[0])) by {
        assert(Seq::<A>::empty().push(s[0]) =~= seq![s[0]]);
    }
    assert(s.to_multiset() =~= t.to_multiset().insert(s[0]));
}

/// Whether no two items of `s` have the same key.
pub open spec fn distinct_keys<T: Keyed>(s: Seq<T::V>) -> bool {
    forall|i: int, j: int|
        0 <= i < j < s.len() ==> T::key_of(#[trigger] s[i]) != T::key_of(#[trigger] s[j])
}

/// There is one way only to put items with different keys in order.
proof fn lemma_one_order<T: Keyed>(r: Seq<T::V>, q: Seq<T::V>, down: bool)
    requires
        in_order::<T>(r, down),
        in_order::<T>(q, down),
        distinct_keys::<T>(r),
        r.to_multiset() == q.to_multiset(),
    ensures
        r == q,
    decreases r.len(),
{
    broadcast use vstd::seq_lib::group_to_multiset_ensures;

    r.to_multiset_ensures();
    q.to_multiset_ensures();
    assert(r.len() == q.len());
    if r.len() == 0 {
        assert(r =~= q);
    } else {
        assert(r.contains(r[0]) && q.contains(q[0]));
        assert(r.to_multiset().count(r[0]) > 0 && q.to_multiset().count(q[0]) > 0);
        assert(q.contains(r[0]) && r.contains(q[0]));
        let k = choose|k: int| 0 <= k < q.len() && q[k] == r[0];
        let j = choose|j: int| 0 <= j < r.len() && r[j] == q[0];
        law_order_is_irreflexive(T::key_of(r[0]));
        law_order_is_total(T::key_of(r[0]), T::key_of(q[0]));
        if k > 0 && j > 0 {
            assert(!comes_first(T::key_of(q[k]), T::key_of(q[0]), down));
            assert(!comes_first(T::key_of(r[j]), T::key_of(r[0]), down));
            assert(T::key_of(r[0]) != T::key_of(r[j]));
        }
        assert(r[0] == q[0]);
        lemma_first_and_rest(r);
        lemma_first_and_rest(q);
        let rt = r.drop_first();
        let qt = q.drop_first();
        assert forall|x: T::V| rt.to_multiset().count(x) == qt.to_multiset().count(x) by {
            let more = rt.to_multiset().insert(r[0]);
            assert(more.count(x) == qt.to_multiset().insert(r[0]).count(x));
        }
        assert(rt.to_multiset() =~= qt.to_multiset());
        assert forall|a: int, b: int| 0 <= a < b < rt.len() implies !comes_first(
            T::key_of(#[trigger] rt[b]),
            T::key_of(#[trigger] rt[a]),
            down,
        ) && T::key_of(rt[a]) != T::key_of(rt[b]) by {
            assert(rt[a] == r[a + 1] && rt[b] == r[b + 1]);
        }
        assert forall|a: int, b: int| 0 <= a < b < qt.len() implies !comes_first(
            T::key_of(#[trigger] qt[b]),
            T::key_of(#[trigger] qt[a]),
            down,
        ) by {
            assert(qt[a] == q[a + 1] && qt[b] == q[b + 1]);
        }
        lemma_one_order::<T>(rt, qt, down);
        assert(r =~= seq![r[0]] + rt);
        assert(q =~= seq![q[0]] + qt);
    }
}

/// Items with the same contents and different keys stay so in any other order.
proof fn lemma_distinct_keys_any_order<T: Keyed>(s: Seq<T::V>, t: Seq<T::V>)
    requires
        distinct_keys::<T>(s),
        s.to_multiset() == t.to_multiset(),
    ensures
        distinct_keys::<T>(t),
    decreases s.len(),
{
    broadcast use vstd::seq_lib::group_to_multiset_ensures;

    assert(s.no_duplicates());
    s.lemma_multiset_has_no_duplicates();
    assert forall|i: int, j: int| 0 <= i < j < t.len() implies T::key_of(#[trigger] t[i])
        != T::key_of(#[trigger] t[j]) by {
        assert(t.contains(t[i]) && t.contains(t[j]));
        assert(t.to_multiset().count(t[i]) > 0 && t.to_multiset().count(t[j]) > 0);
        assert(s.contains(t[i]) && s.contains(t[j]));
        let a = choose|a: int| 0 <= a < s.len() && s[a] == t[i];
        let b = choose|b: int| 0 <= b < s.len() && s[b] == t[j];
        if a == b {
            lemma_twice_in(t, i, j);
            assert(t.to_multiset().count(t[i]) >= 2);
            assert(s.to_multiset().count(t[i]) <= 1);
        }
        assert(a < b || b < a);
    }
}

/// An item that stands at two positions is counted twice.
proof fn lemma_twice_in<A>(t: Seq<A>, i: int, j: int)
    requires
        0 <= i < j < t.len(),
        t[i] == t[j],
    ensures
        t.to_multiset().count(t[i]) >= 2,
{
    broadcast use vstd::seq_lib::group_to_multiset_ensures;

    let u = t.remove(j);
    assert(u[i] == t[i]);
    assert(u.contains(t[i]));
    assert(u.to_multiset().count(t[i]) > 0);
    assert(t.to_multiset().remove(t[j]) =~= u.to_multiset());
}

/// Items with different keys are sorted to one listing, in whatever order they were found.
pub proof fn law_sorting_forgets_the_old_order<T: Keyed>(s: Seq<T::V>, t: Seq<T::V>, down: bool)
    requires
        distinct_keys::<T>(s),
        s.to_multiset() == t.to_multiset(),
    ensures
        sorted::<T>(s, down) == sorted::<T>(t, down),
{
    law_sorting_orders::<T>(s, down);
    law_sorting_orders::<T>(t, down);
    lemma_distinct_keys_any_order::<T>(s, sorted::<T>(s, down));
    lemma_one_order::<T>(sorted::<T>(s, down), sorted::<T>(t, down), down);
}

/// Rows are ordered by the first place where they differ: the smaller number there comes first, and
/// a row that ends there comes before one that goes on.
pub proof fn law_first_difference_decides(a: Seq<int>, b: Seq<int>, k: int)
    requires
        0 <= k <= a.len(),
        k <= b.len(),
        forall|i: int| 0 <= i < k ==> #[trigger] a[i] == b[i],
        k < a.len() && k < b.len() ==> a[k] != b[k],
    ensures
        precedes(a, b) <==> k < b.len() && (k == a.len() || a[k] < b[k]),
    decreases k,
{
    if k > 0 {
        let c = a.drop_first();
        let d = b.drop_first();
        assert(a[0] == b[0]);
        assert forall|i: int| 0 <= i < k - 1 implies #[trigger] c[i] == d[i] by {
            assert(a[i + 1] == b[i + 1]);
        }
        law_first_difference_decides(c, d, k - 1);
    }
}

/// Sorting leaves alone what is in order already; so items with the same key stay as they stood.
pub proof fn law_what_is_in_order_stays<T: Keyed>(s: Seq<T::V>, down: bool)
    requires
        in_order::<T>(s, down),
    ensures
        sorted::<T>(s, down) == s,
    decreases s.len(),
{
    if s.len() > 0 {
        let t = s.drop_first();
        assert forall|i: int, j: int| 0 <= i < j < t.len() implies !comes_first(
            T::key_of(#[trigger] t[j]),
            T::key_of(#[trigger] t[i]),
            down,
        ) by {
            assert(t[i] == s[i + 1] && t[j] == s[j + 1]);
        }
        law_what_is_in_order_stays::<T>(t, down);
        if t.len() > 0 {
            assert(t[0] == s[1]);
            assert(!comes_first(T::key_of(s[1]), T::key_of(s[0]), down));
        }
        assert(seq![s[0]] + t =~= s);
    }
}

/// Going down is going up the other way round.
pub proof fn law_down_turns_the_order(a: Seq<int>, b: Seq<int>)
    ensures
        comes_first(a, b, false) == precedes(a, b),
        comes_first(a, b, true) == precedes(b, a),
{
}

/// Texts are ordered by the codes of their characters: the first character that differs decides, and
/// a text comes before one that it starts.
pub proof fn law_texts_are_ordered(a: Seq<char>, b: Seq<char>, k: int)
    ensures
        0 <= k < a.len() && k < b.len() && a.take(k) == b.take(k) && (a[k] as int) < b[k] as int
            ==> precedes(codes(a), codes(b)),
        a.len() < b.len() && b.take(a.len() as int) == a ==> precedes(codes(a), codes(b)),
{
    if 0 <= k < a.len() && k < b.len() && a.take(k) == b.take(k) && (a[k] as int) < b[k] as int {
        assert forall|i: int| 0 <= i < k implies #[trigger] codes(a)[i] == codes(b)[i] by {
            assert(a.take(k)[i] == a[i] && b.take(k)[i] == b[i]);
        }
        law_first_difference_decides(codes(a), codes(b), k);
    }
    if a.len() < b.len() && b.take(a.len() as int) == a {
        assert forall|i: int| 0 <= i < a.len() implies #[trigger] codes(a)[i] == codes(b)[i] by {
            assert(b.take(a.len() as int)[i] == b[i]);
        }
        law_first_difference_decides(codes(a), codes(b), a.len() as int);
    }
}

} // verus!
