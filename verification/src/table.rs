//! Tables with texts as keys, in the order in which the keys were first put in.
use vstd::prelude::*;

verus! {

/// The first position in `s` with the key `key`, or the length of `s` where no entry has it.
pub open spec fn position<A>(s: Seq<(Seq<char>, A)>, key: Seq<char>) -> int
    decreases s.len(),
{
    if s.len() == 0 || s[0].0 == key {
        0
    } else {
        1 + position(s.drop_first(), key)
    }
}

/// Whether an entry has the key.
pub open spec fn has_key<A>(s: Seq<(Seq<char>, A)>, key: Seq<char>) -> bool {
    position(s, key) < s.len()
}

/// The value under the key.
pub open spec fn lookup<A>(s: Seq<(Seq<char>, A)>, key: Seq<char>) -> Option<A> {
    if has_key(s, key) {
        Some(s[position(s, key)].1)
    } else {
        None
    }
}

/// `s` with `value` under the key: in place of the old value, or behind the other entries.
pub open spec fn put<A>(s: Seq<(Seq<char>, A)>, key: Seq<char>, value: A) -> Seq<(Seq<char>, A)> {
    if has_key(s, key) {
        s.update(position(s, key), (key, value))
    } else {
        s.push((key, value))
    }
}

/// `s` without the entry that has the key.
pub open spec fn without<A>(s: Seq<(Seq<char>, A)>, key: Seq<char>) -> Seq<(Seq<char>, A)> {
    if has_key(s, key) {
        s.remove(position(s, key))
    } else {
        s
    }
}

/// The values, in order.
pub open spec fn values<A>(s: Seq<(Seq<char>, A)>) -> Seq<A> {
    Seq::new(s.len(), |i: int| s[i].1)
}

/// Whether no two entries have the same key.
pub open spec fn distinct<A>(s: Seq<(Seq<char>, A)>) -> bool {
    forall|i: int, j: int| 0 <= i < j < s.len() ==> (#[trigger] s[i]).0 != (#[trigger] s[j]).0
}

/// `position` is the least position with the key.
pub proof fn lemma_position<A>(s: Seq<(Seq<char>, A)>, key: Seq<char>)
    ensures
        0 <= position(s, key) <= s.len(),
        has_key(s, key) ==> s[position(s, key)].0 == key,
        forall|i: int| 0 <= i < position(s, key) ==> (#[trigger] s[i]).0 != key,
    decreases s.len(),
{
    if s.len() == 0 || s[0].0 == key {
    } else {
        let t = s.drop_first();
        lemma_position(t, key);
        assert forall|i: int| 0 <= i < position(s, key) implies (#[trigger] s[i]).0 != key by {
            if i > 0 {
                assert(s[i] == t[i - 1]);
            }
        }
    }
}

/// The least position with the key is determined by what stands before it.
pub proof fn lemma_position_is<A>(s: Seq<(Seq<char>, A)>, key: Seq<char>, k: int)
    requires
        0 <= k <= s.len(),
        k < s.len() ==> s[k].0 == key,
        forall|i: int| 0 <= i < k ==> (#[trigger] s[i]).0 != key,
    ensures
        position(s, key) == k,
{
    lemma_position(s, key);
    let p = position(s, key);
    if p < k {
        assert(s[p].0 != key);
    } else if k < p {
        assert(s[k].0 != key);
    }
}

/// What was put under a key is found there, and what is under every other key stays.
pub proof fn law_put_is_found<A>(s: Seq<(Seq<char>, A)>, key: Seq<char>, value: A, other: Seq<char>)
    ensures
        lookup(put(s, key, value), key) == Some(value),
        other != key ==> lookup(put(s, key, value), other) == lookup(s, other),
{
    let p = position(s, key);
    let t = put(s, key, value);
    lemma_position(s, key);
    lemma_position_is(t, key, p);
    if other != key {
        let q = position(s, other);
        lemma_position(s, other);
        if q < s.len() {
            lemma_position_is(t, other, q);
        } else {
            assert forall|i: int| 0 <= i < t.len() implies (#[trigger] t[i]).0 != other by {
                if i < s.len() && i != p {
                    assert(t[i] == s[i]);
                }
            }
            lemma_position_is(t, other, t.len() as int);
        }
    }
}

/// What was taken out is not found, and what is under every other key stays.
pub proof fn law_taken_out_is_not_found<A>(
    s: Seq<(Seq<char>, A)>,
    key: Seq<char>,
    other: Seq<char>,
)
    requires
        distinct(s),
    ensures
        lookup(without(s, key), key) is None,
        other != key ==> lookup(without(s, key), other) == lookup(s, other),
{
    let p = position(s, key);
    let t = without(s, key);
    lemma_position(s, key);
    if has_key(s, key) {
        assert forall|i: int| 0 <= i < t.len() implies (#[trigger] t[i]).0 != key by {
            if i < p {
                assert(t[i] == s[i]);
            } else {
                assert(t[i] == s[i + 1]);
                assert(s[p].0 != s[i + 1].0);
            }
        }
        lemma_position_is(t, key, t.len() as int);
    }
    if other != key && has_key(s, key) {
        let q = position(s, other);
        lemma_position(s, other);
        let k: int = if q < p {
            q
        } else {
            q - 1
        };
        assert(q != p);
        assert forall|i: int| 0 <= i < k implies (#[trigger] t[i]).0 != other by {
            if i < p {
                assert(t[i] == s[i]);
            } else {
                assert(t[i] == s[i + 1]);
            }
        }
        if q < s.len() {
            assert(t[k] == s[q]);
        }
        lemma_position_is(t, other, k);
    }
}

/// Putting in and taking out keep the keys different.
pub proof fn law_keys_stay_distinct<A>(s: Seq<(Seq<char>, A)>, key: Seq<char>, value: A)
    requires
        distinct(s),
    ensures
        distinct(put(s, key, value)),
        distinct(without(s, key)),
{
    lemma_position(s, key);
    let p = position(s, key);
    let t = put(s, key, value);
    assert forall|i: int, j: int| 0 <= i < j < t.len() implies (#[trigger] t[i]).0 != (
    #[trigger] t[j]).0 by {
        if has_key(s, key) {
            assert(t[i].0 == s[i].0 && t[j].0 == s[j].0);
        } else {
            assert(t[i] == s[i]);
            if j < s.len() {
                assert(t[j] == s[j]);
            }
        }
    }
    let u = without(s, key);
    assert forall|i: int, j: int| 0 <= i < j < u.len() implies (#[trigger] u[i]).0 != (
    #[trigger] u[j]).0 by {
        if has_key(s, key) {
            let a = if i < p {
                i
            } else {
                i + 1
            };
            let b = if j < p {
                j
            } else {
                j + 1
            };
            assert(u[i] == s[a] && u[j] == s[b]);
        }
    }
}

/// A table of values under texts. No two entries have the same key.
pub struct StringMap<V> {
    entries: Vec<(String, V)>,
}

impl<V: DeepView> DeepView for StringMap<V> {
    type V = Seq<(Seq<char>, V::V)>;

    closed spec fn deep_view(&self) -> Seq<(Seq<char>, V::V)> {
        self.entries.deep_view()
    }
}

impl<V> StringMap<V> {
    #[verifier::type_invariant]
    spec fn keys_differ(self) -> bool {
        forall|i: int, j: int|
            0 <= i < j < self.entries@.len() ==> (#[trigger] self.entries@[i]).0@ != (
            #[trigger] self.entries@[j]).0@
    }
}

impl<V: DeepView> StringMap<V> {
    /// A table with no entries.
    pub fn new() -> (r: Self)
        ensures
            r.deep_view() == Seq::<(Seq<char>, V::V)>::empty(),
    {
        let r = StringMap { entries: Vec::new() };
        proof {
            assert(r.deep_view() =~= Seq::<(Seq<char>, V::V)>::empty());
        }
        r
    }

    /// How many entries there are.
    pub fn len(&self) -> (r: usize)
        ensures
            r == self.deep_view().len(),
            distinct(self.deep_view()),
    {
        proof {
            use_type_invariant(self);
            let s = self.deep_view();
            assert forall|i: int, j: int| 0 <= i < j < s.len() implies (#[trigger] s[i]).0 != (
            #[trigger] s[j]).0 by {
                assert(s[i].0 == self.entries@[i].0@ && s[j].0 == self.entries@[j].0@);
            }
        }
        self.entries.len()
    }

    /// The key of the entry at position `i`.
    pub fn key_at(&self, i: usize) -> (r: &String)
        requires
            i < self.deep_view().len(),
        ensures
            r@ == self.deep_view()[i as int].0,
    {
        &self.entries[i].0
    }

    /// The value of the entry at position `i`.
    pub fn value_at(&self, i: usize) -> (r: &V)
        requires
            i < self.deep_view().len(),
        ensures
            r.deep_view() == self.deep_view()[i as int].1,
    {
        &self.entries[i].1
    }

    /// The position of the key.
    fn find(&self, key: &str) -> (r: usize)
        ensures
            r == position(self.deep_view(), key@),
            r <= self.entries@.len(),
    {
        let ghost s = self.deep_view();
        let k = key.to_owned();
        let mut i: usize = 0;
        while i < self.entries.len()
            invariant
                i <= self.entries@.len(),
                s == self.deep_view(),
                k@ == key@,
                forall|j: int| 0 <= j < i ==> (#[trigger] s[j]).0 != key@,
            ensures
                i <= self.entries@.len(),
                s == self.deep_view(),
                forall|j: int| 0 <= j < i ==> (#[trigger] s[j]).0 != key@,
                i < self.entries@.len() ==> s[i as int].0 == key@,
            decreases self.entries@.len() - i,
        {
            if self.entries[i].0 == k {
                break;
            }
            i = i + 1;
        }
        proof {
            lemma_position_is(s, key@, i as int);
        }
        i
    }

    /// The value under the key.
    pub fn get(&self, key: &str) -> (r: Option<&V>)
        ensures
            r.deep_view() == lookup(self.deep_view(), key@),
    {
        let i: usize = self.find(key);
        if i < self.entries.len() {
            Some(&self.entries[i].1)
        } else {
            None
        }
    }

    /// Whether an entry has the key.
    pub fn contains_key(&self, key: &str) -> (r: bool)
        ensures
            r == has_key(self.deep_view(), key@),
    {
        self.find(key) < self.entries.len()
    }

    /// Puts `value` under the key.
    pub fn insert(&mut self, key: String, value: V)
        ensures
            final(self).deep_view() == put(old(self).deep_view(), key@, value.deep_view()),
    {
        proof {
            use_type_invariant(&*self);
            lemma_position(self.deep_view(), key@);
        }
        let ghost s = self.deep_view();
        let ghost before = self.entries@;
        let ghost entry = (key@, value.deep_view());
        let i: usize = self.find(key.as_str());
        let mut entries: Vec<(String, V)> = Vec::new();
        std::mem::swap(&mut self.entries, &mut entries);
        if i < entries.len() {
            proof {
                assert(before[i as int].0@ == key@) by {
                    assert(s[i as int].0 == before[i as int].0@);
                }
            }
            entries.set(i, (key, value));
            proof {
                assert(entries.deep_view() =~= s.update(i as int, entry));
            }
        } else {
            proof {
                assert forall|j: int| 0 <= j < before.len() implies (#[trigger] before[j]).0@
                    != key@ by {
                    assert(s[j].0 == before[j].0@);
                }
            }
            entries.push((key, value));
            proof {
                assert(entries.deep_view() =~= s.push(entry));
            }
        }
        self.entries = entries;
    }

    /// Takes out the entry with the key and returns its value.
    pub fn remove(&mut self, key: &str) -> (r: Option<V>)
        ensures
            final(self).deep_view() == without(old(self).deep_view(), key@),
            r.deep_view() == lookup(old(self).deep_view(), key@),
    {
        proof {
            use_type_invariant(&*self);
        }
        let ghost s = self.deep_view();
        let i: usize = self.find(key);
        if i < self.entries.len() {
            let mut entries: Vec<(String, V)> = Vec::new();
            std::mem::swap(&mut self.entries, &mut entries);
            let ghost before = entries@;
            let taken = entries.remove(i);
            proof {
                assert(entries.deep_view() =~= s.remove(i as int));
                assert forall|a: int, b: int| 0 <= a < b < entries@.len() implies (
                #[trigger] entries@[a]).0@ != (#[trigger] entries@[b]).0@ by {
                    let c = if a < i {
                        a
                    } else {
                        a + 1
                    };
                    let d = if b < i {
                        b
                    } else {
                        b + 1
                    };
                    assert(entries@[a] == before[c] && entries@[b] == before[d]);
                }
            }
            self.entries = entries;
            Some(taken.1)
        } else {
            None
        }
    }

    /// The values, in order.
    pub fn into_values(self) -> (r: Vec<V>)
        ensures
            r.deep_view() == values(self.deep_view()),
    {
        let mut left = self.entries;
        let ghost s = self.deep_view();
        let mut back: Vec<V> = Vec::new();
        while left.len() > 0
            invariant
                left@.len() <= s.len(),
                left.deep_view() == s.take(left@.len() as int),
                back@.len() == s.len() - left@.len(),
                forall|j: int| 0 <= j < back@.len() ==> (#[trigger] back@[j]).deep_view() == s[s.len()
                    - 1 - j].1,
            decreases left@.len(),
        {
            let ghost n = left@.len() as int;
            if let Some((_, value)) = left.pop() {
                proof {
                    assert(s.take(n)[n - 1].1 == value.deep_view());
                    assert(left.deep_view() =~= s.take(n - 1));
                }
                back.push(value);
            }
        }
        let mut r: Vec<V> = Vec::new();
        while back.len() > 0
            invariant
                back@.len() + r@.len() == s.len(),
                forall|j: int| 0 <= j < back@.len() ==> (#[trigger] back@[j]).deep_view() == s[s.len()
                    - 1 - j].1,
                forall|j: int| 0 <= j < r@.len() ==> (#[trigger] r@[j]).deep_view() == s[j].1,
            decreases back@.len(),
        {
            if let Some(value) = back.pop() {
                r.push(value);
            }
        }
        proof {
            assert(r.deep_view() =~= values(s));
        }
        r
    }
}

impl Clone for StringMap<String> {
    fn clone(&self) -> (r: Self)
        ensures
            r.deep_view() == self.deep_view(),
    {
        proof {
            use_type_invariant(self);
        }
        let mut entries: Vec<(String, String)> = Vec::new();
        let mut i: usize = 0;
        while i < self.entries.len()
            invariant
                i <= self.entries@.len(),
                entries@.len() == i,
                forall|j: int| 0 <= j < i ==> (#[trigger] entries@[j]).0@ == self.entries@[j].0@
                    && entries@[j].1@ == self.entries@[j].1@,
            decreases self.entries@.len() - i,
        {
            entries.push((self.entries[i].0.clone(), self.entries[i].1.clone()));
            i = i + 1;
        }
        let r = StringMap { entries };
        proof {
            assert(r.deep_view() =~= self.deep_view());
        }
        r
    }
}

/// What stands in a table is found under its key, and a key that no entry has is not found; the
/// values are those of the entries, in order.
pub proof fn law_entry_is_found<A>(s: Seq<(Seq<char>, A)>, i: int, key: Seq<char>)
    requires
        distinct(s),
    ensures
        0 <= i < s.len() ==> lookup(s, s[i].0) == Some(s[i].1) && has_key(s, s[i].0),
        (forall|j: int| 0 <= j < s.len() ==> (#[trigger] s[j]).0 != key) ==> lookup(s, key) is None
            && !has_key(s, key),
        values(s).len() == s.len(),
        0 <= i < s.len() ==> values(s)[i] == s[i].1,
{
    if 0 <= i < s.len() {
        lemma_position_is(s, s[i].0, i);
    }
    lemma_position(s, key);
}

/// Putting in changes one value or adds one entry behind the others, and taking out closes the gap:
/// the other entries stay as they are and in their order.
pub proof fn law_order_of_entries_stays<A>(s: Seq<(Seq<char>, A)>, key: Seq<char>, value: A, i: int)
    ensures
        !has_key(s, key) ==> put(s, key, value) == s.push((key, value)) && without(s, key) == s,
        has_key(s, key) ==> put(s, key, value).len() == s.len() && without(s, key).len() + 1 == s.len(),
        has_key(s, key) && 0 <= i < s.len() ==> put(s, key, value)[i].0 == s[i].0 && (s[i].0 != key
            ==> put(s, key, value)[i] == s[i]),
        has_key(s, key) && 0 <= i < s.len() && s[i].0 != key ==> without(s, key)[if i < position(s, key) {
            i
        } else {
            i - 1
        }] == s[i],
{
    lemma_position(s, key);
}

} // verus!
