//! A map from names to values that keeps its entries in the order of their
//! names, as the symbol and data type tables are kept.
use crate::text::chars_of;
use vstd::prelude::*;

verus! {

/// `a` comes before `b` in the order of `str`: character by character, a
/// proper prefix first.
pub open spec fn chars_lt(a: Seq<char>, b: Seq<char>) -> bool
    decreases a.len(),
{
    if b.len() == 0 {
        false
    } else if a.len() == 0 {
        true
    } else if a[0] != b[0] {
        a[0] < b[0]
    } else {
        chars_lt(a.drop_first(), b.drop_first())
    }
}

/// No name comes before itself, and of two different names one comes first.
pub proof fn lemma_chars_lt_total(a: Seq<char>, b: Seq<char>)
    ensures
        !chars_lt(a, a),
        a != b ==> chars_lt(a, b) || chars_lt(b, a),
        !(chars_lt(a, b) && chars_lt(b, a)),
    decreases a.len(),
{
    if a.len() > 0 {
        lemma_chars_lt_total(a.drop_first(), a.drop_first());
    }
    if a.len() > 0 && b.len() > 0 {
        lemma_chars_lt_total(a.drop_first(), b.drop_first());
        if a[0] == b[0] {
            if a != b {
                assert(a.drop_first() != b.drop_first()) by {
                    if a.drop_first() == b.drop_first() {
                        assert(a =~= seq![a[0]] + a.drop_first());
                        assert(b =~= seq![b[0]] + b.drop_first());
                    }
                }
                assert(chars_lt(a, b) == chars_lt(a.drop_first(), b.drop_first()));
                assert(chars_lt(b, a) == chars_lt(b.drop_first(), a.drop_first()));
            }
        } else {
            assert(chars_lt(a, b) == (a[0] < b[0]));
            assert(chars_lt(b, a) == (b[0] < a[0]));
        }
    } else if a.len() == 0 && b.len() == 0 {
        assert(a =~= b);
    }
}

/// The order of names is transitive.
pub proof fn lemma_chars_lt_transitive(a: Seq<char>, b: Seq<char>, c: Seq<char>)
    requires
        chars_lt(a, b),
        chars_lt(b, c),
    ensures
        chars_lt(a, c),
    decreases a.len(),
{
    if a.len() > 0 && b.len() > 0 && c.len() > 0 && a[0] == b[0] && b[0] == c[0] {
        lemma_chars_lt_transitive(a.drop_first(), b.drop_first(), c.drop_first());
    }
}

/// The names of `e` stand in strictly increasing order.
pub open spec fn sorted_by_name<T>(e: Seq<(Seq<char>, T)>) -> bool {
    forall|i: int, j: int| 0 <= i < j < e.len() ==> chars_lt(#[trigger] e[i].0, #[trigger] e[j].0)
}

/// `k` names an entry of `e`.
pub open spec fn has_name<T>(e: Seq<(Seq<char>, T)>, k: Seq<char>) -> bool {
    exists|i: int| 0 <= i < e.len() && #[trigger] e[i].0 == k
}

/// The value of the entry of `e` named `k`, if there is one.
pub open spec fn lookup<T>(e: Seq<(Seq<char>, T)>, k: Seq<char>) -> Option<T> {
    if has_name(e, k) {
        Some(e[choose|i: int| 0 <= i < e.len() && #[trigger] e[i].0 == k].1)
    } else {
        None
    }
}

/// In a sorted sequence the entry named `e[i].0` is `e[i]`.
pub proof fn lemma_lookup_at<T>(e: Seq<(Seq<char>, T)>, i: int)
    requires
        sorted_by_name(e),
        0 <= i < e.len(),
    ensures
        lookup(e, e[i].0) == Some(e[i].1),
{
    let k = e[i].0;
    assert(has_name(e, k));
    let j = choose|j: int| 0 <= j < e.len() && #[trigger] e[j].0 == k;
    lemma_chars_lt_total(k, k);
    if j < i {
        assert(chars_lt(e[j].0, e[i].0));
    } else if j > i {
        assert(chars_lt(e[i].0, e[j].0));
    }
    assert(j == i);
}

/// Past the first entry of a sorted sequence, other names are found as before.
pub proof fn lemma_lookup_tail<T>(e: Seq<(Seq<char>, T)>, k: Seq<char>)
    requires
        sorted_by_name(e),
        e.len() > 0,
        k != e[0].0,
    ensures
        lookup(e.drop_first(), k) == lookup(e, k),
{
    let t = e.drop_first();
    assert(sorted_by_name(t)) by {
        assert forall|i: int, j: int| 0 <= i < j < t.len() implies chars_lt(
            #[trigger] t[i].0,
            #[trigger] t[j].0,
        ) by {
            assert(t[i] == e[i + 1] && t[j] == e[j + 1]);
        }
    }
    if has_name(t, k) {
        let i = choose|i: int| 0 <= i < t.len() && #[trigger] t[i].0 == k;
        assert(t[i] == e[i + 1]);
        lemma_lookup_at(t, i);
        lemma_lookup_at(e, i + 1);
    } else {
        assert(!has_name(e, k)) by {
            if has_name(e, k) {
                let j = choose|j: int| 0 <= j < e.len() && #[trigger] e[j].0 == k;
                assert(j > 0);
                assert(t[j - 1] == e[j]);
            }
        }
    }
}

/// Two sequences of entries in strictly increasing order of names that give
/// every name the same value are the same: a map of this kind is determined
/// by what it finds for each name.
pub proof fn law_sorted_entries_determined<T>(a: Seq<(Seq<char>, T)>, b: Seq<(Seq<char>, T)>)
    requires
        sorted_by_name(a),
        sorted_by_name(b),
        forall|k: Seq<char>| #[trigger] lookup(a, k) == lookup(b, k),
    ensures
        a == b,
    decreases a.len(),
{
    if a.len() == 0 {
        if b.len() > 0 {
            lemma_lookup_at(b, 0);
            assert(lookup(a, b[0].0) == lookup(b, b[0].0));
        }
        assert(a =~= b);
    } else if b.len() == 0 {
        lemma_lookup_at(a, 0);
        assert(lookup(a, a[0].0) == lookup(b, a[0].0));
    } else {
        lemma_lookup_at(a, 0);
        lemma_lookup_at(b, 0);
        assert(lookup(a, b[0].0) == lookup(b, b[0].0));
        assert(lookup(a, a[0].0) == lookup(b, a[0].0));
        let i = choose|i: int| 0 <= i < a.len() && #[trigger] a[i].0 == b[0].0;
        let j = choose|j: int| 0 <= j < b.len() && #[trigger] b[j].0 == a[0].0;
        lemma_chars_lt_total(a[0].0, b[0].0);
        if i > 0 && j > 0 {
            assert(chars_lt(a[0].0, a[i].0));
            assert(chars_lt(b[0].0, b[j].0));
        }
        assert(a[0].0 == b[0].0);
        assert(a[0] == b[0]);
        let ta = a.drop_first();
        let tb = b.drop_first();
        assert forall|k: Seq<char>| #[trigger] lookup(ta, k) == lookup(tb, k) by {
            if k == a[0].0 {
                assert(!has_name(ta, k)) by {
                    if has_name(ta, k) {
                        let q = choose|q: int| 0 <= q < ta.len() && #[trigger] ta[q].0 == k;
                        assert(ta[q] == a[q + 1]);
                        assert(chars_lt(a[0].0, a[q + 1].0));
                        lemma_chars_lt_total(k, k);
                    }
                }
                assert(!has_name(tb, k)) by {
                    if has_name(tb, k) {
                        let q = choose|q: int| 0 <= q < tb.len() && #[trigger] tb[q].0 == k;
                        assert(tb[q] == b[q + 1]);
                        assert(chars_lt(b[0].0, b[q + 1].0));
                        lemma_chars_lt_total(k, k);
                    }
                }
            } else {
                lemma_lookup_tail(a, k);
                lemma_lookup_tail(b, k);
            }
        }
        assert(sorted_by_name(ta)) by {
            assert forall|x: int, y: int| 0 <= x < y < ta.len() implies chars_lt(
                #[trigger] ta[x].0,
                #[trigger] ta[y].0,
            ) by {
                assert(ta[x] == a[x + 1] && ta[y] == a[y + 1]);
            }
        }
        assert(sorted_by_name(tb)) by {
            assert forall|x: int, y: int| 0 <= x < y < tb.len() implies chars_lt(
                #[trigger] tb[x].0,
                #[trigger] tb[y].0,
            ) by {
                assert(tb[x] == b[x + 1] && tb[y] == b[y + 1]);
            }
        }
        law_sorted_entries_determined(ta, tb);
        assert(a =~= seq![a[0]] + ta);
        assert(b =~= seq![b[0]] + tb);
    }
}

/// A map from names to values, its entries kept in the order of the names.
pub struct NameMap<V> {
    entries: Vec<(String, V)>,
}

impl<V: View> View for NameMap<V> {
    type V = Seq<(Seq<char>, V::V)>;

    /// The entries, in the order of their names.
    closed spec fn view(&self) -> Seq<(Seq<char>, V::V)> {
        Seq::new(self.entries@.len(), |i: int| (self.entries@[i].0@, self.entries@[i].1@))
    }
}

impl<V> NameMap<V> {
    #[verifier::type_invariant]
    closed spec fn wf(self) -> bool {
        forall|i: int, j: int|
            0 <= i < j < self.entries@.len() ==> chars_lt(
                #[trigger] self.entries@[i].0@,
                #[trigger] self.entries@[j].0@,
            )
    }
}

impl<V: View> NameMap<V> {
    /// The entries are in strictly increasing order of their names.
    proof fn lemma_sorted(&self)
        requires
            self.wf(),
        ensures
            sorted_by_name(self@),
    {
        assert forall|i: int, j: int| 0 <= i < j < self@.len() implies chars_lt(
            #[trigger] self@[i].0,
            #[trigger] self@[j].0,
        ) by {
            assert(self@[i].0 == self.entries@[i].0@);
            assert(self@[j].0 == self.entries@[j].0@);
        }
    }

    /// The empty map.
    pub fn new() -> (r: Self)
        ensures
            r@ == Seq::<(Seq<char>, V::V)>::empty(),
    {
        let r = NameMap { entries: Vec::new() };
        assert(r@ =~= Seq::<(Seq<char>, V::V)>::empty());
        r
    }

    /// The number of entries.
    pub fn len(&self) -> (r: usize)
        ensures
            r == self@.len(),
            sorted_by_name(self@),
    {
        proof {
            use_type_invariant(self);
            self.lemma_sorted();
        }
        self.entries.len()
    }

    /// The name and value of the entry at position `i` in the order of names.
    pub fn entry_at(&self, i: usize) -> (r: (&String, &V))
        requires
            i < self@.len(),
        ensures
            r.0@ == self@[i as int].0,
            r.1@ == self@[i as int].1,
    {
        (&self.entries[i].0, &self.entries[i].1)
    }

    /// The value named `key`, if any.
    pub fn get(&self, key: &String) -> (r: Option<&V>)
        ensures
            match r {
                Some(v) => lookup(self@, key@) == Some(v@),
                None => lookup(self@, key@) is None,
            },
            sorted_by_name(self@),
    {
        proof {
            use_type_invariant(self);
            self.lemma_sorted();
        }
        let mut i: usize = 0;
        while i < self.entries.len()
            invariant
                0 <= i <= self.entries@.len(),
                self@.len() == self.entries@.len(),
                sorted_by_name(self@),
                forall|j: int| 0 <= j < i ==> self@[j].0 != key@,
            decreases self.entries@.len() - i,
        {
            if self.entries[i].0 == *key {
                proof {
                    lemma_lookup_at(self@, i as int);
                }
                return Some(&self.entries[i].1);
            }
            i += 1;
        }
        None
    }

    /// `key` names an entry.
    pub fn contains_key(&self, key: &String) -> (r: bool)
        ensures
            r == has_name(self@, key@),
    {
        match self.get(key) {
            Some(_) => true,
            None => false,
        }
    }

    /// Removes every entry.
    pub fn clear(&mut self)
        ensures
            final(self)@ == Seq::<(Seq<char>, V::V)>::empty(),
    {
        self.entries = Vec::new();
        assert(self@ =~= Seq::<(Seq<char>, V::V)>::empty());
    }

    /// Gives `key` the value `value`: replaces the value of the entry named
    /// `key`, or adds an entry in its place in the order of names.
    pub fn insert(&mut self, key: String, value: V)
        ensures
            sorted_by_name(final(self)@),
            lookup(final(self)@, key@) == Some(value@),
            forall|k: Seq<char>| k != key@ ==> lookup(final(self)@, k) == lookup(old(self)@, k),
            has_name(old(self)@, key@) ==> final(self)@.len() == old(self)@.len(),
            !has_name(old(self)@, key@) ==> final(self)@.len() == old(self)@.len() + 1,
    {
        proof {
            use_type_invariant(&*self);
            self.lemma_sorted();
        }
        let key_chars = chars_of(key.as_str());
        let mut p: usize = 0;
        while p < self.entries.len()
            invariant
                0 <= p <= self.entries@.len(),
                self@.len() == self.entries@.len(),
                sorted_by_name(self@),
                key_chars@ == key@,
                forall|j: int| 0 <= j < p ==> chars_lt(#[trigger] self@[j].0, key@),
            ensures
                0 <= p <= self.entries@.len(),
                forall|j: int| 0 <= j < p ==> chars_lt(#[trigger] self@[j].0, key@),
                p < self@.len() ==> !chars_lt(self@[p as int].0, key@),
            decreases self.entries@.len() - p,
        {
            let here = chars_of(self.entries[p].0.as_str());
            if !chars_less(&here, &key_chars) {
                break;
            }
            p += 1;
        }
        let ghost old_view = self@;
        proof {
            lemma_chars_lt_total(key@, key@);
        }
        if p < self.entries.len() && self.entries[p].0 == key {
            assert(old_view[p as int].0 == key@);
            assert(has_name(old_view, key@));
            let mut entries: Vec<(String, V)> = Vec::new();
            std::mem::swap(&mut entries, &mut self.entries);
            entries.set(p, (key, value));
            proof {
                assert forall|i: int, j: int| 0 <= i < j < entries@.len() implies chars_lt(
                    #[trigger] entries@[i].0@,
                    #[trigger] entries@[j].0@,
                ) by {
                    assert(old_view[i].0 == entries@[i].0@);
                    assert(old_view[j].0 == entries@[j].0@);
                }
            }
            self.entries = entries;
            proof {
                assert(self@ =~= old_view.update(p as int, (key@, value@)));
                use_type_invariant(&*self);
                self.lemma_sorted();
                lemma_lookup_at(self@, p as int);
                assert forall|k: Seq<char>| k != key@ implies lookup(self@, k) == lookup(
                    old_view,
                    k,
                ) by {
                    if has_name(old_view, k) {
                        let i = choose|i: int| 0 <= i < old_view.len() && #[trigger] old_view[i].0 == k;
                        lemma_lookup_at(old_view, i);
                        assert(self@[i].0 == k);
                        lemma_lookup_at(self@, i);
                    } else if has_name(self@, k) {
                        let i = choose|i: int| 0 <= i < self@.len() && #[trigger] self@[i].0 == k;
                        assert(old_view[i].0 == k);
                    }
                }
            }
        } else {
            assert(!has_name(old_view, key@)) by {
                if has_name(old_view, key@) {
                    let i = choose|i: int| 0 <= i < old_view.len() && #[trigger] old_view[i].0 == key@;
                    if i < p {
                    } else if i == p {
                        assert(old_view[p as int].0 == self.entries@[p as int].0@);
                    } else {
                        assert(old_view[p as int].0 == self.entries@[p as int].0@);
                        lemma_chars_lt_total(old_view[p as int].0, key@);
                        assert(chars_lt(old_view[p as int].0, old_view[i].0));
                    }
                }
            }
            proof {
                if p < old_view.len() {
                    lemma_chars_lt_total(old_view[p as int].0, key@);
                }
            }
            let mut entries: Vec<(String, V)> = Vec::new();
            std::mem::swap(&mut entries, &mut self.entries);
            entries.insert(p, (key, value));
            proof {
                assert forall|i: int, j: int| 0 <= i < j < entries@.len() implies chars_lt(
                    #[trigger] entries@[i].0@,
                    #[trigger] entries@[j].0@,
                ) by {
                    if j < p {
                        assert(old_view[i].0 == entries@[i].0@);
                        assert(old_view[j].0 == entries@[j].0@);
                    } else if j == p {
                        assert(old_view[i].0 == entries@[i].0@);
                    } else if i < p {
                        assert(old_view[i].0 == entries@[i].0@);
                        assert(old_view[j - 1].0 == entries@[j].0@);
                        lemma_chars_lt_transitive(old_view[i].0, key@, old_view[p as int].0);
                        if j - 1 > p {
                            lemma_chars_lt_transitive(
                                old_view[i].0,
                                old_view[p as int].0,
                                old_view[j - 1].0,
                            );
                        }
                    } else if i == p {
                        assert(old_view[j - 1].0 == entries@[j].0@);
                        if j - 1 > p {
                            lemma_chars_lt_transitive(
                                key@,
                                old_view[p as int].0,
                                old_view[j - 1].0,
                            );
                        }
                    } else {
                        assert(old_view[i - 1].0 == entries@[i].0@);
                        assert(old_view[j - 1].0 == entries@[j].0@);
                    }
                }
            }
            self.entries = entries;
            proof {
                assert(self@ =~= old_view.insert(p as int, (key@, value@)));
                use_type_invariant(&*self);
                self.lemma_sorted();
                lemma_lookup_at(self@, p as int);
                assert forall|k: Seq<char>| k != key@ implies lookup(self@, k) == lookup(
                    old_view,
                    k,
                ) by {
                    if has_name(old_view, k) {
                        let i = choose|i: int| 0 <= i < old_view.len() && #[trigger] old_view[i].0 == k;
                        lemma_lookup_at(old_view, i);
                        if i < p {
                            assert(self@[i].0 == k);
                            lemma_lookup_at(self@, i);
                        } else {
                            assert(self@[i + 1].0 == k);
                            lemma_lookup_at(self@, i + 1);
                        }
                    } else if has_name(self@, k) {
                        let i = choose|i: int| 0 <= i < self@.len() && #[trigger] self@[i].0 == k;
                        if i < p {
                            assert(old_view[i].0 == k);
                        } else if i > p {
                            assert(old_view[i - 1].0 == k);
                        }
                    }
                }
            }
        }
    }
}

/// `a` comes before `b` in the order of names.
pub fn chars_less(a: &Vec<char>, b: &Vec<char>) -> (r: bool)
    ensures
        r == chars_lt(a@, b@),
{
    let mut i: usize = 0;
    assert(a@.skip(0) =~= a@);
    assert(b@.skip(0) =~= b@);
    while i < a.len() && i < b.len()
        invariant
            0 <= i <= a@.len(),
            i <= b@.len(),
            chars_lt(a@, b@) == chars_lt(a@.skip(i as int), b@.skip(i as int)),
        decreases a@.len() - i,
    {
        if a[i] != b[i] {
            return a[i] < b[i];
        }
        assert(a@.skip(i as int).drop_first() =~= a@.skip(i + 1));
        assert(b@.skip(i as int).drop_first() =~= b@.skip(i + 1));
        i += 1;
    }
    i < b.len()
}

/// Values that can be copied with the same view.
pub trait ViewCopy: View + Sized {
    /// A copy of the value with the same view.
    fn view_copy(&self) -> (r: Self)
        ensures
            r@ == self@,
    ;
}

impl<V: ViewCopy> Clone for NameMap<V> {
    /// A map with the same entries.
    fn clone(&self) -> (r: Self)
        ensures
            r@ == self@,
    {
        proof {
            use_type_invariant(self);
        }
        let mut entries: Vec<(String, V)> = Vec::new();
        let mut i: usize = 0;
        while i < self.entries.len()
            invariant
                0 <= i <= self.entries@.len(),
                entries@.len() == i,
                forall|q: int|
                    0 <= q < i ==> #[trigger] entries@[q].0 == self.entries@[q].0
                        && entries@[q].1@ == self.entries@[q].1@,
                self.wf(),
            decreases self.entries@.len() - i,
        {
            let name = self.entries[i].0.clone();
            let value = self.entries[i].1.view_copy();
            entries.push((name, value));
            i += 1;
        }
        let r = NameMap { entries };
        assert(r@ =~= self@);
        r
    }
}

} // verus!
