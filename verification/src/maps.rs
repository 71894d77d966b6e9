//! Values that can be compared and copied, and a map from text to values that
//! keeps its keys in order.

use crate::text::{
    lemma_text_less_total, lemma_text_less_trans, less, str_eq, text_less,
};
use vstd::prelude::*;

verus! {

/// A value whose contents can be compared and copied.
pub trait Data: DeepView + Sized {
    /// Whether both values have the same contents.
    fn same(&self, other: &Self) -> (r: bool)
        ensures
            r == (self.deep_view() == other.deep_view()),
    ;

    /// A copy of the value.
    fn dup(&self) -> (r: Self)
        ensures
            r.deep_view() == self.deep_view(),
    ;
}

impl Data for String {
    fn same(&self, other: &Self) -> (r: bool) {
        str_eq(self.as_str(), other.as_str())
    }

    fn dup(&self) -> (r: Self) {
        self.clone()
    }
}

impl Data for bool {
    fn same(&self, other: &Self) -> (r: bool) {
        *self == *other
    }

    fn dup(&self) -> (r: Self) {
        *self
    }
}

impl Data for i32 {
    fn same(&self, other: &Self) -> (r: bool) {
        *self == *other
    }

    fn dup(&self) -> (r: Self) {
        *self
    }
}

impl Data for i64 {
    fn same(&self, other: &Self) -> (r: bool) {
        *self == *other
    }

    fn dup(&self) -> (r: Self) {
        *self
    }
}

impl<A: Data, B: Data> Data for (A, B) {
    fn same(&self, other: &Self) -> (r: bool) {
        self.0.same(&other.0) && self.1.same(&other.1)
    }

    fn dup(&self) -> (r: Self) {
        (self.0.dup(), self.1.dup())
    }
}

impl<T: Data> Data for Option<T> {
    fn same(&self, other: &Self) -> (r: bool) {
        match (self, other) {
            (Some(a), Some(b)) => a.same(b),
            (None, None) => true,
            _ => false,
        }
    }

    fn dup(&self) -> (r: Self) {
        match self {
            Some(a) => Some(a.dup()),
            None => None,
        }
    }
}

impl<T: Data> Data for Vec<T> {
    fn same(&self, other: &Self) -> (r: bool) {
        if self.len() != other.len() {
            proof {
                assert(self.deep_view().len() != other.deep_view().len());
            }
            return false;
        }
        let mut i: usize = 0;
        while i < self.len()
            invariant
                self@.len() == other@.len(),
                i <= self@.len(),
                forall|j: int|
                    0 <= j < i ==> #[trigger] self.deep_view()[j] == other.deep_view()[j],
            decreases self@.len() - i,
        {
            if !self[i].same(&other[i]) {
                proof {
                    assert(self.deep_view()[i as int] != other.deep_view()[i as int]);
                }
                return false;
            }
            i = i + 1;
        }
        proof {
            assert(self.deep_view() =~= other.deep_view());
        }
        true
    }

    fn dup(&self) -> (r: Self) {
        let mut out: Vec<T> = Vec::new();
        let mut i: usize = 0;
        while i < self.len()
            invariant
                i <= self@.len(),
                out.deep_view() =~= self.deep_view().take(i as int),
            decreases self@.len() - i,
        {
            let ghost before = out.deep_view();
            let x: T = self[i].dup();
            let ghost xv = x.deep_view();
            out.push(x);
            i = i + 1;
            proof {
                assert(out.deep_view() =~= before.push(xv));
            }
        }
        proof {
            assert(out.deep_view() =~= self.deep_view());
        }
        out
    }
}

/// Whether the keys of `s` are strictly increasing.
pub open spec fn keys_sorted<V>(s: Seq<(String, V)>) -> bool {
    forall|i: int, j: int|
        0 <= i < j < s.len() ==> text_less((#[trigger] s[i]).0@, (#[trigger] s[j]).0@)
}

pub open spec fn key_at<V>(s: Seq<(String, V)>, k: Seq<char>, i: int) -> bool {
    0 <= i < s.len() && s[i].0@ == k
}

/// The map that a list of entries with distinct keys stands for.
pub open spec fn map_of<V: DeepView>(s: Seq<(String, V)>) -> Map<Seq<char>, V::V> {
    Map::new(
        |k: Seq<char>| exists|i: int| key_at(s, k, i),
        |k: Seq<char>| s[choose|i: int| key_at(s, k, i)].1.deep_view(),
    )
}

proof fn lemma_unique<V>(s: Seq<(String, V)>, i: int, j: int)
    requires
        keys_sorted(s),
        0 <= i < s.len(),
        0 <= j < s.len(),
        s[i].0@ == s[j].0@,
    ensures
        i == j,
{
    lemma_text_less_total(s[i].0@, s[j].0@);
    if i < j {
        assert(text_less(s[i].0@, s[j].0@));
    } else if j < i {
        assert(text_less(s[j].0@, s[i].0@));
    }
}

/// The entry at `i` is the map's entry for its key.
proof fn lemma_entry<V: DeepView>(s: Seq<(String, V)>, i: int)
    requires
        keys_sorted(s),
        0 <= i < s.len(),
    ensures
        map_of(s).dom().contains(s[i].0@),
        map_of(s)[s[i].0@] == s[i].1.deep_view(),
{
    assert(key_at(s, s[i].0@, i));
    let c = choose|j: int| key_at(s, s[i].0@, j);
    lemma_unique(s, i, c);
}

/// A map from text to values whose entries stand in the order of their keys.
#[derive(Debug, PartialEq)]
pub struct TextMap<V> {
    entries: Vec<(String, V)>,
}

impl<V: DeepView> DeepView for TextMap<V> {
    type V = Map<Seq<char>, V::V>;

    closed spec fn deep_view(&self) -> Map<Seq<char>, V::V> {
        map_of(self.entries@)
    }
}

impl<V> TextMap<V> {
    #[verifier::type_invariant]
    closed spec fn inv(self) -> bool {
        keys_sorted(self.entries@)
    }
}

impl<V: DeepView> TextMap<V> {
    pub fn new() -> (r: Self)
        ensures
            r.deep_view() == Map::<Seq<char>, V::V>::empty(),
    {
        let r: TextMap<V> = TextMap { entries: Vec::new() };
        proof {
            assert(r.deep_view() =~= Map::<Seq<char>, V::V>::empty());
        }
        r
    }

    pub fn is_empty(&self) -> (r: bool)
        ensures
            r == (self.deep_view() == Map::<Seq<char>, V::V>::empty()),
    {
        proof {
            use_type_invariant(self);
            if self.entries@.len() == 0 {
                assert(self.deep_view() =~= Map::<Seq<char>, V::V>::empty());
            } else {
                lemma_entry(self.entries@, 0);
            }
        }
        self.entries.len() == 0
    }

    /// The number of entries.
    pub fn len(&self) -> (r: usize)
        ensures
            r == self.size(),
            self.in_order(),
    {
        proof {
            use_type_invariant(self);
            self.lemma_items();
        }
        self.entries.len()
    }

    pub closed spec fn size(&self) -> nat {
        self.entries@.len()
    }

    pub closed spec fn item(&self, i: int) -> (Seq<char>, V::V) {
        (self.entries@[i].0@, self.entries@[i].1.deep_view())
    }

    /// The entry at position `i` in the order of the keys.
    pub fn entry(&self, i: usize) -> (r: (&String, &V))
        requires
            i < self.size(),
        ensures
            r.0@ == self.item(i as int).0,
            r.1.deep_view() == self.item(i as int).1,
            self.deep_view().dom().contains(r.0@),
            self.deep_view()[r.0@] == r.1.deep_view(),
    {
        proof {
            use_type_invariant(self);
            lemma_entry(self.entries@, i as int);
        }
        (&self.entries[i].0, &self.entries[i].1)
    }

    /// The entries stand in the order of their keys, and every key has one.
    pub open spec fn in_order(&self) -> bool {
        &&& forall|i: int, j: int|
            0 <= i < j < self.size() ==> text_less(
                (#[trigger] self.item(i)).0,
                (#[trigger] self.item(j)).0,
            )
        &&& forall|k: Seq<char>| #[trigger]
            self.deep_view().dom().contains(k) ==> exists|i: int|
                0 <= i < self.size() && (#[trigger] self.item(i)).0 == k
        &&& forall|i: int|
            0 <= i < self.size() ==> self.deep_view().dom().contains((#[trigger] self.item(i)).0)
                && self.deep_view()[self.item(i).0] == self.item(i).1
    }

    closed spec fn sorted(&self) -> bool {
        keys_sorted(self.entries@)
    }

    proof fn lemma_items(&self)
        requires
            self.sorted(),
        ensures
            self.in_order(),
    {
        assert forall|k: Seq<char>| #[trigger]
            self.deep_view().dom().contains(k) implies exists|i: int|
            0 <= i < self.size() && (#[trigger] self.item(i)).0 == k by {
            let i = choose|i: int| key_at(self.entries@, k, i);
            assert(self.item(i).0 == k);
        }
        assert forall|i: int| 0 <= i < self.size() implies self.deep_view().dom().contains(
            (#[trigger] self.item(i)).0,
        ) && self.deep_view()[self.item(i).0] == self.item(i).1 by {
            lemma_entry(self.entries@, i);
        }
        assert forall|i: int, j: int| 0 <= i < j < self.size() implies text_less(
            (#[trigger] self.item(i)).0,
            (#[trigger] self.item(j)).0,
        ) by {
            assert(text_less(self.entries@[i].0@, self.entries@[j].0@));
        }
    }

    /// The value of `k`, where it has one.
    pub fn get(&self, k: &str) -> (r: Option<&V>)
        ensures
            match r {
                Some(v) => self.deep_view().dom().contains(k@) && v.deep_view()
                    == self.deep_view()[k@],
                None => !self.deep_view().dom().contains(k@),
            },
    {
        let mut i: usize = 0;
        while i < self.entries.len()
            invariant
                i <= self.entries@.len(),
                forall|j: int| 0 <= j < i ==> !#[trigger] key_at(self.entries@, k@, j),
            decreases self.entries@.len() - i,
        {
            if str_eq(self.entries[i].0.as_str(), k) {
                proof {
                    use_type_invariant(self);
                    lemma_entry(self.entries@, i as int);
                }
                return Some(&self.entries[i].1);
            }
            i = i + 1;
        }
        None
    }

    /// Sets the value of `k`.
    pub fn insert(&mut self, k: String, v: V)
        ensures
            final(self).deep_view() == old(self).deep_view().insert(k@, v.deep_view()),
    {
        let ghost s = self.entries@;
        let ghost key = k@;
        let ghost val = v.deep_view();
        proof {
            use_type_invariant(&*self);
        }
        let mut i: usize = 0;
        while i < self.entries.len() && less(self.entries[i].0.as_str(), k.as_str())
            invariant
                self.entries@ == s,
                keys_sorted(s),
                i <= s.len(),
                forall|j: int| 0 <= j < i ==> text_less((#[trigger] s[j]).0@, k@),
            decreases s.len() - i,
        {
            i = i + 1;
        }
        if i < self.entries.len() && str_eq(self.entries[i].0.as_str(), k.as_str()) {
            let mut all: Vec<(String, V)> = Vec::new();
            std::mem::swap(&mut all, &mut self.entries);
            all.remove(i);
            all.insert(i, (k, v));
            proof {
                let t = all@;
                assert(t.len() == s.len());
                assert(forall|j: int| 0 <= j < s.len() && j != i ==> #[trigger] t[j] == s[j]);
                assert(forall|j: int| 0 <= j < s.len() ==> (#[trigger] t[j]).0@ == s[j].0@);
                assert forall|a: int, b: int| 0 <= a < b < t.len() implies text_less(
                    (#[trigger] t[a]).0@,
                    (#[trigger] t[b]).0@,
                ) by {
                    assert(text_less(s[a].0@, s[b].0@));
                }
                lemma_replaced(s, t, i as int, key, val);
            }
            self.entries = all;
        } else {
            let mut all: Vec<(String, V)> = Vec::new();
            std::mem::swap(&mut all, &mut self.entries);
            all.insert(i, (k, v));
            proof {
                let t = all@;
                lemma_inserted_sorted(s, t, i as int, key);
                lemma_inserted(s, t, i as int, key, val);
            }
            self.entries = all;
        }
    }
}

proof fn lemma_inserted_sorted<V>(
    s: Seq<(String, V)>,
    t: Seq<(String, V)>,
    at: int,
    key: Seq<char>,
)
    requires
        keys_sorted(s),
        0 <= at <= s.len(),
        t.len() == s.len() + 1,
        t[at].0@ == key,
        forall|j: int| 0 <= j < at ==> #[trigger] t[j] == s[j],
        forall|j: int| at < j < t.len() ==> #[trigger] t[j] == s[j - 1],
        forall|j: int| 0 <= j < at ==> text_less((#[trigger] s[j]).0@, key),
        at < s.len() ==> !text_less(s[at].0@, key) && s[at].0@ != key,
    ensures
        keys_sorted(t),
{
    assert forall|a: int, b: int| 0 <= a < b < t.len() implies text_less(
        (#[trigger] t[a]).0@,
        (#[trigger] t[b]).0@,
    ) by {
        if b < at {
            assert(text_less(s[a].0@, s[b].0@));
        } else if a < at && b == at {
            assert(text_less(s[a].0@, key));
        } else if a < at {
            assert(text_less(s[a].0@, s[b - 1].0@));
        } else if a == at {
            lemma_text_less_total(s[at].0@, key);
            if b - 1 > at {
                assert(text_less(s[at].0@, s[b - 1].0@));
                lemma_text_less_trans(key, s[at].0@, s[b - 1].0@);
            }
        } else {
            assert(text_less(s[a - 1].0@, s[b - 1].0@));
        }
    }
}

proof fn lemma_inserted<V: DeepView>(
    s: Seq<(String, V)>,
    t: Seq<(String, V)>,
    at: int,
    key: Seq<char>,
    val: V::V,
)
    requires
        keys_sorted(s),
        keys_sorted(t),
        0 <= at <= s.len(),
        t.len() == s.len() + 1,
        t[at].0@ == key,
        t[at].1.deep_view() == val,
        forall|j: int| 0 <= j < at ==> #[trigger] t[j] == s[j],
        forall|j: int| at < j < t.len() ==> #[trigger] t[j] == s[j - 1],
    ensures
        map_of(t) == map_of(s).insert(key, val),
{
    let a = map_of(t);
    let b = map_of(s).insert(key, val);
    assert forall|k: Seq<char>| a.dom().contains(k) == b.dom().contains(k) by {
        if a.dom().contains(k) {
            let i = choose|i: int| key_at(t, k, i);
            if i < at {
                assert(key_at(s, k, i));
            } else if i > at {
                assert(key_at(s, k, i - 1));
            }
        }
        if map_of(s).dom().contains(k) {
            let i = choose|i: int| key_at(s, k, i);
            if i < at {
                assert(t[i] == s[i]);
                assert(key_at(t, k, i));
            } else {
                assert(t[i + 1] == s[i]);
                assert(key_at(t, k, i + 1));
            }
        }
        assert(key_at(t, key, at));
    }
    assert forall|k: Seq<char>| a.dom().contains(k) implies a[k] == b[k] by {
        let i = choose|i: int| key_at(t, k, i);
        lemma_entry(t, i);
        if k == key {
            lemma_unique(t, i, at);
        } else if i < at {
            lemma_entry(s, i);
        } else {
            assert(t[i] == s[i - 1]);
            lemma_entry(s, i - 1);
        }
    }
    assert(a =~= b);
}

proof fn lemma_replaced<V: DeepView>(
    s: Seq<(String, V)>,
    t: Seq<(String, V)>,
    at: int,
    key: Seq<char>,
    val: V::V,
)
    requires
        keys_sorted(s),
        keys_sorted(t),
        0 <= at < s.len(),
        t.len() == s.len(),
        s[at].0@ == key,
        t[at].0@ == key,
        t[at].1.deep_view() == val,
        forall|j: int| 0 <= j < s.len() && j != at ==> #[trigger] t[j] == s[j],
    ensures
        map_of(t) == map_of(s).insert(key, val),
{
    let a = map_of(t);
    let b = map_of(s).insert(key, val);
    assert forall|k: Seq<char>| a.dom().contains(k) == b.dom().contains(k) by {
        if a.dom().contains(k) {
            let i = choose|i: int| key_at(t, k, i);
            assert(key_at(s, k, i));
        }
        if map_of(s).dom().contains(k) {
            let i = choose|i: int| key_at(s, k, i);
            assert(key_at(t, k, i));
        }
        assert(key_at(t, key, at));
    }
    assert forall|k: Seq<char>| a.dom().contains(k) implies a[k] == b[k] by {
        let i = choose|i: int| key_at(t, k, i);
        lemma_entry(t, i);
        if k == key {
            lemma_unique(t, i, at);
        } else {
            assert(t[i] == s[i]);
            lemma_entry(s, i);
        }
    }
    assert(a =~= b);
}

impl<V: Data> Data for TextMap<V> {
    fn same(&self, other: &Self) -> (r: bool) {
        let ghost a = self.deep_view();
        let ghost b = other.deep_view();
        let n: usize = self.len();
        let m: usize = other.len();
        let mut i: usize = 0;
        while i < n
            invariant
                n == self.size(),
                a == self.deep_view(),
                b == other.deep_view(),
                i <= self.size(),
                forall|j: int|
                    0 <= j < i ==> b.dom().contains((#[trigger] self.item(j)).0)
                        && b[self.item(j).0] == self.item(j).1,
            decreases self.size() - i,
        {
            let e = self.entry(i);
            match other.get(e.0.as_str()) {
                Some(v) => {
                    if !v.same(e.1) {
                        return false;
                    }
                },
                None => {
                    return false;
                },
            }
            i = i + 1;
        }
        let mut k: usize = 0;
        while k < m
            invariant
                m == other.size(),
                a == self.deep_view(),
                b == other.deep_view(),
                k <= other.size(),
                forall|j: int| 0 <= j < k ==> a.dom().contains((#[trigger] other.item(j)).0),
            decreases other.size() - k,
        {
            let e = other.entry(k);
            if self.get(e.0.as_str()).is_none() {
                return false;
            }
            k = k + 1;
        }
        proof {
            assert forall|x: Seq<char>| a.dom().contains(x) == b.dom().contains(x) by {
                if a.dom().contains(x) {
                    let j = choose|j: int|
                        0 <= j < self.size() && (#[trigger] self.item(j)).0 == x;
                    assert(b.dom().contains(self.item(j).0));
                }
                if b.dom().contains(x) {
                    let j = choose|j: int|
                        0 <= j < other.size() && (#[trigger] other.item(j)).0 == x;
                    assert(a.dom().contains(other.item(j).0));
                }
            }
            assert forall|x: Seq<char>| a.dom().contains(x) implies a[x] == b[x] by {
                let j = choose|j: int| 0 <= j < self.size() && (#[trigger] self.item(j)).0 == x;
                assert(b[self.item(j).0] == self.item(j).1);
            }
            assert(a =~= b);
        }
        true
    }

    fn dup(&self) -> (r: Self) {
        let mut out: TextMap<V> = TextMap::new();
        let ghost a = self.deep_view();
        let n: usize = self.len();
        let mut i: usize = 0;
        while i < n
            invariant
                n == self.size(),
                self.in_order(),
                a == self.deep_view(),
                i <= self.size(),
                forall|j: int|
                    0 <= j < i ==> out.deep_view().dom().contains((#[trigger] self.item(j)).0),
                forall|k: Seq<char>| #[trigger]
                    out.deep_view().dom().contains(k) ==> a.dom().contains(k) && a[k]
                        == out.deep_view()[k],
            decreases self.size() - i,
        {
            let e = self.entry(i);
            out.insert(e.0.clone(), e.1.dup());
            i = i + 1;
        }
        proof {
            assert forall|x: Seq<char>| a.dom().contains(x) implies out.deep_view().dom().contains(
                x,
            ) by {
                let j = choose|j: int| 0 <= j < self.size() && (#[trigger] self.item(j)).0 == x;
                assert(out.deep_view().dom().contains(self.item(j).0));
            }
            assert(out.deep_view() =~= a);
        }
        out
    }
}

// ---- the keys in order ------------------------------------------------------------------
/// Whether `ks` lists the keys of a map, each once and in order.
pub open spec fn lists<V>(m: Map<Seq<char>, V>, ks: Seq<Seq<char>>) -> bool {
    &&& forall|i: int, j: int|
        0 <= i < j < ks.len() ==> text_less(#[trigger] ks[i], #[trigger] ks[j])
    &&& forall|k: Seq<char>| #[trigger] m.dom().contains(k) <==> ks.contains(k)
}

/// The keys of a map in order.
pub open spec fn key_list<V>(m: Map<Seq<char>, V>) -> Seq<Seq<char>> {
    choose|ks: Seq<Seq<char>>| lists(m, ks)
}

proof fn lemma_last_greatest(ks: Seq<Seq<char>>, k: Seq<char>)
    requires
        forall|i: int, j: int|
            0 <= i < j < ks.len() ==> text_less(#[trigger] ks[i], #[trigger] ks[j]),
        ks.contains(k),
    ensures
        k == ks.last() || text_less(k, ks.last()),
{
    let i = choose|i: int| 0 <= i < ks.len() && ks[i] == k;
    if i < ks.len() - 1 {
        assert(text_less(ks[i], ks[ks.len() - 1]));
    }
}

/// There is but one such list.
pub proof fn lemma_one_list<V>(m: Map<Seq<char>, V>, a: Seq<Seq<char>>, b: Seq<Seq<char>>)
    requires
        lists(m, a),
        lists(m, b),
    ensures
        a == b,
    decreases a.len(),
{
    if a.len() == 0 {
        if b.len() > 0 {
            assert(b.contains(b[0]));
            assert(m.dom().contains(b[0]));
            assert(a.contains(b[0]));
        }
        assert(a =~= b);
    } else {
        assert(a.contains(a[a.len() - 1]));
        assert(m.dom().contains(a.last()));
        assert(b.contains(a.last()));
        assert(b.contains(b[b.len() - 1]));
        assert(m.dom().contains(b.last()));
        assert(a.contains(b.last()));
        lemma_last_greatest(a, b.last());
        lemma_last_greatest(b, a.last());
        lemma_text_less_total(a.last(), b.last());
        let top = a.last();
        assert(b.last() == top);
        let m2 = m.remove(top);
        lemma_list_front(m, a);
        lemma_list_front(m, b);
        lemma_one_list(m2, a.drop_last(), b.drop_last());
        assert(a =~= a.drop_last().push(top));
        assert(b =~= b.drop_last().push(top));
    }
}

proof fn lemma_list_front<V>(m: Map<Seq<char>, V>, a: Seq<Seq<char>>)
    requires
        lists(m, a),
        a.len() > 0,
    ensures
        lists(m.remove(a.last()), a.drop_last()),
{
    let f = a.drop_last();
    let m2 = m.remove(a.last());
    assert forall|i: int, j: int| 0 <= i < j < f.len() implies text_less(
        #[trigger] f[i],
        #[trigger] f[j],
    ) by {
        assert(text_less(a[i], a[j]));
    }
    assert forall|k: Seq<char>| #[trigger] m2.dom().contains(k) <==> f.contains(k) by {
        if m2.dom().contains(k) {
            assert(m.dom().contains(k));
            let i = choose|i: int| 0 <= i < a.len() && a[i] == k;
            assert(f[i] == k);
        }
        if f.contains(k) {
            let i = choose|i: int| 0 <= i < f.len() && f[i] == k;
            assert(a[i] == k);
            assert(a.contains(k));
            assert(m.dom().contains(k));
            lemma_text_less_total(a[i], a[a.len() - 1]);
            assert(text_less(a[i], a[a.len() - 1]));
        }
    }
}

impl<V: DeepView> TextMap<V> {
    /// The keys in order.
    pub fn keys(&self) -> (r: Vec<String>)
        ensures
            r.deep_view() == key_list(self.deep_view()),
            lists(self.deep_view(), r.deep_view()),
    {
        let mut out: Vec<String> = Vec::new();
        let n: usize = self.len();
        let mut i: usize = 0;
        while i < n
            invariant
                n == self.size(),
                i <= n,
                out@.len() == i,
                forall|j: int| 0 <= j < i ==> (#[trigger] out@[j])@ == self.item(j).0,
            decreases n - i,
        {
            let (k, _) = self.entry(i);
            out.push(k.clone());
            i = i + 1;
        }
        proof {
            let ks = out.deep_view();
            let m = self.deep_view();
            assert forall|a: int, b: int| 0 <= a < b < ks.len() implies text_less(
                #[trigger] ks[a],
                #[trigger] ks[b],
            ) by {
                assert(ks[a] == out@[a]@ && ks[b] == out@[b]@);
                assert(text_less(self.item(a).0, self.item(b).0));
            }
            assert forall|k: Seq<char>| #[trigger] m.dom().contains(k) <==> ks.contains(k) by {
                if m.dom().contains(k) {
                    let j = choose|j: int|
                        0 <= j < self.size() && (#[trigger] self.item(j)).0 == k;
                    assert(out@[j]@ == k);
                    assert(ks[j] == k);
                }
                if ks.contains(k) {
                    let j = choose|j: int| 0 <= j < ks.len() && ks[j] == k;
                    assert(out@[j]@ == self.item(j).0);
                }
            }
            assert(lists(m, ks));
            lemma_one_list(m, ks, key_list(m));
        }
        out
    }
}

} // verus!
