//! Sequences in order and without repetition.

use crate::text::{
    lemma_text_less_total, lemma_text_less_trans, less, str_eq, text_leq, text_less,
};
use vstd::prelude::*;

verus! {

/// Whether `lt` orders all values strictly.
pub open spec fn strict_order<A>(lt: spec_fn(A, A) -> bool) -> bool {
    &&& forall|a: A, b: A| a != b ==> #[trigger] lt(a, b) || lt(b, a)
    &&& forall|a: A, b: A| !(#[trigger] lt(a, b) && lt(b, a))
    &&& forall|a: A, b: A, c: A| #[trigger] lt(a, b) && #[trigger] lt(b, c) ==> lt(a, c)
}

/// `acc` with `x` before the first element that is not less, unless that is `x`.
pub open spec fn insert_by<A>(acc: Seq<A>, x: A, lt: spec_fn(A, A) -> bool) -> Seq<A>
    decreases acc.len(),
{
    if acc.len() == 0 {
        seq![x]
    } else if lt(acc[0], x) {
        seq![acc[0]] + insert_by(acc.drop_first(), x, lt)
    } else if acc[0] == x {
        acc
    } else {
        seq![x] + acc
    }
}

/// The elements of `xs` in order, each once.
pub open spec fn once_by<A>(xs: Seq<A>, lt: spec_fn(A, A) -> bool) -> Seq<A>
    decreases xs.len(),
{
    if xs.len() == 0 {
        Seq::empty()
    } else {
        insert_by(once_by(xs.drop_last(), lt), xs.last(), lt)
    }
}

pub open spec fn sorted_by<A>(s: Seq<A>, lt: spec_fn(A, A) -> bool) -> bool {
    forall|i: int, j: int| 0 <= i < j < s.len() ==> lt(#[trigger] s[i], #[trigger] s[j])
}

pub proof fn lemma_insert_at<A>(acc: Seq<A>, x: A, lt: spec_fn(A, A) -> bool, n: int)
    requires
        0 <= n <= acc.len(),
        forall|i: int| 0 <= i < n ==> lt(#[trigger] acc[i], x),
        n < acc.len() ==> !lt(acc[n], x),
    ensures
        insert_by(acc, x, lt) == if n < acc.len() && acc[n] == x {
            acc
        } else {
            acc.insert(n, x)
        },
    decreases acc.len(),
{
    if n > 0 {
        let t = acc.drop_first();
        assert(forall|i: int| 0 <= i < n - 1 ==> t[i] == #[trigger] acc[i + 1]);
        assert forall|i: int| 0 <= i < n - 1 implies lt(#[trigger] t[i], x) by {
            assert(lt(acc[i + 1], x));
        }
        lemma_insert_at(t, x, lt, n - 1);
        assert(lt(acc[0], x));
        if n < acc.len() && acc[n] == x {
            assert(seq![acc[0]] + t =~= acc);
        } else {
            assert(seq![acc[0]] + t.insert(n - 1, x) =~= acc.insert(n, x));
        }
    } else if acc.len() == 0 {
        assert(seq![x] =~= acc.insert(0, x));
    } else if acc[0] != x {
        assert(seq![x] + acc =~= acc.insert(0, x));
    }
}

proof fn lemma_insert_sorted<A>(acc: Seq<A>, x: A, lt: spec_fn(A, A) -> bool)
    requires
        strict_order(lt),
        sorted_by(acc, lt),
    ensures
        sorted_by(insert_by(acc, x, lt), lt),
        forall|y: A| #[trigger]
            insert_by(acc, x, lt).contains(y) <==> acc.contains(y) || y == x,
    decreases acc.len(),
{
    let r = insert_by(acc, x, lt);
    if acc.len() == 0 {
        assert(r[0] == x);
        assert forall|y: A| #[trigger] r.contains(y) <==> acc.contains(y) || y == x by {}
    } else if lt(acc[0], x) {
        let t = acc.drop_first();
        assert(forall|i: int| 0 <= i < t.len() ==> #[trigger] t[i] == acc[i + 1]);
        lemma_insert_sorted(t, x, lt);
        let q = insert_by(t, x, lt);
        assert forall|y: A| #[trigger] r.contains(y) <==> acc.contains(y) || y == x by {
            if r.contains(y) {
                let i = choose|i: int| 0 <= i < r.len() && r[i] == y;
                if i > 0 {
                    assert(q[i - 1] == y);
                    assert(q.contains(y));
                    if t.contains(y) {
                        let j = choose|j: int| 0 <= j < t.len() && t[j] == y;
                        assert(acc[j + 1] == y);
                    }
                }
            }
            if acc.contains(y) {
                let j = choose|j: int| 0 <= j < acc.len() && acc[j] == y;
                if j == 0 {
                    assert(r[0] == y);
                } else {
                    assert(t[j - 1] == y);
                    assert(q.contains(y));
                    let i = choose|i: int| 0 <= i < q.len() && q[i] == y;
                    assert(r[i + 1] == y);
                }
            }
            if y == x {
                assert(q.contains(y));
                let i = choose|i: int| 0 <= i < q.len() && q[i] == y;
                assert(r[i + 1] == y);
            }
        }
        assert forall|i: int, j: int| 0 <= i < j < r.len() implies lt(
            #[trigger] r[i],
            #[trigger] r[j],
        ) by {
            if i > 0 {
                assert(lt(q[i - 1], q[j - 1]));
            } else {
                assert(q.contains(q[j - 1]));
                if t.contains(q[j - 1]) {
                    let k = choose|k: int| 0 <= k < t.len() && t[k] == q[j - 1];
                    assert(lt(acc[0], acc[k + 1]));
                }
            }
        }
    } else if acc[0] != x {
        assert(lt(x, acc[0]) || lt(acc[0], x));
        assert forall|i: int, j: int| 0 <= i < j < r.len() implies lt(
            #[trigger] r[i],
            #[trigger] r[j],
        ) by {
            if i > 0 {
                assert(lt(acc[i - 1], acc[j - 1]));
            } else if j > 1 {
                assert(lt(acc[0], acc[j - 1]));
                assert(lt(x, acc[0]));
            }
        }
        assert forall|y: A| #[trigger] r.contains(y) <==> acc.contains(y) || y == x by {
            if r.contains(y) {
                let i = choose|i: int| 0 <= i < r.len() && r[i] == y;
                if i > 0 {
                    assert(acc[i - 1] == y);
                }
            }
            if acc.contains(y) {
                let j = choose|j: int| 0 <= j < acc.len() && acc[j] == y;
                assert(r[j + 1] == y);
            }
            assert(r[0] == x);
        }
    } else {
        assert forall|y: A| #[trigger] r.contains(y) <==> acc.contains(y) || y == x by {
            assert(acc[0] == x);
        }
    }
}

/// What is put in order once each is strictly increasing, and holds exactly the
/// elements it was made from.
pub proof fn law_once_by<A>(xs: Seq<A>, lt: spec_fn(A, A) -> bool)
    requires
        strict_order(lt),
    ensures
        sorted_by(once_by(xs, lt), lt),
        forall|y: A| #[trigger] once_by(xs, lt).contains(y) <==> xs.contains(y),
    decreases xs.len(),
{
    if xs.len() > 0 {
        let f = xs.drop_last();
        law_once_by(f, lt);
        lemma_insert_sorted(once_by(f, lt), xs.last(), lt);
        assert forall|y: A| #[trigger] once_by(xs, lt).contains(y) <==> xs.contains(y) by {
            if xs.contains(y) {
                let i = choose|i: int| 0 <= i < xs.len() && xs[i] == y;
                if i < xs.len() - 1 {
                    assert(f[i] == y);
                    assert(once_by(f, lt).contains(y));
                }
            }
            if f.contains(y) {
                let i = choose|i: int| 0 <= i < f.len() && f[i] == y;
                assert(xs[i] == y);
            }
            assert(once_by(f, lt).contains(y) <==> f.contains(y));
            assert(xs[xs.len() - 1] == xs.last());
        }
    } else {
        assert forall|y: A| #[trigger] once_by(xs, lt).contains(y) <==> xs.contains(y) by {}
    }
}

pub open spec fn text_lt() -> spec_fn(Seq<char>, Seq<char>) -> bool {
    |a: Seq<char>, b: Seq<char>| text_less(a, b)
}

/// The texts of `xs` in order, each once.
pub open spec fn sorted_once(xs: Seq<Seq<char>>) -> Seq<Seq<char>> {
    once_by(xs, text_lt())
}

/// Texts are ordered strictly.
pub proof fn law_text_order()
    ensures
        strict_order(text_lt()),
{
    let lt = text_lt();
    assert forall|a: Seq<char>, b: Seq<char>| a != b implies #[trigger] lt(a, b) || lt(b, a) by {
        lemma_text_less_total(a, b);
    }
    assert forall|a: Seq<char>, b: Seq<char>| !(#[trigger] lt(a, b) && lt(b, a)) by {
        lemma_text_less_total(a, b);
    }
    assert forall|a: Seq<char>, b: Seq<char>, c: Seq<char>| #[trigger]
        lt(a, b) && #[trigger] lt(b, c) implies lt(a, c) by {
        lemma_text_less_trans(a, b, c);
    }
}

/// Puts `x` in its place, unless it is there.
pub fn insert_text(acc: &mut Vec<String>, x: String)
    ensures
        final(acc).deep_view() == insert_by(old(acc).deep_view(), x@, text_lt()),
{
    let ghost a0 = acc.deep_view();
    let ghost xv = x@;
    let ghost lt = text_lt();
    let mut i: usize = 0;
    while i < acc.len() && less(acc[i].as_str(), x.as_str())
        invariant
            acc.deep_view() == a0,
            lt == text_lt(),
            i <= acc@.len(),
            forall|j: int| 0 <= j < i ==> lt(#[trigger] a0[j], x@),
        decreases acc@.len() - i,
    {
        proof {
            assert(a0[i as int] == acc@[i as int]@);
        }
        i = i + 1;
    }
    proof {
        if i < acc@.len() {
            assert(a0[i as int] == acc@[i as int]@);
        }
        lemma_insert_at(a0, x@, lt, i as int);
    }
    if i < acc.len() && str_eq(acc[i].as_str(), x.as_str()) {
        return ;
    }
    acc.insert(i, x);
    proof {
        assert(acc.deep_view() =~= a0.insert(i as int, xv));
    }
}

/// A secret that a pod reads: its name, its key, and whether it may be missing.
pub type SecretKey = (Seq<char>, Seq<char>, bool);

pub open spec fn secret_lt() -> spec_fn(SecretKey, SecretKey) -> bool {
    |a: SecretKey, b: SecretKey| secret_less(a, b)
}

pub open spec fn secret_less(a: SecretKey, b: SecretKey) -> bool {
    if a.0 != b.0 {
        text_less(a.0, b.0)
    } else if a.1 != b.1 {
        text_less(a.1, b.1)
    } else {
        !a.2 && b.2
    }
}

/// Secrets are ordered strictly.
pub proof fn law_secret_order()
    ensures
        strict_order(secret_lt()),
{
    let lt = secret_lt();
    assert forall|a: SecretKey, b: SecretKey| a != b implies #[trigger] lt(a, b) || lt(b, a) by {
        lemma_text_less_total(a.0, b.0);
        lemma_text_less_total(a.1, b.1);
    }
    assert forall|a: SecretKey, b: SecretKey| !(#[trigger] lt(a, b) && lt(b, a)) by {
        lemma_text_less_total(a.0, b.0);
        lemma_text_less_total(a.1, b.1);
    }
    assert forall|a: SecretKey, b: SecretKey, c: SecretKey| #[trigger]
        lt(a, b) && #[trigger] lt(b, c) implies lt(a, c) by {
        lemma_text_less_total(a.0, c.0);
        lemma_text_less_total(a.1, c.1);
        if text_less(a.0, b.0) && text_less(b.0, c.0) {
            lemma_text_less_trans(a.0, b.0, c.0);
        }
        if text_less(a.1, b.1) && text_less(b.1, c.1) {
            lemma_text_less_trans(a.1, b.1, c.1);
        }
        lemma_text_less_total(a.0, b.0);
        lemma_text_less_total(b.0, c.0);
        lemma_text_less_total(a.1, b.1);
        lemma_text_less_total(b.1, c.1);
    }
}

fn secret_before(a: &(String, String, bool), b: &(String, String, bool)) -> (r: bool)
    ensures
        r == secret_less(a.deep_view(), b.deep_view()),
{
    if !str_eq(a.0.as_str(), b.0.as_str()) {
        less(a.0.as_str(), b.0.as_str())
    } else if !str_eq(a.1.as_str(), b.1.as_str()) {
        less(a.1.as_str(), b.1.as_str())
    } else {
        !a.2 && b.2
    }
}

/// Puts `x` in its place, unless it is there.
pub fn insert_secret(acc: &mut Vec<(String, String, bool)>, x: (String, String, bool))
    ensures
        final(acc).deep_view() == insert_by(old(acc).deep_view(), x.deep_view(), secret_lt()),
{
    let ghost a0 = acc.deep_view();
    let ghost xv = x.deep_view();
    let ghost lt = secret_lt();
    let mut i: usize = 0;
    while i < acc.len() && secret_before(&acc[i], &x)
        invariant
            acc.deep_view() == a0,
            xv == x.deep_view(),
            lt == secret_lt(),
            i <= acc@.len(),
            forall|j: int| 0 <= j < i ==> lt(#[trigger] a0[j], xv),
        decreases acc@.len() - i,
    {
        proof {
            assert(a0[i as int] == acc@[i as int].deep_view());
        }
        i = i + 1;
    }
    proof {
        if i < acc@.len() {
            assert(a0[i as int] == acc@[i as int].deep_view());
        }
        lemma_insert_at(a0, xv, lt, i as int);
    }
    if i < acc.len() && str_eq(acc[i].0.as_str(), x.0.as_str()) && str_eq(
        acc[i].1.as_str(),
        x.1.as_str(),
    ) && acc[i].2 == x.2 {
        return ;
    }
    acc.insert(i, x);
    proof {
        assert(acc.deep_view() =~= a0.insert(i as int, xv));
    }
}

// ---- order by a text, with repetitions ----------------------------------------------------
/// `x` behind the last of those whose keys are not greater.
pub open spec fn place<A>(acc: Seq<A>, x: A, key: spec_fn(A) -> Seq<char>) -> Seq<A>
    decreases acc.len(),
{
    if acc.len() == 0 {
        seq![x]
    } else if text_less(key(x), key(acc[0])) {
        seq![x] + acc
    } else {
        seq![acc[0]] + place(acc.drop_first(), x, key)
    }
}

/// `xs` in the order of their keys; those with one key stay as they were.
pub open spec fn arranged<A>(xs: Seq<A>, key: spec_fn(A) -> Seq<char>) -> Seq<A>
    decreases xs.len(),
{
    if xs.len() == 0 {
        Seq::empty()
    } else {
        place(arranged(xs.drop_last(), key), xs.last(), key)
    }
}

pub proof fn lemma_place_at<A>(acc: Seq<A>, x: A, key: spec_fn(A) -> Seq<char>, n: int)
    requires
        0 <= n <= acc.len(),
        forall|i: int| 0 <= i < n ==> !text_less(key(x), key(#[trigger] acc[i])),
        n < acc.len() ==> text_less(key(x), key(acc[n])),
    ensures
        place(acc, x, key) == acc.insert(n, x),
    decreases acc.len(),
{
    if n == 0 {
        if acc.len() == 0 {
            assert(seq![x] =~= acc.insert(0, x));
        } else {
            assert(seq![x] + acc =~= acc.insert(0, x));
        }
    } else {
        let t = acc.drop_first();
        assert(!text_less(key(x), key(acc[0])));
        assert forall|i: int| 0 <= i < n - 1 implies !text_less(key(x), key(#[trigger] t[i])) by {
            assert(t[i] == acc[i + 1]);
        }
        lemma_place_at(t, x, key, n - 1);
        assert(seq![acc[0]] + t.insert(n - 1, x) =~= acc.insert(n, x));
    }
}

/// Placing an element puts it in somewhere.
pub proof fn lemma_place_inserts<A>(acc: Seq<A>, x: A, key: spec_fn(A) -> Seq<char>) -> (n: int)
    ensures
        0 <= n <= acc.len(),
        place(acc, x, key) == acc.insert(n, x),
    decreases acc.len(),
{
    if acc.len() == 0 {
        assert(seq![x] =~= acc.insert(0, x));
        0
    } else if text_less(key(x), key(acc[0])) {
        assert(seq![x] + acc =~= acc.insert(0, x));
        0
    } else {
        let n = lemma_place_inserts(acc.drop_first(), x, key);
        assert(seq![acc[0]] + acc.drop_first().insert(n, x) =~= acc.insert(n + 1, x));
        n + 1
    }
}

pub open spec fn in_order_by<A>(s: Seq<A>, key: spec_fn(A) -> Seq<char>) -> bool {
    forall|i: int, j: int|
        0 <= i < j < s.len() ==> text_leq(key(#[trigger] s[i]), key(#[trigger] s[j]))
}

pub proof fn lemma_place_sorted<A>(acc: Seq<A>, x: A, key: spec_fn(A) -> Seq<char>)
    requires
        in_order_by(acc, key),
    ensures
        in_order_by(place(acc, x, key), key),
        place(acc, x, key).to_multiset() == acc.to_multiset().insert(x),
        forall|i: int|
            0 <= i < place(acc, x, key).len() ==> (#[trigger] place(acc, x, key)[i]) == x
                || acc.contains(place(acc, x, key)[i]),
    decreases acc.len(),
{
    broadcast use vstd::seq_lib::group_to_multiset_ensures;
    broadcast use vstd::multiset::group_multiset_axioms;

    let r = place(acc, x, key);
    if acc.len() == 0 {
        assert(r =~= acc.push(x));
    } else if text_less(key(x), key(acc[0])) {
        assert(r =~= acc.insert(0, x));
        assert forall|i: int, j: int| 0 <= i < j < r.len() implies text_leq(
            key(#[trigger] r[i]),
            key(#[trigger] r[j]),
        ) by {
            if i == 0 {
                assert(r[j] == acc[j - 1]);
                if j > 1 {
                    assert(text_leq(key(acc[0]), key(acc[j - 1])));
                    if key(acc[0]) != key(acc[j - 1]) {
                        lemma_text_less_trans(key(x), key(acc[0]), key(acc[j - 1]));
                    }
                }
            } else {
                assert(text_leq(key(acc[i - 1]), key(acc[j - 1])));
            }
        }
        assert forall|i: int| 0 <= i < r.len() implies (#[trigger] r[i]) == x || acc.contains(
            r[i],
        ) by {
            if i > 0 {
                assert(acc[i - 1] == r[i]);
            }
        }
    } else {
        let t = acc.drop_first();
        let q = place(t, x, key);
        assert forall|i: int, j: int| 0 <= i < j < t.len() implies text_leq(
            key(#[trigger] t[i]),
            key(#[trigger] t[j]),
        ) by {
            assert(text_leq(key(acc[i + 1]), key(acc[j + 1])));
        }
        lemma_place_sorted(t, x, key);
        lemma_text_less_total(key(x), key(acc[0]));
        assert forall|i: int, j: int| 0 <= i < j < r.len() implies text_leq(
            key(#[trigger] r[i]),
            key(#[trigger] r[j]),
        ) by {
            assert(r[j] == q[j - 1]);
            if i == 0 {
                if q[j - 1] != x {
                    let k = choose|k: int| 0 <= k < t.len() && t[k] == q[j - 1];
                    assert(t[k] == acc[k + 1]);
                    assert(text_leq(key(acc[0]), key(acc[k + 1])));
                }
            } else {
                assert(r[i] == q[i - 1]);
            }
        }
        assert forall|i: int| 0 <= i < r.len() implies (#[trigger] r[i]) == x || acc.contains(
            r[i],
        ) by {
            if i == 0 {
                assert(acc[0] == r[0]);
            } else {
                assert(r[i] == q[i - 1]);
                if q[i - 1] != x {
                    let k = choose|k: int| 0 <= k < t.len() && t[k] == q[i - 1];
                    assert(acc[k + 1] == r[i]);
                }
            }
        }
        assert(acc =~= seq![acc[0]] + t);
        vstd::seq_lib::lemma_multiset_commutative(seq![acc[0]], t);
        vstd::seq_lib::lemma_multiset_commutative(seq![acc[0]], q);
        assert(r.to_multiset() =~= acc.to_multiset().insert(x));
    }
}

/// Arranging gives the same elements in the order of their keys.
pub proof fn law_arranged<A>(xs: Seq<A>, key: spec_fn(A) -> Seq<char>)
    ensures
        in_order_by(arranged(xs, key), key),
        arranged(xs, key).to_multiset() == xs.to_multiset(),
        arranged(xs, key).len() == xs.len(),
    decreases xs.len(),
{
    broadcast use vstd::seq_lib::group_to_multiset_ensures;

    if xs.len() > 0 {
        law_arranged(xs.drop_last(), key);
        lemma_place_sorted(arranged(xs.drop_last(), key), xs.last(), key);
        assert(xs =~= xs.drop_last().push(xs.last()));
    }
    assert(arranged(xs, key).to_multiset().len() == arranged(xs, key).len());
    assert(xs.to_multiset().len() == xs.len());
}

pub open spec fn keyed<A>(key: spec_fn(A) -> Seq<char>, k: Seq<char>) -> spec_fn(A) -> bool {
    |x: A| key(x) == k
}

proof fn lemma_filter_cons<A>(a: A, s: Seq<A>, f: spec_fn(A) -> bool)
    ensures
        (seq![a] + s).filter(f) == if f(a) {
            seq![a] + s.filter(f)
        } else {
            s.filter(f)
        },
    decreases s.len(),
{
    reveal(Seq::filter);
    let t = seq![a] + s;
    if s.len() == 0 {
        assert(t =~= seq![a]);
        assert(t.drop_last() =~= Seq::<A>::empty());
        assert(s.filter(f) =~= Seq::<A>::empty());
        assert(seq![a] + s.filter(f) =~= seq![a]);
        assert(t.filter(f) =~= if f(a) {
            seq![a]
        } else {
            Seq::empty()
        });
    } else {
        assert(t.drop_last() =~= seq![a] + s.drop_last());
        assert(t.last() == s.last());
        lemma_filter_cons(a, s.drop_last(), f);
        assert(t.filter(f) =~= if f(a) {
            seq![a] + s.filter(f)
        } else {
            s.filter(f)
        });
    }
}

proof fn lemma_filter_none<A>(s: Seq<A>, f: spec_fn(A) -> bool)
    requires
        forall|i: int| 0 <= i < s.len() ==> !f(#[trigger] s[i]),
    ensures
        s.filter(f) == Seq::<A>::empty(),
    decreases s.len(),
{
    reveal(Seq::filter);
    if s.len() > 0 {
        lemma_filter_none(s.drop_last(), f);
        assert(!f(s[s.len() - 1]));
    } else {
        assert(s.filter(f) =~= Seq::<A>::empty());
    }
}

proof fn lemma_place_filter<A>(acc: Seq<A>, x: A, key: spec_fn(A) -> Seq<char>, k: Seq<char>)
    requires
        in_order_by(acc, key),
    ensures
        place(acc, x, key).filter(keyed(key, k)) == if key(x) == k {
            acc.filter(keyed(key, k)).push(x)
        } else {
            acc.filter(keyed(key, k))
        },
    decreases acc.len(),
{
    let f = keyed(key, k);
    if acc.len() == 0 {
        lemma_filter_none(acc, f);
        assert(seq![x] =~= seq![x] + acc);
        lemma_filter_cons(x, acc, f);
        assert(place(acc, x, key).filter(f) =~= if key(x) == k {
            acc.filter(f).push(x)
        } else {
            acc.filter(f)
        });
    } else if text_less(key(x), key(acc[0])) {
        lemma_filter_cons(x, acc, f);
        if key(x) == k {
            assert forall|i: int| 0 <= i < acc.len() implies !f(#[trigger] acc[i]) by {
                if i > 0 {
                    assert(text_leq(key(acc[0]), key(acc[i])));
                }
                if key(acc[i]) == k {
                    lemma_text_less_total(key(x), key(acc[0]));
                }
            }
            lemma_filter_none(acc, f);
            assert(seq![x] + acc.filter(f) =~= acc.filter(f).push(x));
        }
    } else {
        let t = acc.drop_first();
        assert(forall|i: int| 0 <= i < t.len() ==> #[trigger] t[i] == acc[i + 1]);
        assert(in_order_by(t, key)) by {
            assert forall|i: int, j: int| 0 <= i < j < t.len() implies text_leq(
                key(#[trigger] t[i]),
                key(#[trigger] t[j]),
            ) by {
                assert(text_leq(key(acc[i + 1]), key(acc[j + 1])));
            }
        }
        lemma_place_filter(t, x, key, k);
        let q = place(t, x, key);
        lemma_filter_cons(acc[0], q, f);
        lemma_filter_cons(acc[0], t, f);
        assert(acc =~= seq![acc[0]] + t);
        assert(place(acc, x, key).filter(f) =~= if key(x) == k {
            acc.filter(f).push(x)
        } else {
            acc.filter(f)
        });
    }
}

/// Arranging keeps elements with one key in the order in which they were.
pub proof fn law_arranged_stable<A>(xs: Seq<A>, key: spec_fn(A) -> Seq<char>, k: Seq<char>)
    ensures
        arranged(xs, key).filter(keyed(key, k)) == xs.filter(keyed(key, k)),
    decreases xs.len(),
{
    reveal(Seq::filter);
    if xs.len() > 0 {
        law_arranged_stable(xs.drop_last(), key, k);
        law_arranged(xs.drop_last(), key);
        lemma_place_filter(arranged(xs.drop_last(), key), xs.last(), key, k);
    }
}

} // verus!
