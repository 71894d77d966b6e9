//! Sequences of results, and sequences without repetitions.

use vstd::prelude::*;

verus! {

pub open spec fn least(a: nat, b: nat) -> nat {
    if a <= b {
        a
    } else {
        b
    }
}

/// Every element of `s` under `f`, or the first refusal.
pub open spec fn map_res<A, B>(s: Seq<A>, f: spec_fn(A) -> Result<B, Seq<char>>) -> Result<
    Seq<B>,
    Seq<char>,
>
    decreases s.len(),
{
    if s.len() == 0 {
        Ok(Seq::empty())
    } else {
        match map_res(s.drop_last(), f) {
            Err(m) => Err(m),
            Ok(v) => match f(s.last()) {
                Err(m) => Err(m),
                Ok(b) => Ok(v.push(b)),
            },
        }
    }
}

/// One more element: the element at `i` extends the result for what stands
/// before it, and its refusal is the refusal of the whole.
pub proof fn lemma_map_res_step<A, B>(
    s: Seq<A>,
    f: spec_fn(A) -> Result<B, Seq<char>>,
    i: int,
)
    requires
        0 <= i < s.len(),
        map_res(s.take(i), f) is Ok,
    ensures
        match f(s[i]) {
            Ok(b) => map_res(s.take(i + 1), f) == Ok::<Seq<B>, Seq<char>>(
                map_res(s.take(i), f)->Ok_0.push(b),
            ),
            Err(m) => map_res(s.take(i + 1), f) == Err::<Seq<B>, Seq<char>>(m) && map_res(s, f)
                == Err::<Seq<B>, Seq<char>>(m),
        },
{
    assert(s.take(i + 1).drop_last() =~= s.take(i));
    assert(s.take(i + 1).last() == s[i]);
    if f(s[i]) is Err {
        lemma_map_res_err(s, f, i + 1);
    }
}

pub proof fn lemma_map_res_err<A, B>(s: Seq<A>, f: spec_fn(A) -> Result<B, Seq<char>>, n: int)
    requires
        0 <= n <= s.len(),
        map_res(s.take(n), f) is Err,
    ensures
        map_res(s, f) == map_res(s.take(n), f),
    decreases s.len(),
{
    if n < s.len() {
        assert(s.drop_last().take(n) =~= s.take(n));
        lemma_map_res_err(s.drop_last(), f, n);
    } else {
        assert(s.take(n) =~= s);
    }
}

pub proof fn lemma_map_res_all<A, B>(s: Seq<A>, f: spec_fn(A) -> Result<B, Seq<char>>)
    ensures
        map_res(s.take(0), f) == Ok::<Seq<B>, Seq<char>>(Seq::empty()),
        s.take(s.len() as int) == s,
{
    assert(s.take(s.len() as int) =~= s);
}

/// A result of `map_res` has one element for each element of its source.
pub proof fn lemma_map_res_len<A, B>(s: Seq<A>, f: spec_fn(A) -> Result<B, Seq<char>>)
    ensures
        map_res(s, f) matches Ok(v) ==> {
            &&& v.len() == s.len()
            &&& forall|i: int| 0 <= i < s.len() ==> f(s[i]) == Ok::<B, Seq<char>>(#[trigger] v[i])
        },
    decreases s.len(),
{
    if s.len() > 0 {
        lemma_map_res_len(s.drop_last(), f);
        if map_res(s, f) is Ok {
            let v = map_res(s, f)->Ok_0;
            assert forall|i: int| 0 <= i < s.len() implies f(s[i]) == Ok::<B, Seq<char>>(
                #[trigger] v[i],
            ) by {
                if i < s.len() - 1 {
                    assert(s.drop_last()[i] == s[i]);
                    assert(v.drop_last()[i] == v[i]);
                }
            }
        }
    }
}

/// `acc` with `x` behind it, unless it holds it.
pub open spec fn add_new<A>(acc: Seq<A>, x: A) -> Seq<A> {
    if acc.contains(x) {
        acc
    } else {
        acc.push(x)
    }
}

/// `acc` with the elements of `xs` that it does not hold, in order and once
/// each.
pub open spec fn add_all<A>(acc: Seq<A>, xs: Seq<A>) -> Seq<A>
    decreases xs.len(),
{
    if xs.len() == 0 {
        acc
    } else {
        add_new(add_all(acc, xs.drop_last()), xs.last())
    }
}

pub proof fn lemma_add_all_push<A>(acc: Seq<A>, xs: Seq<A>, x: A)
    ensures
        add_all(acc, xs.push(x)) == add_new(add_all(acc, xs), x),
{
    assert(xs.push(x).drop_last() =~= xs);
}

pub proof fn lemma_add_all_cat<A>(acc: Seq<A>, xs: Seq<A>, ys: Seq<A>)
    ensures
        add_all(acc, xs + ys) == add_all(add_all(acc, xs), ys),
    decreases ys.len(),
{
    if ys.len() == 0 {
        assert(xs + ys =~= xs);
    } else {
        assert((xs + ys).drop_last() =~= xs + ys.drop_last());
        lemma_add_all_cat(acc, xs, ys.drop_last());
    }
}

/// Adding keeps what was there, in front, adds only elements of `xs` and all of
/// them, and repeats nothing.
pub proof fn law_add_all<A>(acc: Seq<A>, xs: Seq<A>)
    requires
        acc.no_duplicates(),
    ensures
        add_all(acc, xs).no_duplicates(),
        acc.is_prefix_of(add_all(acc, xs)),
        forall|x: A| #[trigger]
            add_all(acc, xs).contains(x) <==> acc.contains(x) || xs.contains(x),
    decreases xs.len(),
{
    if xs.len() > 0 {
        let front = xs.drop_last();
        law_add_all(acc, front);
        let p = add_all(acc, front);
        let q = add_all(acc, xs);
        assert forall|x: A| #[trigger] q.contains(x) <==> acc.contains(x) || xs.contains(x) by {
            if xs.contains(x) {
                let i = choose|i: int| 0 <= i < xs.len() && xs[i] == x;
                if i < xs.len() - 1 {
                    assert(front[i] == x);
                    assert(p.contains(x));
                }
            }
            if front.contains(x) {
                let i = choose|i: int| 0 <= i < front.len() && front[i] == x;
                assert(xs[i] == x);
            }
            assert(xs[xs.len() - 1] == xs.last());
            if p.contains(x) && q != p {
                let i = choose|i: int| 0 <= i < p.len() && p[i] == x;
                assert(q[i] == x);
            }
            if q.contains(x) && q != p {
                let i = choose|i: int| 0 <= i < q.len() && q[i] == x;
                if i < p.len() {
                    assert(p[i] == x);
                }
            }
            if q != p {
                assert(q[q.len() - 1] == xs.last());
            }
        }
    } else {
        assert(forall|x: A| !xs.contains(x));
    }
}

} // verus!
