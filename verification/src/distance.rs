//! How far two words are apart, and which known word is meant.

use crate::folds::least;
use crate::text::chars_of;
use vstd::prelude::*;

verus! {

/// The least number of insertions, deletions and replacements that turn `a` into
/// `b`.
pub open spec fn edits(a: Seq<char>, b: Seq<char>) -> nat
    decreases a.len() + b.len(),
{
    if a.len() == 0 {
        b.len()
    } else if b.len() == 0 {
        a.len()
    } else {
        let both = edits(a.drop_last(), b.drop_last()) + if a.last() == b.last() {
            0nat
        } else {
            1nat
        };
        least(least(both, edits(a.drop_last(), b) + 1), edits(a, b.drop_last()) + 1)
    }
}

proof fn lemma_edits_bound(a: Seq<char>, b: Seq<char>)
    ensures
        edits(a, b) <= a.len() + b.len(),
        edits(a, b) <= if a.len() <= b.len() {
            b.len()
        } else {
            a.len()
        },
    decreases a.len() + b.len(),
{
    if a.len() > 0 && b.len() > 0 {
        lemma_edits_bound(a.drop_last(), b.drop_last());
        lemma_edits_bound(a.drop_last(), b);
        lemma_edits_bound(a, b.drop_last());
    }
}

/// The edit distance of two words.
pub fn edit_distance(a: &str, b: &str) -> (r: usize)
    ensures
        r == edits(a@, b@),
{
    let av: Vec<char> = chars_of(a);
    let bv: Vec<char> = chars_of(b);
    let mut first: u128 = 0;
    let mut row: Vec<u128> = Vec::new();
    let mut k: usize = 0;
    proof {
        assert(av@.take(0) =~= Seq::<char>::empty());
    }
    while k < bv.len()
        invariant
            k <= bv@.len(),
            row@.len() == k,
            forall|j: int| 0 <= j < k ==> #[trigger] row@[j] == j + 1,
        decreases bv@.len() - k,
    {
        row.push(k as u128 + 1);
        k = k + 1;
    }
    proof {
        assert forall|j: int| 0 <= j < bv@.len() implies #[trigger] row@[j] == edits(
            av@.take(0),
            bv@.take(j + 1),
        ) by {}
    }
    let mut i: usize = 0;
    while i < av.len()
        invariant
            i <= av@.len(),
            row@.len() == bv@.len(),
            first == i,
            forall|j: int|
                0 <= j < bv@.len() ==> #[trigger] row@[j] == edits(
                    av@.take(i as int),
                    bv@.take(j + 1),
                ),
        decreases av@.len() - i,
    {
        let ghost a0 = av@.take(i as int);
        let ghost a1 = av@.take(i + 1);
        proof {
            assert(a1.drop_last() =~= a0);
            assert(a1.last() == av@[i as int]);
        }
        let mut next: Vec<u128> = Vec::new();
        let mut diag: u128 = first;
        let mut left: u128 = first + 1;
        let mut j: usize = 0;
        proof {
            assert(bv@.take(0) =~= Seq::<char>::empty());
            lemma_edits_empty(a0);
            lemma_edits_empty(a1);
        }
        while j < bv.len()
            invariant
                i < av@.len(),
                j <= bv@.len(),
                a0 == av@.take(i as int),
                a1 == av@.take(i + 1),
                a1.drop_last() == a0,
                a1.last() == av@[i as int],
                a1.len() == i + 1,
                row@.len() == bv@.len(),
                next@.len() == j,
                diag == edits(a0, bv@.take(j as int)),
                left == edits(a1, bv@.take(j as int)),
                forall|m: int|
                    0 <= m < bv@.len() ==> #[trigger] row@[m] == edits(a0, bv@.take(m + 1)),
                forall|m: int| 0 <= m < j ==> #[trigger] next@[m] == edits(a1, bv@.take(m + 1)),
            decreases bv@.len() - j,
        {
            let ghost b0 = bv@.take(j as int);
            let ghost b1 = bv@.take(j + 1);
            proof {
                assert(b1.drop_last() =~= b0);
                assert(b1.last() == bv@[j as int]);
                lemma_edits_bound(a0, b0);
                lemma_edits_bound(a0, b1);
                lemma_edits_bound(a1, b0);
                assert(row@[j as int] == edits(a0, b1));
            }
            let above: u128 = row[j];
            let mut best: u128 = if av[i] == bv[j] {
                diag
            } else {
                diag + 1
            };
            if above + 1 < best {
                best = above + 1;
            }
            if left + 1 < best {
                best = left + 1;
            }
            proof {
                assert(best == edits(a1, b1));
            }
            next.push(best);
            diag = above;
            left = best;
            j = j + 1;
        }
        row = next;
        first = first + 1;
        i = i + 1;
    }
    proof {
        assert(av@.take(i as int) =~= av@);
        assert(bv@.take(bv@.len() as int) =~= bv@);
        lemma_edits_bound(av@, bv@);
        lemma_edits_empty(av@);
    }
    if bv.len() == 0 {
        proof {
            assert(bv@ =~= Seq::<char>::empty());
        }
        av.len()
    } else {
        let last: usize = bv.len() - 1;
        proof {
            assert(row@[last as int] == edits(av@, bv@.take(last + 1)));
        }
        row[last] as usize
    }
}

proof fn lemma_edits_empty(a: Seq<char>)
    ensures
        edits(a, Seq::empty()) == a.len(),
{
}

/// The known word that is nearest to `got`: the first of those that are least
/// away, where that is at most two edits.
pub open spec fn nearest(got: Seq<char>, known: Seq<Seq<char>>) -> Option<Seq<char>>
    decreases known.len(),
{
    if known.len() == 0 {
        None
    } else {
        let d = edits(got, known.last());
        match nearest(got, known.drop_last()) {
            Some(w) => if d < edits(got, w) {
                Some(known.last())
            } else {
                Some(w)
            },
            None => if d <= 2 {
                Some(known.last())
            } else {
                None
            },
        }
    }
}

/// The known word that is meant by `got`, where one is near.
pub fn suggest(got: &str, known: &Vec<String>) -> (r: Option<String>)
    ensures
        r.deep_view() == nearest(got@, known.deep_view()),
{
    let ghost all = known.deep_view();
    let mut best: Option<usize> = None;
    let mut least_d: usize = 0;
    let mut i: usize = 0;
    proof {
        assert(all.take(0) =~= Seq::<Seq<char>>::empty());
    }
    while i < known.len()
        invariant
            all == known.deep_view(),
            i <= known@.len(),
            match best {
                Some(k) => k < i && least_d == edits(got@, all[k as int]) && least_d <= 2
                    && nearest(got@, all.take(i as int)) == Some(all[k as int]),
                None => nearest(got@, all.take(i as int)) is None,
            },
        decreases known@.len() - i,
    {
        proof {
            assert(all.take(i + 1).drop_last() =~= all.take(i as int));
            assert(all.take(i + 1).last() == known@[i as int]@);
            assert(all[i as int] == known@[i as int]@);
        }
        let d: usize = edit_distance(got, known[i].as_str());
        match best {
            Some(_) => {
                if d < least_d {
                    best = Some(i);
                    least_d = d;
                }
            },
            None => {
                if d <= 2 {
                    best = Some(i);
                    least_d = d;
                }
            },
        }
        i = i + 1;
    }
    proof {
        assert(all.take(i as int) =~= all);
    }
    match best {
        Some(k) => Some(known[k].clone()),
        None => None,
    }
}

/// A word that is suggested is known, at most two edits away, and no known word is
/// nearer; where none is suggested, none is that near.
pub proof fn law_suggestion(got: Seq<char>, known: Seq<Seq<char>>)
    ensures
        match nearest(got, known) {
            Some(w) => known.contains(w) && edits(got, w) <= 2 && forall|i: int|
                0 <= i < known.len() ==> edits(got, w) <= edits(got, #[trigger] known[i]),
            None => forall|i: int| 0 <= i < known.len() ==> edits(got, #[trigger] known[i]) > 2,
        },
    decreases known.len(),
{
    if known.len() > 0 {
        let front = known.drop_last();
        law_suggestion(got, front);
        assert forall|i: int| 0 <= i < known.len() - 1 implies known[i] == front[i] by {}
        assert(known[known.len() - 1] == known.last());
        if let Some(w) = nearest(got, front) {
            let k = choose|k: int| 0 <= k < front.len() && front[k] == w;
            assert(known[k] == w);
        }
        assert forall|i: int| 0 <= i < known.len() implies (match nearest(got, known) {
            Some(w) => edits(got, w) <= edits(got, #[trigger] known[i]),
            None => edits(got, known[i]) > 2,
        }) by {
            if i < known.len() - 1 {
                assert(known[i] == front[i]);
            }
        }
    }
}

proof fn lemma_edits_same(a: Seq<char>, b: Seq<char>)
    ensures
        edits(a, b) == edits(b, a),
        edits(a, b) == 0 <==> a == b,
    decreases a.len() + b.len(),
{
    if a.len() == 0 || b.len() == 0 {
        if a.len() == 0 && b.len() == 0 {
            assert(a =~= b);
        }
    } else {
        lemma_edits_same(a.drop_last(), b.drop_last());
        lemma_edits_same(a.drop_last(), b);
        lemma_edits_same(a, b.drop_last());
        if a == b {
        } else if edits(a, b) == 0 {
            assert(a =~= a.drop_last().push(a.last()));
            assert(b =~= b.drop_last().push(b.last()));
        }
    }
}

proof fn lemma_edits_apart(a: Seq<char>, b: Seq<char>)
    ensures
        a.len() <= b.len() + edits(a, b),
        b.len() <= a.len() + edits(a, b),
    decreases a.len() + b.len(),
{
    if a.len() > 0 && b.len() > 0 {
        lemma_edits_apart(a.drop_last(), b.drop_last());
        lemma_edits_apart(a.drop_last(), b);
        lemma_edits_apart(a, b.drop_last());
    }
}

proof fn lemma_triangle(a: Seq<char>, b: Seq<char>, c: Seq<char>)
    ensures
        edits(a, c) <= edits(a, b) + edits(b, c),
    decreases a.len() + b.len() + c.len(),
{
    lemma_edits_apart(a, b);
    lemma_edits_apart(b, c);
    lemma_edits_bound(a, c);
    if a.len() > 0 && b.len() > 0 && c.len() > 0 {
        let (x, y, z) = (a.drop_last(), b.drop_last(), c.drop_last());
        lemma_triangle(x, b, c);
        lemma_triangle(a, b, z);
        lemma_triangle(a, y, c);
        lemma_triangle(a, y, z);
        lemma_triangle(x, y, c);
        lemma_triangle(x, y, z);
    }
}

/// The distance is the same both ways, it is nothing between equal words only, a way
/// round is no shorter, and it is no more than the letters of the longer word.
pub proof fn law_distance(a: Seq<char>, b: Seq<char>, c: Seq<char>)
    ensures
        edits(a, b) == edits(b, a),
        edits(a, b) == 0 <==> a == b,
        edits(a, c) <= edits(a, b) + edits(b, c),
        edits(a, b) <= if a.len() <= b.len() {
            b.len()
        } else {
            a.len()
        },
{
    lemma_edits_same(a, b);
    lemma_triangle(a, b, c);
    lemma_edits_bound(a, b);
}

// ---- the least number of edits --------------------------------------------------------
/// Whether `b` is `a` with `c` put in at `i`.
pub open spec fn with_letter(a: Seq<char>, b: Seq<char>, i: int, c: char) -> bool {
    0 <= i <= a.len() && b == a.insert(i, c)
}

/// Whether one edit turns `a` into `b`: an insertion, a deletion or a replacement.
pub open spec fn one_edit(a: Seq<char>, b: Seq<char>) -> bool {
    ||| exists|i: int, c: char| with_letter(a, b, i, c)
    ||| exists|i: int, c: char| with_letter(b, a, i, c)
    ||| exists|i: int, c: char| 0 <= i < a.len() && b == #[trigger] a.update(i, c)
}

/// Whether `path` leads from `a` to `b`, one edit at a time.
pub open spec fn is_path(a: Seq<char>, b: Seq<char>, path: Seq<Seq<char>>) -> bool {
    &&& path.len() > 0
    &&& path[0] == a
    &&& path.last() == b
    &&& forall|i: int| 0 < i < path.len() ==> one_edit(path[i - 1], #[trigger] path[i])
}

proof fn lemma_insert_costs_one(a: Seq<char>, i: int, c: char)
    requires
        0 <= i <= a.len(),
    ensures
        edits(a, a.insert(i, c)) <= 1,
    decreases a.len() - i,
{
    let b = a.insert(i, c);
    if i == a.len() {
        assert(b.drop_last() =~= a);
        lemma_edits_same(a, a);
    } else {
        assert(b.last() == a.last());
        assert(b.drop_last() =~= a.drop_last().insert(i, c));
        lemma_insert_costs_one(a.drop_last(), i, c);
    }
}

proof fn lemma_update_costs_one(a: Seq<char>, i: int, c: char)
    requires
        0 <= i < a.len(),
    ensures
        edits(a, a.update(i, c)) <= 1,
    decreases a.len() - i,
{
    let b = a.update(i, c);
    if i == a.len() - 1 {
        assert(b.drop_last() =~= a.drop_last());
        lemma_edits_same(a.drop_last(), a.drop_last());
    } else {
        assert(b.last() == a.last());
        assert(b.drop_last() =~= a.drop_last().update(i, c));
        lemma_update_costs_one(a.drop_last(), i, c);
    }
}

proof fn lemma_one_edit(a: Seq<char>, b: Seq<char>)
    requires
        one_edit(a, b),
    ensures
        edits(a, b) <= 1,
{
    if exists|i: int, c: char| with_letter(a, b, i, c) {
        let (i, c) = choose|i: int, c: char| with_letter(a, b, i, c);
        lemma_insert_costs_one(a, i, c);
    } else if exists|i: int, c: char| with_letter(b, a, i, c) {
        let (i, c) = choose|i: int, c: char| with_letter(b, a, i, c);
        lemma_insert_costs_one(b, i, c);
        lemma_edits_same(a, b);
    } else {
        let (i, c) = choose|i: int, c: char|
            0 <= i < a.len() && b == #[trigger] a.update(i, c);
        lemma_update_costs_one(a, i, c);
    }
}

proof fn lemma_path_costs(a: Seq<char>, b: Seq<char>, path: Seq<Seq<char>>)
    requires
        is_path(a, b, path),
    ensures
        edits(a, b) < path.len(),
    decreases path.len(),
{
    if path.len() == 1 {
        lemma_edits_same(a, b);
    } else {
        let front = path.drop_last();
        let m = front.last();
        assert forall|i: int| 0 < i < front.len() implies one_edit(
            front[i - 1],
            #[trigger] front[i],
        ) by {
            assert(one_edit(path[i - 1], path[i]));
        }
        lemma_path_costs(a, m, front);
        assert(one_edit(path[path.len() - 2], path[path.len() - 1]));
        lemma_one_edit(m, b);
        lemma_triangle(a, m, b);
    }
}

spec fn with_end(path: Seq<Seq<char>>, c: char) -> Seq<Seq<char>> {
    Seq::new(path.len(), |i: int| path[i].push(c))
}

/// A letter at the end of both words changes nothing of the way between them.
proof fn lemma_with_end(a: Seq<char>, b: Seq<char>, path: Seq<Seq<char>>, c: char)
    requires
        is_path(a, b, path),
    ensures
        is_path(a.push(c), b.push(c), with_end(path, c)),
{
    let q = with_end(path, c);
    assert forall|i: int| 0 < i < q.len() implies one_edit(q[i - 1], #[trigger] q[i]) by {
        let (x, y) = (path[i - 1], path[i]);
        assert(one_edit(x, y));
        assert(q[i - 1] == x.push(c) && q[i] == y.push(c));
        if exists|k: int, d: char| with_letter(x, y, k, d) {
            let (k, d) = choose|k: int, d: char| with_letter(x, y, k, d);
            assert(y.push(c) =~= x.push(c).insert(k, d));
            assert(with_letter(x.push(c), y.push(c), k, d));
        } else if exists|k: int, d: char| with_letter(y, x, k, d) {
            let (k, d) = choose|k: int, d: char| with_letter(y, x, k, d);
            assert(x.push(c) =~= y.push(c).insert(k, d));
            assert(with_letter(y.push(c), x.push(c), k, d));
        } else {
            let (k, d) = choose|k: int, d: char|
                0 <= k < x.len() && y == #[trigger] x.update(k, d);
            assert(y.push(c) =~= x.push(c).update(k, d));
        }
    }
}

/// A way with one edit more at its end.
proof fn lemma_one_more(a: Seq<char>, m: Seq<char>, b: Seq<char>, path: Seq<Seq<char>>)
    requires
        is_path(a, m, path),
        one_edit(m, b),
    ensures
        is_path(a, b, path.push(b)),
{
    let q = path.push(b);
    assert(q[0] == a);
    assert forall|i: int| 0 < i < q.len() implies one_edit(q[i - 1], #[trigger] q[i]) by {
        if i < path.len() {
            assert(one_edit(path[i - 1], path[i]));
        }
    }
}

/// A way with one edit more at its start.
proof fn lemma_one_before(a: Seq<char>, m: Seq<char>, b: Seq<char>, path: Seq<Seq<char>>)
    requires
        one_edit(a, m),
        is_path(m, b, path),
    ensures
        is_path(a, b, seq![a] + path),
{
    let q = seq![a] + path;
    assert(q.last() == path.last());
    assert forall|i: int| 0 < i < q.len() implies one_edit(q[i - 1], #[trigger] q[i]) by {
        if i > 1 {
            assert(one_edit(path[i - 2], path[i - 1]));
        }
    }
}

proof fn lemma_shortest(a: Seq<char>, b: Seq<char>) -> (path: Seq<Seq<char>>)
    ensures
        is_path(a, b, path),
        path.len() == edits(a, b) + 1,
    decreases a.len() + b.len(),
{
    if a.len() == 0 && b.len() == 0 {
        assert(a =~= b);
        seq![a]
    } else if a.len() == 0 {
        let m = b.drop_last();
        let p = lemma_shortest(a, m);
        assert(b =~= m.insert(m.len() as int, b.last()));
        assert(with_letter(m, b, m.len() as int, b.last()));
        lemma_one_more(a, m, b, p);
        p.push(b)
    } else if b.len() == 0 {
        let m = a.drop_last();
        let p = lemma_shortest(m, b);
        assert(a =~= m.insert(m.len() as int, a.last()));
        assert(with_letter(m, a, m.len() as int, a.last()));
        lemma_one_before(a, m, b, p);
        lemma_edits_empty(a);
        lemma_edits_empty(m);
        assert(b =~= Seq::<char>::empty());
        seq![a] + p
    } else {
        let (x, y) = (a.drop_last(), b.drop_last());
        let both = edits(x, y) + if a.last() == b.last() {
            0nat
        } else {
            1nat
        };
        assert(a =~= x.push(a.last()));
        assert(b =~= y.push(b.last()));
        if edits(a, b) == both {
            let p = lemma_shortest(x, y);
            lemma_with_end(x, y, p, a.last());
            let q = with_end(p, a.last());
            if a.last() == b.last() {
                q
            } else {
                let m = y.push(a.last());
                assert(b =~= m.update(m.len() - 1, b.last()));
                assert(one_edit(m, b));
                lemma_one_more(a, m, b, q);
                q.push(b)
            }
        } else if edits(a, b) == edits(x, b) + 1 {
            let p = lemma_shortest(x, b);
            assert(a =~= x.insert(x.len() as int, a.last()));
            assert(with_letter(x, a, x.len() as int, a.last()));
            lemma_one_before(a, x, b, p);
            seq![a] + p
        } else {
            let p = lemma_shortest(a, y);
            assert(b =~= y.insert(y.len() as int, b.last()));
            assert(with_letter(y, b, y.len() as int, b.last()));
            lemma_one_more(a, y, b, p);
            p.push(b)
        }
    }
}

/// The distance is the least number of edits: no way from `a` to `b`, one insertion,
/// deletion or replacement at a time, has fewer, and one has no more.
pub proof fn law_distance_is_least(a: Seq<char>, b: Seq<char>)
    ensures
        forall|path: Seq<Seq<char>>| #[trigger]
            is_path(a, b, path) ==> edits(a, b) <= path.len() - 1,
        exists|path: Seq<Seq<char>>| #[trigger]
            is_path(a, b, path) && path.len() - 1 == edits(a, b),
{
    assert forall|path: Seq<Seq<char>>| #[trigger] is_path(a, b, path) implies edits(a, b)
        <= path.len() - 1 by {
        lemma_path_costs(a, b, path);
    }
    let path = lemma_shortest(a, b);
    assert(is_path(a, b, path));
}

} // verus!
