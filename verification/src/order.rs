//! Anchor selection and the anchor-first polar ordering of a point
//! collection.

use vstd::prelude::*;
use core::cmp::Ordering;
use crate::angle::{compare, compare_spec, strictly_above};
use crate::point::{Point, within_epsilon};

verus! {

/// Why an ordering request was rejected.
#[derive(Clone, Copy, PartialEq, Eq, Structural, Debug)]
pub enum OrderError {
    /// `order_points` was called with no points at all.
    EmptyInput,
}

/// The anchor rule, one step at a time: `candidate` displaces
/// `current` when its `y` lies within the tolerance of `current`'s `y`
/// and its `x` is strictly smaller, or otherwise when its `y` is
/// strictly smaller.  The `y` comparison goes through the tolerance
/// band; the `x` tie-break is exact.
pub open spec fn prefer_as_anchor(candidate: Point, current: Point) -> bool {
    if within_epsilon(candidate.y as int, current.y as int) {
        candidate.x < current.x
    } else {
        candidate.y < current.y
    }
}

/// Index of the anchor among the first `n` elements of `s`: the index
/// a left-to-right scan under [`prefer_as_anchor`] settles on.
pub open spec fn anchor_index_upto(s: Seq<Point>, n: int) -> int
    recommends
        1 <= n <= s.len(),
    decreases n,
{
    if n <= 1 {
        0
    } else if prefer_as_anchor(s[n - 1], s[anchor_index_upto(s, n - 1)]) {
        n - 1
    } else {
        anchor_index_upto(s, n - 1)
    }
}

/// Index of the anchor of `s`: the point with the lowest `y`, ties on
/// `y` broken by the lowest `x`.
pub open spec fn anchor_index(s: Seq<Point>) -> int {
    anchor_index_upto(s, s.len() as int)
}

/// Where `p` lands when inserted into `s` from the right: `p` is
/// placed before exactly the suffix of elements that compare `Greater`
/// than `p` around `base`.
pub open spec fn insert_by_angle(s: Seq<Point>, p: Point, base: Point) -> Seq<Point>
    decreases s.len(),
{
    if s.len() == 0 {
        seq![p]
    } else if compare_spec(s.last(), p, base) != Ordering::Greater {
        s.push(p)
    } else {
        insert_by_angle(s.drop_last(), p, base).push(s.last())
    }
}

/// Insertion sort of `s` by polar angle around `base`.
pub open spec fn sort_by_angle(s: Seq<Point>, base: Point) -> Seq<Point>
    decreases s.len(),
{
    if s.len() == 0 {
        s
    } else {
        insert_by_angle(sort_by_angle(s.drop_last(), base), s.last(), base)
    }
}

/// The complete ordering `order_points` produces on a non-empty input:
/// the anchor first, then the remaining points sorted by polar angle
/// around it.  The element order handed to the sort is the one that
/// swap-removal of the anchor leaves (the last element takes the
/// anchor's slot).
pub open spec fn order_points_spec(s: Seq<Point>) -> Seq<Point>
    recommends
        s.len() > 0,
{
    let a = anchor_index(s);
    let rest = s.update(a, s.last()).drop_last();
    seq![s[a]] + sort_by_angle(rest, s[a])
}

/// No element of `s` after the anchor (position 0) compares `Greater`
/// than a later one around the anchor: angles never decrease.
pub open spec fn sorted_by_angle(s: Seq<Point>, base: Point) -> bool {
    forall|i: int, j: int|
        0 <= i < j < s.len() ==> compare_spec(s[i], s[j], base) != Ordering::Greater
}

/// `insert_by_angle` splits `s` at the point `k` where the shifting
/// scan of an insertion step stops: every element from `k` on compares
/// `Greater` than `p`, and the element just before `k`, if any, does
/// not.
proof fn lemma_insert_by_angle_splits(s: Seq<Point>, p: Point, base: Point, k: int)
    requires
        0 <= k <= s.len(),
        forall|m: int| k <= m < s.len() ==> compare_spec(s[m], p, base) == Ordering::Greater,
        k > 0 ==> compare_spec(s[k - 1], p, base) != Ordering::Greater,
    ensures
        insert_by_angle(s, p, base) == s.subrange(0, k) + seq![p] + s.subrange(k, s.len() as int),
    decreases s.len(),
{
    if s.len() == 0 {
        assert(insert_by_angle(s, p, base) =~= s.subrange(0, k) + seq![p] + s.subrange(
            k,
            s.len() as int,
        ));
    } else if k == s.len() {
        assert(insert_by_angle(s, p, base) =~= s.subrange(0, k) + seq![p] + s.subrange(
            k,
            s.len() as int,
        ));
    } else {
        let t = s.drop_last();
        assert(compare_spec(s.last(), p, base) == Ordering::Greater);
        lemma_insert_by_angle_splits(t, p, base, k);
        assert(insert_by_angle(s, p, base) =~= s.subrange(0, k) + seq![p] + s.subrange(
            k,
            s.len() as int,
        ));
    }
}

/// Sorts `v` in place by polar angle around `base`, by insertion.
fn sort_points_by_angle(v: &mut Vec<Point>, base: &Point)
    ensures
        final(v)@ == sort_by_angle(old(v)@, *base),
{
    let ghost orig = v@;
    if v.len() < 2 {
        proof {
            if orig.len() == 1 {
                lemma_sort_singleton(orig, *base);
            }
        }
        return ;
    }
    let n = v.len();
    let mut i: usize = 1;
    proof {
        lemma_sort_singleton(orig.subrange(0, 1), *base);
        assert(v@.subrange(0, 1) =~= orig.subrange(0, 1));
    }
    while i < n
        invariant
            1 <= i <= n,
            n == orig.len(),
            v@.len() == orig.len(),
            v@.subrange(0, i as int) == sort_by_angle(orig.subrange(0, i as int), *base),
            forall|m: int| i <= m < n ==> v@[m] == orig[m],
        decreases n - i,
    {
        let x = v[i];
        let ghost s = v@.subrange(0, i as int);
        let mut j: usize = i;
        proof {
            assert(forall|m: int| 0 <= m < i ==> v@[m] == #[trigger] s[m]);
        }
        loop
            invariant
                j <= i < n,
                n == orig.len(),
                v@.len() == orig.len(),
                s.len() == i,
                x == orig[i as int],
                forall|m: int| 0 <= m < j ==> v@[m] == #[trigger] s[m],
                forall|m: int| j < m <= i ==> v@[m] == #[trigger] s[m - 1],
                forall|m: int| i < m < n ==> v@[m] == orig[m],
                forall|m: int| j <= m < i ==> compare_spec(#[trigger] s[m], x, *base)
                    == Ordering::Greater,
            ensures
                j <= i,
                v@.len() == orig.len(),
                forall|m: int| 0 <= m < j ==> v@[m] == #[trigger] s[m],
                forall|m: int| j < m <= i ==> v@[m] == #[trigger] s[m - 1],
                forall|m: int| i < m < n ==> v@[m] == orig[m],
                forall|m: int| j <= m < i ==> compare_spec(#[trigger] s[m], x, *base)
                    == Ordering::Greater,
                j == 0 || compare_spec(s[j as int - 1], x, *base) != Ordering::Greater,
            decreases j,
        {
            if j == 0 {
                break ;
            }
            let prev = v[j - 1];
            let keep_shifting = match compare(&prev, &x, base) {
                Ordering::Greater => true,
                _ => false,
            };
            if !keep_shifting {
                break ;
            }
            v.set(j, prev);
            j = j - 1;
        }
        v.set(j, x);
        proof {
            lemma_insert_by_angle_splits(s, x, *base, j as int);
            let inserted = s.subrange(0, j as int) + seq![x] + s.subrange(j as int, i as int);
            assert forall|m: int| 0 <= m < i + 1 implies #[trigger] v@.subrange(
                0,
                i as int + 1,
            )[m] == inserted[m] by {
                assert(v@.subrange(0, i as int + 1)[m] == v@[m]);
                if m < j as int {
                    assert(v@[m] == s[m]);
                    assert(inserted[m] == s.subrange(0, j as int)[m]);
                } else if m == j as int {
                    assert(v@[m] == x);
                } else {
                    assert(v@[m] == s[m - 1]);
                    assert(inserted[m] == s.subrange(j as int, i as int)[m - (j as int) - 1]);
                }
            }
            assert(v@.subrange(0, i as int + 1) =~= inserted);
            assert(s.subrange(0, s.len() as int) =~= s);
            assert(insert_by_angle(s, x, *base) == inserted);
            let pre = orig.subrange(0, i as int + 1);
            assert(pre.drop_last() =~= orig.subrange(0, i as int));
            assert(pre.last() == x);
            assert(sort_by_angle(pre, *base) == insert_by_angle(s, x, *base));
            assert(forall|m: int| i + 1 <= m < n ==> v@[m] == orig[m]);
        }
        i = i + 1;
    }
    proof {
        assert(v@ =~= v@.subrange(0, n as int));
        assert(orig.subrange(0, n as int) =~= orig);
    }
}

/// Sorting a one-element sequence leaves it unchanged.
proof fn lemma_sort_singleton(s: Seq<Point>, base: Point)
    requires
        s.len() == 1,
    ensures
        sort_by_angle(s, base) == s,
{
    let t = s.drop_last();
    assert(sort_by_angle(t, base) == t);
    assert(insert_by_angle(t, s.last(), base) == seq![s.last()]);
    assert(seq![s.last()] =~= s);
}

/// Reorders `points` so that the anchor — the point with the lowest
/// `y`, ties on `y` (within the tolerance) broken by the lowest `x` —
/// comes first, followed by the remaining points sorted by
/// non-decreasing polar angle around the anchor.  An empty input is
/// rejected with [`OrderError::EmptyInput`] and left untouched.  The
/// output is a permutation of the input and is the same sequence on
/// every call with the same input.
pub fn order_points(points: &mut Vec<Point>) -> (r: Result<(), OrderError>)
    ensures
        old(points)@.len() == 0 ==> r == Err::<(), OrderError>(OrderError::EmptyInput)
            && final(points)@ == old(points)@,
        old(points)@.len() > 0 ==> r == Ok::<(), OrderError>(()) && final(points)@
            == order_points_spec(old(points)@),
        final(points)@.to_multiset() == old(points)@.to_multiset(),
{
    broadcast use vstd::seq_lib::group_to_multiset_ensures;

    if points.len() == 0 {
        return Err(OrderError::EmptyInput);
    }
    let ghost s = points@;
    let n = points.len();
    let mut lowest: Point = points[0];
    let mut lowest_idx: usize = 0;
    let mut idx: usize = 1;
    while idx < n
        invariant
            1 <= idx <= n,
            n == points@.len(),
            points@ == s,
            lowest_idx < idx,
            lowest_idx as int == anchor_index_upto(s, idx as int),
            lowest == s[lowest_idx as int],
        decreases n - idx,
    {
        let p = points[idx];
        let dy: i64 = p.y as i64 - lowest.y as i64;
        let within = -crate::point::EPSILON <= dy && dy <= crate::point::EPSILON;
        if within {
            if p.x < lowest.x {
                lowest = p;
                lowest_idx = idx;
            }
        } else if p.y < lowest.y {
            lowest = p;
            lowest_idx = idx;
        }
        idx = idx + 1;
    }
    points.swap_remove(lowest_idx);
    let ghost rest = s.update(lowest_idx as int, s.last()).drop_last();
    assert(points@ == rest);
    sort_points_by_angle(points, &lowest);
    points.insert(0, lowest);
    proof {
        assert(points@ =~= seq![lowest] + sort_by_angle(rest, lowest));
        lemma_order_points_spec_permutes(s);
    }
    Ok(())
}

/// Permutation: on a non-empty input the ordered sequence carries
/// exactly the multiset of points the input held, at the same length.
pub proof fn lemma_order_points_spec_permutes(s: Seq<Point>)
    requires
        s.len() > 0,
    ensures
        order_points_spec(s).to_multiset() == s.to_multiset(),
        order_points_spec(s).len() == s.len(),
{
    broadcast use vstd::seq_lib::group_to_multiset_ensures;
    broadcast use vstd::multiset::group_multiset_axioms;

    let a = anchor_index(s);
    lemma_anchor_index_upto_min(s, s.len() as int);
    let swapped = s.update(a, s.last());
    let rest = swapped.drop_last();
    assert(swapped =~= rest.push(swapped.last()));
    assert(swapped.last() == s.last());
    assert(swapped.to_multiset() == s.to_multiset().remove(s[a]).insert(s.last()));
    assert(rest.push(s.last()).to_multiset() =~= rest.to_multiset().insert(s.last()));
    assert(rest.to_multiset() =~= s.to_multiset().remove(s[a])) by {
        let lhs = rest.to_multiset();
        let rhs = s.to_multiset().remove(s[a]);
        assert(lhs.insert(s.last()) == rhs.insert(s.last()));
        assert forall|q: Point| lhs.count(q) == rhs.count(q) by {
            assert(lhs.insert(s.last()).count(q) == rhs.insert(s.last()).count(q));
        }
    }
    lemma_sort_by_angle_multiset(rest, s[a]);
    let sorted = sort_by_angle(rest, s[a]);
    assert((seq![s[a]] + sorted).to_multiset() == sorted.to_multiset().insert(s[a])) by {
        assert(seq![s[a]] + sorted =~= sorted.insert(0, s[a]));
        vstd::seq_lib::to_multiset_insert(sorted, 0, s[a]);
    }
    assert(s.to_multiset().contains(s[a])) by {
        assert(s.contains(s[a]));
    }
    assert(s.to_multiset().remove(s[a]).insert(s[a]) =~= s.to_multiset());
    assert(order_points_spec(s).to_multiset() == s.to_multiset());
    assert(order_points_spec(s).len() == s.len()) by {
        vstd::seq_lib::to_multiset_len(order_points_spec(s));
        vstd::seq_lib::to_multiset_len(s);
    }
}


/// The anchor the scan of the first `n` elements settles on is minimal
/// there: no scanned point has a smaller `y`, and no scanned point
/// whose `y` ties with the anchor's has a smaller `x`.
proof fn lemma_anchor_index_upto_min(s: Seq<Point>, n: int)
    requires
        1 <= n <= s.len(),
    ensures
        0 <= anchor_index_upto(s, n) < n,
        forall|i: int| 0 <= i < n ==> s[anchor_index_upto(s, n)].y <= (#[trigger] s[i]).y,
        forall|i: int|
            0 <= i < n && s[i].y == s[anchor_index_upto(s, n)].y ==> s[anchor_index_upto(s, n)].x
                <= (#[trigger] s[i]).x,
    decreases n,
{
    if n > 1 {
        lemma_anchor_index_upto_min(s, n - 1);
    }
}

/// Anchor selection: on a non-empty input the ordered sequence starts
/// with the point of lowest `y` — no input point has a `y` below it —
/// and among the input points whose `y` lies within the tolerance of
/// that minimum, none has a smaller `x`.
pub proof fn lemma_order_points_anchor(s: Seq<Point>)
    requires
        s.len() > 0,
    ensures
        0 <= anchor_index(s) < s.len(),
        order_points_spec(s)[0] == s[anchor_index(s)],
        forall|i: int|
            0 <= i < s.len() ==> order_points_spec(s)[0].y <= (#[trigger] s[i]).y,
        forall|i: int|
            0 <= i < s.len() && within_epsilon(s[i].y as int, order_points_spec(s)[0].y as int)
                ==> order_points_spec(s)[0].x <= (#[trigger] s[i]).x,
{
    lemma_anchor_index_upto_min(s, s.len() as int);
    assert(order_points_spec(s)[0] == s[anchor_index(s)]);
}

/// Determinism: the ordering is a function of the input sequence
/// alone, so two calls of `order_points` on identical inputs produce
/// identical outputs.
pub proof fn lemma_order_points_deterministic(s1: Seq<Point>, s2: Seq<Point>)
    requires
        s1 == s2,
    ensures
        order_points_spec(s1) == order_points_spec(s2),
{
}

/// Inserting a point that lies strictly above the base into a sorted
/// sequence of such points keeps the sequence sorted, and adds no
/// element but the inserted one.
proof fn lemma_insert_by_angle_sorted(s: Seq<Point>, p: Point, base: Point)
    requires
        sorted_by_angle(s, base),
        strictly_above(p, base),
        forall|i: int| 0 <= i < s.len() ==> strictly_above(#[trigger] s[i], base),
    ensures
        sorted_by_angle(insert_by_angle(s, p, base), base),
        forall|m: int|
            0 <= m < insert_by_angle(s, p, base).len() ==> insert_by_angle(s, p, base)[m] == p
                || s.contains(#[trigger] insert_by_angle(s, p, base)[m]),
    decreases s.len(),
{
    let r = insert_by_angle(s, p, base);
    if s.len() == 0 {
    } else if compare_spec(s.last(), p, base) != Ordering::Greater {
        assert(r == s.push(p));
        assert forall|i: int, j: int|
            0 <= i < j < r.len() implies compare_spec(r[i], r[j], base)
            != Ordering::Greater by {
            if j == r.len() - 1 && i < s.len() - 1 {
                crate::angle::lemma_compare_transitive(s[i], s.last(), p, base);
            }
        }
    } else {
        let t = s.drop_last();
        assert(forall|i: int| 0 <= i < t.len() ==> t[i] == (#[trigger] s[i]));
        lemma_insert_by_angle_sorted(t, p, base);
        let q = insert_by_angle(t, p, base);
        assert(r == q.push(s.last()));
        assert forall|i: int, j: int|
            0 <= i < j < r.len() implies compare_spec(r[i], r[j], base)
            != Ordering::Greater by {
            if j == r.len() - 1 {
                if q[i] == p {
                    crate::angle::lemma_compare_antisymmetric(s.last(), p, base);
                    crate::angle::lemma_compare_antisymmetric(p, s.last(), base);
                } else {
                    let w = choose|w: int| 0 <= w < t.len() && t[w] == q[i];
                    assert(compare_spec(s[w], s.last(), base) != Ordering::Greater);
                }
            }
        }
        assert forall|m: int| 0 <= m < r.len() implies r[m] == p || s.contains(
            #[trigger] r[m],
        ) by {
            if m < q.len() && q[m] != p {
                let w = choose|w: int| 0 <= w < t.len() && t[w] == q[m];
                assert(s[w] == q[m]);
            }
            if m == r.len() - 1 {
                assert(r[m] == s[s.len() - 1]);
            }
        }
    }
}

/// Sorting a sequence of points that lie strictly above the base
/// yields a sorted sequence drawn from the same points.
proof fn lemma_sort_by_angle_sorted(s: Seq<Point>, base: Point)
    requires
        forall|i: int| 0 <= i < s.len() ==> strictly_above(#[trigger] s[i], base),
    ensures
        sorted_by_angle(sort_by_angle(s, base), base),
        forall|m: int|
            0 <= m < sort_by_angle(s, base).len() ==> s.contains(
                #[trigger] sort_by_angle(s, base)[m],
            ),
    decreases s.len(),
{
    if s.len() > 0 {
        let t = s.drop_last();
        assert(forall|i: int| 0 <= i < t.len() ==> t[i] == (#[trigger] s[i]));
        lemma_sort_by_angle_sorted(t, base);
        let q = sort_by_angle(t, base);
        assert forall|i: int| 0 <= i < q.len() implies strictly_above(#[trigger] q[i], base) by {
            let w = choose|w: int| 0 <= w < t.len() && t[w] == q[i];
            assert(strictly_above(t[w], base));
        }
        lemma_insert_by_angle_sorted(q, s.last(), base);
        let r = sort_by_angle(s, base);
        assert forall|m: int| 0 <= m < r.len() implies s.contains(#[trigger] r[m]) by {
            if r[m] == s.last() {
                assert(r[m] == s[s.len() - 1]);
            } else {
                assert(q.contains(r[m]));
                let w = choose|w: int| 0 <= w < q.len() && q[w] == r[m];
                let u = choose|u: int| 0 <= u < t.len() && t[u] == q[w];
                assert(s[u] == r[m]);
            }
        }
    }
}

/// Angular monotonicity: on a non-empty input none of whose other
/// points coincides with the anchor, no element after the anchor
/// compares `Greater` around it than a later one — polar angles never
/// decrease along the output.  (A second copy of the anchor point
/// would compare `Equal` against everything and could sit anywhere in
/// the tail, so coincident copies are excluded.)
pub proof fn lemma_order_points_sorted(s: Seq<Point>)
    requires
        s.len() > 0,
        forall|i: int|
            0 <= i < s.len() && i != anchor_index(s) ==> (#[trigger] s[i]) != s[anchor_index(s)],
    ensures
        forall|i: int, j: int|
            1 <= i < j < order_points_spec(s).len() ==> compare_spec(
                order_points_spec(s)[i],
                order_points_spec(s)[j],
                order_points_spec(s)[0],
            ) != Ordering::Greater,
{
    let a = anchor_index(s);
    lemma_anchor_index_upto_min(s, s.len() as int);
    let anchor = s[a];
    let rest = s.update(a, s.last()).drop_last();
    assert forall|m: int| 0 <= m < rest.len() implies strictly_above(
        #[trigger] rest[m],
        anchor,
    ) by {
        let w: int = if m == a {
            s.len() - 1
        } else {
            m
        };
        assert(rest[m] == s[w]);
        assert(w != a);
        assert(s[w] != anchor);
        assert(anchor.y <= s[w].y);
        if s[w].y == anchor.y {
            assert(anchor.x <= s[w].x);
            assert(s[w].x != anchor.x);
        }
    }
    lemma_sort_by_angle_sorted(rest, anchor);
    let r = order_points_spec(s);
    let sorted = sort_by_angle(rest, anchor);
    assert(r[0] == anchor);
    assert forall|i: int, j: int|
        1 <= i < j < r.len() implies compare_spec(r[i], r[j], r[0])
        != Ordering::Greater by {
        assert(r[i] == sorted[i - 1]);
        assert(r[j] == sorted[j - 1]);
    }
}

/// Inserting a point adds exactly that point to the multiset.
proof fn lemma_insert_by_angle_multiset(s: Seq<Point>, p: Point, base: Point)
    ensures
        insert_by_angle(s, p, base).to_multiset() == s.to_multiset().insert(p),
        insert_by_angle(s, p, base).len() == s.len() + 1,
    decreases s.len(),
{
    broadcast use vstd::seq_lib::group_to_multiset_ensures;

    if s.len() == 0 {
        assert(seq![p] =~= Seq::<Point>::empty().push(p));
        assert(seq![p].to_multiset() =~= s.to_multiset().insert(p));
    } else if compare_spec(s.last(), p, base) != Ordering::Greater {
    } else {
        let t = s.drop_last();
        lemma_insert_by_angle_multiset(t, p, base);
        assert(s =~= t.push(s.last()));
        assert(s.to_multiset() == t.to_multiset().insert(s.last()));
        assert(insert_by_angle(s, p, base).to_multiset() == t.to_multiset().insert(p).insert(
            s.last(),
        ));
        assert(t.to_multiset().insert(p).insert(s.last()) =~= t.to_multiset().insert(
            s.last(),
        ).insert(p));
    }
}

/// Sorting preserves the multiset of points and the length.
proof fn lemma_sort_by_angle_multiset(s: Seq<Point>, base: Point)
    ensures
        sort_by_angle(s, base).to_multiset() == s.to_multiset(),
        sort_by_angle(s, base).len() == s.len(),
    decreases s.len(),
{
    broadcast use vstd::seq_lib::group_to_multiset_ensures;

    if s.len() > 0 {
        let t = s.drop_last();
        lemma_sort_by_angle_multiset(t, base);
        lemma_insert_by_angle_multiset(sort_by_angle(t, base), s.last(), base);
        assert(s =~= t.push(s.last()));
        assert(s.to_multiset() == t.to_multiset().insert(s.last()));
    }
}

} // verus!
