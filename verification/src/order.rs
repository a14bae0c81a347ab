//! Stable ordering: the positions of a list's elements in the order in which
//! a stable sort leaves them.

use vstd::prelude::*;

verus! {

/// A type whose values are put in order by what their views hold.
pub trait Ranked: View + Sized {
    /// Whether `a` goes strictly before `b`.
    spec fn ahead(a: Self::V, b: Self::V) -> bool;

    /// Of two values at most one goes before the other.
    proof fn lemma_asymmetric(a: Self::V, b: Self::V)
        ensures
            !(Self::ahead(a, b) && Self::ahead(b, a)),
    ;

    /// A value that goes before another goes before or after any third.
    proof fn lemma_separates(a: Self::V, b: Self::V, c: Self::V)
        ensures
            Self::ahead(a, c) ==> Self::ahead(a, b) || Self::ahead(b, c),
    ;

    /// Decides whether this value goes strictly before the other.
    fn is_ahead(&self, other: &Self) -> (r: bool)
        ensures
            r == Self::ahead(self@, other@),
    ;
}

/// Whether position `i` comes before position `j` after a stable sort: by
/// rank, and where the rank decides nothing by position.
pub open spec fn position_ahead<T: Ranked>(s: Seq<T::V>, i: int, j: int) -> bool {
    T::ahead(s[i], s[j]) || (!T::ahead(s[j], s[i]) && i < j)
}

/// Whether `p` lists every position of `s` once, in sorted order.
pub open spec fn stable_order<T: Ranked>(s: Seq<T::V>, p: Seq<int>) -> bool {
    &&& p.len() == s.len()
    &&& forall|i: int| 0 <= i < p.len() ==> 0 <= #[trigger] p[i] < s.len()
    &&& forall|i: int, j: int|
        0 <= i < j < p.len() ==> #[trigger] position_ahead::<T>(s, p[i], p[j])
}

/// The positions of `s` in sorted order.
pub open spec fn sorted_positions<T: Ranked>(s: Seq<T::V>) -> Seq<int> {
    choose|p: Seq<int>| stable_order::<T>(s, p)
}

/// The views of a list's elements.
pub open spec fn views<T: View>(s: Seq<T>) -> Seq<T::V> {
    s.map_values(|x: T| x@)
}

/// The integers that machine words hold.
pub open spec fn ints(s: Seq<usize>) -> Seq<int> {
    s.map_values(|x: usize| x as int)
}

/// Coming before is transitive.
proof fn lemma_position_transitive<T: Ranked>(s: Seq<T::V>, i: int, j: int, k: int)
    requires
        position_ahead::<T>(s, i, j),
        position_ahead::<T>(s, j, k),
    ensures
        position_ahead::<T>(s, i, k),
{
    T::lemma_separates(s[k], s[j], s[i]);
    T::lemma_separates(s[k], s[i], s[j]);
    T::lemma_separates(s[i], s[k], s[j]);
    T::lemma_separates(s[j], s[i], s[k]);
    T::lemma_separates(s[j], s[k], s[i]);
    T::lemma_asymmetric(s[i], s[j]);
    T::lemma_asymmetric(s[j], s[k]);
    T::lemma_asymmetric(s[i], s[k]);
}

/// Of two different positions exactly one comes before the other.
proof fn lemma_position_total<T: Ranked>(s: Seq<T::V>, i: int, j: int)
    ensures
        position_ahead::<T>(s, i, j) ==> !position_ahead::<T>(s, j, i),
        i != j ==> position_ahead::<T>(s, i, j) || position_ahead::<T>(s, j, i),
        !position_ahead::<T>(s, i, i),
{
    T::lemma_asymmetric(s[i], s[j]);
    T::lemma_asymmetric(s[i], s[i]);
}

/// A sorted order lists no position twice and leaves none out.
pub proof fn lemma_order_complete<T: Ranked>(s: Seq<T::V>, p: Seq<int>)
    requires
        stable_order::<T>(s, p),
    ensures
        p.no_duplicates(),
        forall|k: int| 0 <= k < s.len() ==> p.contains(k),
{
    assert forall|i: int, j: int| 0 <= i < p.len() && 0 <= j < p.len() && i != j implies p[i]
        != p[j] by {
        if i < j {
            assert(position_ahead::<T>(s, p[i], p[j]));
        } else {
            assert(position_ahead::<T>(s, p[j], p[i]));
        }
        lemma_position_total::<T>(s, p[i], p[i]);
    }
    let all = vstd::set_lib::set_int_range(0, s.len() as int);
    vstd::set_lib::lemma_int_range(0, s.len() as int);
    p.unique_seq_to_set();
    vstd::seq_lib::seq_to_set_is_finite(p);
    assert(p.to_set().subset_of(all)) by {
        assert forall|x: int| p.to_set().contains(x) implies all.contains(x) by {
            let i = choose|i: int| 0 <= i < p.len() && p[i] == x;
        }
    }
    vstd::set_lib::lemma_subset_equality(p.to_set(), all);
    assert forall|k: int| 0 <= k < s.len() implies p.contains(k) by {
        assert(all.contains(k));
    }
}

/// The elements of `s` before position `n` in the order `p`, and after it, fix
/// what comes next: two sorted orders of one list agree.
pub proof fn lemma_order_unique<T: Ranked>(s: Seq<T::V>, p: Seq<int>, q: Seq<int>)
    requires
        stable_order::<T>(s, p),
        stable_order::<T>(s, q),
    ensures
        p == q,
{
    assert forall|n: int| 0 <= n <= p.len() implies p.take(n) == q.take(n) by {
        lemma_orders_agree::<T>(s, p, q, n);
    }
    assert(p.take(p.len() as int) =~= p);
    assert(q.take(p.len() as int) =~= q);
}

proof fn lemma_orders_agree<T: Ranked>(s: Seq<T::V>, p: Seq<int>, q: Seq<int>, n: int)
    requires
        stable_order::<T>(s, p),
        stable_order::<T>(s, q),
        0 <= n <= p.len(),
    ensures
        p.take(n) == q.take(n),
    decreases n,
{
    if n > 0 {
        lemma_orders_agree::<T>(s, p, q, n - 1);
        lemma_order_complete::<T>(s, p);
        lemma_order_complete::<T>(s, q);
        let m = n - 1;
        assert(forall|k: int| 0 <= k < m ==> p.take(m)[k] == q.take(m)[k]);
        if p[m] != q[m] {
            assert(q.contains(p[m]) && p.contains(q[m]));
            let i = choose|i: int| 0 <= i < q.len() && q[i] == p[m];
            let j = choose|j: int| 0 <= j < p.len() && p[j] == q[m];
            if i < m {
                assert(q.take(m)[i] == p.take(m)[i]);
                assert(p[i] == p[m]);
            }
            if j < m {
                assert(q.take(m)[j] == p.take(m)[j]);
                assert(q[j] == q[m]);
            }
            assert(position_ahead::<T>(s, q[m], q[i]));
            assert(position_ahead::<T>(s, p[m], p[j]));
            lemma_position_total::<T>(s, p[m], q[m]);
        }
        assert(p.take(n) =~= p.take(m).push(p[m]));
        assert(q.take(n) =~= q.take(m).push(q[m]));
    }
}

/// Putting the last position in its place keeps an order sorted.
proof fn lemma_insert_keeps_order<T: Ranked>(s: Seq<T::V>, p: Seq<int>, r: int)
    requires
        s.len() > 0,
        stable_order::<T>(s.drop_last(), p),
        0 <= r <= p.len(),
        forall|i: int| 0 <= i < r ==> position_ahead::<T>(s, #[trigger] p[i], s.len() - 1),
        forall|i: int| r <= i < p.len() ==> position_ahead::<T>(s, s.len() - 1, #[trigger] p[i]),
    ensures
        stable_order::<T>(s, p.insert(r, s.len() - 1)),
{
    let x = p.insert(r, s.len() - 1);
    assert forall|i: int, j: int| 0 <= i < j < x.len() implies #[trigger] position_ahead::<T>(
        s,
        x[i],
        x[j],
    ) by {
        let a = if i < r {
            i
        } else {
            i - 1
        };
        let b = if j < r {
            j
        } else {
            j - 1
        };
        if i != r && j != r {
            assert(position_ahead::<T>(s.drop_last(), p[a], p[b]));
        } else if i == r {
            assert(position_ahead::<T>(s, s.len() - 1, p[b]));
        } else {
            assert(position_ahead::<T>(s, p[a], s.len() - 1));
        }
    }
}

/// In a sorted order every position has a place.
proof fn lemma_place_exists<T: Ranked>(s: Seq<T::V>, p: Seq<int>, r: int) -> (place: int)
    requires
        s.len() > 0,
        stable_order::<T>(s.drop_last(), p),
        0 <= r <= p.len(),
        forall|i: int| r <= i < p.len() ==> position_ahead::<T>(s, s.len() - 1, #[trigger] p[i]),
    ensures
        0 <= place <= p.len(),
        forall|i: int| 0 <= i < place ==> position_ahead::<T>(s, #[trigger] p[i], s.len() - 1),
        forall|i: int|
            place <= i < p.len() ==> position_ahead::<T>(s, s.len() - 1, #[trigger] p[i]),
    decreases r,
{
    let n = s.len() - 1;
    if r > 0 {
        lemma_position_total::<T>(s, p[r - 1], n);
        if position_ahead::<T>(s, n, p[r - 1]) {
            return lemma_place_exists::<T>(s, p, r - 1);
        }
        assert forall|i: int| 0 <= i < r implies position_ahead::<T>(s, #[trigger] p[i], n) by {
            if i < r - 1 {
                assert(position_ahead::<T>(s.drop_last(), p[i], p[r - 1]));
                assert(position_ahead::<T>(s, p[i], p[r - 1]));
                lemma_position_transitive::<T>(s, p[i], p[r - 1], n);
            }
        }
    }
    r
}

/// Every list has a sorted order, and it is the one that
/// [`sorted_positions`] gives.
pub proof fn lemma_sorted_positions<T: Ranked>(s: Seq<T::V>)
    ensures
        stable_order::<T>(s, sorted_positions::<T>(s)),
    decreases s.len(),
{
    if s.len() == 0 {
        assert(stable_order::<T>(s, Seq::empty()));
    } else {
        let p = sorted_positions::<T>(s.drop_last());
        lemma_sorted_positions::<T>(s.drop_last());
        let r = lemma_place_exists::<T>(s, p, p.len() as int);
        lemma_insert_keeps_order::<T>(s, p, r);
    }
}

/// Whether `p` lists the positions of `s` from `lo` up to `hi` once, in sorted
/// order.
pub open spec fn ordered_run<T: Ranked>(s: Seq<T::V>, p: Seq<int>, lo: int, hi: int) -> bool {
    &&& p.len() == hi - lo
    &&& forall|i: int| 0 <= i < p.len() ==> lo <= #[trigger] p[i] < hi
    &&& forall|i: int, j: int|
        0 <= i < j < p.len() ==> #[trigger] position_ahead::<T>(s, p[i], p[j])
}

/// Merges two sorted runs of positions, the first of which lies below the
/// second.
fn merge<T: Ranked>(
    v: &Vec<T>,
    a: Vec<usize>,
    b: Vec<usize>,
    lo: usize,
    mid: usize,
    hi: usize,
) -> (r: Vec<usize>)
    requires
        lo <= mid <= hi <= v@.len(),
        ordered_run::<T>(views(v@), ints(a@), lo as int, mid as int),
        ordered_run::<T>(views(v@), ints(b@), mid as int, hi as int),
    ensures
        ordered_run::<T>(views(v@), ints(r@), lo as int, hi as int),
{
    let ghost s = views(v@);
    let mut out: Vec<usize> = Vec::new();
    let mut i: usize = 0;
    let mut j: usize = 0;
    proof {
        assert forall|k: int| 0 <= k < a@.len() implies lo <= #[trigger] a@[k] < mid by {
            assert(lo <= ints(a@)[k] < mid);
        }
        assert forall|k: int| 0 <= k < b@.len() implies mid <= #[trigger] b@[k] < hi by {
            assert(mid <= ints(b@)[k] < hi);
        }
    }
    while i < a.len() || j < b.len()
        invariant
            s == views(v@),
            lo <= mid <= hi <= v@.len(),
            i <= a@.len(),
            j <= b@.len(),
            out@.len() == i + j,
            a@.len() == mid - lo,
            b@.len() == hi - mid,
            ordered_run::<T>(s, ints(a@), lo as int, mid as int),
            ordered_run::<T>(s, ints(b@), mid as int, hi as int),
            forall|k: int| 0 <= k < a@.len() ==> lo <= #[trigger] a@[k] < mid,
            forall|k: int| 0 <= k < b@.len() ==> mid <= #[trigger] b@[k] < hi,
            forall|k: int| 0 <= k < out@.len() ==> lo <= #[trigger] out@[k] < hi,
            forall|k: int, l: int|
                0 <= k < l < out@.len() ==> position_ahead::<T>(
                    s,
                    #[trigger] out@[k] as int,
                    #[trigger] out@[l] as int,
                ),
            forall|k: int, l: int|
                0 <= k < out@.len() && i <= l < a@.len() ==> position_ahead::<T>(
                    s,
                    #[trigger] out@[k] as int,
                    #[trigger] a@[l] as int,
                ),
            forall|k: int, l: int|
                0 <= k < out@.len() && j <= l < b@.len() ==> position_ahead::<T>(
                    s,
                    #[trigger] out@[k] as int,
                    #[trigger] b@[l] as int,
                ),
        decreases a@.len() - i + (b@.len() - j),
    {
        let from_b = i == a.len() || (j < b.len() && v[b[j]].is_ahead(&v[a[i]]));
        let ghost before = out@;
        if from_b {
            let x: usize = b[j];
            proof {
                assert forall|l: int| i <= l < a@.len() implies position_ahead::<T>(
                    s,
                    x as int,
                    #[trigger] a@[l] as int,
                ) by {
                    assert(s[x as int] == v@[x as int]@);
                    assert(position_ahead::<T>(s, x as int, a@[i as int] as int));
                    if l > i {
                        assert(position_ahead::<T>(s, ints(a@)[i as int], ints(a@)[l]));
                        lemma_position_transitive::<T>(
                            s,
                            x as int,
                            a@[i as int] as int,
                            a@[l] as int,
                        );
                    }
                }
                assert forall|l: int| j < l < b@.len() implies position_ahead::<T>(
                    s,
                    x as int,
                    #[trigger] b@[l] as int,
                ) by {
                    assert(position_ahead::<T>(s, ints(b@)[j as int], ints(b@)[l]));
                }
            }
            out.push(x);
            j = j + 1;
        } else {
            let x: usize = a[i];
            proof {
                assert forall|l: int| j <= l < b@.len() implies position_ahead::<T>(
                    s,
                    x as int,
                    #[trigger] b@[l] as int,
                ) by {
                    assert(s[x as int] == v@[x as int]@);
                    assert(s[b@[j as int] as int] == v@[b@[j as int] as int]@);
                    assert(position_ahead::<T>(s, x as int, b@[j as int] as int));
                    if l > j {
                        assert(position_ahead::<T>(s, ints(b@)[j as int], ints(b@)[l]));
                        lemma_position_transitive::<T>(
                            s,
                            x as int,
                            b@[j as int] as int,
                            b@[l] as int,
                        );
                    }
                }
                assert forall|l: int| i < l < a@.len() implies position_ahead::<T>(
                    s,
                    x as int,
                    #[trigger] a@[l] as int,
                ) by {
                    assert(position_ahead::<T>(s, ints(a@)[i as int], ints(a@)[l]));
                }
            }
            out.push(x);
            i = i + 1;
        }
        assert(forall|k: int| 0 <= k < before.len() ==> out@[k] == before[k]);
    }
    proof {
        let x = ints(out@);
        assert forall|k: int| 0 <= k < x.len() implies lo <= #[trigger] x[k] < hi by {
            assert(lo <= out@[k] < hi);
        }
        assert forall|k: int, l: int| 0 <= k < l < x.len() implies #[trigger] position_ahead::<T>(
            s,
            x[k],
            x[l],
        ) by {
            assert(position_ahead::<T>(s, out@[k] as int, out@[l] as int));
        }
    }
    out
}

/// The positions of `v` from `lo` up to `hi`, in sorted order.
fn sort_run<T: Ranked>(v: &Vec<T>, lo: usize, hi: usize) -> (r: Vec<usize>)
    requires
        lo <= hi <= v@.len(),
    ensures
        ordered_run::<T>(views(v@), ints(r@), lo as int, hi as int),
    decreases hi - lo,
{
    if hi - lo < 2 {
        let mut r: Vec<usize> = Vec::new();
        if lo < hi {
            r.push(lo);
        }
        return r;
    }
    let mid: usize = lo + (hi - lo) / 2;
    let a = sort_run(v, lo, mid);
    let b = sort_run(v, mid, hi);
    merge(v, a, b, lo, mid, hi)
}

/// The positions of `v` in the order in which a stable sort leaves them.
pub fn sort<T: Ranked>(v: &Vec<T>) -> (p: Vec<usize>)
    ensures
        stable_order::<T>(views(v@), ints(p@)),
        ints(p@) == sorted_positions::<T>(views(v@)),
        p@.len() == v@.len(),
        forall|k: int| 0 <= k < p@.len() ==> #[trigger] p@[k] < v@.len(),
{
    let p = sort_run(v, 0, v.len());
    proof {
        let s = views(v@);
        assert(stable_order::<T>(s, ints(p@)));
        lemma_order_unique::<T>(s, ints(p@), sorted_positions::<T>(s));
        assert forall|k: int| 0 <= k < p@.len() implies #[trigger] p@[k] < v@.len() by {
            assert(0 <= ints(p@)[k] < s.len());
        }
    }
    p
}

/// Two lists that are in strict order and hold the same elements are the same.
pub proof fn lemma_strict_order_unique<T: Ranked>(s: Seq<T::V>, t: Seq<T::V>)
    requires
        forall|i: int, j: int| 0 <= i < j < s.len() ==> #[trigger] T::ahead(s[i], s[j]),
        forall|i: int, j: int| 0 <= i < j < t.len() ==> #[trigger] T::ahead(t[i], t[j]),
        forall|x: T::V| #[trigger] s.contains(x) <==> t.contains(x),
    ensures
        s == t,
    decreases s.len(),
{
    if s.len() == 0 {
        if t.len() > 0 {
            assert(t.contains(t[0]));
            assert(s.contains(t[0]));
        }
        assert(s =~= t);
    } else {
        assert(s.contains(s[0]));
        assert(t.contains(s[0]));
        assert(t.contains(t[0]));
        assert(s.contains(t[0]));
        let i = choose|i: int| 0 <= i < t.len() && t[i] == s[0];
        let j = choose|j: int| 0 <= j < s.len() && s[j] == t[0];
        if i > 0 {
            assert(T::ahead(t[0], t[i]));
        }
        if j > 0 {
            assert(T::ahead(s[0], s[j]));
        }
        T::lemma_asymmetric(s[0], t[0]);
        T::lemma_asymmetric(s[0], s[0]);
        assert(s[0] == t[0]);
        let u = s.drop_first();
        let v = t.drop_first();
        assert forall|x: T::V| #[trigger] u.contains(x) <==> v.contains(x) by {
            if u.contains(x) {
                let k = choose|k: int| 0 <= k < u.len() && u[k] == x;
                assert(s[k + 1] == x);
                assert(s.contains(x));
                let l = choose|l: int| 0 <= l < t.len() && t[l] == x;
                if l == 0 {
                    assert(T::ahead(s[0], s[k + 1]));
                }
                assert(v[l - 1] == x);
            }
            if v.contains(x) {
                let k = choose|k: int| 0 <= k < v.len() && v[k] == x;
                assert(t[k + 1] == x);
                assert(t.contains(x));
                assert(s.contains(x));
                let l = choose|l: int| 0 <= l < s.len() && s[l] == x;
                if l == 0 {
                    assert(T::ahead(t[0], t[k + 1]));
                }
                assert(u[l - 1] == x);
            }
        }
        assert forall|a: int, b: int| 0 <= a < b < u.len() implies #[trigger] T::ahead(
            u[a],
            u[b],
        ) by {
            assert(T::ahead(s[a + 1], s[b + 1]));
        }
        assert forall|a: int, b: int| 0 <= a < b < v.len() implies #[trigger] T::ahead(
            v[a],
            v[b],
        ) by {
            assert(T::ahead(t[a + 1], t[b + 1]));
        }
        lemma_strict_order_unique::<T>(u, v);
        assert(s =~= seq![s[0]] + u);
        assert(t =~= seq![t[0]] + v);
    }
}

/// Taking elements in a sorted order takes each of them once.
pub proof fn lemma_order_is_permutation<T: Ranked, A>(s: Seq<T::V>, p: Seq<int>, v: Seq<A>)
    requires
        stable_order::<T>(s, p),
        v.len() == s.len(),
    ensures
        p.map_values(|i: int| v[i]).to_multiset() == v.to_multiset(),
    decreases v.len(),
{
    lemma_order_complete::<T>(s, p);
    lemma_permutation(p, v);
}

/// Taking elements at positions that are each listed once takes each of them
/// once.
proof fn lemma_permutation<A>(p: Seq<int>, v: Seq<A>)
    requires
        p.len() == v.len(),
        p.no_duplicates(),
        forall|i: int| 0 <= i < p.len() ==> 0 <= #[trigger] p[i] < v.len(),
        forall|k: int| 0 <= k < v.len() ==> p.contains(k),
    ensures
        p.map_values(|i: int| v[i]).to_multiset() == v.to_multiset(),
    decreases v.len(),
{
    broadcast use vstd::seq_lib::group_to_multiset_ensures;

    let f = |i: int| v[i];
    let t = p.map_values(f);
    if v.len() == 0 {
        assert(t =~= v);
    } else {
        let n = v.len() - 1;
        assert(p.contains(n));
        let m = choose|m: int| 0 <= m < p.len() && p[m] == n;
        let q = p.remove(m);
        let u = v.drop_last();
        assert forall|i: int| 0 <= i < q.len() implies 0 <= #[trigger] q[i] < u.len() by {
            let o = if i < m {
                i
            } else {
                i + 1
            };
            assert(q[i] == p[o] && o != m);
        }
        assert forall|i: int, j: int| 0 <= i < q.len() && 0 <= j < q.len() && i != j implies q[i]
            != q[j] by {
            let a = if i < m {
                i
            } else {
                i + 1
            };
            let b = if j < m {
                j
            } else {
                j + 1
            };
            assert(q[i] == p[a] && q[j] == p[b] && a != b);
        }
        assert forall|k: int| 0 <= k < u.len() implies q.contains(k) by {
            assert(p.contains(k));
            let o = choose|o: int| 0 <= o < p.len() && p[o] == k;
            let i = if o < m {
                o
            } else {
                o - 1
            };
            assert(q[i] == k);
        }
        lemma_permutation(q, u);
        let g = |i: int| u[i];
        assert(t.remove(m) =~= q.map_values(g));
        assert(t[m] == v[n]);
        assert(v =~= u.push(v[n]));
        assert(t =~= t.remove(m).insert(m, v[n]));
        vstd::seq_lib::to_multiset_remove(t, m);
        assert(t.to_multiset().remove(v[n]) == u.to_multiset());
        assert(t.to_multiset() =~= u.to_multiset().insert(v[n])) by {
            assert(t.to_multiset().count(v[n]) > 0) by {
                assert(t.contains(t[m]));
            }
        }
    }
}

} // verus!
