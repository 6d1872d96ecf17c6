//! Stable sorting, stated as a relation between a sequence and its sorted
//! form, with the insertion step that builds one.
use vstd::prelude::*;

verus! {

/// `before` is a strict weak order: never both ways, and whatever comes
/// before `z` comes before any `y` or else `y` comes before `z`.
pub open spec fn is_strict_weak<T>(before: spec_fn(T, T) -> bool) -> bool {
    &&& forall|x: T, y: T| #[trigger] before(x, y) ==> !before(y, x)
    &&& forall|x: T, y: T, z: T| #[trigger] before(x, z) ==> before(x, y) || #[trigger] before(y, z)
}

/// `p` places the items of `src` into `out`: `out[i]` is `src[p[i]]`, and
/// each item of `src` is used once.
pub open spec fn is_placement<T>(src: Seq<T>, out: Seq<T>, p: Seq<int>) -> bool {
    &&& p.len() == src.len()
    &&& out.len() == src.len()
    &&& forall|i: int| 0 <= i < p.len() ==> 0 <= #[trigger] p[i] < src.len()
    &&& forall|i: int, j: int| 0 <= i < p.len() && 0 <= j < p.len() && i != j ==> p[i] != p[j]
    &&& forall|i: int| 0 <= i < out.len() ==> #[trigger] out[i] == src[p[i]]
}

/// Through the placement `p`, `out` lists the items of `src` sorted by
/// `before`, and items that neither comes before the other keep their
/// order from `src`.
pub open spec fn sorts_by<T>(src: Seq<T>, out: Seq<T>, before: spec_fn(T, T) -> bool, p: Seq<int>) -> bool {
    &&& is_placement(src, out, p)
    &&& forall|i: int, j: int|
        0 <= i < j < out.len() ==> before(#[trigger] out[i], #[trigger] out[j]) || (!before(out[j], out[i])
            && p[i] < p[j])
}

/// `out` is the stable sort of `src` by `before`.
pub open spec fn is_stable_sort<T>(src: Seq<T>, out: Seq<T>, before: spec_fn(T, T) -> bool) -> bool {
    exists|p: Seq<int>| sorts_by(src, out, before, p)
}

/// Inserting the next item of `src` at the first place where it comes
/// strictly before the item already there keeps the partial result sorted
/// and stable.
pub proof fn lemma_insert_sorted<T>(
    src: Seq<T>,
    out: Seq<T>,
    before: spec_fn(T, T) -> bool,
    p: Seq<int>,
    j: int,
    k: int,
)
    requires
        is_strict_weak(before),
        0 <= j < src.len(),
        sorts_by(src.take(j), out, before, p),
        0 <= k <= out.len(),
        forall|a: int| 0 <= a < k ==> !before(src[j], #[trigger] out[a]),
        k < out.len() ==> before(src[j], out[k]),
    ensures
        sorts_by(src.take(j + 1), out.insert(k, src[j]), before, p.insert(k, j)),
{
    let x = src[j];
    let out2 = out.insert(k, x);
    let p2 = p.insert(k, j);
    let s2 = src.take(j + 1);
    assert forall|i: int| 0 <= i < out2.len() implies #[trigger] out2[i] == s2[p2[i]] by {
        if i < k {
            assert(out2[i] == out[i]);
            assert(p2[i] == p[i]);
        } else if i == k {
        } else {
            assert(out2[i] == out[i - 1]);
            assert(p2[i] == p[i - 1]);
        }
    }
    assert forall|a: int, b: int| 0 <= a < b < out2.len() implies before(#[trigger] out2[a], #[trigger] out2[b])
        || (!before(out2[b], out2[a]) && p2[a] < p2[b]) by {
        if b < k {
            assert(out2[a] == out[a] && out2[b] == out[b]);
        } else if b == k {
            assert(out2[a] == out[a]);
            assert(!before(x, out[a]));
        } else if a < k {
            assert(out2[a] == out[a] && out2[b] == out[b - 1]);
            assert(before(out[a], out[b - 1]) || (!before(out[b - 1], out[a]) && p[a] < p[b - 1]));
        } else if a == k {
            let y = out[b - 1];
            assert(out2[b] == y);
            if b - 1 > k {
                assert(before(out[k], y) || (!before(y, out[k]) && p[k] < p[b - 1]));
                if before(out[k], y) {
                    assert(!before(y, out[k]));
                }
                assert(before(x, y) || before(y, out[k]));
            }
        } else {
            assert(out2[a] == out[a - 1] && out2[b] == out[b - 1]);
            assert(before(out[a - 1], out[b - 1]) || (!before(out[b - 1], out[a - 1]) && p[a - 1] < p[b - 1]));
        }
    }
}

/// A sort keeps the items: the sorted sequence holds each item as often
/// as the original does.
pub proof fn lemma_sorted_same_items<T>(src: Seq<T>, out: Seq<T>, before: spec_fn(T, T) -> bool, p: Seq<int>)
    requires
        sorts_by(src, out, before, p),
    ensures
        out.to_multiset() == src.to_multiset(),
{
    lemma_placement_multiset(src, out, p);
}

proof fn lemma_placement_multiset<T>(src: Seq<T>, out: Seq<T>, p: Seq<int>)
    requires
        is_placement(src, out, p),
    ensures
        out.to_multiset() == src.to_multiset(),
    decreases src.len(),
{
    broadcast use vstd::seq_lib::group_to_multiset_ensures;
    if src.len() > 0 {
        let n = src.len() - 1;
        // the position in `out` that holds the last item of `src`
        assert(exists|i: int| 0 <= i < p.len() && p[i] == n) by {
            lemma_placement_onto(p, n);
        }
        let i = choose|i: int| 0 <= i < p.len() && p[i] == n;
        let out2 = out.remove(i);
        let p2 = p.remove(i);
        let src2 = src.drop_last();
        assert forall|a: int| 0 <= a < p2.len() implies 0 <= #[trigger] p2[a] < src2.len() by {
            if a < i {
                assert(p[a] != p[i]);
            } else {
                assert(p[a + 1] != p[i]);
            }
        }
        assert forall|a: int| 0 <= a < out2.len() implies #[trigger] out2[a] == src2[p2[a]] by {
            if a < i {
                assert(out[a] == src[p[a]]);
            } else {
                assert(out[a + 1] == src[p[a + 1]]);
            }
        }
        assert forall|a: int, b: int| 0 <= a < p2.len() && 0 <= b < p2.len() && a != b implies p2[a] != p2[b] by {
            let a1 = if a < i { a } else { a + 1 };
            let b1 = if b < i { b } else { b + 1 };
            assert(p2[a] == p[a1] && p2[b] == p[b1]);
        }
        lemma_placement_multiset(src2, out2, p2);
        assert(out == out2.insert(i, src[n]));
        out2.to_multiset_ensures();
        assert(src == src2.push(src[n]));
    }
}

proof fn lemma_placement_onto(p: Seq<int>, n: int)
    requires
        0 <= n < p.len(),
        forall|i: int| 0 <= i < p.len() ==> 0 <= #[trigger] p[i] < p.len(),
        forall|i: int, j: int| 0 <= i < p.len() && 0 <= j < p.len() && i != j ==> p[i] != p[j],
    ensures
        exists|i: int| 0 <= i < p.len() && p[i] == n,
{
    assert(p.to_set().len() == p.len()) by {
        p.unique_seq_to_set();
    }
    assert(p.to_set().subset_of(Set::new(|x: int| 0 <= x < p.len())));
    vstd::set_lib::lemma_int_range(0, p.len() as int);
    assert(Set::new(|x: int| 0 <= x < p.len()) == vstd::set_lib::set_int_range(0, p.len() as int));
    vstd::set_lib::lemma_subset_equality(p.to_set(), vstd::set_lib::set_int_range(0, p.len() as int));
    assert(p.to_set().contains(n));
}


/// A stable sort has one result: two sequences that both sort `src`
/// stably by a strict weak order are the same.
pub proof fn lemma_stable_sort_unique<T>(src: Seq<T>, a: Seq<T>, b: Seq<T>, before: spec_fn(T, T) -> bool)
    requires
        is_strict_weak(before),
        is_stable_sort(src, a, before),
        is_stable_sort(src, b, before),
    ensures
        a == b,
{
    let p = choose|p: Seq<int>| sorts_by(src, a, before, p);
    let q = choose|q: Seq<int>| sorts_by(src, b, before, q);
    let n = src.len();
    assert forall|k: int| 0 <= k < n implies p[k] == q[k] by {
        lemma_same_placement_upto(src, a, b, before, p, q, k);
    }
    assert forall|k: int| 0 <= k < n implies a[k] == b[k] by {
        assert(a[k] == src[p[k]]);
        assert(b[k] == src[q[k]]);
    }
    assert(a =~= b);
}

proof fn lemma_same_placement_upto<T>(
    src: Seq<T>,
    a: Seq<T>,
    b: Seq<T>,
    before: spec_fn(T, T) -> bool,
    p: Seq<int>,
    q: Seq<int>,
    k: int,
)
    requires
        is_strict_weak(before),
        sorts_by(src, a, before, p),
        sorts_by(src, b, before, q),
        0 <= k < src.len(),
    ensures
        forall|m: int| 0 <= m <= k ==> #[trigger] p[m] == q[m],
    decreases k,
{
    if k > 0 {
        lemma_same_placement_upto(src, a, b, before, p, q, k - 1);
    }
    // q[k] sits at some place j of p, and p[k] at some place i of q
    lemma_placement_onto(p, q[k]);
    lemma_placement_onto(q, p[k]);
    let j = choose|j: int| 0 <= j < p.len() && p[j] == q[k];
    let i = choose|i: int| 0 <= i < q.len() && q[i] == p[k];
    if j < k {
        assert(p[j] == q[j]);
    }
    if i < k {
        assert(q[i] == p[i]);
    }
    if j != k && i != k {
        // both later: each goes before the other
        assert(before(a[k], a[j]) || (!before(a[j], a[k]) && p[k] < p[j]));
        assert(before(b[k], b[i]) || (!before(b[i], b[k]) && q[k] < q[i]));
        assert(a[k] == src[p[k]] && a[j] == src[p[j]]);
        assert(b[k] == src[q[k]] && b[i] == src[q[i]]);
        if before(src[p[k]], src[q[k]]) {
            assert(!before(src[q[k]], src[p[k]]));
        }
    }
}

} // verus!
