//! A stable sort by a two-part rank, and what holds of its result.
use vstd::prelude::*;

verus! {

/// Something that is ordered by a rank of two numbers, the first weightier
/// than the second.
pub trait Ranked: Copy {
    /// The rank.
    spec fn rank(&self) -> (int, int);

    /// Whether `self` ranks strictly above `other`.
    fn ranks_above(&self, other: &Self) -> (r: bool)
        ensures
            r == !rank_le(self.rank(), other.rank()),
    ;
}

/// `a` ranks no higher than `b`.
pub open spec fn rank_le(a: (int, int), b: (int, int)) -> bool {
    a.0 < b.0 || (a.0 == b.0 && a.1 <= b.1)
}

/// No item ranks above a later one.
pub open spec fn is_sorted<T: Ranked>(s: Seq<T>) -> bool {
    forall|i: int, j: int| 0 <= i < j < s.len() ==> rank_le(s[i].rank(), s[j].rank())
}

/// `s` with `x` put in behind the last item that does not rank above it.
pub open spec fn inserted<T: Ranked>(s: Seq<T>, x: T) -> Seq<T>
    decreases s.len(),
{
    if s.len() == 0 || rank_le(s.last().rank(), x.rank()) {
        s.push(x)
    } else {
        inserted(s.drop_last(), x).push(s.last())
    }
}

/// The items of `s` in the order of their ranks, items of equal rank in the
/// order they have in `s`.
pub open spec fn stably_sorted<T: Ranked>(s: Seq<T>) -> Seq<T>
    decreases s.len(),
{
    if s.len() == 0 {
        s
    } else {
        inserted(stably_sorted(s.drop_last()), s.last())
    }
}

/// Where the items from the `j`-th on rank above `x` and the one before them
/// does not, `x` is put in at `j`.
pub proof fn lemma_inserted_at<T: Ranked>(s: Seq<T>, x: T, j: int)
    requires
        0 <= j <= s.len(),
        forall|k: int| j <= k < s.len() ==> !rank_le(s[k].rank(), x.rank()),
        j > 0 ==> rank_le(s[j - 1].rank(), x.rank()),
    ensures
        inserted(s, x) == s.take(j).push(x) + s.skip(j),
    decreases s.len() - j,
{
    if j == s.len() {
        assert(s.take(j) == s);
        assert(s.skip(j) == Seq::<T>::empty());
        assert(s.push(x) + Seq::<T>::empty() == s.push(x));
    } else {
        let shorter = s.drop_last();
        lemma_inserted_at(shorter, x, j);
        assert(shorter.take(j) == s.take(j));
        assert((shorter.take(j).push(x) + shorter.skip(j)).push(s.last()) == s.take(j).push(x)
            + s.skip(j));
    }
}

/// Putting an item into `s` adds one item.
pub proof fn lemma_inserted_len<T: Ranked>(s: Seq<T>, x: T)
    ensures
        inserted(s, x).len() == s.len() + 1,
    decreases s.len(),
{
    if !(s.len() == 0 || rank_le(s.last().rank(), x.rank())) {
        lemma_inserted_len(s.drop_last(), x);
    }
}

/// Putting an item into `s` gives the items of `s` and that item, each as
/// often as before.
pub proof fn lemma_inserted_multiset<T: Ranked>(s: Seq<T>, x: T)
    ensures
        inserted(s, x).to_multiset() == s.to_multiset().insert(x),
    decreases s.len(),
{
    broadcast use vstd::seq_lib::group_to_multiset_ensures;

    if !(s.len() == 0 || rank_le(s.last().rank(), x.rank())) {
        let shorter = s.drop_last();
        lemma_inserted_multiset(shorter, x);
        assert(shorter.push(s.last()) == s);
        assert(inserted(s, x).to_multiset() == shorter.to_multiset().insert(x).insert(s.last()));
        assert(s.to_multiset() == shorter.to_multiset().insert(s.last()));
        assert(shorter.to_multiset().insert(x).insert(s.last()) == shorter.to_multiset().insert(
            s.last(),
        ).insert(x));
    }
}

/// Sorting rearranges: the result holds the same items, each as often as before.
pub proof fn lemma_sorted_is_permutation<T: Ranked>(s: Seq<T>)
    ensures
        stably_sorted(s).to_multiset() == s.to_multiset(),
    decreases s.len(),
{
    broadcast use vstd::seq_lib::group_to_multiset_ensures;

    if s.len() > 0 {
        let shorter = s.drop_last();
        lemma_sorted_is_permutation(shorter);
        lemma_inserted_multiset(stably_sorted(shorter), s.last());
        assert(shorter.push(s.last()) == s);
    }
}

/// Putting an item into a sorted sequence leaves it sorted.
pub proof fn lemma_inserted_is_sorted<T: Ranked>(s: Seq<T>, x: T)
    requires
        is_sorted(s),
    ensures
        is_sorted(inserted(s, x)),
        forall|i: int|
            0 <= i < inserted(s, x).len() ==> (#[trigger] inserted(s, x)[i]) == x || s.contains(
                inserted(s, x)[i],
            ),
    decreases s.len(),
{
    if s.len() == 0 || rank_le(s.last().rank(), x.rank()) {
        let t = s.push(x);
        assert forall|i: int| 0 <= i < t.len() implies (#[trigger] t[i]) == x || s.contains(
            t[i],
        ) by {
            if i < s.len() {
                assert(s[i] == t[i]);
            }
        }
        assert forall|i: int, j: int| 0 <= i < j < t.len() implies rank_le(
            t[i].rank(),
            t[j].rank(),
        ) by {
            if j == s.len() {
                assert(t[i] == s[i]);
                if i < s.len() - 1 {
                    assert(rank_le(s[i].rank(), s[s.len() - 1].rank()));
                }
            } else {
                assert(rank_le(s[i].rank(), s[j].rank()));
            }
        }
    } else {
        let shorter = s.drop_last();
        assert(is_sorted(shorter)) by {
            assert forall|i: int, j: int| 0 <= i < j < shorter.len() implies rank_le(
                shorter[i].rank(),
                shorter[j].rank(),
            ) by {
                assert(rank_le(s[i].rank(), s[j].rank()));
            }
        }
        lemma_inserted_is_sorted(shorter, x);
        lemma_inserted_len(shorter, x);
        let u = inserted(shorter, x);
        let t = u.push(s.last());
        assert forall|i: int, j: int| 0 <= i < j < t.len() implies rank_le(
            t[i].rank(),
            t[j].rank(),
        ) by {
            if j == u.len() {
                assert(t[i] == u[i]);
                if u[i] != x {
                    assert(shorter.contains(u[i]));
                    let k = choose|k: int| 0 <= k < shorter.len() && shorter[k] == u[i];
                    assert(s[k] == shorter[k]);
                    assert(rank_le(s[k].rank(), s[s.len() - 1].rank()));
                }
            } else {
                assert(rank_le(u[i].rank(), u[j].rank()));
            }
        }
        assert forall|i: int| 0 <= i < t.len() implies (#[trigger] t[i]) == x || s.contains(
            t[i],
        ) by {
            if i < u.len() {
                assert(t[i] == u[i]);
                if u[i] != x {
                    assert(shorter.contains(u[i]));
                    let k = choose|k: int| 0 <= k < shorter.len() && shorter[k] == u[i];
                    assert(s[k] == t[i]);
                }
            } else {
                assert(s[s.len() - 1] == t[i]);
            }
        }
    }
}

/// The result of sorting is sorted.
pub proof fn lemma_sorted_is_sorted<T: Ranked>(s: Seq<T>)
    ensures
        is_sorted(stably_sorted(s)),
    decreases s.len(),
{
    if s.len() > 0 {
        lemma_sorted_is_sorted(s.drop_last());
        lemma_inserted_is_sorted(stably_sorted(s.drop_last()), s.last());
    }
}

/// Sorting what is sorted already changes nothing.
pub proof fn lemma_sorting_sorted_is_identity<T: Ranked>(s: Seq<T>)
    requires
        is_sorted(s),
    ensures
        stably_sorted(s) == s,
    decreases s.len(),
{
    if s.len() > 0 {
        let shorter = s.drop_last();
        lemma_sorting_sorted_is_identity(shorter);
        assert(shorter.push(s.last()) == s);
        if shorter.len() > 0 {
            assert(shorter.last() == s[s.len() - 2]);
        }
    }
}

/// Sorting twice is sorting once.
pub proof fn lemma_sorting_is_idempotent<T: Ranked>(s: Seq<T>)
    ensures
        stably_sorted(stably_sorted(s)) == stably_sorted(s),
{
    lemma_sorted_is_sorted(s);
    lemma_sorting_sorted_is_identity(stably_sorted(s));
}

/// Sorts `v` by rank, keeping items of equal rank in their order.
pub fn sort_stably<T: Ranked>(v: &mut Vec<T>)
    ensures
        final(v)@ == stably_sorted(old(v)@),
        final(v)@.len() == old(v)@.len(),
        is_sorted(final(v)@),
        final(v)@.to_multiset() == old(v)@.to_multiset(),
{
    let n: usize = v.len();
    let mut i: usize = 0;
    assert(v@.take(0) == stably_sorted(old(v)@.take(0)));
    while i < n
        invariant
            0 <= i <= n,
            v@.len() == n,
            old(v)@.len() == n,
            v@.take(i as int) == stably_sorted(old(v)@.take(i as int)),
            v@.skip(i as int) == old(v)@.skip(i as int),
        decreases n - i,
    {
        let x: T = v[i];
        let ghost prefix: Seq<T> = v@.take(i as int);
        let ghost before: Seq<T> = v@;
        assert(x == old(v)@.skip(i as int)[0]);
        let mut j: usize = i;
        while j > 0 && v[j - 1].ranks_above(&x)
            invariant
                0 <= j <= i < n,
                v@.len() == n,
                prefix.len() == i,
                v@.take(j as int) == prefix.take(j as int),
                forall|k: int| j < k <= i ==> v@[k] == prefix[k - 1],
                forall|k: int| i < k < n ==> v@[k] == before[k],
                forall|k: int| j <= k < i ==> !rank_le(prefix[k].rank(), x.rank()),
            decreases j,
        {
            let moved: T = v[j - 1];
            assert(moved == prefix.take(j as int)[j - 1]);
            v.set(j, moved);
            j = j - 1;
            assert(v@.take(j as int) == prefix.take(j as int));
        }
        proof {
            if j > 0 {
                assert(v@[j - 1] == prefix.take(j as int)[j - 1]);
            }
        }
        let ghost shifted: Seq<T> = v@;
        v.set(j, x);
        proof {
            assert forall|m: int| i < m < n implies (#[trigger] v@[m]) == old(v)@[m] by {
                assert(v@[m] == shifted[m]);
                assert(shifted[m] == before[m]);
                assert(before.skip(i as int)[m - i] == old(v)@.skip(i as int)[m - i]);
            }
            lemma_inserted_at(prefix, x, j as int);
            let grown = prefix.take(j as int).push(x) + prefix.skip(j as int);
            assert(v@.take(i + 1) == grown) by {
                assert(v@.take(i + 1).len() == grown.len());
                assert forall|k: int| 0 <= k < i + 1 implies v@.take(i + 1)[k] == grown[k] by {
                    if k < j {
                        assert(v@.take(j as int)[k] == prefix.take(j as int)[k]);
                    }
                }
            }
            assert(old(v)@.take(i + 1).drop_last() == old(v)@.take(i as int));
            assert(old(v)@.take(i + 1).last() == x);
            assert(v@.skip(i + 1) == old(v)@.skip(i + 1));
        }
        i = i + 1;
    }
    proof {
        assert(v@.take(n as int) == v@);
        assert(old(v)@.take(n as int) == old(v)@);
        lemma_sorted_is_sorted(old(v)@);
        lemma_sorted_is_permutation(old(v)@);
    }
}

} // verus!
