//! Stable sorting of list positions.

use vstd::prelude::*;

verus! {

/// A total preorder on positions.
pub open spec fn is_preorder(leq: spec_fn(usize, usize) -> bool) -> bool {
    &&& forall|x: usize, y: usize| #[trigger] leq(x, y) || leq(y, x)
    &&& forall|x: usize, y: usize, z: usize| #[trigger]
        leq(x, y) && #[trigger] leq(y, z) ==> leq(x, z)
}

/// `leq`, with ties broken by position.
pub open spec fn stable(leq: spec_fn(usize, usize) -> bool) -> spec_fn(usize, usize) -> bool {
    |x: usize, y: usize| leq(x, y) && (leq(y, x) ==> x <= y)
}

/// The positions `0, 1, .., n - 1`.
pub open spec fn positions(n: nat) -> Seq<usize> {
    Seq::new(n, |i: int| i as usize)
}

/// The positions `0, 1, .., n - 1` sorted by `leq`, ties in position order.
pub open spec fn sorted_positions(n: nat, leq: spec_fn(usize, usize) -> bool) -> Seq<usize> {
    positions(n).sort_by(stable(leq))
}

pub proof fn lemma_stable_is_total(leq: spec_fn(usize, usize) -> bool)
    requires
        is_preorder(leq),
    ensures
        vstd::relations::total_ordering(stable(leq)),
{
    let r = stable(leq);
    assert forall|x: usize| #[trigger] r(x, x) by {
        assert(leq(x, x) || leq(x, x));
    }
    assert forall|x: usize, y: usize, z: usize| #[trigger] r(x, y) && #[trigger] r(
        y,
        z,
    ) implies r(x, z) by {
        assert(leq(x, y) && leq(y, z));
        if leq(z, x) {
            assert(leq(z, y));
            assert(leq(y, x));
        }
    }
    assert forall|x: usize, y: usize| #[trigger] r(x, y) || #[trigger] r(y, x) by {
        assert(leq(x, y) || leq(y, x));
    }
}

/// Sorting leaves no position out.
pub proof fn sorting_leaves_nothing_out(n: nat, leq: spec_fn(usize, usize) -> bool, i: usize)
    requires
        is_preorder(leq),
        i < n <= usize::MAX,
    ensures
        sorted_positions(n, leq).contains(i),
{
    let s = sorted_positions(n, leq);
    lemma_stable_is_total(leq);
    positions(n).lemma_sort_by_ensures(stable(leq));
    positions(n).to_multiset_ensures();
    s.to_multiset_ensures();
    assert(positions(n)[i as int] == i);
    assert(positions(n).contains(i));
    assert(s.to_multiset().count(i) > 0);
}

/// Sorting keeps every position exactly once, puts them in ascending order,
/// and keeps the given order between positions that tie.
pub proof fn sorting_is_a_stable_permutation(n: nat, leq: spec_fn(usize, usize) -> bool)
    requires
        is_preorder(leq),
        n <= usize::MAX,
    ensures
        sorted_positions(n, leq).len() == n,
        sorted_positions(n, leq).no_duplicates(),
        forall|k: int| 0 <= k < n ==> (#[trigger] sorted_positions(n, leq)[k]) < n,
        forall|j: int, k: int|
            0 <= j < k < n ==> leq(
                #[trigger] sorted_positions(n, leq)[j],
                #[trigger] sorted_positions(n, leq)[k],
            ),
        forall|j: int, k: int|
            0 <= j < k < n && leq(sorted_positions(n, leq)[k], sorted_positions(n, leq)[j])
                ==> #[trigger] sorted_positions(n, leq)[j] < #[trigger] sorted_positions(n, leq)[k],
{
    let s = sorted_positions(n, leq);
    lemma_stable_is_total(leq);
    positions(n).lemma_sort_by_ensures(stable(leq));
    positions(n).to_multiset_ensures();
    s.to_multiset_ensures();
    assert(positions(n).no_duplicates());
    positions(n).lemma_multiset_has_no_duplicates();
    s.lemma_multiset_has_no_duplicates_conv();
    assert forall|k: int| 0 <= k < n implies (#[trigger] s[k]) < n by {
        assert(s.contains(s[k]));
        assert(positions(n).contains(s[k]));
        let i = positions(n).index_of(s[k]);
        assert(positions(n)[i] == s[k]);
    }
    assert forall|j: int, k: int| 0 <= j < k < n implies leq(
        #[trigger] s[j],
        #[trigger] s[k],
    ) by {
        assert(stable(leq)(s[j], s[k]));
    }
    assert forall|j: int, k: int| 0 <= j < k < n && leq(s[k], s[j]) implies #[trigger] s[j]
        < #[trigger] s[k] by {
        assert(stable(leq)(s[j], s[k]));
        assert(s[j] != s[k]);
    }
}

/// Sorts the positions `0, 1, .., n - 1` by insertion.
pub(crate) fn sort_positions<F: Fn(usize, usize) -> bool>(
    n: usize,
    not_after: F,
    Ghost(leq): Ghost<spec_fn(usize, usize) -> bool>,
) -> (r: Vec<usize>)
    requires
        is_preorder(leq),
        forall|x: usize, y: usize| x < n && y < n ==> #[trigger] not_after.requires((x, y)),
        forall|x: usize, y: usize, b: bool|
            x < n && y < n && #[trigger] not_after.ensures((x, y), b) ==> b == leq(x, y),
    ensures
        r@ == sorted_positions(n as nat, leq),
        forall|k: int| 0 <= k < r@.len() ==> (#[trigger] r@[k]) < n,
        r@.len() == n,
{
    let mut list: Vec<usize> = Vec::new();
    proof {
        lemma_stable_is_total(leq);
        assert(list@ =~= positions(0));
    }
    for i in 0..n
        invariant
            is_preorder(leq),
            vstd::relations::total_ordering(stable(leq)),
            forall|x: usize, y: usize| x < n && y < n ==> #[trigger] not_after.requires((x, y)),
            forall|x: usize, y: usize, b: bool|
                x < n && y < n && #[trigger] not_after.ensures((x, y), b) ==> b == leq(x, y),
            vstd::relations::sorted_by(list@, stable(leq)),
            list@.to_multiset() == positions(i as nat).to_multiset(),
            forall|k: int| 0 <= k < list@.len() ==> (#[trigger] list@[k]) < i,
            list@.len() == i,
    {
        broadcast use vstd::seq_lib::group_to_multiset_ensures;

        let ghost r = stable(leq);
        let mut place: usize = list.len();
        let mut searching: bool = true;
        while searching && place > 0
            invariant
                forall|x: usize, y: usize| x < n && y < n ==> #[trigger] not_after.requires((x, y)),
                forall|x: usize, y: usize, b: bool|
                    x < n && y < n && #[trigger] not_after.ensures((x, y), b) ==> b == leq(x, y),
                is_preorder(leq),
                r == stable(leq),
                i < n,
                place <= list@.len(),
                forall|k: int| 0 <= k < list@.len() ==> (#[trigger] list@[k]) < i,
                forall|k: int| place <= k < list@.len() ==> r(i, #[trigger] list@[k]),
                !searching ==> place > 0 && r(list@[place - 1], i),
            decreases place + (if searching { 1int } else { 0int }),
        {
            let other = list[place - 1];
            if not_after(other, i) {
                searching = false;
            } else {
                assert(leq(i, other) || leq(other, i));
                place = place - 1;
            }
        }
        let ghost before = list@;
        list.insert(place, i);
        proof {
            assert(positions((i + 1) as nat) =~= positions(i as nat).push(i));
            assert forall|j: int, k: int| 0 <= j < k < list@.len() implies #[trigger] r(
                list@[j],
                list@[k],
            ) by {
                let j0 = if j < place {
                    j
                } else {
                    j - 1
                };
                let k0 = if k < place {
                    k
                } else {
                    k - 1
                };
                if j == place {
                    assert(list@[k] == before[k0]);
                } else if k == place {
                    assert(list@[j] == before[j]);
                    assert(r(before[place - 1], i));
                    if j < place - 1 {
                        assert(r(before[j], before[place - 1]));
                    }
                } else {
                    assert(r(before[j0], before[k0]));
                }
            }
        }
    }
    proof {
        positions(n as nat).lemma_sort_by_ensures(stable(leq));
        vstd::seq_lib::lemma_sorted_unique(
            list@,
            sorted_positions(n as nat, leq),
            stable(leq),
        );
    }
    list
}

/// Filtering keeps what passes, in its order: the places of what is kept go
/// upwards and leave out nothing that passes.
pub proof fn filtering_keeps_the_order<A>(s: Seq<A>, keep: spec_fn(A) -> bool) -> (places: Seq<
    int,
>)
    ensures
        places.len() == s.filter(keep).len(),
        forall|k: int|
            0 <= k < places.len() ==> 0 <= #[trigger] places[k] < s.len() && keep(s[places[k]])
                && s.filter(keep)[k] == s[places[k]],
        forall|j: int, k: int|
            0 <= j < k < places.len() ==> (#[trigger] places[j]) < (#[trigger] places[k]),
        forall|i: int| 0 <= i < s.len() && keep(#[trigger] s[i]) ==> places.contains(i),
    decreases s.len(),
{
    reveal(Seq::filter);
    if s.len() == 0 {
        Seq::empty()
    } else {
        let shorter = s.drop_last();
        let n = s.len() - 1;
        let before = filtering_keeps_the_order(shorter, keep);
        let places = if keep(s[n]) {
            before.push(n)
        } else {
            before
        };
        assert forall|k: int| 0 <= k < places.len() implies 0 <= #[trigger] places[k] < s.len()
            && keep(s[places[k]]) && s.filter(keep)[k] == s[places[k]] by {
            if k < before.len() {
                assert(places[k] == before[k]);
                assert(shorter[before[k]] == s[before[k]]);
            }
        }
        assert forall|j: int, k: int| 0 <= j < k < places.len() implies (#[trigger] places[j]) < (
        #[trigger] places[k]) by {
            assert(places[j] == before[j]);
            if k < before.len() {
                assert(places[k] == before[k]);
            }
        }
        assert forall|i: int| 0 <= i < s.len() && keep(#[trigger] s[i]) implies places.contains(
            i,
        ) by {
            if i < n {
                assert(shorter[i] == s[i]);
                let k = before.index_of(i);
                assert(places[k] == i);
            } else {
                assert(places[before.len() as int] == i);
            }
        }
        places
    }
}

} // verus!
