//! Stable sorting.

use vstd::prelude::*;

verus! {

/// Values with an order.
pub trait Ranked: Sized {
    /// The value comes strictly before the other.
    spec fn precedes(self, other: Self) -> bool;

    /// Whether the value comes strictly before the other.
    fn comes_before(&self, other: &Self) -> (r: bool)
        ensures
            r == self.precedes(*other),
    ;

    /// The order is one of a sort: nothing comes before itself, and what comes before a
    /// value comes before all that the value does not come after.
    proof fn order_is_weak(a: Self, b: Self, c: Self)
        ensures
            !a.precedes(a),
            a.precedes(b) && !c.precedes(b) ==> a.precedes(c),
            a.precedes(b) && b.precedes(c) ==> a.precedes(c),
    ;
}

/// The order, or the reverse order.
pub open spec fn ahead<T: Ranked>(a: T, b: T, reverse: bool) -> bool {
    if reverse {
        b.precedes(a)
    } else {
        a.precedes(b)
    }
}

/// The indices are each of `0..n` once.
pub open spec fn is_permutation(perm: Seq<int>, n: nat) -> bool {
    &&& perm.len() == n
    &&& forall|i: int| 0 <= i < n ==> 0 <= #[trigger] perm[i] < n
    &&& forall|i: int, j: int|
        #![trigger perm[i], perm[j]]
        0 <= i < j < n ==> perm[i] != perm[j]
}

/// The first `n` values of `new` are those of `old` in order, where `perm` tells where each
/// of them was; values of which neither comes before the other keep their places.
pub open spec fn sorted_by<T: Ranked>(
    old_values: Seq<T>,
    new_values: Seq<T>,
    perm: Seq<int>,
    n: nat,
    reverse: bool,
) -> bool {
    &&& is_permutation(perm, n)
    &&& n <= old_values.len() && n <= new_values.len()
    &&& forall|i: int| 0 <= i < n ==> #[trigger] new_values[i] == old_values[perm[i]]
    &&& forall|i: int, j: int|
        #![trigger new_values[i], new_values[j]]
        0 <= i < j < n ==> !ahead(new_values[j], new_values[i], reverse) && (!ahead(
            new_values[i],
            new_values[j],
            reverse,
        ) ==> perm[i] < perm[j])
}

/// `new` holds the values of `old` in order, and values of which neither comes before the
/// other in the order in which they were.
pub open spec fn stably_sorted<T: Ranked>(
    old_values: Seq<T>,
    new_values: Seq<T>,
    reverse: bool,
) -> bool {
    new_values.len() == old_values.len() && exists|perm: Seq<int>|
        sorted_by(old_values, new_values, perm, old_values.len(), reverse)
}

/// The reverse order is an order too.
proof fn lemma_ahead<T: Ranked>(a: T, b: T, c: T, reverse: bool)
    ensures
        !ahead(a, a, reverse),
        ahead(a, b, reverse) ==> !ahead(b, a, reverse),
        ahead(a, b, reverse) && !ahead(c, b, reverse) ==> ahead(a, c, reverse),
{
    T::order_is_weak(a, b, c);
    T::order_is_weak(b, a, c);
    T::order_is_weak(a, b, a);
    T::order_is_weak(b, a, b);
    T::order_is_weak(b, c, a);
    T::order_is_weak(c, b, a);
    T::order_is_weak(c, a, b);
    T::order_is_weak(b, b, b);
}

/// What a value is inserted before comes after it, what it is inserted behind does not.
proof fn lemma_insert<T: Ranked>(
    old_values: Seq<T>,
    values: Seq<T>,
    perm: Seq<int>,
    n: nat,
    k: int,
    reverse: bool,
)
    requires
        sorted_by(old_values, values, perm, n, reverse),
        n < values.len(),
        values.len() == old_values.len(),
        0 <= k <= n,
        values[n as int] == old_values[n as int],
        forall|m: int| k <= m < n ==> ahead(values[n as int], #[trigger] values[m], reverse),
        k > 0 ==> !ahead(values[n as int], values[k - 1], reverse),
    ensures
        sorted_by(
            old_values,
            values.remove(n as int).insert(k, values[n as int]),
            perm.insert(k, n as int),
            n + 1,
            reverse,
        ),
{
    let x = values[n as int];
    let moved = values.remove(n as int).insert(k, x);
    let p = perm.insert(k, n as int);
    assert forall|m: int| 0 <= m < k implies !ahead(x, #[trigger] values[m], reverse) by {
        if m < k - 1 {
            lemma_ahead(x, values[m], values[k - 1], reverse);
        }
    }
    assert forall|i: int| 0 <= i < n + 1 implies #[trigger] moved[i] == old_values[p[i]] by {
        if i < k {
            assert(moved[i] == values[i]);
        } else if i > k {
            assert(moved[i] == values[i - 1]);
        }
    }
    assert forall|i: int, j: int|
        #![trigger moved[i], moved[j]]
        0 <= i < j < n + 1 implies !ahead(moved[j], moved[i], reverse) && (!ahead(
        moved[i],
        moved[j],
        reverse,
    ) ==> p[i] < p[j]) by {
        let a = if i < k {
            values[i]
        } else if i == k {
            x
        } else {
            values[i - 1]
        };
        let b = if j < k {
            values[j]
        } else if j == k {
            x
        } else {
            values[j - 1]
        };
        assert(moved[i] == a && moved[j] == b);
        lemma_ahead(a, b, a, reverse);
    }
}

/// Sorts the values; in reverse where asked for. Values of which neither comes before the
/// other keep their order.
pub fn stable_sort<T: Ranked>(values: &mut Vec<T>, reverse: bool)
    ensures
        stably_sorted(old(values)@, final(values)@, reverse),
{
    let ghost start = values@;
    let ghost mut perm: Seq<int> = Seq::empty();
    let mut n: usize = 0;
    while n < values.len()
        invariant
            n <= values@.len(),
            values@.len() == start.len(),
            start == old(values)@,
            sorted_by(start, values@, perm, n as nat, reverse),
            forall|m: int| n <= m < start.len() ==> #[trigger] values@[m] == start[m],
        decreases values@.len() - n,
    {
        let mut k: usize = n;
        let mut going = true;
        while going && k > 0
            invariant
                k <= n < values@.len(),
                forall|m: int|
                    k <= m < n ==> ahead(values@[n as int], #[trigger] values@[m], reverse),
                !going ==> k > 0 && !ahead(values@[n as int], values@[k - 1], reverse),
            decreases
                    k,
                    if going {
                        1int
                    } else {
                        0
                    },
        {
            let first = if reverse {
                values[k - 1].comes_before(&values[n])
            } else {
                values[n].comes_before(&values[k - 1])
            };
            if first {
                k -= 1;
            } else {
                going = false;
            }
        }
        let ghost was = values@;
        proof {
            lemma_insert(start, was, perm, n as nat, k as int, reverse);
            perm = perm.insert(k as int, n as int);
        }
        let x = values.remove(n);
        values.insert(k, x);
        assert(values@ == was.remove(n as int).insert(k as int, was[n as int]));
        assert forall|m: int| n + 1 <= m < start.len() implies #[trigger] values@[m] == start[m] by {
            assert(values@[m] == was[m]);
        }
        n += 1;
    }
    assert(sorted_by(start, values@, perm, start.len(), reverse));
}

/// A sorted list holds the same values as before.
pub proof fn law_sorting_keeps_the_values<T: Ranked>(
    old_values: Seq<T>,
    new_values: Seq<T>,
    reverse: bool,
    i: int,
)
    requires
        stably_sorted(old_values, new_values, reverse),
        0 <= i < new_values.len(),
    ensures
        old_values.contains(new_values[i]),
{
    let perm = choose|perm: Seq<int>|
        sorted_by(old_values, new_values, perm, old_values.len(), reverse);
    assert(new_values[i] == old_values[perm[i]]);
}

/// A permutation names every place: where it left one out, two of its entries would be the
/// same.
pub proof fn lemma_permutation_reaches(perm: Seq<int>, n: nat, k: int)
    requires
        is_permutation(perm, n),
        0 <= k < n,
    ensures
        exists|i: int| 0 <= i < perm.len() && #[trigger] perm[i] == k,
    decreases n,
{
    let last = perm[n - 1];
    if last != k {
        let shorter = Seq::new(
            (n - 1) as nat,
            |i: int|
                if perm[i] == n - 1 {
                    last
                } else {
                    perm[i]
                },
        );
        assert forall|i: int| 0 <= i < n - 1 implies 0 <= #[trigger] shorter[i] < n - 1 by {
            assert(perm[i] != perm[n - 1]);
            assert(0 <= perm[i] < n);
        }
        assert forall|i: int, j: int|
            #![trigger shorter[i], shorter[j]]
            0 <= i < j < n - 1 implies shorter[i] != shorter[j] by {
            assert(perm[i] != perm[j]);
            assert(perm[i] != perm[n - 1]);
            assert(perm[j] != perm[n - 1]);
        }
        if k == n - 1 {
            lemma_permutation_reaches(shorter, (n - 1) as nat, last);
            let i = choose|i: int| 0 <= i < shorter.len() && #[trigger] shorter[i] == last;
            assert(perm[i] != perm[n - 1]);
            assert(perm[i] == n - 1);
        } else {
            lemma_permutation_reaches(shorter, (n - 1) as nat, k);
            let i = choose|i: int| 0 <= i < shorter.len() && #[trigger] shorter[i] == k;
            assert(perm[i] == k);
        }
    } else {
        assert(perm[n - 1] == k);
    }
}

/// A sorted list has every value as often as before: each place of the old list is where
/// some value of the new one was.
pub proof fn law_sorting_loses_no_value<T: Ranked>(
    old_values: Seq<T>,
    new_values: Seq<T>,
    reverse: bool,
    k: int,
)
    requires
        stably_sorted(old_values, new_values, reverse),
        0 <= k < old_values.len(),
    ensures
        new_values.contains(old_values[k]),
        new_values.len() == old_values.len(),
{
    let perm = choose|perm: Seq<int>|
        sorted_by(old_values, new_values, perm, old_values.len(), reverse);
    lemma_permutation_reaches(perm, old_values.len(), k);
    let i = choose|i: int| 0 <= i < perm.len() && #[trigger] perm[i] == k;
    assert(new_values[i] == old_values[k]);
}

/// In a sorted list nothing stands before what comes before it in the order.
pub proof fn law_sorted_values_are_in_order<T: Ranked>(
    old_values: Seq<T>,
    new_values: Seq<T>,
    reverse: bool,
    i: int,
    j: int,
)
    requires
        stably_sorted(old_values, new_values, reverse),
        0 <= i < j < new_values.len(),
    ensures
        !reverse ==> !new_values[j].precedes(new_values[i]),
        reverse ==> !new_values[i].precedes(new_values[j]),
{
    let perm = choose|perm: Seq<int>|
        sorted_by(old_values, new_values, perm, old_values.len(), reverse);
    assert(!ahead(new_values[j], new_values[i], reverse));
}

} // verus!
