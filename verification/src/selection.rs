//! Which positions of a list are chosen, in order.

use vstd::prelude::*;

verus! {

/// The positions below `n` that are wanted, in order.
pub open spec fn positions(n: nat, wanted: spec_fn(int) -> bool) -> Seq<int>
    decreases n,
{
    if n == 0 {
        Seq::empty()
    } else if wanted(n - 1) {
        positions((n - 1) as nat, wanted).push(n - 1)
    } else {
        positions((n - 1) as nat, wanted)
    }
}

/// The wanted positions are listed in ascending order, each once, and nothing else is listed.
pub proof fn positions_are_those_wanted(n: nat, wanted: spec_fn(int) -> bool)
    ensures
        forall|k: int|
            0 <= k < positions(n, wanted).len() ==> 0 <= #[trigger] positions(n, wanted)[k] < n
                && wanted(positions(n, wanted)[k]),
        forall|j: int, k: int|
            0 <= j < k < positions(n, wanted).len() ==> #[trigger] positions(n, wanted)[j]
                < #[trigger] positions(n, wanted)[k],
        forall|i: int|
            #![trigger wanted(i)]
            #![trigger positions(n, wanted).contains(i)]
            0 <= i < n && wanted(i) ==> positions(n, wanted).contains(i),
        positions(n, wanted).len() <= n,
    decreases n,
{
    if n > 0 {
        let m = (n - 1) as nat;
        positions_are_those_wanted(m, wanted);
        let before = positions(m, wanted);
        let after = positions(n, wanted);
        assert forall|i: int| 0 <= i < n && #[trigger] wanted(i) implies after.contains(i) by {
            if i < n - 1 {
                assert(before.contains(i));
                let k = choose|k: int| 0 <= k < before.len() && before[k] == i;
                assert(after[k] == i);
            } else {
                assert(after[after.len() - 1] == i);
            }
        }
    }
}

/// Two wishes that agree below `n` choose the same positions.
pub proof fn same_wishes_choose_the_same(
    n: nat,
    wanted: spec_fn(int) -> bool,
    other: spec_fn(int) -> bool,
)
    requires
        forall|i: int| 0 <= i < n ==> #[trigger] wanted(i) == other(i),
    ensures
        positions(n, wanted) == positions(n, other),
    decreases n,
{
    if n > 0 {
        same_wishes_choose_the_same((n - 1) as nat, wanted, other);
        assert(wanted(n - 1) == other(n - 1));
    }
}

/// Where every position is wanted, all are chosen.
pub proof fn all_wanted_are_chosen(n: nat, wanted: spec_fn(int) -> bool)
    requires
        forall|i: int| 0 <= i < n ==> #[trigger] wanted(i),
    ensures
        positions(n, wanted) == Seq::new(n, |i: int| i),
    decreases n,
{
    if n > 0 {
        all_wanted_are_chosen((n - 1) as nat, wanted);
        assert(wanted(n - 1));
    }
    assert(positions(n, wanted) =~= Seq::new(n, |i: int| i));
}

} // verus!
