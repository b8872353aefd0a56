//! Numbers in order, and things in the order of numbers.

use vstd::prelude::*;
use vstd::relations::{sorted_by, total_ordering};
use vstd::seq_lib::lemma_sorted_unique;

verus! {

/// The order of numbers.
pub open spec fn at_most() -> spec_fn(u64, u64) -> bool {
    |a: u64, b: u64| a <= b
}

/// Numbers in ascending order.
pub open spec fn in_order(list: Seq<u64>) -> Seq<u64> {
    list.sort_by(at_most())
}

/// The order of things by their keys, and by their places where the keys are the same.
pub open spec fn no_higher() -> spec_fn((u64, usize), (u64, usize)) -> bool {
    |a: (u64, usize), b: (u64, usize)| a.0 < b.0 || a.0 == b.0 && a.1 <= b.1
}

/// Things in the order of their keys; those of the same key in the order of their places.
pub open spec fn by_key(list: Seq<(u64, usize)>) -> Seq<(u64, usize)> {
    list.sort_by(no_higher())
}

/// Numbers in order are the same numbers, each at most those behind it.
pub proof fn lemma_in_order(list: Seq<u64>)
    ensures
        in_order(list).len() == list.len(),
        in_order(list).to_multiset() == list.to_multiset(),
        forall|i: int, j: int|
            0 <= i < j < list.len() ==> #[trigger] in_order(list)[i] <= #[trigger] in_order(
                list,
            )[j],
{
    broadcast use vstd::seq_lib::group_to_multiset_ensures;

    assert(total_ordering(at_most()));
    list.lemma_sort_by_ensures(at_most());
    let out = in_order(list);
    assert(out.len() == out.to_multiset().len());
    assert forall|i: int, j: int| 0 <= i < j < list.len() implies #[trigger] out[i]
        <= #[trigger] out[j] by {
        assert(at_most()(out[i], out[j]));
    }
}

/// Things in order are the same things, none of them before one that is lower.
pub proof fn lemma_by_key(list: Seq<(u64, usize)>)
    ensures
        by_key(list).len() == list.len(),
        by_key(list).to_multiset() == list.to_multiset(),
        forall|i: int, j: int|
            0 <= i < j < list.len() ==> no_higher()(
                #[trigger] by_key(list)[i],
                #[trigger] by_key(list)[j],
            ),
{
    broadcast use vstd::seq_lib::group_to_multiset_ensures;

    assert(total_ordering(no_higher()));
    list.lemma_sort_by_ensures(no_higher());
    let out = by_key(list);
    assert(out.len() == out.to_multiset().len());
}

/// Numbers in ascending order.
pub fn sort_numbers(list: &[u64]) -> (r: Vec<u64>)
    ensures
        r@ == in_order(list@),
{
    let mut out: Vec<u64> = Vec::new();
    let mut i: usize = 0;
    assert(list@.take(0) =~= out@);
    while i < list.len()
        invariant
            i <= list@.len(),
            sorted_by(out@, at_most()),
            out@.to_multiset() == list@.take(i as int).to_multiset(),
        decreases list@.len() - i,
    {
        let x: u64 = list[i];
        let ghost start = out@;
        let mut at: usize = out.len();
        while at > 0 && x < out[at - 1]
            invariant
                at <= out@.len(),
                out@ == start,
                sorted_by(out@, at_most()),
                forall|j: int| at <= j < out@.len() ==> x < #[trigger] out@[j],
            decreases at,
        {
            at -= 1;
        }
        assert forall|j: int| 0 <= j < at implies #[trigger] start[j] <= x by {
            if j < at - 1 {
                assert(at_most()(start[j], start[at - 1]));
            }
        }
        out.insert(at, x);
        proof {
            broadcast use vstd::seq_lib::group_to_multiset_ensures;

            assert(out@ =~= start.insert(at as int, x));
            assert(list@.take(i + 1) =~= list@.take(i as int).push(x));
            assert forall|a: int, b: int| 0 <= a < b < out@.len() implies #[trigger] at_most()(
                out@[a],
                out@[b],
            ) by {
                let a0 = if a < at { a } else { a - 1 };
                let b0 = if b < at { b } else { b - 1 };
                if a != at && b != at {
                    assert(at_most()(start[a0], start[b0]));
                }
            }
        }
        i += 1;
    }
    assert(list@.take(i as int) =~= list@);
    proof {
        assert(total_ordering(at_most()));
        list@.lemma_sort_by_ensures(at_most());
        lemma_sorted_unique(out@, in_order(list@), at_most());
    }
    out
}

/// Things in the order of their keys.
pub fn sort_by_key(list: &[(u64, usize)]) -> (r: Vec<(u64, usize)>)
    ensures
        r@ == by_key(list@),
{
    let mut out: Vec<(u64, usize)> = Vec::new();
    let mut i: usize = 0;
    assert(list@.take(0) =~= out@);
    while i < list.len()
        invariant
            i <= list@.len(),
            sorted_by(out@, no_higher()),
            out@.to_multiset() == list@.take(i as int).to_multiset(),
        decreases list@.len() - i,
    {
        let x: (u64, usize) = list[i];
        let ghost start = out@;
        let mut at: usize = out.len();
        while at > 0 && (x.0 < out[at - 1].0 || x.0 == out[at - 1].0 && x.1 < out[at - 1].1)
            invariant
                at <= out@.len(),
                out@ == start,
                sorted_by(out@, no_higher()),
                forall|j: int| at <= j < out@.len() ==> no_higher()(x, #[trigger] out@[j]),
            decreases at,
        {
            at -= 1;
        }
        assert forall|j: int| 0 <= j < at implies no_higher()(#[trigger] start[j], x) by {
            if j < at - 1 {
                assert(no_higher()(start[j], start[at - 1]));
            }
        }
        out.insert(at, x);
        proof {
            broadcast use vstd::seq_lib::group_to_multiset_ensures;

            assert(out@ =~= start.insert(at as int, x));
            assert(list@.take(i + 1) =~= list@.take(i as int).push(x));
            assert forall|a: int, b: int| 0 <= a < b < out@.len() implies #[trigger] no_higher()(
                out@[a],
                out@[b],
            ) by {
                let a0 = if a < at { a } else { a - 1 };
                let b0 = if b < at { b } else { b - 1 };
                if a != at && b != at {
                    assert(no_higher()(start[a0], start[b0]));
                } else if a == at {
                    assert(out@[b] == start[b0]);
                } else {
                    assert(out@[a] == start[a0]);
                }
            }
        }
        i += 1;
    }
    assert(list@.take(i as int) =~= list@);
    proof {
        assert(total_ordering(no_higher()));
        list@.lemma_sort_by_ensures(no_higher());
        lemma_sorted_unique(out@, by_key(list@), no_higher());
    }
    out
}

} // verus!
