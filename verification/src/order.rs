//! The order of texts: character by character, a shorter text before its continuations.

use crate::text::{chars_of, texts};
use vstd::prelude::*;
use vstd::relations::{sorted_by, total_ordering};
use vstd::seq_lib::lemma_sorted_unique;

verus! {

/// Whether `a` stands before `b` in the order of texts.
pub open spec fn before(a: Seq<char>, b: Seq<char>) -> bool
    decreases a.len(),
{
    if b.len() == 0 {
        false
    } else if a.len() == 0 {
        true
    } else if a[0] != b[0] {
        (a[0] as int) < (b[0] as int)
    } else {
        before(a.skip(1), b.skip(1))
    }
}

/// The order is strict and total.
pub proof fn lemma_order_total(a: Seq<char>, b: Seq<char>)
    ensures
        !(before(a, b) && before(b, a)),
        a == b ==> !before(a, b),
        a != b ==> before(a, b) || before(b, a),
    decreases a.len(),
{
    if a.len() > 0 && b.len() > 0 && a[0] == b[0] {
        lemma_order_total(a.skip(1), b.skip(1));
        if a.skip(1) == b.skip(1) {
            assert(a =~= seq![a[0]] + a.skip(1));
            assert(b =~= seq![b[0]] + b.skip(1));
        }
    } else if a.len() == 0 && b.len() == 0 {
        assert(a =~= b);
    }
}

/// Texts are ordered by the first place at which they differ.
pub proof fn lemma_before_at(a: Seq<char>, b: Seq<char>, k: int)
    requires
        0 <= k <= a.len(),
        k < b.len(),
        forall|i: int| 0 <= i < k ==> a[i] == b[i],
        k < a.len() ==> a[k] < b[k],
    ensures
        before(a, b),
    decreases k,
{
    if k > 0 {
        lemma_before_at(a.skip(1), b.skip(1), k - 1);
    }
}

/// The order is transitive.
pub proof fn lemma_order_transitive(a: Seq<char>, b: Seq<char>, c: Seq<char>)
    requires
        before(a, b),
        before(b, c),
    ensures
        before(a, c),
    decreases a.len(),
{
    if a.len() > 0 && a[0] == b[0] && b[0] == c[0] {
        lemma_order_transitive(a.skip(1), b.skip(1), c.skip(1));
    }
}

fn code_point(c: char) -> (r: u32)
    ensures
        r == c as int,
{
    c as u32
}

/// Whether `a` stands before `b` in the order of texts.
pub fn precedes(a: &str, b: &str) -> (r: bool)
    ensures
        r == before(a@, b@),
{
    let x = chars_of(a);
    let y = chars_of(b);
    let mut i: usize = 0;
    assert(x@.skip(0) =~= x@);
    assert(y@.skip(0) =~= y@);
    while i < x.len() && i < y.len() && x[i] == y[i]
        invariant
            x@ == a@,
            y@ == b@,
            i <= x@.len(),
            i <= y@.len(),
            before(a@, b@) == before(x@.skip(i as int), y@.skip(i as int)),
        decreases x@.len() - i,
    {
        assert(x@.skip(i as int).skip(1) =~= x@.skip(i + 1));
        assert(y@.skip(i as int).skip(1) =~= y@.skip(i + 1));
        i += 1;
    }
    if i >= y.len() {
        false
    } else if i >= x.len() {
        true
    } else {
        code_point(x[i]) < code_point(y[i])
    }
}

/// Whether each text of `list` is no later in the order than those behind it.
pub open spec fn ascending(list: Seq<Seq<char>>) -> bool {
    forall|i: int, j: int| 0 <= i < j < list.len() ==> !before(#[trigger] list[j], #[trigger] list[i])
}

/// Whether `a` is `b` or stands before it.
pub open spec fn no_later() -> spec_fn(Seq<char>, Seq<char>) -> bool {
    |a: Seq<char>, b: Seq<char>| !before(b, a)
}

proof fn lemma_no_later_is_total()
    ensures
        total_ordering(no_later()),
{
    let le = no_later();
    assert forall|a: Seq<char>| #[trigger] le(a, a) by {
        lemma_order_total(a, a);
    }
    assert forall|a: Seq<char>, b: Seq<char>| #[trigger] le(a, b) && #[trigger] le(b, a) implies a
        == b by {
        lemma_order_total(a, b);
    }
    assert forall|a: Seq<char>, b: Seq<char>, c: Seq<char>| #[trigger] le(a, b) && #[trigger] le(
        b,
        c,
    ) implies le(a, c) by {
        lemma_order_total(a, b);
        lemma_order_total(b, c);
        lemma_order_total(a, c);
        if before(c, a) {
            if a != b {
                lemma_order_transitive(c, a, b);
            }
        }
    }
    assert forall|a: Seq<char>, b: Seq<char>| #[trigger] le(a, b) || le(b, a) by {
        lemma_order_total(a, b);
    }
}

/// The texts of `list` in order.
pub open spec fn sorted(list: Seq<Seq<char>>) -> Seq<Seq<char>> {
    list.sort_by(no_later())
}

/// A list in order is the same texts, each no later than those behind it.
pub proof fn lemma_sorted(list: Seq<Seq<char>>)
    ensures
        ascending(sorted(list)),
        sorted(list).to_multiset() == list.to_multiset(),
        sorted(list).len() == list.len(),
        forall|x: Seq<char>| #[trigger] sorted(list).contains(x) == list.contains(x),
{
    broadcast use vstd::seq_lib::group_to_multiset_ensures;

    lemma_no_later_is_total();
    list.lemma_sort_by_ensures(no_later());
    let out = sorted(list);
    assert forall|i: int, j: int| 0 <= i < j < out.len() implies !before(
        #[trigger] out[j],
        #[trigger] out[i],
    ) by {
        assert(no_later()(out[i], out[j]));
    }
    assert(out.len() == out.to_multiset().len());
    assert(list.len() == list.to_multiset().len());
    assert forall|x: Seq<char>| #[trigger] out.contains(x) == list.contains(x) by {
        assert(out.contains(x) == (out.to_multiset().count(x) > 0));
        assert(list.contains(x) == (list.to_multiset().count(x) > 0));
    }
}

/// A list of the same texts, each no later than those behind it, is the list in order.
pub proof fn lemma_sorted_is_unique(list: Seq<Seq<char>>, out: Seq<Seq<char>>)
    requires
        ascending(out),
        out.to_multiset() == list.to_multiset(),
    ensures
        out == sorted(list),
{
    lemma_no_later_is_total();
    list.lemma_sort_by_ensures(no_later());
    assert(sorted_by(out, no_later()));
    lemma_sorted_unique(out, sorted(list), no_later());
}

/// The texts of `list` in order.
pub fn sort(list: Vec<String>) -> (r: Vec<String>)
    ensures
        texts(r@) == sorted(texts(list@)),
{
    let mut out: Vec<String> = Vec::new();
    let mut i: usize = 0;
    assert(texts(list@).take(0) =~= texts(out@));
    while i < list.len()
        invariant
            i <= list@.len(),
            ascending(texts(out@)),
            texts(out@).to_multiset() == texts(list@).take(i as int).to_multiset(),
        decreases list@.len() - i,
    {
        insert_in_order(&mut out, &list[i]);
        proof {
            broadcast use vstd::seq_lib::group_to_multiset_ensures;
            assert(texts(list@).take(i + 1) =~= texts(list@).take(i as int).push(list@[i as int]@));
        }
        i += 1;
    }
    assert(texts(list@).take(i as int) =~= texts(list@));
    proof {
        lemma_sorted_is_unique(texts(list@), texts(out@));
    }
    out
}

fn insert_in_order(out: &mut Vec<String>, item: &String)
    requires
        ascending(texts(old(out)@)),
    ensures
        ascending(texts(final(out)@)),
        texts(final(out)@).to_multiset() == texts(old(out)@).to_multiset().insert(item@),
{
    let ghost start = out@;
    let mut at: usize = out.len();
    while at > 0 && precedes(item.as_str(), out[at - 1].as_str())
        invariant
            at <= out@.len(),
            out@ == start,
            ascending(texts(out@)),
            forall|j: int| at <= j < out@.len() ==> before(item@, #[trigger] texts(out@)[j]),
        decreases at,
    {
        at -= 1;
    }
    proof {
        if at > 0 {
            assert forall|j: int| 0 <= j < at implies !before(item@, #[trigger] texts(start)[j]) by {
                if before(item@, texts(start)[j]) {
                    let last = texts(start)[at - 1];
                    if j < at - 1 {
                        assert(!before(last, texts(start)[j]));
                        lemma_order_total(last, texts(start)[j]);
                        if last != texts(start)[j] {
                            lemma_order_transitive(item@, texts(start)[j], last);
                        }
                    }
                }
            }
        }
    }
    out.insert(at, item.clone());
    proof {
        broadcast use vstd::seq_lib::group_to_multiset_ensures;
        assert(texts(out@) =~= texts(start).insert(at as int, item@));
        let list = texts(out@);
        assert forall|i: int, j: int| 0 <= i < j < list.len() implies !before(
            #[trigger] list[j],
            #[trigger] list[i],
        ) by {
            if i < at && j == at {
                assert(list[i] == texts(start)[i]);
            } else if i == at {
                assert(list[j] == texts(start)[j - 1]);
                lemma_order_total(item@, list[j]);
            } else {
                let a = if i < at { i } else { i - 1 };
                let b = if j < at { j } else { j - 1 };
                assert(list[i] == texts(start)[a]);
                assert(list[j] == texts(start)[b]);
            }
        }
    }
}

} // verus!
