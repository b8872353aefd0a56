//! The order in which milestones are built: waves whose members do not depend on each other.

use crate::copied::views;
use crate::milestones::{plan_of, written_plan, Milestone, MilestoneView};
use crate::text::same;
use vstd::prelude::*;

verus! {

/// The last of the first `n` milestones that is called `name`.
pub open spec fn last_named(plan: Seq<MilestoneView>, name: Seq<char>, n: int) -> Option<int>
    decreases n,
{
    if n <= 0 {
        None
    } else if plan[n - 1].name == name {
        Some(n - 1)
    } else {
        last_named(plan, name, n - 1)
    }
}

/// Whether milestone `i` names milestone `d` as one that must be done before it.
pub open spec fn needs(plan: Seq<MilestoneView>, i: int, d: int) -> bool {
    exists|k: int|
        0 <= k < plan[i].depends_on.len() && last_named(
            plan,
            #[trigger] plan[i].depends_on[k],
            plan.len() as int,
        ) == Some(d)
}

/// Whether every name that milestone `i` gives as a dependency is that of a milestone. A name
/// that no milestone has is a need that nothing can ever meet.
pub open spec fn names_are_known(plan: Seq<MilestoneView>, i: int) -> bool {
    forall|k: int|
        0 <= k < plan[i].depends_on.len() ==> last_named(
            plan,
            #[trigger] plan[i].depends_on[k],
            plan.len() as int,
        ) is Some
}

/// Whether milestone `i` is still to be built and all that it needs is done.
pub open spec fn is_ready(plan: Seq<MilestoneView>, done: Seq<bool>, i: int) -> bool {
    &&& !done[i]
    &&& names_are_known(plan, i)
    &&& forall|d: int| #[trigger] needs(plan, i, d) ==> done[d]
}

/// Those of the first `n` milestones that are ready, in order.
pub open spec fn ready_before(plan: Seq<MilestoneView>, done: Seq<bool>, n: int) -> Seq<int>
    decreases n,
{
    if n <= 0 {
        Seq::empty()
    } else if is_ready(plan, done, n - 1) {
        ready_before(plan, done, n - 1).push(n - 1)
    } else {
        ready_before(plan, done, n - 1)
    }
}

/// The first milestone from `i` on that is not done.
pub open spec fn first_open(done: Seq<bool>, i: int) -> int
    decreases done.len() - i,
{
    if i < 0 || i >= done.len() || !done[i] {
        i
    } else {
        first_open(done, i + 1)
    }
}

/// What is built next: all that is ready; where nothing is, the first that is left, alone.
pub open spec fn next_wave(plan: Seq<MilestoneView>, done: Seq<bool>) -> Seq<int> {
    let ready = ready_before(plan, done, plan.len() as int);
    if ready.len() == 0 {
        seq![first_open(done, 0)]
    } else {
        ready
    }
}

/// `done` with a wave more.
pub open spec fn with_wave(done: Seq<bool>, wave: Seq<int>) -> Seq<bool> {
    Seq::new(done.len(), |i: int| done[i] || wave.contains(i))
}

/// How many are left to be done.
pub open spec fn open_count(done: Seq<bool>) -> nat
    decreases done.len(),
{
    if done.len() == 0 {
        0
    } else {
        open_count(done.drop_last()) + if done.last() {
            0nat
        } else {
            1nat
        }
    }
}

/// More done leaves less open.
pub proof fn lemma_open_count(a: Seq<bool>, b: Seq<bool>)
    requires
        a.len() == b.len(),
        forall|i: int| 0 <= i < a.len() && a[i] ==> #[trigger] b[i],
    ensures
        open_count(b) <= open_count(a),
        (exists|i: int| 0 <= i < a.len() && !a[i] && #[trigger] b[i]) ==> open_count(b)
            < open_count(a),
        open_count(a) == 0 ==> forall|i: int| 0 <= i < a.len() ==> #[trigger] a[i],
    decreases a.len(),
{
    if a.len() > 0 {
        let n = a.len() - 1;
        assert forall|i: int| 0 <= i < n && a.drop_last()[i] implies #[trigger] b.drop_last()[i] by {
            assert(b[i]);
        }
        lemma_open_count(a.drop_last(), b.drop_last());
        assert(a[n] ==> b[n]);
        if exists|i: int| 0 <= i < a.len() && !a[i] && #[trigger] b[i] {
            let i = choose|i: int| 0 <= i < a.len() && !a[i] && #[trigger] b[i];
            if i < n {
                assert(!a.drop_last()[i] && b.drop_last()[i]);
            }
        }
        assert forall|i: int| 0 <= i < a.len() && open_count(a) == 0 implies #[trigger] a[i] by {
            if i < n {
                assert(a.drop_last()[i]);
            }
        }
    }
}

/// The members of `ready_before` are those that are ready, in ascending order.
pub proof fn lemma_ready_before(plan: Seq<MilestoneView>, done: Seq<bool>, n: int)
    requires
        0 <= n <= plan.len(),
    ensures
        forall|i: int| #[trigger]
            ready_before(plan, done, n).contains(i) <==> 0 <= i < n && is_ready(plan, done, i),
        forall|a: int, b: int|
            0 <= a < b < ready_before(plan, done, n).len() ==> #[trigger] ready_before(
                plan,
                done,
                n,
            )[a] < #[trigger] ready_before(plan, done, n)[b],
    decreases n,
{
    if n > 0 {
        lemma_ready_before(plan, done, n - 1);
        let less = ready_before(plan, done, n - 1);
        let all = ready_before(plan, done, n);
        assert forall|i: int| #[trigger] all.contains(i) <==> 0 <= i < n && is_ready(
            plan,
            done,
            i,
        ) by {
            if is_ready(plan, done, n - 1) {
                assert(all == less.push(n - 1));
                if all.contains(i) {
                    let k = choose|k: int| 0 <= k < all.len() && all[k] == i;
                    if k < less.len() {
                        assert(less[k] == i);
                        assert(less.contains(i));
                    }
                }
                if less.contains(i) {
                    let k = choose|k: int| 0 <= k < less.len() && less[k] == i;
                    assert(all[k] == i);
                }
                if i == n - 1 {
                    assert(all[less.len() as int] == i);
                }
            }
        }
        assert forall|a: int, b: int| 0 <= a < b < all.len() implies #[trigger] all[a]
            < #[trigger] all[b] by {
            if is_ready(plan, done, n - 1) && b == less.len() {
                assert(less.contains(less[a]));
            }
        }
    }
}

/// Where something is left to be done, the first of it is found.
pub proof fn lemma_first_open(done: Seq<bool>, i: int)
    requires
        0 <= i <= done.len(),
        exists|j: int| i <= j < done.len() && !#[trigger] done[j],
    ensures
        i <= first_open(done, i) < done.len(),
        !done[first_open(done, i)],
        forall|j: int| i <= j < first_open(done, i) ==> #[trigger] done[j],
    decreases done.len() - i,
{
    let j = choose|j: int| i <= j < done.len() && !#[trigger] done[j];
    if done[i] {
        assert(i + 1 <= j);
        lemma_first_open(done, i + 1);
    }
}

/// A wave is never empty, and its members are milestones that were not done.
pub proof fn lemma_next_wave(plan: Seq<MilestoneView>, done: Seq<bool>)
    requires
        done.len() == plan.len(),
        open_count(done) > 0,
    ensures
        next_wave(plan, done).len() > 0,
        forall|i: int| #[trigger]
            next_wave(plan, done).contains(i) ==> 0 <= i < plan.len() && !done[i],
        open_count(with_wave(done, next_wave(plan, done))) < open_count(done),
{
    let ready = ready_before(plan, done, plan.len() as int);
    let wave = next_wave(plan, done);
    lemma_ready_before(plan, done, plan.len() as int);
    lemma_some_open(done);
    if ready.len() == 0 {
        lemma_first_open(done, 0);
    }
    assert forall|i: int| #[trigger] wave.contains(i) implies 0 <= i < plan.len() && !done[i] by {}
    let next = with_wave(done, wave);
    assert(wave.contains(wave[0]));
    assert(next[wave[0]]);
    lemma_open_count(done, next);
}

proof fn lemma_some_open(done: Seq<bool>)
    requires
        open_count(done) > 0,
    ensures
        exists|j: int| 0 <= j < done.len() && !#[trigger] done[j],
    decreases done.len(),
{
    if done.last() {
        lemma_some_open(done.drop_last());
        let j = choose|j: int| 0 <= j < done.drop_last().len() && !#[trigger] done.drop_last()[j];
        assert(!done[j]);
    } else {
        assert(!done[done.len() - 1]);
    }
}

/// The waves that are left when `done` is done.
pub open spec fn waves_from(plan: Seq<MilestoneView>, done: Seq<bool>) -> Seq<Seq<int>>
    decreases open_count(done),
    when done.len() == plan.len()
{
    if open_count(done) == 0 {
        Seq::empty()
    } else {
        proof {
            lemma_next_wave(plan, done);
        }
        let wave = next_wave(plan, done);
        seq![wave] + waves_from(plan, with_wave(done, wave))
    }
}

/// Nothing done.
pub open spec fn nothing_done(n: nat) -> Seq<bool> {
    Seq::new(n, |i: int| false)
}

/// The waves of a plan.
pub open spec fn waves_of(plan: Seq<MilestoneView>) -> Seq<Seq<int>> {
    waves_from(plan, nothing_done(plan.len()))
}

/// The indices of a wave.
pub open spec fn wave_view(wave: Seq<usize>) -> Seq<int> {
    wave.map_values(|i: usize| i as int)
}

/// The indices of each of a list of waves.
pub open spec fn waves_view(waves: Seq<Vec<usize>>) -> Seq<Seq<int>> {
    waves.map_values(|w: Vec<usize>| wave_view(w@))
}

/// The milestone that `name` stands for.
fn index_of(milestones: &[Milestone], name: &str) -> (r: Option<usize>)
    ensures
        match r {
            Some(i) => last_named(views(milestones@), name@, milestones@.len() as int) == Some(
                i as int,
            ) && i < milestones@.len(),
            None => last_named(views(milestones@), name@, milestones@.len() as int) is None,
        },
{
    let ghost plan = views(milestones@);
    let n: usize = milestones.len();
    let mut i: usize = n;
    while i > 0
        invariant
            i <= n == milestones@.len(),
            plan == views(milestones@),
            last_named(plan, name@, n as int) == last_named(plan, name@, i as int),
        decreases i,
    {
        i -= 1;
        assert(plan[i as int] == milestones@[i as int]@);
        if same(milestones[i].name.as_str(), name) {
            return Some(i);
        }
    }
    None
}

/// Whether all that milestone `i` needs is done.
fn needs_are_done(milestones: &[Milestone], done: &[bool], i: usize) -> (r: bool)
    requires
        i < milestones@.len(),
        done@.len() == milestones@.len(),
    ensures
        r == (names_are_known(views(milestones@), i as int) && forall|d: int| #[trigger]
            needs(views(milestones@), i as int, d) ==> done@[d]),
{
    let ghost plan = views(milestones@);
    let names = &milestones[i].depends_on;
    assert(plan[i as int] == milestones@[i as int]@);
    let mut k: usize = 0;
    while k < names.len()
        invariant
            k <= names@.len(),
            i < milestones@.len(),
            done@.len() == milestones@.len(),
            plan == views(milestones@),
            plan[i as int].depends_on.len() == names@.len(),
            forall|j: int|
                0 <= j < names@.len() ==> #[trigger] plan[i as int].depends_on[j] == names@[j]@,
            forall|j: int|
                0 <= j < k ==> last_named(
                    plan,
                    #[trigger] plan[i as int].depends_on[j],
                    plan.len() as int,
                ) is Some,
            forall|j: int, d: int|
                0 <= j < k && last_named(
                    plan,
                    #[trigger] plan[i as int].depends_on[j],
                    plan.len() as int,
                ) == Some(d) ==> #[trigger] done@[d],
        decreases names@.len() - k,
    {
        assert(plan[i as int].depends_on[k as int] == names@[k as int]@);
        match index_of(milestones, names[k].as_str()) {
            Some(d) => {
                if !done[d] {
                    assert(needs(plan, i as int, d as int));
                    return false;
                }
            },
            None => {
                assert(!names_are_known(plan, i as int));
                return false;
            },
        }
        k += 1;
    }
    assert forall|d: int| #[trigger] needs(plan, i as int, d) implies done@[d] by {
        let j = choose|j: int|
            0 <= j < plan[i as int].depends_on.len() && last_named(
                plan,
                #[trigger] plan[i as int].depends_on[j],
                plan.len() as int,
            ) == Some(d);
        assert(last_named(plan, plan[i as int].depends_on[j], plan.len() as int) == Some(d));
    }
    true
}

/// What is built next.
fn ready_wave(milestones: &[Milestone], done: &[bool]) -> (r: Vec<usize>)
    requires
        done@.len() == milestones@.len(),
    ensures
        wave_view(r@) == ready_before(views(milestones@), done@, milestones@.len() as int),
{
    let ghost plan = views(milestones@);
    let n: usize = milestones.len();
    let mut wave: Vec<usize> = Vec::new();
    let mut i: usize = 0;
    assert(wave_view(wave@) =~= Seq::<int>::empty());
    while i < n
        invariant
            i <= n == milestones@.len(),
            done@.len() == n,
            plan == views(milestones@),
            wave_view(wave@) == ready_before(plan, done@, i as int),
        decreases n - i,
    {
        let ghost had = wave@;
        if !done[i] && needs_are_done(milestones, done, i) {
            wave.push(i);
            assert(wave_view(wave@) =~= wave_view(had).push(i as int));
        }
        i += 1;
    }
    wave
}

/// The first milestone that is not done.
fn first_left(done: &[bool]) -> (r: Option<usize>)
    ensures
        match r {
            Some(i) => i < done@.len() && first_open(done@, 0) == i && open_count(done@) > 0,
            None => open_count(done@) == 0,
        },
{
    let n: usize = done.len();
    let mut i: usize = 0;
    while i < n
        invariant
            i <= n == done@.len(),
            first_open(done@, 0) == first_open(done@, i as int),
            forall|j: int| 0 <= j < i ==> #[trigger] done@[j],
        decreases n - i,
    {
        if !done[i] {
            proof {
                lemma_open_count(done@, done@);
                assert(!done@[i as int]);
            }
            return Some(i);
        }
        i += 1;
    }
    proof {
        lemma_all_done(done@);
    }
    None
}

proof fn lemma_all_done(done: Seq<bool>)
    requires
        forall|j: int| 0 <= j < done.len() ==> #[trigger] done[j],
    ensures
        open_count(done) == 0,
    decreases done.len(),
{
    if done.len() > 0 {
        assert(done[done.len() - 1]);
        assert forall|j: int| 0 <= j < done.drop_last().len() implies #[trigger] done.drop_last()[j] by {
            assert(done[j]);
        }
        lemma_all_done(done.drop_last());
    }
}

/// `done` with a wave more.
fn mark(done: Vec<bool>, wave: &[usize]) -> (r: Vec<bool>)
    requires
        forall|k: int| 0 <= k < wave@.len() ==> (#[trigger] wave@[k]) < done@.len(),
    ensures
        r@ == with_wave(done@, wave_view(wave@)),
{
    let ghost start = done@;
    let mut out = done;
    let mut k: usize = 0;
    while k < wave.len()
        invariant
            k <= wave@.len(),
            out@.len() == start.len(),
            forall|j: int| 0 <= j < wave@.len() ==> (#[trigger] wave@[j]) < start.len(),
            forall|i: int|
                0 <= i < start.len() ==> #[trigger] out@[i] == (start[i] || exists|j: int|
                    0 <= j < k && #[trigger] wave@[j] == i),
        decreases wave@.len() - k,
    {
        let i: usize = wave[k];
        let ghost had = out@;
        out.set(i, true);
        assert forall|x: int| 0 <= x < start.len() implies #[trigger] out@[x] == (start[x]
            || exists|j: int| 0 <= j < k + 1 && #[trigger] wave@[j] == x) by {
            if x == i {
                assert(wave@[k as int] == x);
            } else {
                assert(had[x] == out@[x]);
            }
        }
        k += 1;
    }
    let ghost view = wave_view(wave@);
    assert forall|i: int| 0 <= i < start.len() implies #[trigger] out@[i] == (start[i]
        || view.contains(i)) by {
        if view.contains(i) {
            let j = choose|j: int| 0 <= j < view.len() && view[j] == i;
            assert(wave@[j] == i);
        }
        if exists|j: int| 0 <= j < k && #[trigger] wave@[j] == i {
            let j = choose|j: int| 0 <= j < k && #[trigger] wave@[j] == i;
            assert(view[j] == i);
        }
    }
    assert(out@ =~= with_wave(start, view));
    out
}

/// Groups milestones into waves. All that a milestone names as its dependencies stands in
/// earlier waves, so the members of a wave can be built side by side. Where no milestone is
/// ready, because they wait for each other or for a name that no milestone has, the first that
/// is left is built alone.
pub fn schedule_waves(milestones: &[Milestone]) -> (r: Vec<Vec<usize>>)
    ensures
        waves_view(r@) == waves_of(views(milestones@)),
{
    let ghost plan = views(milestones@);
    let n: usize = milestones.len();
    let mut done: Vec<bool> = Vec::new();
    while done.len() < n
        invariant
            done@.len() <= n,
            forall|i: int| 0 <= i < done@.len() ==> !#[trigger] done@[i],
        decreases n - done@.len(),
    {
        done.push(false);
    }
    assert(done@ =~= nothing_done(plan.len()));
    let mut waves: Vec<Vec<usize>> = Vec::new();
    assert(waves_view(waves@) + waves_of(plan) =~= waves_of(plan));
    loop
        invariant
            plan == views(milestones@),
            done@.len() == plan.len(),
            waves_of(plan) == waves_view(waves@) + waves_from(plan, done@),
        decreases open_count(done@),
    {
        let first: usize = match first_left(done.as_slice()) {
            None => {
                assert(waves_view(waves@) + Seq::<Seq<int>>::empty() =~= waves_view(waves@));
                return waves;
            },
            Some(first) => first,
        };
        let mut wave = ready_wave(milestones, done.as_slice());
        if wave.len() == 0 {
            wave.push(first);
            assert(wave_view(wave@) =~= seq![first as int]);
        }
        let ghost view = wave_view(wave@);
        assert(view == next_wave(plan, done@)) by {
            assert(ready_before(plan, done@, plan.len() as int).len() == 0 ==> view =~= seq![
                first_open(done@, 0),
            ]);
        }
        proof {
            lemma_next_wave(plan, done@);
            assert forall|k: int| 0 <= k < wave@.len() implies (#[trigger] wave@[k])
                < done@.len() by {
                assert(view[k] == wave@[k]);
                assert(view.contains(view[k]));
            }
        }
        let ghost left = done@;
        done = mark(done, wave.as_slice());
        let ghost had = waves@;
        waves.push(wave);
        proof {
            assert(waves_view(waves@) =~= waves_view(had).push(view));
            let rest = waves_from(plan, done@);
            assert(waves_from(plan, left) == seq![view] + rest);
            assert(waves_view(had) + (seq![view] + rest) =~= waves_view(waves@) + rest);
        }
    }
}

/// What is done after `k` more waves.
spec fn done_after(plan: Seq<MilestoneView>, done: Seq<bool>, k: int) -> Seq<bool>
    decreases k,
{
    if k <= 0 {
        done
    } else {
        done_after(plan, with_wave(done, next_wave(plan, done)), k - 1)
    }
}

/// The waves of a plan build on each other: each is what comes next when those before it are
/// done.
proof fn lemma_wave(plan: Seq<MilestoneView>, done: Seq<bool>, k: int)
    requires
        done.len() == plan.len(),
        0 <= k < waves_from(plan, done).len(),
    ensures
        done_after(plan, done, k).len() == plan.len(),
        open_count(done_after(plan, done, k)) > 0,
        waves_from(plan, done)[k] == next_wave(plan, done_after(plan, done, k)),
        forall|i: int|
            0 <= i < plan.len() ==> #[trigger] done_after(plan, done, k)[i] == (done[i]
                || exists|j: int| 0 <= j < k && #[trigger] waves_from(plan, done)[j].contains(i)),
    decreases k,
{
    let waves = waves_from(plan, done);
    if k > 0 {
        lemma_next_wave(plan, done);
        let wave = next_wave(plan, done);
        let next = with_wave(done, wave);
        let rest = waves_from(plan, next);
        assert(waves == seq![wave] + rest);
        lemma_wave(plan, next, k - 1);
        assert(waves[k] == rest[k - 1]);
        assert forall|i: int| 0 <= i < plan.len() implies #[trigger] done_after(plan, done, k)[i]
            == (done[i] || exists|j: int| 0 <= j < k && #[trigger] waves[j].contains(i)) by {
            assert(done_after(plan, done, k)[i] == done_after(plan, next, k - 1)[i]);
            if exists|j: int| 0 <= j < k - 1 && #[trigger] rest[j].contains(i) {
                let j = choose|j: int| 0 <= j < k - 1 && #[trigger] rest[j].contains(i);
                assert(waves[j + 1].contains(i));
            }
            if wave.contains(i) {
                assert(waves[0].contains(i));
            }
            if exists|j: int| 0 <= j < k && #[trigger] waves[j].contains(i) {
                let j = choose|j: int| 0 <= j < k && #[trigger] waves[j].contains(i);
                if j > 0 {
                    assert(rest[j - 1].contains(i));
                }
            }
        }
    }
}

proof fn lemma_all_scheduled(plan: Seq<MilestoneView>, done: Seq<bool>, i: int)
    requires
        done.len() == plan.len(),
        0 <= i < plan.len(),
        !done[i],
    ensures
        exists|k: int|
            0 <= k < waves_from(plan, done).len() && #[trigger] waves_from(plan, done)[k].contains(
                i,
            ),
    decreases open_count(done),
{
    lemma_open_count(done, done);
    lemma_next_wave(plan, done);
    let wave = next_wave(plan, done);
    let next = with_wave(done, wave);
    let waves = waves_from(plan, done);
    assert(waves == seq![wave] + waves_from(plan, next));
    if wave.contains(i) {
        assert(waves[0].contains(i));
    } else {
        assert(!next[i]);
        lemma_all_scheduled(plan, next, i);
        let k = choose|k: int|
            0 <= k < waves_from(plan, next).len() && #[trigger] waves_from(plan, next)[k].contains(i);
        assert(waves[k + 1].contains(i));
    }
}

/// The members of a wave are milestones of the plan.
pub proof fn lemma_wave_members(plan: Seq<MilestoneView>, k: int)
    requires
        0 <= k < waves_of(plan).len(),
    ensures
        waves_of(plan)[k].len() > 0,
        forall|i: int| #[trigger] waves_of(plan)[k].contains(i) ==> 0 <= i < plan.len(),
{
    let none = nothing_done(plan.len());
    lemma_wave(plan, none, k);
    lemma_next_wave(plan, done_after(plan, none, k));
}

/// Every milestone stands in one wave, and there once.
pub proof fn law_every_milestone_is_built_once(plan: Seq<MilestoneView>, i: int)
    requires
        0 <= i < plan.len(),
    ensures
        exists|k: int|
            0 <= k < waves_of(plan).len() && #[trigger] waves_of(plan)[k].contains(i),
        forall|k: int, l: int|
            0 <= k < l < waves_of(plan).len() && #[trigger] waves_of(plan)[k].contains(i)
                ==> !#[trigger] waves_of(plan)[l].contains(i),
        forall|k: int|
            0 <= k < waves_of(plan).len() ==> (#[trigger] waves_of(plan)[k]).no_duplicates(),
{
    let none = nothing_done(plan.len());
    let waves = waves_of(plan);
    lemma_all_scheduled(plan, none, i);
    assert forall|k: int, l: int|
        0 <= k < l < waves.len() && #[trigger] waves[k].contains(
            i,
        ) implies !#[trigger] waves[l].contains(i) by {
        lemma_wave(plan, none, l);
        assert(done_after(plan, none, l)[i]);
        lemma_next_wave(plan, done_after(plan, none, l));
    }
    assert forall|k: int| 0 <= k < waves.len() implies (#[trigger] waves[k]).no_duplicates() by {
        lemma_wave(plan, none, k);
        lemma_ready_before(plan, done_after(plan, none, k), plan.len() as int);
    }
}

/// A wave of more than one milestone holds only milestones whose dependencies all stand in
/// earlier waves.
pub proof fn law_waves_respect_dependencies(plan: Seq<MilestoneView>, k: int, i: int, d: int)
    requires
        0 <= k < waves_of(plan).len(),
        waves_of(plan)[k].contains(i),
        waves_of(plan)[k].len() > 1,
        needs(plan, i, d),
    ensures
        exists|j: int| 0 <= j < k && #[trigger] waves_of(plan)[j].contains(d),
{
    let none = nothing_done(plan.len());
    lemma_wave(plan, none, k);
    let done = done_after(plan, none, k);
    lemma_next_wave(plan, done);
    lemma_ready_before(plan, done, plan.len() as int);
    assert(is_ready(plan, done, i));
    lemma_needs_in_range(plan, i, d);
    assert(done[d]);
}

proof fn lemma_needs_in_range(plan: Seq<MilestoneView>, i: int, d: int)
    requires
        needs(plan, i, d),
    ensures
        0 <= d < plan.len(),
{
    let k = choose|k: int|
        0 <= k < plan[i].depends_on.len() && last_named(
            plan,
            #[trigger] plan[i].depends_on[k],
            plan.len() as int,
        ) == Some(d);
    lemma_last_named(plan, plan[i].depends_on[k], plan.len() as int);
}

proof fn lemma_last_named(plan: Seq<MilestoneView>, name: Seq<char>, n: int)
    requires
        0 <= n <= plan.len(),
    ensures
        match last_named(plan, name, n) {
            Some(d) => 0 <= d < n && plan[d].name == name && forall|j: int|
                d < j < n ==> (#[trigger] plan[j]).name != name,
            None => forall|j: int| 0 <= j < n ==> (#[trigger] plan[j]).name != name,
        },
    decreases n,
{
    if n > 0 && plan[n - 1].name != name {
        lemma_last_named(plan, name, n - 1);
    }
}

/// A milestone that waits for a name that no milestone has is built alone, and only when nothing
/// else that is left is ready.
pub proof fn law_unmet_names_are_built_alone(plan: Seq<MilestoneView>, k: int, i: int)
    requires
        0 <= k < waves_of(plan).len(),
        waves_of(plan)[k].contains(i),
        !names_are_known(plan, i),
    ensures
        waves_of(plan)[k] == seq![i],
        forall|j: int|
            #![trigger names_are_known(plan, j)]
            0 <= j < plan.len() && names_are_known(plan, j) && (forall|l: int|
                0 <= l < k ==> !(#[trigger] waves_of(plan)[l]).contains(j)) ==> exists|d: int|
                #[trigger] needs(plan, j, d) && forall|l: int|
                    0 <= l < k ==> !(#[trigger] waves_of(plan)[l]).contains(d),
{
    let none = nothing_done(plan.len());
    let waves = waves_of(plan);
    lemma_wave(plan, none, k);
    let done = done_after(plan, none, k);
    lemma_ready_before(plan, done, plan.len() as int);
    let ready = ready_before(plan, done, plan.len() as int);
    if ready.len() > 0 {
        assert(is_ready(plan, done, i));
    }
    assert(waves[k] =~= seq![i]) by {
        assert(waves[k] == seq![first_open(done, 0)]);
        assert(waves[k][0] == i);
    }
    assert forall|j: int|
        #![trigger names_are_known(plan, j)]
        0 <= j < plan.len() && names_are_known(plan, j) && (forall|l: int|
            0 <= l < k ==> !(#[trigger] waves[l]).contains(j)) implies exists|d: int| #[trigger]
        needs(plan, j, d) && forall|l: int| 0 <= l < k ==> !(#[trigger] waves[l]).contains(d) by {
        assert(!done[j]);
        if is_ready(plan, done, j) {
            assert(ready.contains(j));
        }
        let d = choose|d: int| #[trigger] needs(plan, j, d) && !done[d];
        lemma_needs_in_range(plan, j, d);
        assert forall|l: int| 0 <= l < k implies !(#[trigger] waves[l]).contains(d) by {
            if waves[l].contains(d) {
                assert(done[d]);
            }
        }
    }
}

/// Milestones of one wave do not depend on each other, unless one depends on itself.
pub proof fn law_wave_members_are_independent(plan: Seq<MilestoneView>, k: int, i: int, j: int)
    requires
        0 <= k < waves_of(plan).len(),
        waves_of(plan)[k].contains(i),
        waves_of(plan)[k].contains(j),
        i != j,
    ensures
        !needs(plan, i, j),
{
    let wave = waves_of(plan)[k];
    if needs(plan, i, j) {
        assert(wave.len() > 1) by {
            let a = choose|a: int| 0 <= a < wave.len() && wave[a] == i;
            let b = choose|b: int| 0 <= b < wave.len() && wave[b] == j;
            assert(a != b);
        }
        lemma_needs_in_range(plan, i, j);
        law_waves_respect_dependencies(plan, k, i, j);
        law_every_milestone_is_built_once(plan, j);
    }
}

/// Whether `level` gives each milestone the length of the longest chain of dependencies that
/// leads to it. Such levels exist where no milestone waits for itself through others, or for a
/// name that no milestone has.
pub open spec fn is_level(plan: Seq<MilestoneView>, level: spec_fn(int) -> nat) -> bool {
    forall|i: int|
        0 <= i < plan.len() ==> {
            &&& names_are_known(plan, i)
            &&& forall|d: int| #[trigger] needs(plan, i, d) ==> level(d) < level(i)
            &&& #[trigger] level(i) > 0 ==> exists|d: int|
                #[trigger] needs(plan, i, d) && level(d) + 1 == level(i)
        }
}

proof fn lemma_levels(plan: Seq<MilestoneView>, level: spec_fn(int) -> nat, done: Seq<bool>, k: nat)
    requires
        is_level(plan, level),
        done.len() == plan.len(),
        forall|i: int| 0 <= i < plan.len() ==> #[trigger] done[i] == (level(i) < k),
        open_count(done) > 0,
    ensures
        forall|i: int|
            #![trigger next_wave(plan, done).contains(i)]
            0 <= i < plan.len() ==> next_wave(plan, done).contains(i) == (level(i) == k),
        forall|i: int|
            0 <= i < plan.len() ==> #[trigger] with_wave(done, next_wave(plan, done))[i] == (level(
                i,
            ) < k + 1),
{
    lemma_ready_before(plan, done, plan.len() as int);
    let ready = ready_before(plan, done, plan.len() as int);
    assert forall|i: int| 0 <= i < plan.len() implies is_ready(plan, done, i) == (level(i)
        == k) by {
        if level(i) == k {
            assert forall|d: int| #[trigger] needs(plan, i, d) implies done[d] by {
                lemma_needs_in_range(plan, i, d);
            }
        } else if !done[i] {
            assert(level(i) > 0);
            let d = choose|d: int| #[trigger] needs(plan, i, d) && level(d) + 1 == level(i);
            lemma_needs_in_range(plan, i, d);
            assert(!done[d]);
        }
    }
    lemma_some_open(done);
    let i = choose|i: int| 0 <= i < done.len() && !#[trigger] done[i];
    lemma_some_at_level(plan, level, i, k);
    let j = choose|j: int| 0 <= j < plan.len() && #[trigger] level(j) == k;
    assert(ready.contains(j));
    assert(next_wave(plan, done) == ready);
    assert forall|i: int| 0 <= i < plan.len() implies #[trigger] with_wave(done, ready)[i] == (
    level(i) < k + 1) by {
        assert(ready.contains(i) == (level(i) == k));
    }
}

/// Below a milestone of some level there are milestones of every lower level.
proof fn lemma_some_at_level(plan: Seq<MilestoneView>, level: spec_fn(int) -> nat, i: int, k: nat)
    requires
        is_level(plan, level),
        0 <= i < plan.len(),
        level(i) >= k,
    ensures
        exists|j: int| 0 <= j < plan.len() && #[trigger] level(j) == k,
    decreases level(i),
{
    if level(i) == k {
        assert(level(i) == k);
    } else {
        let d = choose|d: int| #[trigger] needs(plan, i, d) && level(d) + 1 == level(i);
        lemma_needs_in_range(plan, i, d);
        lemma_some_at_level(plan, level, d, k);
    }
}

proof fn lemma_waves_are_levels(
    plan: Seq<MilestoneView>,
    level: spec_fn(int) -> nat,
    done: Seq<bool>,
    k: nat,
)
    requires
        is_level(plan, level),
        done.len() == plan.len(),
        forall|i: int| 0 <= i < plan.len() ==> #[trigger] done[i] == (level(i) < k),
    ensures
        forall|w: int, i: int|
            #![trigger waves_from(plan, done)[w].contains(i)]
            0 <= w < waves_from(plan, done).len() && 0 <= i < plan.len() ==> waves_from(
                plan,
                done,
            )[w].contains(i) == (level(i) == k + w),
        forall|i: int|
            0 <= i < plan.len() ==> #[trigger] level(i) < k + waves_from(plan, done).len(),
        waves_from(plan, done).len() > 0 ==> exists|i: int|
            0 <= i < plan.len() && #[trigger] level(i) + 1 == k + waves_from(plan, done).len(),
    decreases open_count(done),
{
    let waves = waves_from(plan, done);
    lemma_open_count(done, done);
    if open_count(done) == 0 {
        assert forall|i: int| 0 <= i < plan.len() implies #[trigger] level(i) < k + waves.len() by {
            assert(done[i]);
        }
    } else {
        lemma_next_wave(plan, done);
        lemma_levels(plan, level, done, k);
        let wave = next_wave(plan, done);
        let next = with_wave(done, wave);
        let rest = waves_from(plan, next);
        assert(waves == seq![wave] + rest);
        lemma_waves_are_levels(plan, level, next, k + 1);
        assert forall|w: int, i: int|
            #![trigger waves[w].contains(i)]
            0 <= w < waves.len() && 0 <= i < plan.len() implies waves[w].contains(i) == (level(i)
            == k + w) by {
            if w > 0 {
                assert(waves[w] == rest[w - 1]);
                assert(rest[w - 1].contains(i) == (level(i) == k + 1 + (w - 1)));
            }
        }
        if rest.len() == 0 {
            assert(wave.contains(wave[0]));
            assert(level(wave[0]) + 1 == k + waves.len());
        }
    }
}

/// Where no milestone waits for itself through others, or for a name that no milestone has, a
/// milestone stands in the wave of its level. So all that it depends on stands in earlier waves,
/// and there are as many waves as the longest chain of dependencies has milestones.
pub proof fn law_waves_are_the_critical_path(plan: Seq<MilestoneView>, level: spec_fn(int) -> nat)
    requires
        is_level(plan, level),
    ensures
        forall|w: int, i: int|
            #![trigger waves_of(plan)[w].contains(i)]
            0 <= w < waves_of(plan).len() && 0 <= i < plan.len() ==> waves_of(plan)[w].contains(i)
                == (level(i) == w),
        forall|i: int| 0 <= i < plan.len() ==> #[trigger] level(i) < waves_of(plan).len(),
        plan.len() > 0 ==> exists|i: int|
            0 <= i < plan.len() && #[trigger] level(i) + 1 == waves_of(plan).len(),
{
    lemma_waves_are_levels(plan, level, nothing_done(plan.len()), 0);
    if plan.len() > 0 {
        lemma_all_scheduled(plan, nothing_done(plan.len()), 0);
    }
}

/// Whether each milestone depends on the one before it and on nothing else.
pub open spec fn is_chain(plan: Seq<MilestoneView>) -> bool {
    forall|i: int|
        0 <= i < plan.len() ==> #[trigger] plan[i].depends_on == if i == 0 {
            Seq::<Seq<char>>::empty()
        } else {
            seq![plan[i - 1].name]
        }
}

/// The first `k` done.
spec fn first_done(n: nat, k: int) -> Seq<bool> {
    Seq::new(n, |i: int| i < k)
}

proof fn lemma_chain_wave(plan: Seq<MilestoneView>, k: int)
    requires
        is_chain(plan),
        0 <= k < plan.len(),
    ensures
        next_wave(plan, first_done(plan.len(), k)) == seq![k],
        open_count(first_done(plan.len(), k)) > 0,
{
    let done = first_done(plan.len(), k);
    lemma_open_count(done, done);
    assert(!done[k]);
    lemma_first_open(done, 0);
    assert(first_open(done, 0) == k);
    lemma_ready_before(plan, done, plan.len() as int);
    let ready = ready_before(plan, done, plan.len() as int);
    assert forall|i: int| 0 <= i < plan.len() && is_ready(plan, done, i) implies i == k by {
        if i > k {
            assert(plan[i].depends_on == seq![plan[i - 1].name]);
            lemma_last_named(plan, plan[i - 1].name, plan.len() as int);
            let d = last_named(plan, plan[i - 1].name, plan.len() as int)->Some_0;
            assert(d >= i - 1) by {
                if d < i - 1 {
                    assert(plan[i - 1].name != plan[i - 1].name);
                }
            }
            assert(plan[i].depends_on[0] == plan[i - 1].name);
            assert(needs(plan, i, d));
            assert(!done[d]);
        }
    }
    if ready.len() > 0 {
        assert(ready.contains(ready[0]));
        if ready.len() > 1 {
            assert(ready.contains(ready[1]));
            assert(ready[0] < ready[1]);
        }
        assert(ready =~= seq![k]);
    }
}

proof fn lemma_chain(plan: Seq<MilestoneView>, k: int)
    requires
        is_chain(plan),
        0 <= k <= plan.len(),
    ensures
        waves_from(plan, first_done(plan.len(), k)) == Seq::new(
            (plan.len() - k) as nat,
            |w: int| seq![k + w],
        ),
    decreases plan.len() - k,
{
    let done = first_done(plan.len(), k);
    let expected = Seq::new((plan.len() - k) as nat, |w: int| seq![k + w]);
    if k == plan.len() {
        lemma_all_done(done);
        assert(waves_from(plan, done) =~= expected);
    } else {
        lemma_chain_wave(plan, k);
        let next = first_done(plan.len(), k + 1);
        assert(with_wave(done, seq![k]) =~= next) by {
            assert(seq![k][0] == k);
        }
        lemma_chain(plan, k + 1);
        let rest = waves_from(plan, next);
        assert(waves_from(plan, done) == seq![seq![k]] + rest);
        assert forall|w: int| 0 <= w < expected.len() implies (seq![seq![k]] + rest)[w]
            == expected[w] by {
            if w > 0 {
                assert(rest[w - 1] == seq![k + 1 + (w - 1)]);
            }
        }
        assert(waves_from(plan, done) =~= expected);
    }
}

/// A plan in which every milestone depends on the one before it, as a plan does that names no
/// dependencies, is built one milestone at a time, in the order in which it is written.
pub proof fn law_a_chain_is_built_in_order(plan: Seq<MilestoneView>)
    requires
        is_chain(plan),
    ensures
        waves_of(plan) == Seq::new(plan.len(), |w: int| seq![w]),
{
    lemma_chain(plan, 0);
    assert(first_done(plan.len(), 0) =~= nothing_done(plan.len()));
    assert(waves_of(plan) =~= Seq::new(plan.len(), |w: int| seq![w])) by {
        assert forall|w: int| 0 <= w < plan.len() implies waves_of(plan)[w] == seq![w] by {
            assert(waves_of(plan)[w] == seq![0 + w]);
        }
    }
}

/// A plan without a `DEPENDS_ON` line is a chain.
pub proof fn law_plain_plans_are_chains(text: Seq<char>)
    requires
        forall|i: int|
            0 <= i < written_plan(text).len() ==> (#[trigger] written_plan(text)[i]).depends_on is None,
    ensures
        is_chain(plan_of(text)),
{
    let plan = plan_of(text);
    assert forall|i: int| 0 <= i < plan.len() implies #[trigger] plan[i].depends_on == if i == 0 {
        Seq::<Seq<char>>::empty()
    } else {
        seq![plan[i - 1].name]
    } by {
        assert(written_plan(text)[i].depends_on is None);
    }
}

} // verus!
