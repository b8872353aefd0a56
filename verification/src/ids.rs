//! The checkpoints of the repairs that a crate goes through, each under an id of its own.

use crate::effects::{checkpoint_name, law_checkpoints_do_not_collide};
use crate::numbers::{
    decimal, decimal_text, is_digit, law_decimal_reads_back, lemma_decimal_digits,
};
use vstd::prelude::*;
use vstd::string::StringExecFns;

verus! {

/// The checkpoint of the soundness review of a round.
pub open spec fn soundness_review_id(round: nat) -> Seq<char> {
    "review_panel/formal_methods/"@ + decimal(round)
}

/// The checkpoint of the soundness repair of a round.
pub open spec fn soundness_repair_id(round: nat) -> Seq<char> {
    "review_panel/soundness_repair/"@ + decimal(round)
}

/// What the checkpoints of an integration begin with. `round` is that of the soundness repair that
/// it follows, if it follows one.
pub open spec fn integration_stem(round: Option<nat>) -> Seq<char> {
    match round {
        Some(k) => soundness_repair_id(k) + "/"@,
        None => Seq::empty(),
    }
}

/// The checkpoint of an attempt to repair the assembled crate, after so many escalations.
pub open spec fn repair_id(round: Option<nat>, escalation: nat, attempt: nat) -> Seq<char> {
    integration_stem(round) + (if escalation == 0 {
        "integration/repair/"@
    } else {
        "integration/escalation/"@ + decimal(escalation) + "/repair/"@
    }) + decimal(attempt)
}

/// What the checkpoints begin with of the fix that the planner is asked for at an escalation.
pub open spec fn fix_id(round: Option<nat>, escalation: nat) -> Seq<char> {
    integration_stem(round) + "integration-fix/"@ + decimal(escalation)
}

/// The round, as it is counted.
pub open spec fn counted(round: Option<usize>) -> Option<nat> {
    match round {
        Some(k) => Some(k as nat),
        None => None,
    }
}

/// The checkpoint of the soundness review of a round.
pub fn soundness_review_name(round: usize) -> (r: String)
    ensures
        r@ == soundness_review_id(round as nat),
{
    "review_panel/formal_methods/".to_owned().concat(decimal_text(round as u64).as_str())
}

/// The checkpoint of the soundness repair of a round.
pub fn soundness_repair_name(round: usize) -> (r: String)
    ensures
        r@ == soundness_repair_id(round as nat),
{
    "review_panel/soundness_repair/".to_owned().concat(decimal_text(round as u64).as_str())
}

fn stem(round: Option<usize>) -> (r: String)
    ensures
        r@ == integration_stem(counted(round)),
{
    match round {
        Some(k) => soundness_repair_name(k).concat("/"),
        None => {
            let none = String::new();
            assert(none@ =~= Seq::<char>::empty());
            none
        },
    }
}

/// The checkpoint of an attempt to repair the assembled crate.
pub fn repair_name(round: Option<usize>, escalation: usize, attempt: usize) -> (r: String)
    ensures
        r@ == repair_id(counted(round), escalation as nat, attempt as nat),
{
    let number = decimal_text(attempt as u64);
    if escalation == 0 {
        stem(round).concat("integration/repair/").concat(number.as_str())
    } else {
        let place = "integration/escalation/".to_owned().concat(
            decimal_text(escalation as u64).as_str(),
        ).concat("/repair/");
        stem(round).concat(place.as_str()).concat(number.as_str())
    }
}

/// What the checkpoints begin with of the fix that the planner is asked for at an escalation.
pub fn fix_name(round: Option<usize>, escalation: usize) -> (r: String)
    ensures
        r@ == fix_id(counted(round), escalation as nat),
{
    stem(round).concat("integration-fix/").concat(decimal_text(escalation as u64).as_str())
}

/// Numbers that are written alike are the same.
proof fn lemma_decimal_is_injective(a: nat, b: nat)
    requires
        decimal(a) == decimal(b),
    ensures
        a == b,
{
    law_decimal_reads_back(a, a + b);
    law_decimal_reads_back(b, a + b);
}

proof fn lemma_no_slash(n: nat, i: int)
    requires
        0 <= i < decimal(n).len(),
    ensures
        decimal(n)[i] != '/',
{
    lemma_decimal_digits(n);
    assert(is_digit(decimal(n)[i]));
}

/// Behind the same text, a number ends where a slash follows it, so what follows can be told apart.
pub proof fn lemma_number_parts(
    head: Seq<char>,
    a: nat,
    rest: Seq<char>,
    b: nat,
    other: Seq<char>,
)
    requires
        head + decimal(a) + rest == head + decimal(b) + other,
        rest.len() == 0 || rest[0] == '/',
        other.len() == 0 || other[0] == '/',
    ensures
        a == b,
        rest == other,
{
    let x = head + decimal(a) + rest;
    let y = head + decimal(b) + other;
    let n = head.len() as int;
    let p = decimal(a);
    let q = decimal(b);
    assert(x.len() == n + p.len() + rest.len());
    assert(y.len() == n + q.len() + other.len());
    if p.len() < q.len() {
        assert(x[n + p.len()] == rest[0]);
        assert(y[n + p.len()] == q[p.len() as int]);
        lemma_no_slash(b, p.len() as int);
    } else if q.len() < p.len() {
        assert(y[n + q.len()] == other[0]);
        assert(x[n + q.len()] == p[q.len() as int]);
        lemma_no_slash(a, q.len() as int);
    }
    assert(p =~= q) by {
        assert forall|i: int| 0 <= i < p.len() implies p[i] == q[i] by {
            assert(x[n + i] == p[i]);
            assert(y[n + i] == q[i]);
        }
    }
    lemma_decimal_is_injective(a, b);
    assert(rest =~= other) by {
        assert forall|i: int| 0 <= i < rest.len() implies rest[i] == other[i] by {
            assert(x[n + p.len() + i] == rest[i]);
            assert(y[n + q.len() + i] == other[i]);
        }
    }
}

/// What stands behind the stem of an integration begins in the same way for every integration, and
/// tells the stems apart.
proof fn lemma_stems(a: Option<nat>, x: Seq<char>, b: Option<nat>, y: Seq<char>)
    requires
        integration_stem(a) + x == integration_stem(b) + y,
        x.len() > 0 && x[0] == 'i',
        y.len() > 0 && y[0] == 'i',
    ensures
        a == b,
        x == y,
{
    reveal_strlit("review_panel/soundness_repair/");
    reveal_strlit("/");
    let head = "review_panel/soundness_repair/"@;
    let u = integration_stem(a) + x;
    let v = integration_stem(b) + y;
    match (a, b) {
        (None, None) => {
            assert(u =~= x);
            assert(v =~= y);
        },
        (Some(k), None) => {
            assert(u[0] == head[0]);
            assert(v =~= y);
        },
        (None, Some(j)) => {
            assert(v[0] == head[0]);
            assert(u =~= x);
        },
        (Some(k), Some(j)) => {
            assert(u =~= head + decimal(k) + ("/"@ + x));
            assert(v =~= head + decimal(j) + ("/"@ + y));
            lemma_number_parts(head, k, "/"@ + x, j, "/"@ + y);
            assert(("/"@ + x).skip(1) =~= x);
            assert(("/"@ + y).skip(1) =~= y);
        },
    }
}

/// What stands behind the stem in the checkpoint of a repair.
spec fn repair_tail(escalation: nat, attempt: nat) -> Seq<char> {
    (if escalation == 0 {
        "integration/repair/"@
    } else {
        "integration/escalation/"@ + decimal(escalation) + "/repair/"@
    }) + decimal(attempt)
}

proof fn lemma_repair_tail(round: Option<nat>, escalation: nat, attempt: nat)
    ensures
        repair_id(round, escalation, attempt) == integration_stem(round) + repair_tail(
            escalation,
            attempt,
        ),
        repair_tail(escalation, attempt).len() > 12,
        repair_tail(escalation, attempt)[0] == 'i',
        repair_tail(escalation, attempt)[11] == '/',
        repair_tail(escalation, attempt)[12] == (if escalation == 0 {
            'r'
        } else {
            'e'
        }),
{
    reveal_strlit("integration/repair/");
    reveal_strlit("integration/escalation/");
    assert(repair_id(round, escalation, attempt) =~= integration_stem(round) + repair_tail(
        escalation,
        attempt,
    ));
}

/// Each repair of an assembled crate has a checkpoint of its own: no other attempt, after no other
/// number of escalations and in no other round of soundness repairs, is kept under the same name.
pub proof fn law_repairs_do_not_collide(
    round: Option<nat>,
    escalation: nat,
    attempt: nat,
    other_round: Option<nat>,
    other_escalation: nat,
    other_attempt: nat,
)
    requires
        (round, escalation, attempt) != (other_round, other_escalation, other_attempt),
    ensures
        repair_id(round, escalation, attempt) != repair_id(
            other_round,
            other_escalation,
            other_attempt,
        ),
        checkpoint_name(repair_id(round, escalation, attempt)) != checkpoint_name(
            repair_id(other_round, other_escalation, other_attempt),
        ),
{
    let a = repair_id(round, escalation, attempt);
    let b = repair_id(other_round, other_escalation, other_attempt);
    if a == b {
        let x = repair_tail(escalation, attempt);
        let y = repair_tail(other_escalation, other_attempt);
        lemma_repair_tail(round, escalation, attempt);
        lemma_repair_tail(other_round, other_escalation, other_attempt);
        lemma_stems(round, x, other_round, y);
        reveal_strlit("/repair/");
        let none = Seq::<char>::empty();
        if escalation == 0 {
            let head = "integration/repair/"@;
            assert(x =~= head + decimal(attempt) + none);
            assert(y =~= head + decimal(other_attempt) + none);
            lemma_number_parts(head, attempt, none, other_attempt, none);
        } else {
            let head = "integration/escalation/"@;
            let rest = "/repair/"@ + decimal(attempt);
            let other = "/repair/"@ + decimal(other_attempt);
            assert(x =~= head + decimal(escalation) + rest);
            assert(y =~= head + decimal(other_escalation) + other);
            lemma_number_parts(head, escalation, rest, other_escalation, other);
            assert(rest =~= "/repair/"@ + decimal(attempt) + none);
            assert(other =~= "/repair/"@ + decimal(other_attempt) + none);
            lemma_number_parts("/repair/"@, attempt, none, other_attempt, none);
        }
    }
    law_checkpoints_do_not_collide(a, b);
}

/// The checkpoints of a fix are its own: they are not those of another fix, whatever stands behind
/// what they begin with, nor that of any repair.
pub proof fn law_fixes_do_not_collide(
    round: Option<nat>,
    escalation: nat,
    x: Seq<char>,
    other_round: Option<nat>,
    other_escalation: nat,
    y: Seq<char>,
    attempt: nat,
)
    ensures
        (round, escalation) != (other_round, other_escalation) ==> fix_id(round, escalation) + "/"@
            + x != fix_id(other_round, other_escalation) + "/"@ + y,
        fix_id(round, escalation) + "/"@ + x != repair_id(other_round, other_escalation, attempt),
{
    reveal_strlit("/");
    reveal_strlit("integration-fix/");
    let head = "integration-fix/"@;
    let u = head + decimal(escalation) + ("/"@ + x);
    let v = head + decimal(other_escalation) + ("/"@ + y);
    let a = fix_id(round, escalation) + "/"@ + x;
    let b = fix_id(other_round, other_escalation) + "/"@ + y;
    assert(a =~= integration_stem(round) + u);
    assert(b =~= integration_stem(other_round) + v);
    assert(u[0] == head[0] && v[0] == head[0]);
    if a == b {
        lemma_stems(round, u, other_round, v);
        lemma_number_parts(head, escalation, "/"@ + x, other_escalation, "/"@ + y);
    }
    let t = repair_tail(other_escalation, attempt);
    lemma_repair_tail(other_round, other_escalation, attempt);
    if a == repair_id(other_round, other_escalation, attempt) {
        lemma_stems(round, u, other_round, t);
        assert(u[11] == head[11]);
    }
}

/// The checkpoints of soundness reviews and repairs are their own: those of another round, and
/// those of every integration, are kept under other names.
pub proof fn law_soundness_rounds_do_not_collide(
    round: nat,
    other: nat,
    integration: Option<nat>,
    escalation: nat,
    attempt: nat,
    x: Seq<char>,
)
    ensures
        round != other ==> soundness_review_id(round) != soundness_review_id(other),
        round != other ==> soundness_repair_id(round) != soundness_repair_id(other),
        soundness_review_id(round) != soundness_repair_id(other),
        soundness_review_id(round) != repair_id(integration, escalation, attempt),
        soundness_repair_id(round) != repair_id(integration, escalation, attempt),
        soundness_review_id(round) != fix_id(integration, escalation) + "/"@ + x,
        soundness_repair_id(round) != fix_id(integration, escalation) + "/"@ + x,
{
    reveal_strlit("review_panel/formal_methods/");
    reveal_strlit("review_panel/soundness_repair/");
    reveal_strlit("integration-fix/");
    reveal_strlit("/");
    let none = Seq::<char>::empty();
    let f = "review_panel/formal_methods/"@;
    let s = "review_panel/soundness_repair/"@;
    let p = soundness_review_id(round);
    let q = soundness_repair_id(round);
    assert(p =~= f + decimal(round) + none && q =~= s + decimal(round) + none);
    assert(soundness_review_id(other) =~= f + decimal(other) + none);
    assert(soundness_repair_id(other) =~= s + decimal(other) + none);
    if p == soundness_review_id(other) {
        lemma_number_parts(f, round, none, other, none);
    }
    if q == soundness_repair_id(other) {
        lemma_number_parts(s, round, none, other, none);
    }
    assert(p[13] == f[13] && q[13] == s[13]);
    assert(soundness_repair_id(other)[13] == s[13]);
    assert(p[0] == f[0] && q[0] == s[0]);
    let t = repair_tail(escalation, attempt);
    lemma_repair_tail(integration, escalation, attempt);
    let v = "integration-fix/"@ + decimal(escalation) + "/"@ + x;
    let a = repair_id(integration, escalation, attempt);
    let b = fix_id(integration, escalation) + "/"@ + x;
    assert(b =~= integration_stem(integration) + v);
    match integration {
        None => {
            assert(a =~= t && b =~= v);
            assert(b[0] == "integration-fix/"@[0]);
        },
        Some(k) => {
            assert(a =~= s + decimal(k) + ("/"@ + t));
            assert(b =~= s + decimal(k) + ("/"@ + v));
            assert(a[13] == s[13] && b[13] == s[13]);
            if q == a {
                lemma_number_parts(s, round, none, k, "/"@ + t);
                assert(("/"@ + t).len() > 0);
            }
            if q == b {
                lemma_number_parts(s, round, none, k, "/"@ + v);
                assert(("/"@ + v).len() > 0);
            }
        },
    }
}

} // verus!
