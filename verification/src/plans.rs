//! What is read from a plan is what was written in it.

use crate::glyphs::ascii_lower;
use crate::milestones::{
    closed_plan, empty_plan, named, names_in, plan_line, plan_lines, plan_of, resolved,
    same_letters, written_plan, MilestoneView, PlanView, Risk, WrittenView,
};
use crate::text::{
    after_prefix, has, is_space, joined, lemma_first_piece, lemma_has_through, lemma_one_piece,
    lemma_trimmed_is_kept, lines_of, occurs_at, pieces, trimmed,
    trimmed_end, trimmed_start,
};
use vstd::prelude::*;

verus! {

/// Whether a text has something in it, and no white space at either end.
pub open spec fn is_bare(s: Seq<char>) -> bool {
    s.len() > 0 && !is_space(s[0]) && !is_space(s.last())
}

/// Whether a line says something of a milestone by its first word.
pub open spec fn is_field(line: Seq<char>) -> bool {
    let t = trimmed(line);
    ||| "## MILESTONE:"@.is_prefix_of(t)
    ||| "RISK:"@.is_prefix_of(t)
    ||| "DEPENDS_ON:"@.is_prefix_of(t)
    ||| "PATTERNS:"@.is_prefix_of(t)
    ||| "TASK:"@.is_prefix_of(t)
}

/// Whether a line is white space.
pub open spec fn is_blank_line(line: Seq<char>) -> bool {
    trimmed(line).len() == 0
}

/// Whether a line goes on with the task of a milestone.
pub open spec fn is_task_line(line: Seq<char>) -> bool {
    !is_blank_line(line) && !is_field(line) && trimmed(line) != "```"@
}

/// Names, with a comma and a space between them.
pub open spec fn name_list(names: Seq<Seq<char>>) -> Seq<char>
    decreases names.len(),
{
    if names.len() == 0 {
        Seq::empty()
    } else if names.len() == 1 {
        names[0]
    } else {
        names[0] + ", "@ + name_list(names.skip(1))
    }
}

/// Whether names can be told apart in a list.
pub open spec fn are_plain_names(names: Seq<Seq<char>>) -> bool {
    &&& forall|i: int|
        0 <= i < names.len() ==> is_bare(#[trigger] names[i]) && !names[i].contains(',')
    &&& !same_letters(name_list(names), "none"@)
}

/// A list of names as it is written: `none` where there are none.
pub open spec fn names_text(names: Seq<Seq<char>>) -> Seq<char> {
    if names.len() == 0 {
        "none"@
    } else {
        name_list(names)
    }
}

/// The lines in which a milestone is written, with or without what it depends on.
pub open spec fn milestone_lines(m: MilestoneView, task: Seq<Seq<char>>, says: bool) -> Seq<Seq<char>> {
    seq![
        "## MILESTONE: "@ + m.name,
        "RISK: "@ + (if m.risk == Risk::Easy {
            "EASY"@
        } else {
            "HARD"@
        }),
    ] + (if says {
        seq!["DEPENDS_ON: "@ + names_text(m.depends_on)]
    } else {
        Seq::empty()
    }) + seq!["PATTERNS: "@ + names_text(m.patterns), "TASK: "@ + task[0]] + task.skip(1)
}

/// Whether a milestone can be written in lines: its task is the lines of `task`, of which the first
/// stands behind the name of the field.
pub open spec fn is_writable_as(m: MilestoneView, task: Seq<Seq<char>>) -> bool {
    &&& is_bare(m.name)
    &&& are_plain_names(m.depends_on)
    &&& are_plain_names(m.patterns)
    &&& task.len() > 0
    &&& is_bare(task[0])
    &&& !is_space(task.last().last())
    &&& task.last().len() > 0
    &&& forall|i: int| 1 <= i < task.len() ==> is_task_line(#[trigger] task[i])
    &&& m.task == joined(task, "\n"@)
}

/// Whether a milestone depends on the one before it and on nothing else.
pub open spec fn depends_by_default(ms: Seq<MilestoneView>, i: int) -> bool {
    ms[i].depends_on == (if i == 0 {
        Seq::<Seq<char>>::empty()
    } else {
        seq![ms[i - 1].name]
    })
}

/// The lines of the first `n` milestones.
pub open spec fn all_milestone_lines(
    ms: Seq<MilestoneView>,
    tasks: Seq<Seq<Seq<char>>>,
    says: Seq<bool>,
    n: int,
) -> Seq<Seq<char>>
    decreases n,
{
    if n <= 0 {
        Seq::empty()
    } else {
        all_milestone_lines(ms, tasks, says, n - 1) + milestone_lines(
            ms[n - 1],
            tasks[n - 1],
            says[n - 1],
        )
    }
}

proof fn lemma_plan_depends(a: Seq<Seq<char>>, b: Seq<Seq<char>>, more: Seq<Seq<char>>)
    requires
        plan_lines(a) == plan_lines(b),
    ensures
        plan_lines(a + more) == plan_lines(b + more),
    decreases more.len(),
{
    if more.len() == 0 {
        assert(a + more =~= a);
        assert(b + more =~= b);
    } else {
        lemma_plan_depends(a, b, more.drop_last());
        assert((a + more).drop_last() =~= a + more.drop_last());
        assert((b + more).drop_last() =~= b + more.drop_last());
    }
}

proof fn lemma_next_line(a: Seq<Seq<char>>, line: Seq<char>)
    ensures
        plan_lines(a.push(line)) == plan_line(plan_lines(a), line),
{
    assert(a.push(line).drop_last() =~= a);
}

proof fn lemma_blank_line(plan: PlanView, line: Seq<char>)
    requires
        is_blank_line(line),
    ensures
        plan_line(plan, line) == plan,
{
    reveal_strlit("## MILESTONE:");
    reveal_strlit("RISK:");
    reveal_strlit("DEPENDS_ON:");
    reveal_strlit("PATTERNS:");
    reveal_strlit("TASK:");
    reveal_strlit("```");
}

/// Blank lines do not matter in a plan: one more or one less, wherever it stands, and the same
/// milestones are read.
pub proof fn law_blank_lines_do_not_matter(
    a: Seq<Seq<char>>,
    blank: Seq<char>,
    b: Seq<Seq<char>>,
    with_it: Seq<char>,
    without_it: Seq<char>,
)
    requires
        is_blank_line(blank),
        lines_of(with_it) == a + seq![blank] + b,
        lines_of(without_it) == a + b,
    ensures
        plan_of(with_it) == plan_of(without_it),
{
    lemma_blank_line(plan_lines(a), blank);
    lemma_next_line(a, blank);
    assert(a + seq![blank] =~= a.push(blank));
    lemma_plan_depends(a.push(blank), a, b);
}

proof fn lemma_space_before(s: Seq<char>)
    requires
        is_bare(s),
    ensures
        trimmed(" "@ + s) == s,
{
    reveal_strlit(" ");
    let x = " "@ + s;
    assert(x[0] == ' ');
    assert(x.skip(1) =~= s);
    reveal_with_fuel(trimmed_start, 2);
    lemma_trimmed_is_kept(s);
}

proof fn lemma_newline_behind(s: Seq<char>)
    requires
        is_bare(s),
    ensures
        trimmed(s + "\n"@) == s,
{
    reveal_strlit("\n");
    let x = s + "\n"@;
    assert(x[0] == s[0]);
    assert(x.last() == '\n');
    assert(x.drop_last() =~= s);
    reveal_with_fuel(trimmed_end, 2);
}

/// What a line with a field says.
proof fn lemma_field_value(field: Seq<char>, value: Seq<char>)
    requires
        field.len() > 0,
        !is_space(field[0]),
        is_bare(value),
    ensures
        trimmed(field + " "@ + value) == field + " "@ + value,
        after_prefix(field + " "@ + value, field) == Some(" "@ + value),
        trimmed(" "@ + value) == value,
{
    reveal_strlit(" ");
    let line = field + " "@ + value;
    assert(line[0] == field[0]);
    assert(line.last() == value.last());
    lemma_trimmed_is_kept(line);
    assert(field.is_prefix_of(line));
    assert(line.skip(field.len() as int) =~= " "@ + value);
    lemma_space_before(value);
}

proof fn lemma_named_front(first: Seq<char>, rest: Seq<Seq<char>>)
    requires
        trimmed(first).len() > 0,
    ensures
        named(seq![first] + rest) == seq![trimmed(first)] + named(rest),
    decreases rest.len(),
{
    let all = seq![first] + rest;
    if rest.len() == 0 {
        reveal_with_fuel(named, 2);
        assert(all.drop_last() =~= Seq::<Seq<char>>::empty());
        assert(all.last() == first);
        assert(named(all) =~= seq![trimmed(first)] + named(rest));
    } else {
        lemma_named_front(first, rest.drop_last());
        assert(all.drop_last() =~= seq![first] + rest.drop_last());
        assert(all.last() == rest.last());
        assert(named(all) =~= seq![trimmed(first)] + named(rest));
    }
}

proof fn lemma_name_head(first: Seq<char>, spaced: bool)
    requires
        is_bare(first),
        !first.contains(','),
    ensures
        ({
            let head = if spaced {
                " "@ + first
            } else {
                first
            };
            !head.contains(',') && trimmed(head) == first
        }),
{
    if spaced {
        reveal_strlit(" ");
        let head = " "@ + first;
        assert forall|i: int| 0 <= i < head.len() implies head[i] != ',' by {
            if i > 0 {
                assert(first.contains(first[i - 1]));
            }
        }
        lemma_space_before(first);
    } else {
        lemma_trimmed_is_kept(first);
    }
}

proof fn lemma_name_list_is_bare(names: Seq<Seq<char>>)
    requires
        names.len() > 0,
        forall|i: int| 0 <= i < names.len() ==> is_bare(#[trigger] names[i]),
    ensures
        is_bare(name_list(names)),
    decreases names.len(),
{
    assert(is_bare(names[0]));
    if names.len() > 1 {
        let rest = names.skip(1);
        assert forall|i: int| 0 <= i < rest.len() implies is_bare(#[trigger] rest[i]) by {
            assert(rest[i] == names[i + 1]);
        }
        lemma_name_list_is_bare(rest);
        let list = name_list(names);
        assert(list[0] == names[0][0]);
        assert(list.last() == name_list(rest).last());
    }
}

proof fn lemma_name_list(names: Seq<Seq<char>>, spaced: bool)
    requires
        names.len() > 0,
        forall|i: int|
            0 <= i < names.len() ==> is_bare(#[trigger] names[i]) && !names[i].contains(','),
    ensures
        named(
            pieces(
                if spaced {
                    " "@ + name_list(names)
                } else {
                    name_list(names)
                },
                ',',
            ),
        ) == names,
    decreases names.len(),
{
    let first = names[0];
    assert(is_bare(first) && !first.contains(','));
    lemma_name_head(first, spaced);
    let head = if spaced {
        " "@ + first
    } else {
        first
    };
    let none = Seq::<Seq<char>>::empty();
    if names.len() == 1 {
        lemma_one_piece(head, ',');
        lemma_named_front(head, none);
        assert(seq![head] + none =~= seq![head]);
        assert(seq![first] + named(none) =~= names);
    } else {
        let rest = names.skip(1);
        assert forall|i: int| 0 <= i < rest.len() implies is_bare(#[trigger] rest[i])
            && !rest[i].contains(',') by {
            assert(rest[i] == names[i + 1]);
        }
        lemma_name_list(rest, true);
        let tail = " "@ + name_list(rest);
        lemma_first_piece(head, tail, ',');
        lemma_split_list(head, first, name_list(rest), spaced);
        lemma_named_front(head, pieces(tail, ','));
        assert(seq![first] + rest =~= names);
    }
}

proof fn lemma_split_list(head: Seq<char>, first: Seq<char>, rest: Seq<char>, spaced: bool)
    requires
        head == (if spaced {
            " "@ + first
        } else {
            first
        }),
    ensures
        (if spaced {
            " "@ + (first + ", "@ + rest)
        } else {
            first + ", "@ + rest
        }) == head.push(',') + (" "@ + rest),
{
    reveal_strlit(" ");
    reveal_strlit(", ");
    let whole = if spaced {
        " "@ + (first + ", "@ + rest)
    } else {
        first + ", "@ + rest
    };
    assert(whole =~= head.push(',') + (" "@ + rest));
}

/// A list of names is read as those names.
pub proof fn law_name_lists_read_back(names: Seq<Seq<char>>)
    requires
        are_plain_names(names),
    ensures
        names_in(" "@ + names_text(names)) == names,
{
    if names.len() == 0 {
        reveal_strlit("none");
        lemma_space_before("none"@);
        assert(names_in(" "@ + "none"@) =~= names);
    } else {
        lemma_name_list(names, false);
        lemma_name_list_is_bare(names);
        lemma_space_before(name_list(names));
    }
}

proof fn lemma_names_are_bare(names: Seq<Seq<char>>)
    requires
        are_plain_names(names),
    ensures
        is_bare(names_text(names)),
{
    if names.len() == 0 {
        reveal_strlit("none");
    } else {
        lemma_name_list(names, false);
        lemma_name_list_is_bare(names);
    }
}

/// Whatever stands before it, the first letter of a field tells it from the others.
proof fn lemma_field_letters(line: Seq<char>)
    requires
        line.len() > 0,
    ensures
        "## MILESTONE:"@.is_prefix_of(line) ==> line[0] == '#',
        "RISK:"@.is_prefix_of(line) ==> line[0] == 'R',
        "DEPENDS_ON:"@.is_prefix_of(line) ==> line[0] == 'D',
        "PATTERNS:"@.is_prefix_of(line) ==> line[0] == 'P',
        "TASK:"@.is_prefix_of(line) ==> line[0] == 'T',
        line == "```"@ ==> line[0] == '`',
        "## MILESTONE:"@.len() == 13 && "## MILESTONE:"@[0] == '#',
        "RISK:"@.len() == 5 && "RISK:"@[0] == 'R',
        "DEPENDS_ON:"@.len() == 11 && "DEPENDS_ON:"@[0] == 'D',
        "PATTERNS:"@.len() == 9 && "PATTERNS:"@[0] == 'P',
        "TASK:"@.len() == 5 && "TASK:"@[0] == 'T',
{
    reveal_strlit("## MILESTONE:");
    reveal_strlit("RISK:");
    reveal_strlit("DEPENDS_ON:");
    reveal_strlit("PATTERNS:");
    reveal_strlit("TASK:");
    reveal_strlit("```");
    lemma_first_letter("## MILESTONE:"@, line);
    lemma_first_letter("RISK:"@, line);
    lemma_first_letter("DEPENDS_ON:"@, line);
    lemma_first_letter("PATTERNS:"@, line);
    lemma_first_letter("TASK:"@, line);
}

proof fn lemma_first_letter(field: Seq<char>, line: Seq<char>)
    requires
        field.len() > 0,
    ensures
        field.is_prefix_of(line) ==> line.len() > 0 && line[0] == field[0],
{
    if field.is_prefix_of(line) {
        assert(line.subrange(0, field.len() as int)[0] == field[0]);
    }
}

proof fn lemma_marker_line(plan: PlanView, name: Seq<char>)
    requires
        is_bare(name),
    ensures
        plan_line(plan, "## MILESTONE: "@ + name) == (PlanView {
            name: Some(name),
            fenced: false,
            ..closed_plan(plan)
        }),
{
    reveal_strlit("## MILESTONE: ");
    reveal_strlit("## MILESTONE:");
    reveal_strlit(" ");
    assert("## MILESTONE: "@ + name =~= "## MILESTONE:"@ + " "@ + name);
    lemma_field_value("## MILESTONE:"@, name);
}

proof fn lemma_risk_line(plan: PlanView, risk: Risk)
    ensures
        plan_line(
            plan,
            "RISK: "@ + (if risk == Risk::Easy {
                "EASY"@
            } else {
                "HARD"@
            }),
        ) == (PlanView { risk, ..plan }),
{
    reveal_strlit("RISK: ");
    reveal_strlit("RISK:");
    reveal_strlit(" ");
    reveal_strlit("EASY");
    reveal_strlit("HARD");
    let value = if risk == Risk::Easy {
        "EASY"@
    } else {
        "HARD"@
    };
    let line = "RISK:"@ + " "@ + value;
    assert("RISK: "@ + value =~= line);
    lemma_field_value("RISK:"@, value);
    lemma_field_letters(line);
    assert(line[0] == 'R');
    if risk == Risk::Hard {
        let a = "HARD"@.map_values(|c: char| ascii_lower(c));
        let b = "EASY"@.map_values(|c: char| ascii_lower(c));
        assert(a[0] == 'h' && b[0] == 'e');
        assert(a != b);
    }
}

proof fn lemma_depends_line(plan: PlanView, names: Seq<Seq<char>>)
    requires
        are_plain_names(names),
    ensures
        plan_line(plan, "DEPENDS_ON: "@ + names_text(names)) == (PlanView {
            depends_on: Some(names),
            ..plan
        }),
{
    reveal_strlit("DEPENDS_ON: ");
    reveal_strlit("DEPENDS_ON:");
    reveal_strlit(" ");
    let value = names_text(names);
    let line = "DEPENDS_ON:"@ + " "@ + value;
    assert("DEPENDS_ON: "@ + value =~= line);
    lemma_names_are_bare(names);
    lemma_field_value("DEPENDS_ON:"@, value);
    lemma_field_letters(line);
    assert(line[0] == 'D');
    law_name_lists_read_back(names);
}

proof fn lemma_patterns_line(plan: PlanView, names: Seq<Seq<char>>)
    requires
        are_plain_names(names),
    ensures
        plan_line(plan, "PATTERNS: "@ + names_text(names)) == (PlanView { patterns: names, ..plan }),
{
    reveal_strlit("PATTERNS: ");
    reveal_strlit("PATTERNS:");
    reveal_strlit(" ");
    let value = names_text(names);
    let line = "PATTERNS:"@ + " "@ + value;
    assert("PATTERNS: "@ + value =~= line);
    lemma_names_are_bare(names);
    lemma_field_value("PATTERNS:"@, value);
    lemma_field_letters(line);
    assert(line[0] == 'P');
    law_name_lists_read_back(names);
}

proof fn lemma_task_start(plan: PlanView, first: Seq<char>)
    requires
        is_bare(first),
    ensures
        plan_line(plan, "TASK: "@ + first) == (PlanView { task: plan.task + first + "\n"@, ..plan }),
{
    reveal_strlit("TASK: ");
    reveal_strlit("TASK:");
    reveal_strlit(" ");
    let line = "TASK:"@ + " "@ + first;
    assert("TASK: "@ + first =~= line);
    lemma_field_value("TASK:"@, first);
    lemma_field_letters(line);
    assert(line[0] == 'T');
}

proof fn lemma_task_line(plan: PlanView, line: Seq<char>)
    requires
        is_task_line(line),
        plan.name is Some,
        !plan.fenced,
    ensures
        plan_line(plan, line) == (PlanView { task: plan.task + line + "\n"@, ..plan }),
{
}

proof fn lemma_task_lines(a: Seq<Seq<char>>, task: Seq<Seq<char>>)
    requires
        forall|i: int| 0 <= i < task.len() ==> is_task_line(#[trigger] task[i]),
        plan_lines(a).name is Some,
        !plan_lines(a).fenced,
    ensures
        plan_lines(a + task) == (PlanView {
            task: plan_lines(a).task + joined_behind(task),
            ..plan_lines(a)
        }),
    decreases task.len(),
{
    if task.len() == 0 {
        assert(a + task =~= a);
        assert(plan_lines(a).task + joined_behind(task) =~= plan_lines(a).task);
    } else {
        let less = task.drop_last();
        assert forall|i: int| 0 <= i < less.len() implies is_task_line(#[trigger] less[i]) by {
            assert(less[i] == task[i]);
        }
        lemma_task_lines(a, less);
        assert((a + task) =~= (a + less).push(task.last()));
        lemma_next_line(a + less, task.last());
        assert(is_task_line(task[task.len() - 1]));
        lemma_task_line(plan_lines(a + less), task.last());
        assert(plan_lines(a).task + joined_behind(less) + task.last() + "\n"@ =~= plan_lines(a).task
            + joined_behind(task));
    }
}

/// Lines, each with a newline behind it.
spec fn joined_behind(lines: Seq<Seq<char>>) -> Seq<char>
    decreases lines.len(),
{
    if lines.len() == 0 {
        Seq::empty()
    } else {
        joined_behind(lines.drop_last()) + lines.last() + "\n"@
    }
}

proof fn lemma_joined_behind(first: Seq<char>, rest: Seq<Seq<char>>)
    ensures
        first + "\n"@ + joined_behind(rest) == joined(seq![first] + rest, "\n"@) + "\n"@,
    decreases rest.len(),
{
    let all = seq![first] + rest;
    if rest.len() == 0 {
        assert(all[0] == first);
        assert(first + "\n"@ + joined_behind(rest) =~= joined(all, "\n"@) + "\n"@);
    } else {
        lemma_joined_behind(first, rest.drop_last());
        assert(all.drop_last() =~= seq![first] + rest.drop_last());
        assert(all.last() == rest.last());
        assert(first + "\n"@ + joined_behind(rest) =~= (first + "\n"@ + joined_behind(
            rest.drop_last(),
        )) + rest.last() + "\n"@);
        assert(joined(all, "\n"@) + "\n"@ =~= (joined(all.drop_last(), "\n"@) + "\n"@) + all.last()
            + "\n"@);
    }
}

/// A plan after the lines of a milestone: that milestone is open.
spec fn opened(
    plan: PlanView,
    m: MilestoneView,
    says: bool,
) -> PlanView {
    PlanView {
        done: closed_plan(plan).done,
        name: Some(m.name),
        risk: m.risk,
        task: m.task + "\n"@,
        depends_on: if says {
            Some(m.depends_on)
        } else {
            None
        },
        patterns: m.patterns,
        fenced: false,
    }
}

proof fn lemma_milestone_lines(
    a: Seq<Seq<char>>,
    m: MilestoneView,
    task: Seq<Seq<char>>,
    says: bool,
)
    requires
        is_writable_as(m, task),
    ensures
        plan_lines(a + milestone_lines(m, task, says)) == opened(plan_lines(a), m, says),
{
    let marker = "## MILESTONE: "@ + m.name;
    let risk = "RISK: "@ + (if m.risk == Risk::Easy {
        "EASY"@
    } else {
        "HARD"@
    });
    let depends = "DEPENDS_ON: "@ + names_text(m.depends_on);
    let patterns = "PATTERNS: "@ + names_text(m.patterns);
    let start = "TASK: "@ + task[0];
    let rest = task.skip(1);
    let l1 = a.push(marker);
    let l2 = l1.push(risk);
    let l3 = if says {
        l2.push(depends)
    } else {
        l2
    };
    let l4 = l3.push(patterns);
    let l5 = l4.push(start);
    lemma_next_line(a, marker);
    lemma_next_line(l1, risk);
    lemma_next_line(l2, depends);
    lemma_next_line(l3, patterns);
    lemma_next_line(l4, start);
    lemma_marker_line(plan_lines(a), m.name);
    lemma_risk_line(plan_lines(l1), m.risk);
    lemma_depends_line(plan_lines(l2), m.depends_on);
    lemma_patterns_line(plan_lines(l3), m.patterns);
    lemma_task_start(plan_lines(l4), task[0]);
    assert forall|i: int| 0 <= i < rest.len() implies is_task_line(#[trigger] rest[i]) by {
        assert(rest[i] == task[i + 1]);
    }
    lemma_task_lines(l5, rest);
    assert(a + milestone_lines(m, task, says) =~= l5 + rest);
    lemma_joined_behind(task[0], rest);
    assert(seq![task[0]] + rest =~= task);
    assert(closed_plan(plan_lines(a)).task =~= Seq::<char>::empty());
    assert(Seq::<char>::empty() + task[0] + "\n"@ + joined_behind(rest) =~= task[0] + "\n"@
        + joined_behind(rest));
}

/// The milestones as they are written.
spec fn written_as(ms: Seq<MilestoneView>, says: Seq<bool>, n: int) -> Seq<WrittenView> {
    Seq::new(
        n as nat,
        |i: int|
            WrittenView {
                name: ms[i].name,
                risk: ms[i].risk,
                task: ms[i].task,
                depends_on: if says[i] {
                    Some(ms[i].depends_on)
                } else {
                    None
                },
                patterns: ms[i].patterns,
            },
    )
}

proof fn lemma_task_is_bare(m: MilestoneView, task: Seq<Seq<char>>)
    requires
        is_writable_as(m, task),
    ensures
        is_bare(m.task),
{
    lemma_joined_ends(task);
}

proof fn lemma_joined_ends(list: Seq<Seq<char>>)
    requires
        list.len() > 0,
        list[0].len() > 0,
    ensures
        joined(list, "\n"@).len() > 0,
        joined(list, "\n"@)[0] == list[0][0],
        list.last().len() > 0 ==> joined(list, "\n"@).last() == list.last().last(),
    decreases list.len(),
{
    if list.len() > 1 {
        lemma_joined_ends(list.drop_last());
    }
}

proof fn lemma_all_lines(
    before: Seq<Seq<char>>,
    ms: Seq<MilestoneView>,
    tasks: Seq<Seq<Seq<char>>>,
    says: Seq<bool>,
    n: int,
)
    requires
        ms.len() == tasks.len() == says.len(),
        0 <= n <= ms.len(),
        forall|i: int| 0 <= i < ms.len() ==> is_writable_as(#[trigger] ms[i], tasks[i]),
        plan_lines(before).name is None,
        plan_lines(before).done.len() == 0,
    ensures
        closed_plan(plan_lines(before + all_milestone_lines(ms, tasks, says, n))).done
            == written_as(ms, says, n),
        n > 0 ==> plan_lines(before + all_milestone_lines(ms, tasks, says, n)).name is Some,
    decreases n,
{
    let lines = all_milestone_lines(ms, tasks, says, n);
    if n == 0 {
        assert(before + lines =~= before);
        assert(closed_plan(plan_lines(before)).done =~= written_as(ms, says, 0));
    } else {
        lemma_all_lines(before, ms, tasks, says, n - 1);
        let less = before + all_milestone_lines(ms, tasks, says, n - 1);
        let m = ms[n - 1];
        let block = milestone_lines(m, tasks[n - 1], says[n - 1]);
        assert(before + lines =~= less + block);
        lemma_milestone_lines(less, m, tasks[n - 1], says[n - 1]);
        lemma_task_is_bare(m, tasks[n - 1]);
        lemma_newline_behind(m.task);
        assert(closed_plan(plan_lines(before + lines)).done =~= written_as(ms, says, n));
    }
}

proof fn lemma_before_the_first(lines: Seq<Seq<char>>)
    requires
        forall|i: int|
            0 <= i < lines.len() ==> !("## MILESTONE:"@.is_prefix_of(trimmed(#[trigger] lines[i]))),
    ensures
        plan_lines(lines).name is None,
        plan_lines(lines).done.len() == 0,
    decreases lines.len(),
{
    if lines.len() > 0 {
        let less = lines.drop_last();
        assert forall|i: int| 0 <= i < less.len() implies !("## MILESTONE:"@.is_prefix_of(
            trimmed(#[trigger] less[i]),
        )) by {
            assert(less[i] == lines[i]);
        }
        lemma_before_the_first(less);
        assert(!("## MILESTONE:"@.is_prefix_of(trimmed(lines[lines.len() - 1]))));
    }
}

proof fn lemma_behind_the_fence(a: Seq<Seq<char>>, more: Seq<Seq<char>>)
    requires
        plan_lines(a).name is Some,
        plan_lines(a).fenced,
        forall|i: int| 0 <= i < more.len() ==> !is_field(#[trigger] more[i]),
    ensures
        plan_lines(a + more) == plan_lines(a),
    decreases more.len(),
{
    if more.len() == 0 {
        assert(a + more =~= a);
    } else {
        let less = more.drop_last();
        assert forall|i: int| 0 <= i < less.len() implies !is_field(#[trigger] less[i]) by {
            assert(less[i] == more[i]);
        }
        lemma_behind_the_fence(a, less);
        assert(a + more =~= (a + less).push(more.last()));
        lemma_next_line(a + less, more.last());
        assert(!is_field(more[more.len() - 1]));
    }
}

/// A plan reads as what is written in it: each milestone with its name, its risk, every line of
/// its task, the names of the milestones that it depends on, or the one before it where it says
/// nothing of that, and the names of its patterns. What stands before the first marker is dropped,
/// and so is what is said behind a closing fence.
pub proof fn law_plans_read_back(
    ms: Seq<MilestoneView>,
    tasks: Seq<Seq<Seq<char>>>,
    says: Seq<bool>,
    before: Seq<Seq<char>>,
    behind: Seq<Seq<char>>,
    text: Seq<char>,
)
    requires
        ms.len() == tasks.len() == says.len(),
        ms.len() > 0,
        forall|i: int| 0 <= i < ms.len() ==> is_writable_as(#[trigger] ms[i], tasks[i]),
        forall|i: int| 0 <= i < ms.len() && !says[i] ==> #[trigger] depends_by_default(ms, i),
        forall|i: int|
            0 <= i < before.len() ==> !("## MILESTONE:"@.is_prefix_of(
                trimmed(#[trigger] before[i]),
            )),
        forall|i: int| 0 <= i < behind.len() ==> !is_field(#[trigger] behind[i]),
        lines_of(text) == before + all_milestone_lines(ms, tasks, says, ms.len() as int) || lines_of(
            text,
        ) == before + all_milestone_lines(ms, tasks, says, ms.len() as int) + seq!["```"@] + behind,
    ensures
        plan_of(text) == ms,
{
    let n = ms.len() as int;
    let lines = before + all_milestone_lines(ms, tasks, says, n);
    lemma_before_the_first(before);
    lemma_all_lines(before, ms, tasks, says, n);
    lemma_text_of_lines(text, lines, behind);
    lemma_written_resolves(ms, tasks, says);
    lemma_plan_resolves(text, ms, written_as(ms, says, n));
}

proof fn lemma_text_of_lines(text: Seq<char>, lines: Seq<Seq<char>>, behind: Seq<Seq<char>>)
    requires
        plan_lines(lines).name is Some,
        forall|i: int| 0 <= i < behind.len() ==> !is_field(#[trigger] behind[i]),
        lines_of(text) == lines || lines_of(text) == lines + seq!["```"@] + behind,
    ensures
        written_plan(text) == closed_plan(plan_lines(lines)).done,
{
    lemma_fenced_plan(lines, behind);
}

proof fn lemma_plan_resolves(text: Seq<char>, ms: Seq<MilestoneView>, w: Seq<WrittenView>)
    requires
        written_plan(text) == w,
        w.len() == ms.len(),
        forall|i: int| 0 <= i < ms.len() ==> #[trigger] resolved(w, i) == ms[i],
    ensures
        plan_of(text) == ms,
{
    assert forall|i: int| 0 <= i < ms.len() implies plan_of(text)[i] == ms[i] by {
        assert(resolved(w, i) == ms[i]);
    }
    assert(plan_of(text) =~= ms);
}

proof fn lemma_fenced_plan(lines: Seq<Seq<char>>, behind: Seq<Seq<char>>)
    requires
        plan_lines(lines).name is Some,
        forall|i: int| 0 <= i < behind.len() ==> !is_field(#[trigger] behind[i]),
    ensures
        closed_plan(plan_lines(lines + seq!["```"@] + behind)).done == closed_plan(
            plan_lines(lines),
        ).done,
{
    let fenced = lines.push("```"@);
    lemma_next_line(lines, "```"@);
    reveal_strlit("```");
    lemma_trimmed_is_kept("```"@);
    lemma_field_letters("```"@);
    assert(plan_lines(fenced) == (PlanView { fenced: true, ..plan_lines(lines) }));
    lemma_behind_the_fence(fenced, behind);
    assert(lines + seq!["```"@] + behind =~= fenced + behind);
}

proof fn lemma_written_resolves(
    ms: Seq<MilestoneView>,
    tasks: Seq<Seq<Seq<char>>>,
    says: Seq<bool>,
)
    requires
        ms.len() == tasks.len() == says.len(),
        forall|i: int| 0 <= i < ms.len() && !says[i] ==> #[trigger] depends_by_default(ms, i),
    ensures
        forall|i: int|
            0 <= i < ms.len() ==> #[trigger] resolved(
                written_as(ms, says, ms.len() as int),
                i,
            ) == ms[i],
{
    let w = written_as(ms, says, ms.len() as int);
    assert forall|i: int| 0 <= i < ms.len() implies #[trigger] resolved(w, i) == ms[i] by {
        assert(w[i].name == ms[i].name);
        assert(!says[i] ==> depends_by_default(ms, i));
        if i > 0 {
            assert(w[i - 1].name == ms[i - 1].name);
        }
        assert(resolved(w, i).depends_on == ms[i].depends_on);
    }
}

proof fn lemma_bare_part_is_trimmed(s: Seq<char>, t: Seq<char>)
    requires
        is_bare(t),
        has(s, t),
    ensures
        has(trimmed(s), t),
{
    lemma_start_keeps(s, t);
    lemma_end_keeps(trimmed_start(s), t);
}

proof fn lemma_start_keeps(s: Seq<char>, t: Seq<char>)
    requires
        is_bare(t),
        has(s, t),
    ensures
        has(trimmed_start(s), t),
    decreases s.len(),
{
    if s.len() > 0 && is_space(s[0]) {
        let k = choose|k: int| occurs_at(s, t, k);
        assert(s.subrange(k, k + t.len())[0] == t[0]);
        assert(k > 0);
        let rest = s.skip(1);
        assert(rest.subrange(k - 1, k - 1 + t.len()) =~= s.subrange(k, k + t.len()));
        assert(occurs_at(rest, t, k - 1));
        lemma_start_keeps(rest, t);
    }
}

proof fn lemma_end_keeps(s: Seq<char>, t: Seq<char>)
    requires
        is_bare(t),
        has(s, t),
    ensures
        has(trimmed_end(s), t),
    decreases s.len(),
{
    if s.len() > 0 && is_space(s.last()) {
        let k = choose|k: int| occurs_at(s, t, k);
        let n = t.len() as int;
        assert(s.subrange(k, k + n)[n - 1] == t[n - 1]);
        assert(k + n < s.len());
        let rest = s.drop_last();
        assert(rest.subrange(k, k + n) =~= s.subrange(k, k + n));
        assert(occurs_at(rest, t, k));
        lemma_end_keeps(rest, t);
    }
}

proof fn lemma_trimmed_is_bare(s: Seq<char>)
    requires
        trimmed(s).len() > 0,
    ensures
        is_bare(trimmed(s)),
        has(s, trimmed(s)),
{
    lemma_trimmed_start_is_part(s);
    lemma_trimmed_end_is_part(trimmed_start(s));
    let a = trimmed_start(s);
    let b = trimmed(s);
    assert(b[0] == a[0]);
    assert(a.subrange(0, b.len() as int) =~= b);
    assert(occurs_at(a, b, 0));
    let k = s.len() - a.len();
    assert(s.subrange(k, k + a.len()) =~= a);
    assert(occurs_at(s, a, k));
    lemma_has_through(s, a, b);
}

proof fn lemma_trimmed_start_is_part(s: Seq<char>)
    ensures
        trimmed_start(s).len() <= s.len(),
        trimmed_start(s) == s.skip(s.len() - trimmed_start(s).len()),
        trimmed_start(s).len() > 0 ==> !is_space(trimmed_start(s)[0]),
    decreases s.len(),
{
    if s.len() > 0 && is_space(s[0]) {
        lemma_trimmed_start_is_part(s.skip(1));
        let t = trimmed_start(s);
        assert(s.skip(1).skip(s.len() - 1 - t.len()) =~= s.skip(s.len() - t.len()));
    } else {
        assert(s.skip(0) =~= s);
    }
}

proof fn lemma_trimmed_end_is_part(s: Seq<char>)
    ensures
        trimmed_end(s).len() <= s.len(),
        trimmed_end(s) == s.take(trimmed_end(s).len() as int),
        trimmed_end(s).len() > 0 ==> !is_space(trimmed_end(s).last()),
    decreases s.len(),
{
    if s.len() > 0 && is_space(s.last()) {
        lemma_trimmed_end_is_part(s.drop_last());
        let t = trimmed_end(s);
        assert(s.drop_last().take(t.len() as int) =~= s.take(t.len() as int));
    } else {
        assert(s.take(s.len() as int) =~= s);
    }
}

/// Whether a line opens a milestone.
pub open spec fn is_marker(line: Seq<char>) -> bool {
    "## MILESTONE:"@.is_prefix_of(trimmed(line))
}

/// Lines that open no milestone leave the open one open, take nothing from its task, and change none
/// that is complete.
proof fn lemma_open_milestone_goes_on(a: Seq<Seq<char>>, more: Seq<Seq<char>>)
    requires
        plan_lines(a).name is Some,
        forall|i: int| 0 <= i < more.len() ==> !is_marker(#[trigger] more[i]),
    ensures
        plan_lines(a + more).name == plan_lines(a).name,
        plan_lines(a + more).done == plan_lines(a).done,
        plan_lines(a).task.is_prefix_of(plan_lines(a + more).task),
        (forall|i: int| 0 <= i < more.len() ==> trimmed(#[trigger] more[i]) != "```"@)
            ==> plan_lines(a + more).fenced == plan_lines(a).fenced,
    decreases more.len(),
{
    if more.len() == 0 {
        assert(a + more =~= a);
    } else {
        let less = more.drop_last();
        assert forall|i: int| 0 <= i < less.len() implies !is_marker(#[trigger] less[i]) by {
            assert(less[i] == more[i]);
        }
        lemma_open_milestone_goes_on(a, less);
        assert(a + more =~= (a + less).push(more.last()));
        lemma_next_line(a + less, more.last());
        let before = plan_lines(a + less);
        let after = plan_lines(a + more);
        assert(!is_marker(more[more.len() - 1]));
        assert(before.task.is_prefix_of(after.task));
        assert(plan_lines(a).task =~= after.task.take(plan_lines(a).task.len() as int)) by {
            assert(plan_lines(a).task =~= before.task.take(plan_lines(a).task.len() as int));
            assert(before.task =~= after.task.take(before.task.len() as int));
        }
        if forall|i: int| 0 <= i < more.len() ==> trimmed(#[trigger] more[i]) != "```"@ {
            assert(trimmed(more[more.len() - 1]) != "```"@);
            assert forall|i: int| 0 <= i < less.len() implies trimmed(#[trigger] less[i])
                != "```"@ by {
                assert(less[i] == more[i]);
            }
        }
    }
}

/// A milestone that is complete stays as it is, whatever follows.
proof fn lemma_complete_milestones_stay(a: Seq<Seq<char>>, more: Seq<Seq<char>>)
    ensures
        plan_lines(a).done.is_prefix_of(plan_lines(a + more).done),
    decreases more.len(),
{
    if more.len() == 0 {
        assert(a + more =~= a);
    } else {
        lemma_complete_milestones_stay(a, more.drop_last());
        assert(a + more =~= (a + more.drop_last()).push(more.last()));
        lemma_next_line(a + more.drop_last(), more.last());
        let x = plan_lines(a).done;
        let y = plan_lines(a + more.drop_last()).done;
        let z = plan_lines(a + more).done;
        assert(y =~= z.take(y.len() as int));
        assert(x =~= y.take(x.len() as int));
        assert(x =~= z.take(x.len() as int));
    }
}

/// Every line of a milestone that is not blank, no field and no fence stands in its task, wherever
/// it stands between the marker and the next marker or a closing fence: before the other fields,
/// between them or behind them.
pub proof fn law_task_lines_stand_in_the_task(
    text: Seq<char>,
    a: Seq<Seq<char>>,
    name: Seq<char>,
    b: Seq<Seq<char>>,
    line: Seq<char>,
    c: Seq<Seq<char>>,
    rest: Seq<Seq<char>>,
)
    requires
        lines_of(text) == a + seq!["## MILESTONE: "@ + name] + b + seq![line] + c + rest,
        is_bare(name),
        forall|i: int|
            0 <= i < b.len() ==> !is_marker(#[trigger] b[i]) && trimmed(b[i]) != "```"@,
        is_task_line(line),
        forall|i: int| 0 <= i < c.len() ==> !is_marker(#[trigger] c[i]),
        rest.len() > 0 ==> is_marker(rest[0]),
    ensures
        exists|j: int|
            0 <= j < plan_of(text).len() && (#[trigger] plan_of(text)[j]).name == name && has(
                plan_of(text)[j].task,
                trimmed(line),
            ),
{
    let marker = "## MILESTONE: "@ + name;
    let l1 = a.push(marker);
    lemma_next_line(a, marker);
    lemma_marker_line(plan_lines(a), name);
    let l4 = l1 + b + seq![line] + c;
    lemma_line_is_in_open_task(l1, b, line, c);
    assert(lines_of(text) =~= l4 + rest);
    lemma_open_milestone_is_read(text, l4, rest, name);
    let n = plan_lines(l4).done.len() as int;
    assert(plan_of(text)[n].name == name);
}

/// A line of the task stands in the task of the milestone that is open.
proof fn lemma_line_is_in_open_task(
    l1: Seq<Seq<char>>,
    b: Seq<Seq<char>>,
    line: Seq<char>,
    c: Seq<Seq<char>>,
)
    requires
        plan_lines(l1).name is Some,
        !plan_lines(l1).fenced,
        forall|i: int|
            0 <= i < b.len() ==> !is_marker(#[trigger] b[i]) && trimmed(b[i]) != "```"@,
        is_task_line(line),
        forall|i: int| 0 <= i < c.len() ==> !is_marker(#[trigger] c[i]),
    ensures
        plan_lines(l1 + b + seq![line] + c).name == plan_lines(l1).name,
        has(trimmed(plan_lines(l1 + b + seq![line] + c).task), trimmed(line)),
{
    lemma_open_milestone_goes_on(l1, b);
    let l2 = l1 + b;
    let l3 = l2.push(line);
    assert(l2 + seq![line] =~= l3);
    lemma_next_line(l2, line);
    lemma_task_line(plan_lines(l2), line);
    lemma_open_milestone_goes_on(l3, c);
    lemma_line_is_in_task(plan_lines(l2).task, line, plan_lines(l3 + c).task);
}

proof fn lemma_line_is_in_task(before: Seq<char>, line: Seq<char>, task: Seq<char>)
    requires
        (before + line + "\n"@).is_prefix_of(task),
        trimmed(line).len() > 0,
    ensures
        has(trimmed(task), trimmed(line)),
{
    lemma_line_is_part(before, line, task);
    lemma_trimmed_is_bare(line);
    lemma_has_through(task, line, trimmed(line));
    lemma_bare_part_is_trimmed(task, trimmed(line));
}

proof fn lemma_line_is_part(before: Seq<char>, line: Seq<char>, task: Seq<char>)
    requires
        (before + line + "\n"@).is_prefix_of(task),
    ensures
        has(task, line),
{
    let part = before + line + "\n"@;
    let n = before.len() as int;
    assert forall|i: int| 0 <= i < part.len() implies part[i] == task[i] by {
        assert(task.subrange(0, part.len() as int)[i] == task[i]);
    }
    let x = task.subrange(n, n + line.len());
    assert forall|i: int| 0 <= i < line.len() implies x[i] == line[i] by {
        assert(part[n + i] == line[i]);
    }
    assert(x =~= line);
    assert(occurs_at(task, line, n));
}

/// A milestone that is open where the lines end, or where the next one is opened, is read with the
/// task that it then has.
proof fn lemma_open_milestone_is_read(
    text: Seq<char>,
    l4: Seq<Seq<char>>,
    rest: Seq<Seq<char>>,
    name: Seq<char>,
)
    requires
        lines_of(text) == l4 + rest,
        plan_lines(l4).name == Some(name),
        rest.len() > 0 ==> is_marker(rest[0]),
    ensures
        plan_lines(l4).done.len() < plan_of(text).len(),
        plan_of(text)[plan_lines(l4).done.len() as int].name == name,
        plan_of(text)[plan_lines(l4).done.len() as int].task == trimmed(plan_lines(l4).task),
{
    let open = plan_lines(l4);
    let n = open.done.len() as int;
    let closed = closed_plan(open).done;
    assert(closed[n].name == name && closed[n].task == trimmed(open.task));
    let written = written_plan(text);
    if rest.len() == 0 {
        assert(l4 + rest =~= l4);
        assert(written == closed);
    } else {
        let l5 = l4.push(rest[0]);
        lemma_next_line(l4, rest[0]);
        assert(plan_lines(l5).done == closed);
        lemma_complete_milestones_stay(l5, rest.skip(1));
        assert(l5 + rest.skip(1) =~= l4 + rest);
        let last = plan_lines(l4 + rest);
        assert(closed =~= last.done.take(closed.len() as int));
        assert(last.done[n] == closed[n]);
        assert(written[n] == closed[n]);
    }
    assert(plan_of(text)[n] == resolved(written, n));
}

} // verus!
