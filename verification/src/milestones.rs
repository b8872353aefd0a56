//! Milestone plans: how a plan is read, and in which order its milestones are built.

use crate::copied::{views, Copied};
use crate::glyphs::ascii_lower;
use crate::text::{
    after_prefix, chars_of, lines, lines_of, opt, pieces, same, split, strip_prefix, texts, trim,
    trimmed,
};
use vstd::prelude::*;
use vstd::string::StringExecFns;

verus! {

/// How likely a milestone is to fit its budget of iterations.
#[derive(Debug, Clone, Copy, PartialEq, Eq, Structural)]
pub enum Risk {
    Easy,
    Hard,
}

/// One piece of a plan.
#[derive(Debug, PartialEq)]
pub struct Milestone {
    pub name: String,
    pub risk: Risk,
    pub task: String,
    /// Names of the milestones that must be done before this one starts.
    pub depends_on: Vec<String>,
    /// Names of the implementer patterns that are prescribed for this milestone.
    pub patterns: Vec<String>,
}

/// A milestone, by its contents.
pub struct MilestoneView {
    pub name: Seq<char>,
    pub risk: Risk,
    pub task: Seq<char>,
    pub depends_on: Seq<Seq<char>>,
    pub patterns: Seq<Seq<char>>,
}

impl View for Milestone {
    type V = MilestoneView;

    open spec fn view(&self) -> MilestoneView {
        MilestoneView {
            name: self.name@,
            risk: self.risk,
            task: self.task@,
            depends_on: texts(self.depends_on@),
            patterns: texts(self.patterns@),
        }
    }
}

/// A list of the same texts.
pub fn copied_texts(list: &[String]) -> (r: Vec<String>)
    ensures
        texts(r@) == texts(list@),
{
    let mut out: Vec<String> = Vec::new();
    let mut i: usize = 0;
    while i < list.len()
        invariant
            i <= list@.len(),
            texts(out@) =~= texts(list@).take(i as int),
        decreases list@.len() - i,
    {
        let ghost had = out@;
        out.push(list[i].clone());
        assert(texts(out@) =~= texts(had).push(list@[i as int]@));
        i += 1;
    }
    assert(texts(list@).take(i as int) =~= texts(list@));
    out
}

impl Copied for Milestone {
    fn copied(&self) -> (r: Self) {
        Milestone {
            name: self.name.clone(),
            risk: self.risk,
            task: self.task.clone(),
            depends_on: copied_texts(self.depends_on.as_slice()),
            patterns: copied_texts(self.patterns.as_slice()),
        }
    }
}

/// A milestone as it is written. Without a `DEPENDS_ON` line its dependencies are not yet
/// known; an explicit `none` is an empty list.
pub struct WrittenView {
    pub name: Seq<char>,
    pub risk: Risk,
    pub task: Seq<char>,
    pub depends_on: Option<Seq<Seq<char>>>,
    pub patterns: Seq<Seq<char>>,
}

struct Written {
    name: String,
    risk: Risk,
    task: String,
    depends_on: Option<Vec<String>>,
    patterns: Vec<String>,
}

/// The view of an optional list of texts.
pub open spec fn opt_texts(o: Option<Vec<String>>) -> Option<Seq<Seq<char>>> {
    match o {
        Some(list) => Some(texts(list@)),
        None => None,
    }
}

impl View for Written {
    type V = WrittenView;

    closed spec fn view(&self) -> WrittenView {
        WrittenView {
            name: self.name@,
            risk: self.risk,
            task: self.task@,
            depends_on: opt_texts(self.depends_on),
            patterns: texts(self.patterns@),
        }
    }
}

/// A plan that is being read: the milestones that are complete, and the one that is open.
pub struct PlanView {
    pub done: Seq<WrittenView>,
    pub name: Option<Seq<char>>,
    pub risk: Risk,
    pub task: Seq<char>,
    pub depends_on: Option<Seq<Seq<char>>>,
    pub patterns: Seq<Seq<char>>,
    /// Whether a closing fence has ended the task of the open milestone.
    pub fenced: bool,
}

struct Plan {
    done: Vec<Written>,
    name: Option<String>,
    risk: Risk,
    task: String,
    depends_on: Option<Vec<String>>,
    patterns: Vec<String>,
    fenced: bool,
}

impl View for Plan {
    type V = PlanView;

    closed spec fn view(&self) -> PlanView {
        PlanView {
            done: views(self.done@),
            name: opt(self.name),
            risk: self.risk,
            task: self.task@,
            depends_on: opt_texts(self.depends_on),
            patterns: texts(self.patterns@),
            fenced: self.fenced,
        }
    }
}

/// Whether two texts are the same but for the case of ASCII letters.
pub open spec fn same_letters(a: Seq<char>, b: Seq<char>) -> bool {
    a.map_values(|c: char| ascii_lower(c)) == b.map_values(|c: char| ascii_lower(c))
}

/// The members of a list that are more than white space, without the white space around them.
pub open spec fn named(list: Seq<Seq<char>>) -> Seq<Seq<char>>
    decreases list.len(),
{
    if list.len() == 0 {
        Seq::empty()
    } else if trimmed(list.last()).len() == 0 {
        named(list.drop_last())
    } else {
        named(list.drop_last()).push(trimmed(list.last()))
    }
}

/// The names in a comma-separated list; none in `none`.
pub open spec fn names_in(value: Seq<char>) -> Seq<Seq<char>> {
    if trimmed(value).len() == 0 || same_letters(trimmed(value), "none"@) {
        Seq::empty()
    } else {
        named(pieces(trimmed(value), ','))
    }
}

/// A plan with its open milestone completed. What was read while none was open is dropped.
pub open spec fn closed_plan(plan: PlanView) -> PlanView {
    match plan.name {
        None => PlanView {
            risk: Risk::Hard,
            task: Seq::empty(),
            depends_on: None,
            patterns: Seq::empty(),
            ..plan
        },
        Some(name) => PlanView {
            done: plan.done.push(
                WrittenView {
                    name,
                    risk: plan.risk,
                    task: trimmed(plan.task),
                    depends_on: plan.depends_on,
                    patterns: plan.patterns,
                },
            ),
            name: None,
            risk: Risk::Hard,
            task: Seq::empty(),
            depends_on: None,
            patterns: Seq::empty(),
            fenced: plan.fenced,
        },
    }
}

/// A plan after one more line. A marker opens the next milestone. A garbled risk counts as
/// hard. A closing fence ends the task until the next marker.
pub open spec fn plan_line(plan: PlanView, line: Seq<char>) -> PlanView {
    let t = trimmed(line);
    match after_prefix(t, "## MILESTONE:"@) {
        Some(rest) => PlanView {
            name: Some(trimmed(rest)),
            fenced: false,
            ..closed_plan(plan)
        },
        None => match after_prefix(t, "RISK:"@) {
            Some(rest) => PlanView {
                risk: if same_letters(trimmed(rest), "EASY"@) {
                    Risk::Easy
                } else {
                    Risk::Hard
                },
                ..plan
            },
            None => match after_prefix(t, "DEPENDS_ON:"@) {
                Some(rest) => PlanView { depends_on: Some(names_in(rest)), ..plan },
                None => match after_prefix(t, "PATTERNS:"@) {
                    Some(rest) => PlanView { patterns: names_in(rest), ..plan },
                    None => match after_prefix(t, "TASK:"@) {
                        Some(rest) => PlanView {
                            task: plan.task + trimmed(rest) + "\n"@,
                            ..plan
                        },
                        None => if t == "```"@ {
                            PlanView { fenced: plan.fenced || plan.name is Some, ..plan }
                        } else if plan.name is Some && !plan.fenced && t.len() > 0 {
                            PlanView { task: plan.task + line + "\n"@, ..plan }
                        } else {
                            plan
                        },
                    },
                },
            },
        },
    }
}

/// A plan of which nothing has been read.
pub open spec fn empty_plan() -> PlanView {
    PlanView {
        done: Seq::empty(),
        name: None,
        risk: Risk::Hard,
        task: Seq::empty(),
        depends_on: None,
        patterns: Seq::empty(),
        fenced: false,
    }
}

/// The plan after `lines`.
pub open spec fn plan_lines(lines: Seq<Seq<char>>) -> PlanView
    decreases lines.len(),
{
    if lines.len() == 0 {
        empty_plan()
    } else {
        plan_line(plan_lines(lines.drop_last()), lines.last())
    }
}

/// The milestones as they are written in a plan.
pub open spec fn written_plan(text: Seq<char>) -> Seq<WrittenView> {
    closed_plan(plan_lines(lines_of(text))).done
}

/// The milestone at `i` of a written plan. Where it names no dependencies it depends on the
/// one before it.
pub open spec fn resolved(written: Seq<WrittenView>, i: int) -> MilestoneView {
    let w = written[i];
    MilestoneView {
        name: w.name,
        risk: w.risk,
        task: w.task,
        depends_on: match w.depends_on {
            Some(names) => names,
            None => if i == 0 {
                Seq::empty()
            } else {
                seq![written[i - 1].name]
            },
        },
        patterns: w.patterns,
    }
}

/// The milestones of a plan, in the order in which they are written.
pub open spec fn plan_of(text: Seq<char>) -> Seq<MilestoneView> {
    let written = written_plan(text);
    Seq::new(written.len(), |i: int| resolved(written, i))
}

fn lower(c: char) -> (r: u32)
    ensures
        r == ascii_lower(c) as int,
{
    let n: u32 = c as u32;
    if 65 <= n && n <= 90 {
        n + 32
    } else {
        n
    }
}

/// Whether two texts are the same but for the case of ASCII letters.
pub fn eq_ignore_ascii_case(a: &str, b: &str) -> (r: bool)
    ensures
        r == same_letters(a@, b@),
{
    let x = chars_of(a);
    let y = chars_of(b);
    let ghost u = a@.map_values(|c: char| ascii_lower(c));
    let ghost v = b@.map_values(|c: char| ascii_lower(c));
    if x.len() != y.len() {
        assert(u.len() != v.len());
        return false;
    }
    let mut i: usize = 0;
    while i < x.len()
        invariant
            i <= x@.len(),
            x@.len() == y@.len(),
            x@ == a@,
            y@ == b@,
            u == a@.map_values(|c: char| ascii_lower(c)),
            v == b@.map_values(|c: char| ascii_lower(c)),
            forall|j: int| 0 <= j < i ==> u[j] == v[j],
        decreases x@.len() - i,
    {
        if lower(x[i]) != lower(y[i]) {
            assert(u[i as int] != v[i as int]);
            return false;
        }
        i += 1;
    }
    assert(u =~= v);
    true
}

/// The names in a comma-separated list.
fn parse_names(value: &str) -> (r: Vec<String>)
    ensures
        texts(r@) == names_in(value@),
{
    let value = trim(value);
    let mut out: Vec<String> = Vec::new();
    assert(texts(out@) =~= Seq::<Seq<char>>::empty());
    if value.as_str().is_empty() || eq_ignore_ascii_case(value.as_str(), "none") {
        return out;
    }
    let parts = split(value.as_str(), ',');
    let ghost all = texts(parts@);
    let mut i: usize = 0;
    assert(all.take(0) =~= Seq::<Seq<char>>::empty());
    while i < parts.len()
        invariant
            i <= parts@.len(),
            all == texts(parts@),
            texts(out@) == named(all.take(i as int)),
        decreases parts@.len() - i,
    {
        let ghost had = out@;
        let name = trim(parts[i].as_str());
        assert(all.take(i + 1).drop_last() =~= all.take(i as int));
        assert(all.take(i + 1).last() == parts@[i as int]@);
        if !name.as_str().is_empty() {
            out.push(name);
            assert(texts(out@) =~= texts(had).push(name@));
        }
        i += 1;
    }
    assert(all.take(i as int) =~= all);
    out
}

impl Plan {
    /// Completes the open milestone.
    fn close(self) -> (r: Plan)
        ensures
            r@ == closed_plan(self@),
    {
        let mut plan = self;
        let ghost had = plan.done@;
        match plan.name {
            None => {
                plan.risk = Risk::Hard;
                plan.task = String::new();
                plan.depends_on = None;
                plan.patterns = Vec::new();
                assert(plan.task@ =~= Seq::<char>::empty());
                assert(texts(plan.patterns@) =~= Seq::<Seq<char>>::empty());
            },
            Some(name) => {
                let written = Written {
                    name,
                    risk: plan.risk,
                    task: trim(plan.task.as_str()),
                    depends_on: plan.depends_on,
                    patterns: plan.patterns,
                };
                let ghost view = written@;
                plan.done.push(written);
                assert(views(plan.done@) =~= views(had).push(view));
                plan.name = None;
                plan.risk = Risk::Hard;
                plan.task = String::new();
                plan.depends_on = None;
                plan.patterns = Vec::new();
                assert(plan.task@ =~= Seq::<char>::empty());
                assert(texts(plan.patterns@) =~= Seq::<Seq<char>>::empty());
            },
        }
        plan
    }

    /// Reads one more line.
    fn read(self, line: &str) -> (r: Plan)
        ensures
            r@ == plan_line(self@, line@),
    {
        let mut plan = self;
        let t = trim(line);
        if let Some(rest) = strip_prefix(t.as_str(), "## MILESTONE:") {
            plan = plan.close();
            plan.name = Some(trim(rest.as_str()));
            plan.fenced = false;
        } else if let Some(rest) = strip_prefix(t.as_str(), "RISK:") {
            plan.risk = if eq_ignore_ascii_case(trim(rest.as_str()).as_str(), "EASY") {
                Risk::Easy
            } else {
                Risk::Hard
            };
        } else if let Some(rest) = strip_prefix(t.as_str(), "DEPENDS_ON:") {
            plan.depends_on = Some(parse_names(rest.as_str()));
        } else if let Some(rest) = strip_prefix(t.as_str(), "PATTERNS:") {
            plan.patterns = parse_names(rest.as_str());
        } else if let Some(rest) = strip_prefix(t.as_str(), "TASK:") {
            plan.task.append(trim(rest.as_str()).as_str());
            plan.task.append("\n");
        } else if same(t.as_str(), "```") {
            if plan.name.is_some() {
                plan.fenced = true;
            }
        } else if plan.name.is_some() && !plan.fenced && !t.as_str().is_empty() {
            plan.task.append(line);
            plan.task.append("\n");
        }
        plan
    }
}

/// The milestones of a plan.
pub fn parse_milestone_plan(text: &str) -> (r: Vec<Milestone>)
    ensures
        views(r@) == plan_of(text@),
{
    let all = lines(text);
    let ghost lines = texts(all@);
    let mut plan = Plan {
        done: Vec::new(),
        name: None,
        risk: Risk::Hard,
        task: String::new(),
        depends_on: None,
        patterns: Vec::new(),
        fenced: false,
    };
    let mut i: usize = 0;
    assert(lines.take(0) =~= Seq::<Seq<char>>::empty());
    assert(plan@.done =~= Seq::<WrittenView>::empty());
    assert(plan@.patterns =~= Seq::<Seq<char>>::empty());
    assert(plan@.task =~= Seq::<char>::empty());
    while i < all.len()
        invariant
            i <= all@.len(),
            lines == texts(all@),
            plan@ == plan_lines(lines.take(i as int)),
        decreases all@.len() - i,
    {
        plan = plan.read(all[i].as_str());
        assert(lines.take(i + 1).drop_last() =~= lines.take(i as int));
        assert(lines.take(i + 1).last() == all@[i as int]@);
        i += 1;
    }
    assert(lines.take(i as int) =~= lines);
    let done = plan.close().done;
    let ghost written = written_plan(text@);
    assert(views(done@) == written);
    let mut out: Vec<Milestone> = Vec::new();
    let mut k: usize = 0;
    while k < done.len()
        invariant
            k <= done@.len(),
            views(done@) == written,
            out@.len() == k,
            forall|j: int| 0 <= j < k ==> (#[trigger] out@[j])@ == resolved(written, j),
        decreases done@.len() - k,
    {
        let w = &done[k];
        assert(written[k as int] == w@);
        let depends_on: Vec<String> = match &w.depends_on {
            Some(names) => copied_texts(names.as_slice()),
            None => {
                let mut names: Vec<String> = Vec::new();
                if k > 0 {
                    assert(written[k - 1] == done@[k - 1]@);
                    names.push(done[k - 1].name.clone());
                    assert(texts(names@) =~= seq![written[k - 1].name]);
                } else {
                    assert(texts(names@) =~= Seq::<Seq<char>>::empty());
                }
                names
            },
        };
        out.push(
            Milestone {
                name: w.name.clone(),
                risk: w.risk,
                task: w.task.clone(),
                depends_on,
                patterns: copied_texts(w.patterns.as_slice()),
            },
        );
        k += 1;
    }
    assert(views(out@) =~= plan_of(text@));
    out
}

} // verus!
