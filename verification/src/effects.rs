//! What the synthesis of a crate asks of the outside, and what it is answered.

use crate::copied::{opt_view, views};
use crate::milestones::{Milestone, MilestoneView};
use crate::numbers::{
    decimal, decimal_text, is_digit, law_decimal_reads_back, lemma_decimal_digits, parse_usize, unsigned_of,
};
use crate::sections::Sections;
use crate::steps::{seen, Pause, PauseView, Step, StepView};
use crate::text::{lemma_trimmed_is_kept, trim, trimmed};
use crate::workspace::Workspace;
use vstd::prelude::*;
use vstd::string::StringExecFns;

verus! {

/// One chunk of a large source, for an agent of its own.
#[derive(Debug)]
pub struct ChunkTask {
    pub index: usize,
    pub agent: String,
    pub system: String,
    pub task: String,
    /// The checkpoint under which the answer is kept.
    pub id: String,
}

/// A chunk, by its contents.
pub struct ChunkTaskView {
    pub index: int,
    pub agent: Seq<char>,
    pub system: Seq<char>,
    pub task: Seq<char>,
    pub id: Seq<char>,
}

impl View for ChunkTask {
    type V = ChunkTaskView;

    open spec fn view(&self) -> ChunkTaskView {
        ChunkTaskView {
            index: self.index as int,
            agent: self.agent@,
            system: self.system@,
            task: self.task@,
            id: self.id@,
        }
    }
}

/// One of several milestones that are built side by side, each in a workspace of its own.
#[derive(Debug)]
pub struct Branch {
    pub id_prefix: String,
    pub milestone: Milestone,
    pub depth: usize,
    pub variant: String,
    /// What its agents are given.
    pub worker_system: String,
    pub contract: String,
    pub schema: String,
    pub max_iter: usize,
}

/// A branch, by its contents.
pub struct BranchView {
    pub id_prefix: Seq<char>,
    pub milestone: MilestoneView,
    pub depth: int,
    pub variant: Seq<char>,
    pub worker_system: Seq<char>,
    pub contract: Seq<char>,
    pub schema: Seq<char>,
    pub max_iter: nat,
}

impl View for Branch {
    type V = BranchView;

    open spec fn view(&self) -> BranchView {
        BranchView {
            id_prefix: self.id_prefix@,
            milestone: self.milestone@,
            depth: self.depth as int,
            variant: self.variant@,
            worker_system: self.worker_system@,
            contract: self.contract@,
            schema: self.schema@,
            max_iter: self.max_iter as nat,
        }
    }
}

/// A question of the synthesis.
#[derive(Debug)]
pub enum Effect {
    /// Let an agent answer a task, on the given slot if there is one.
    Agent { agent: String, system: String, task: String, slot: Option<usize> },
    /// Let an agent answer a task with tools, in at most so many turns.
    Agentic { agent: String, system: String, task: String, max_turns: usize },
    /// Build, lint and test a draft in the workspace of `variant`.
    Gate { code: String, variant: Option<String> },
    /// Read an artifact, if it is there.
    Recall { name: String },
    /// Write an artifact.
    Store { name: String, content: String },
    /// Record a deviation.
    Deviation { agent: String, text: String },
    /// Record a decision.
    Decision { agent: String, text: String },
    /// Tell that a stage begins.
    Stage { title: String },
    /// Count the slots that can write code right now.
    Slots,
    /// Make a workspace for variant `to`, with the manifest of `from`.
    Seed { from: Option<String>, to: String },
    /// Let an agent answer each chunk, side by side.
    Chunks { chunks: Vec<ChunkTask> },
    /// Build milestones side by side.
    Branches { branches: Vec<Branch> },
    /// Read the test matrix.
    Matrix,
    /// Read the whole source.
    Source,
}

/// A question of the synthesis, by its contents.
pub enum EffectView {
    Agent { agent: Seq<char>, system: Seq<char>, task: Seq<char>, slot: Option<usize> },
    Agentic { agent: Seq<char>, system: Seq<char>, task: Seq<char>, max_turns: int },
    Gate { code: Seq<char>, variant: Option<Seq<char>> },
    Recall { name: Seq<char> },
    Store { name: Seq<char>, content: Seq<char> },
    Deviation { agent: Seq<char>, text: Seq<char> },
    Decision { agent: Seq<char>, text: Seq<char> },
    Stage { title: Seq<char> },
    Slots,
    Seed { from: Option<Seq<char>>, to: Seq<char> },
    Chunks { chunks: Seq<ChunkTaskView> },
    Branches { branches: Seq<BranchView> },
    Matrix,
    Source,
}

impl View for Effect {
    type V = EffectView;

    open spec fn view(&self) -> EffectView {
        match self {
            Effect::Agent { agent, system, task, slot } => EffectView::Agent {
                agent: agent@,
                system: system@,
                task: task@,
                slot: *slot,
            },
            Effect::Agentic { agent, system, task, max_turns } => EffectView::Agentic {
                agent: agent@,
                system: system@,
                task: task@,
                max_turns: *max_turns as int,
            },
            Effect::Gate { code, variant } => EffectView::Gate {
                code: code@,
                variant: opt_view(*variant),
            },
            Effect::Recall { name } => EffectView::Recall { name: name@ },
            Effect::Store { name, content } => EffectView::Store { name: name@, content: content@ },
            Effect::Deviation { agent, text } => EffectView::Deviation {
                agent: agent@,
                text: text@,
            },
            Effect::Decision { agent, text } => EffectView::Decision { agent: agent@, text: text@ },
            Effect::Stage { title } => EffectView::Stage { title: title@ },
            Effect::Slots => EffectView::Slots,
            Effect::Seed { from, to } => EffectView::Seed { from: opt_view(*from), to: to@ },
            Effect::Chunks { chunks } => EffectView::Chunks { chunks: views(chunks@) },
            Effect::Branches { branches } => EffectView::Branches { branches: views(branches@) },
            Effect::Matrix => EffectView::Matrix,
            Effect::Source => EffectView::Source,
        }
    }
}

/// An answer to a question of the synthesis.
#[derive(Debug)]
pub enum Reply {
    /// What an agent said, or what was read.
    Text(String),
    /// What a draft looks like once it is formatted, and what is wrong with it.
    Gated { clean: String, errors: String },
    /// An artifact, if it was there.
    Found(Option<String>),
    /// It was done.
    Done,
    /// How many there are.
    Count(usize),
    /// What was said of each chunk, or why nothing was.
    Texts(Vec<Result<String, String>>),
    /// What each branch came to, or why it failed.
    Files(Vec<Result<Sections, String>>),
}

/// What the synthesis comes to.
pub type Work<T> = Step<T, Effect>;

/// What the synthesis comes to, by its contents.
pub type WorkView<V> = StepView<V, EffectView>;

/// An agent's answer to `e`.
pub open spec fn text_for(e: EffectView, log: Seq<Reply>, at: int) -> WorkView<Seq<char>> {
    if 0 <= at < log.len() && log[at] is Text {
        Ok((log[at]->Text_0@, at + 1))
    } else {
        Err(PauseView::Ask(e))
    }
}

/// An agent's answer to `e`.
pub fn ask_text(e: Effect, log: &[Reply], at: usize) -> (r: Work<String>)
    ensures
        seen(r) == text_for(e@, log@, at as int),
{
    if at < log.len() {
        if let Reply::Text(text) = &log[at] {
            return Ok((text.clone(), at + 1));
        }
    }
    Err(Pause::Ask(e))
}

/// The assurance that `e` was done.
pub open spec fn done_for(e: EffectView, log: Seq<Reply>, at: int) -> WorkView<()> {
    if 0 <= at < log.len() && log[at] is Done {
        Ok(((), at + 1))
    } else {
        Err(PauseView::Ask(e))
    }
}

/// The assurance that `e` was done.
pub fn ask_done(e: Effect, log: &[Reply], at: usize) -> (r: Work<()>)
    ensures
        seen(r) == done_for(e@, log@, at as int),
{
    if at < log.len() {
        if let Reply::Done = &log[at] {
            return Ok(((), at + 1));
        }
    }
    Err(Pause::Ask(e))
}

/// The artifact that `e` asks for, if it is there.
pub open spec fn found_for(e: EffectView, log: Seq<Reply>, at: int) -> WorkView<
    Option<Seq<char>>,
> {
    if 0 <= at < log.len() && log[at] is Found {
        Ok((opt_view(log[at]->Found_0), at + 1))
    } else {
        Err(PauseView::Ask(e))
    }
}

/// The artifact that `e` asks for, if it is there.
pub fn ask_found(e: Effect, log: &[Reply], at: usize) -> (r: Work<Option<String>>)
    ensures
        match r {
            Ok((v, next)) => found_for(e@, log@, at as int) == Ok::<
                (Option<Seq<char>>, int),
                PauseView<EffectView>,
            >((opt_view(v), next as int)),
            Err(p) => found_for(e@, log@, at as int) == Err::<
                (Option<Seq<char>>, int),
                PauseView<EffectView>,
            >(p@),
        },
{
    if at < log.len() {
        if let Reply::Found(found) = &log[at] {
            let copy = match found {
                Some(text) => Some(text.clone()),
                None => None,
            };
            return Ok((copy, at + 1));
        }
    }
    Err(Pause::Ask(e))
}

/// What the quality gate says of a draft: the formatted draft, and what is wrong with it.
pub open spec fn gated_for(e: EffectView, log: Seq<Reply>, at: int) -> WorkView<
    (Seq<char>, Seq<char>),
> {
    if 0 <= at < log.len() && log[at] is Gated {
        Ok(((log[at]->clean@, log[at]->errors@), at + 1))
    } else {
        Err(PauseView::Ask(e))
    }
}

/// What the quality gate says of a draft.
pub fn ask_gated(e: Effect, log: &[Reply], at: usize) -> (r: Work<(String, String)>)
    ensures
        seen(r) == gated_for(e@, log@, at as int),
{
    if at < log.len() {
        if let Reply::Gated { clean, errors } = &log[at] {
            return Ok(((clean.clone(), errors.clone()), at + 1));
        }
    }
    Err(Pause::Ask(e))
}

/// The number that `e` asks for.
pub open spec fn count_for(e: EffectView, log: Seq<Reply>, at: int) -> WorkView<usize> {
    if 0 <= at < log.len() && log[at] is Count {
        Ok((log[at]->Count_0, at + 1))
    } else {
        Err(PauseView::Ask(e))
    }
}

/// The number that `e` asks for.
pub fn ask_count(e: Effect, log: &[Reply], at: usize) -> (r: Work<usize>)
    ensures
        seen(r) == count_for(e@, log@, at as int),
{
    if at < log.len() {
        if let Reply::Count(n) = &log[at] {
            return Ok((*n, at + 1));
        }
    }
    Err(Pause::Ask(e))
}

/// Where the answer under a checkpoint is kept.
pub open spec fn checkpoint_name(id: Seq<char>) -> Seq<char> {
    "synthesis/"@ + id + ".md"@
}

/// Where the answer under a gate is kept.
pub open spec fn gate_name(id: Seq<char>) -> Seq<char> {
    "synthesis/"@ + id + ".gate"@
}

/// The answer that is kept under checkpoint `id`, if there is one.
pub open spec fn recalled(id: Seq<char>, log: Seq<Reply>, at: int) -> WorkView<Option<Seq<char>>> {
    found_for(EffectView::Recall { name: checkpoint_name(id) }, log, at)
}

/// `text`, once it is kept under checkpoint `id`.
pub open spec fn stored(id: Seq<char>, text: Seq<char>, log: Seq<Reply>, at: int) -> WorkView<
    Seq<char>,
> {
    match done_for(EffectView::Store { name: checkpoint_name(id), content: text }, log, at) {
        Err(p) => Err(p),
        Ok((_, at)) => Ok((text, at)),
    }
}

/// The answer to one question, under a checkpoint: the one that is kept, where there is one;
/// else a new one, which is kept.
pub open spec fn checkpointed(id: Seq<char>, e: EffectView, log: Seq<Reply>, at: int) -> WorkView<
    Seq<char>,
> {
    match recalled(id, log, at) {
        Err(p) => Err(p),
        Ok((Some(text), at)) => Ok((text, at)),
        Ok((None, at)) => match text_for(e, log, at) {
            Err(p) => Err(p),
            Ok((text, at)) => stored(id, text, log, at),
        },
    }
}

/// The answer that is kept under checkpoint `id`, if there is one.
pub fn recall(id: &str, log: &[Reply], at: usize) -> (r: Work<Option<String>>)
    ensures
        match r {
            Ok((v, next)) => recalled(id@, log@, at as int) == Ok::<
                (Option<Seq<char>>, int),
                PauseView<EffectView>,
            >((opt_view(v), next as int)),
            Err(p) => recalled(id@, log@, at as int) == Err::<
                (Option<Seq<char>>, int),
                PauseView<EffectView>,
            >(p@),
        },
{
    ask_found(
        Effect::Recall { name: "synthesis/".to_owned().concat(id).concat(".md") },
        log,
        at,
    )
}

/// `text`, once it is kept under checkpoint `id`.
pub fn store(id: &str, text: String, log: &[Reply], at: usize) -> (r: Work<String>)
    ensures
        seen(r) == stored(id@, text@, log@, at as int),
{
    let (_, at) = ask_done(
        Effect::Store {
            name: "synthesis/".to_owned().concat(id).concat(".md"),
            content: text.clone(),
        },
        log,
        at,
    )?;
    Ok((text, at))
}

/// The number that is kept under gate `id`, where there is one; else the one that `e` asks for,
/// but no less than `least`, which is kept. An artifact that holds no number counts as none.
pub open spec fn pinned(
    id: Seq<char>,
    e: EffectView,
    least: usize,
    log: Seq<Reply>,
    at: int,
) -> WorkView<usize> {
    match found_for(EffectView::Recall { name: gate_name(id) }, log, at) {
        Err(p) => Err(p),
        Ok((kept, at)) => match kept_number(kept) {
            Some(n) => Ok((n, at)),
            None => match count_for(e, log, at) {
                Err(p) => Err(p),
                Ok((found, at)) => {
                    let n = if found < least {
                        least
                    } else {
                        found
                    };
                    match done_for(
                        EffectView::Store { name: gate_name(id), content: decimal(n as nat) },
                        log,
                        at,
                    ) {
                        Err(p) => Err(p),
                        Ok((_, at)) => Ok((n, at)),
                    }
                },
            },
        },
    }
}

/// The number that an artifact holds.
pub open spec fn kept_number(kept: Option<Seq<char>>) -> Option<usize> {
    match kept {
        None => None,
        Some(text) => match unsigned_of(trimmed(text), usize::MAX as nat) {
            Some(n) => Some(n as usize),
            None => None,
        },
    }
}

impl Workspace {
    /// The answer to one question, under a checkpoint. A run that is taken up again replays
    /// every checkpoint that holds an answer and works only on the first that holds none.
    pub fn checkpoint(id: &str, e: Effect, log: &[Reply], at: usize) -> (r: Work<String>)
        ensures
            seen(r) == checkpointed(id@, e@, log@, at as int),
    {
        let (kept, at) = recall(id, log, at)?;
        match kept {
            Some(text) => Ok((text, at)),
            None => {
                let (text, at) = ask_text(e, log, at)?;
                store(id, text, log, at)
            },
        }
    }

    /// A number that is not a function of the answers so far, such as how many providers are
    /// healthy: the first answer is kept, so that a run that is taken up again goes by it.
    pub fn gate_usize(id: &str, e: Effect, least: usize, log: &[Reply], at: usize) -> (r: Work<
        usize,
    >)
        ensures
            seen(r) == pinned(id@, e@, least, log@, at as int),
    {
        let name = "synthesis/".to_owned().concat(id).concat(".gate");
        let (kept, at) = ask_found(Effect::Recall { name: name.clone() }, log, at)?;
        if let Some(text) = kept {
            if let Some(n) = parse_usize(trim(text.as_str()).as_str()) {
                return Ok((n, at));
            }
        }
        let (found, at) = ask_count(e, log, at)?;
        let n: usize = if found < least {
            least
        } else {
            found
        };
        let (_, at) = ask_done(
            Effect::Store { name, content: decimal_text(n as u64) },
            log,
            at,
        )?;
        Ok((n, at))
    }
}

/// A checkpoint that holds an answer gives it back, and nothing is asked.
pub proof fn law_checkpoints_replay(
    id: Seq<char>,
    e: EffectView,
    log: Seq<Reply>,
    at: int,
    kept: String,
)
    requires
        0 <= at < log.len(),
        log[at] == Reply::Found(Some(kept)),
    ensures
        checkpointed(id, e, log, at) == Ok::<(Seq<char>, int), PauseView<EffectView>>(
            (kept@, at + 1),
        ),
{
}

/// A checkpoint that holds no answer asks for one, keeps it under its own name, and gives it
/// back.
pub proof fn law_checkpoints_keep(
    id: Seq<char>,
    e: EffectView,
    log: Seq<Reply>,
    at: int,
    text: String,
)
    requires
        0 <= at <= log.len() - 3,
        log[at] == Reply::Found(None),
        log[at + 1] == Reply::Text(text),
        log[at + 2] is Done,
    ensures
        checkpointed(id, e, log.take(at), at) == Err::<(Seq<char>, int), PauseView<EffectView>>(
            PauseView::Ask(EffectView::Recall { name: checkpoint_name(id) }),
        ),
        checkpointed(id, e, log.take(at + 1), at) == Err::<
            (Seq<char>, int),
            PauseView<EffectView>,
        >(PauseView::Ask(e)),
        checkpointed(id, e, log.take(at + 2), at) == Err::<
            (Seq<char>, int),
            PauseView<EffectView>,
        >(PauseView::Ask(EffectView::Store { name: checkpoint_name(id), content: text@ })),
        checkpointed(id, e, log, at) == Ok::<(Seq<char>, int), PauseView<EffectView>>(
            (text@, at + 3),
        ),
{
    assert(log.take(at + 1)[at] == log[at]);
    assert(log.take(at + 2)[at] == log[at]);
    assert(log.take(at + 2)[at + 1] == log[at + 1]);
}

/// A gate goes by the number that it kept, whatever would be answered now.
pub proof fn law_gates_pin_the_first_answer(
    id: Seq<char>,
    e: EffectView,
    log: Seq<Reply>,
    at: int,
    n: usize,
    least: usize,
    kept: String,
)
    requires
        0 <= at < log.len(),
        kept@ == decimal(n as nat),
        log[at] == Reply::Found(Some(kept)),
    ensures
        pinned(id, e, least, log, at) == Ok::<(usize, int), PauseView<EffectView>>((n, at + 1)),
{
    law_decimal_reads_back(n as nat, usize::MAX as nat);
    lemma_decimal_is_trimmed(n as nat);
}

proof fn lemma_decimal_is_trimmed(n: nat)
    ensures
        trimmed(decimal(n)) == decimal(n),
{
    lemma_decimal_digits(n);
    assert(is_digit(decimal(n)[0]));
    assert(is_digit(decimal(n)[decimal(n).len() - 1]));
    lemma_trimmed_is_kept(decimal(n));
}

/// Different checkpoints are kept under different names.
pub proof fn law_checkpoints_do_not_collide(a: Seq<char>, b: Seq<char>)
    requires
        a != b,
    ensures
        checkpoint_name(a) != checkpoint_name(b),
        gate_name(a) != gate_name(b),
        checkpoint_name(a) != gate_name(b),
{
    reveal_strlit("synthesis/");
    reveal_strlit(".md");
    reveal_strlit(".gate");
    let n: int = "synthesis/"@.len() as int;
    if checkpoint_name(a) == checkpoint_name(b) {
        assert(checkpoint_name(a).subrange(n, checkpoint_name(a).len() - 3) =~= a);
        assert(checkpoint_name(b).subrange(n, checkpoint_name(b).len() - 3) =~= b);
    }
    if gate_name(a) == gate_name(b) {
        assert(gate_name(a).subrange(n, gate_name(a).len() - 5) =~= a);
        assert(gate_name(b).subrange(n, gate_name(b).len() - 5) =~= b);
    }
    if checkpoint_name(a) == gate_name(b) {
        assert(checkpoint_name(a).last() == 'd');
        assert(gate_name(b).last() == 'e');
    }
}

/// The artifact that a piece of work asks to be read next, if that is what it asks for.
pub open spec fn recalls<V>(r: WorkView<V>) -> Option<Seq<char>> {
    match r {
        Err(PauseView::Ask(EffectView::Recall { name })) => Some(name),
        _ => None,
    }
}

/// Whether `name` is that of a checkpoint whose id stands under `prefix`.
pub open spec fn kept_under(prefix: Seq<char>, name: Seq<char>) -> bool {
    exists|x: Seq<char>| name == #[trigger] checkpoint_name(prefix + "/"@ + x)
}

/// What is kept under a part of `prefix` is kept under it.
pub proof fn lemma_kept_under_part(prefix: Seq<char>, part: Seq<char>, name: Seq<char>)
    requires
        kept_under(prefix + "/"@ + part, name),
    ensures
        kept_under(prefix, name),
{
    let x = choose|x: Seq<char>|
        name == #[trigger] checkpoint_name(prefix + "/"@ + part + "/"@ + x);
    assert(prefix + "/"@ + part + "/"@ + x =~= prefix + "/"@ + (part + "/"@ + x));
}

} // verus!
