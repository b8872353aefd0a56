//! How an agent answers a task: in one go, or in a conversation in which it calls tools.

use crate::agents::{agent_hora_depth, agent_tier, hora_depth_of, tier_of};
use crate::copied::{copied_all, opt_view, views, Copied};
use crate::json::{Json, JsonView};
use crate::manager::Manager;
use crate::numbers::{decimal, decimal_text};
use crate::steps::{seen, Pause, PauseView, Step, StepView};
use crate::types::{
    InferenceRequest, InferenceResponse, RequestView, ToolCall, ToolCallView, ToolDef, ToolDefView,
    ToolResult, ToolResultView, Turn, TurnView,
};
use vstd::prelude::*;
use vstd::string::StringExecFns;

verus! {

/// The most tokens that an answer may have.
pub const MAX_TOKENS: u32 = 16_000;

/// A question of a conversation.
#[derive(Debug)]
pub enum TurnEffect {
    /// Note down the task of an agent.
    Task { agent: String, task: String },
    /// Let a model answer a request: the named provider, where one is named.
    Infer { request: InferenceRequest, provider: Option<String> },
    /// Add to the tokens used so far.
    Tally { input: u32, output: u32 },
    /// Record a decision.
    Decision { agent: String, text: String },
    /// Note down the answer of an agent.
    Output { agent: String, text: String },
    /// Call a tool.
    Tool { name: String, arguments: Json },
}

/// A question of a conversation, by its contents.
pub enum TurnEffectView {
    Task { agent: Seq<char>, task: Seq<char> },
    Infer { request: RequestView, provider: Option<Seq<char>> },
    Tally { input: u32, output: u32 },
    Decision { agent: Seq<char>, text: Seq<char> },
    Output { agent: Seq<char>, text: Seq<char> },
    Tool { name: Seq<char>, arguments: JsonView },
}

impl View for TurnEffect {
    type V = TurnEffectView;

    open spec fn view(&self) -> TurnEffectView {
        match self {
            TurnEffect::Task { agent, task } => TurnEffectView::Task { agent: agent@, task: task@ },
            TurnEffect::Infer { request, provider } => TurnEffectView::Infer {
                request: request@,
                provider: opt_view(*provider),
            },
            TurnEffect::Tally { input, output } => TurnEffectView::Tally {
                input: *input,
                output: *output,
            },
            TurnEffect::Decision { agent, text } => TurnEffectView::Decision {
                agent: agent@,
                text: text@,
            },
            TurnEffect::Output { agent, text } => TurnEffectView::Output {
                agent: agent@,
                text: text@,
            },
            TurnEffect::Tool { name, arguments } => TurnEffectView::Tool {
                name: name@,
                arguments: arguments@,
            },
        }
    }
}

/// An answer in a conversation.
#[derive(Debug)]
pub enum TurnReply {
    /// It was done.
    Done,
    /// What a model answered.
    Answer(InferenceResponse),
    /// The tokens used so far, the last answer with them.
    Totals { input: u32, output: u32 },
    /// What a tool said.
    Text(String),
}

/// What a conversation comes to.
pub type Talk<T> = Step<T, TurnEffect>;

/// What a conversation comes to, by its contents.
pub type TalkView<V> = StepView<V, TurnEffectView>;

/// The assurance that `e` was done.
pub open spec fn noted_down(e: TurnEffectView, log: Seq<TurnReply>, at: int) -> TalkView<()> {
    if 0 <= at < log.len() && log[at] is Done {
        Ok(((), at + 1))
    } else {
        Err(PauseView::Ask(e))
    }
}

fn note_down(e: TurnEffect, log: &[TurnReply], at: usize) -> (r: Talk<()>)
    ensures
        seen(r) == noted_down(e@, log@, at as int),
{
    if at < log.len() {
        if let TurnReply::Done = &log[at] {
            return Ok(((), at + 1));
        }
    }
    Err(Pause::Ask(e))
}

/// A model's answer to `e`.
pub open spec fn answer_for(e: TurnEffectView, log: Seq<TurnReply>, at: int) -> TalkView<
    crate::types::ResponseView,
> {
    if 0 <= at < log.len() && log[at] is Answer {
        Ok((log[at]->Answer_0@, at + 1))
    } else {
        Err(PauseView::Ask(e))
    }
}

fn ask_answer(e: TurnEffect, log: &[TurnReply], at: usize) -> (r: Talk<InferenceResponse>)
    ensures
        seen(r) == answer_for(e@, log@, at as int),
{
    if at < log.len() {
        if let TurnReply::Answer(answer) = &log[at] {
            return Ok((answer.copied(), at + 1));
        }
    }
    Err(Pause::Ask(e))
}

/// The tokens used so far.
pub open spec fn totals_for(e: TurnEffectView, log: Seq<TurnReply>, at: int) -> TalkView<
    (u32, u32),
> {
    if 0 <= at < log.len() && log[at] is Totals {
        Ok(((log[at]->Totals_input, log[at]->Totals_output), at + 1))
    } else {
        Err(PauseView::Ask(e))
    }
}

fn ask_totals(e: TurnEffect, log: &[TurnReply], at: usize) -> (r: Talk<(u32, u32)>)
    ensures
        seen(r) == totals_for(e@, log@, at as int),
{
    if at < log.len() {
        if let TurnReply::Totals { input, output } = &log[at] {
            return Ok(((*input, *output), at + 1));
        }
    }
    Err(Pause::Ask(e))
}

/// What a tool says to `e`.
pub open spec fn tool_text_for(e: TurnEffectView, log: Seq<TurnReply>, at: int) -> TalkView<
    Seq<char>,
> {
    if 0 <= at < log.len() && log[at] is Text {
        Ok((log[at]->Text_0@, at + 1))
    } else {
        Err(PauseView::Ask(e))
    }
}

fn ask_tool(e: TurnEffect, log: &[TurnReply], at: usize) -> (r: Talk<String>)
    ensures
        seen(r) == tool_text_for(e@, log@, at as int),
{
    if at < log.len() {
        if let TurnReply::Text(text) = &log[at] {
            return Ok((text.clone(), at + 1));
        }
    }
    Err(Pause::Ask(e))
}

/// How tokens are recorded.
pub open spec fn tokens_note(input: u32, output: u32, total_in: u32, total_out: u32) -> Seq<char> {
    "tokens: +"@ + decimal(input as nat) + "in/"@ + decimal(output as nat)
        + "out — running total: "@ + decimal(total_in as nat) + "in/"@ + decimal(total_out as nat)
        + "out"@
}

fn tokens_text(input: u32, output: u32, total_in: u32, total_out: u32) -> (r: String)
    ensures
        r@ == tokens_note(input, output, total_in, total_out),
{
    "tokens: +".to_owned().concat(decimal_text(input as u64).as_str()).concat("in/").concat(
        decimal_text(output as u64).as_str(),
    ).concat("out — running total: ").concat(decimal_text(total_in as u64).as_str()).concat(
        "in/",
    ).concat(decimal_text(total_out as u64).as_str()).concat("out")
}

/// What an agent is asked in one go.
pub open spec fn single_request(
    agent: Seq<char>,
    system: Seq<char>,
    task: Seq<char>,
    slot: Option<usize>,
) -> RequestView {
    RequestView {
        system,
        user: task,
        max_tokens: MAX_TOKENS,
        tier: tier_of(agent),
        hora_depth: hora_depth_of(agent),
        slot_hint: slot,
        tools: Seq::empty(),
        history: Seq::empty(),
    }
}

/// An agent's answer to a task: the task is noted down, a model answers, its tokens are
/// recorded and its answer is noted down.
pub open spec fn answered(
    agent: Seq<char>,
    system: Seq<char>,
    task: Seq<char>,
    slot: Option<usize>,
    log: Seq<TurnReply>,
    at: int,
) -> TalkView<Seq<char>> {
    match noted_down(TurnEffectView::Task { agent, task }, log, at) {
        Err(p) => Err(p),
        Ok((_, at)) => match answer_for(
            TurnEffectView::Infer {
                request: single_request(agent, system, task, slot),
                provider: None,
            },
            log,
            at,
        ) {
            Err(p) => Err(p),
            Ok((answer, at)) => match totals_for(
                TurnEffectView::Tally { input: answer.input_tokens, output: answer.output_tokens },
                log,
                at,
            ) {
                Err(p) => Err(p),
                Ok(((total_in, total_out), at)) => match noted_down(
                    TurnEffectView::Decision {
                        agent,
                        text: tokens_note(
                            answer.input_tokens,
                            answer.output_tokens,
                            total_in,
                            total_out,
                        ),
                    },
                    log,
                    at,
                ) {
                    Err(p) => Err(p),
                    Ok((_, at)) => match noted_down(
                        TurnEffectView::Output { agent, text: answer.text },
                        log,
                        at,
                    ) {
                        Err(p) => Err(p),
                        Ok((_, at)) => Ok((answer.text, at)),
                    },
                },
            },
        },
    }
}

/// What the tools say to the calls from `k` on, each under the id of its call.
pub open spec fn tools_called(
    calls: Seq<ToolCallView>,
    k: int,
    had: Seq<ToolResultView>,
    log: Seq<TurnReply>,
    at: int,
) -> TalkView<Seq<ToolResultView>>
    decreases calls.len() - k,
{
    if k < 0 || k >= calls.len() {
        Ok((had, at))
    } else {
        match tool_text_for(
            TurnEffectView::Tool { name: calls[k].name, arguments: calls[k].arguments },
            log,
            at,
        ) {
            Err(p) => Err(p),
            Ok((content, at)) => tools_called(
                calls,
                k + 1,
                had.push(ToolResultView { id: calls[k].id, content }),
                log,
                at,
            ),
        }
    }
}

/// What an agent with tools is given.
pub struct Dialogue {
    pub agent: Seq<char>,
    pub system: Seq<char>,
    pub task: Seq<char>,
    pub tools: Seq<ToolDefView>,
    pub max_turns: nat,
}

/// What an agent with tools is asked in one turn.
pub open spec fn turn_request(d: Dialogue, history: Seq<TurnView>) -> RequestView {
    RequestView {
        system: d.system,
        user: d.task,
        max_tokens: MAX_TOKENS,
        tier: tier_of(d.agent),
        hora_depth: hora_depth_of(d.agent),
        slot_hint: None,
        tools: d.tools,
        history,
    }
}

/// The answer of an agent with tools, from `turn` on. Every turn after the first goes to the
/// provider that answered the one before. The first answer without tool calls is the answer;
/// after `max_turns` turns without one the conversation fails.
pub open spec fn talked_from(
    d: Dialogue,
    turn: nat,
    history: Seq<TurnView>,
    provider: Option<Seq<char>>,
    log: Seq<TurnReply>,
    at: int,
) -> TalkView<Seq<char>>
    decreases d.max_turns - turn,
{
    if turn >= d.max_turns {
        Err(
            PauseView::Fail(
                d.agent + " did not produce a final answer within "@ + decimal(d.max_turns)
                    + " tool-calling turns"@,
            ),
        )
    } else {
        match answer_for(
            TurnEffectView::Infer { request: turn_request(d, history), provider },
            log,
            at,
        ) {
            Err(p) => Err(p),
            Ok((answer, at)) => match totals_for(
                TurnEffectView::Tally { input: answer.input_tokens, output: answer.output_tokens },
                log,
                at,
            ) {
                Err(p) => Err(p),
                Ok(((total_in, total_out), at)) => match noted_down(
                    TurnEffectView::Decision {
                        agent: d.agent,
                        text: "turn "@ + decimal(turn) + ": "@ + tokens_note(
                            answer.input_tokens,
                            answer.output_tokens,
                            total_in,
                            total_out,
                        ),
                    },
                    log,
                    at,
                ) {
                    Err(p) => Err(p),
                    Ok((_, at)) => if answer.tool_calls.len() == 0 {
                        match noted_down(
                            TurnEffectView::Output { agent: d.agent, text: answer.text },
                            log,
                            at,
                        ) {
                            Err(p) => Err(p),
                            Ok((_, at)) => Ok((answer.text, at)),
                        }
                    } else {
                        match tools_called(answer.tool_calls, 0, Seq::empty(), log, at) {
                            Err(p) => Err(p),
                            Ok((results, at)) => talked_from(
                                d,
                                turn + 1,
                                history.push(
                                    TurnView::Assistant {
                                        text: answer.text,
                                        tool_calls: answer.tool_calls,
                                    },
                                ).push(TurnView::ToolResults(results)),
                                Some(answer.provider),
                                log,
                                at,
                            ),
                        }
                    },
                },
            },
        }
    }
}

/// The answer of an agent with tools.
pub open spec fn talked(d: Dialogue, log: Seq<TurnReply>, at: int) -> TalkView<Seq<char>> {
    match noted_down(TurnEffectView::Task { agent: d.agent, task: d.task }, log, at) {
        Err(p) => Err(p),
        Ok((_, at)) => talked_from(d, 0, Seq::empty(), None, log, at),
    }
}

fn call_tools(calls: &[ToolCall], log: &[TurnReply], at: usize) -> (r: Talk<Vec<ToolResult>>)
    ensures
        match r {
            Ok((results, next)) => tools_called(
                views(calls@),
                0,
                Seq::empty(),
                log@,
                at as int,
            ) == Ok::<(Seq<ToolResultView>, int), PauseView<TurnEffectView>>(
                (views(results@), next as int),
            ),
            Err(p) => tools_called(views(calls@), 0, Seq::empty(), log@, at as int) == Err::<
                (Seq<ToolResultView>, int),
                PauseView<TurnEffectView>,
            >(p@),
        },
{
    let ghost all = views(calls@);
    let mut results: Vec<ToolResult> = Vec::new();
    let mut now: usize = at;
    let mut k: usize = 0;
    assert(views(results@) =~= Seq::<ToolResultView>::empty());
    while k < calls.len()
        invariant
            k <= calls@.len(),
            all == views(calls@),
            tools_called(all, k as int, views(results@), log@, now as int) == tools_called(
                all,
                0,
                Seq::empty(),
                log@,
                at as int,
            ),
        decreases calls@.len() - k,
    {
        let ghost had = results@;
        let call = &calls[k];
        assert(all[k as int] == call@);
        let (content, next) = ask_tool(
            TurnEffect::Tool { name: call.name.clone(), arguments: call.arguments.copied() },
            log,
            now,
        )?;
        let result = ToolResult { id: call.id.clone(), content };
        let ghost view = result@;
        results.push(result);
        assert(views(results@) =~= views(had).push(view));
        now = next;
        k += 1;
    }
    Ok((results, now))
}

impl Manager {
    /// Lets an agent answer a task.
    pub fn run(agent: &str, system: &str, task: &str, log: &[TurnReply], at: usize) -> (r: Talk<
        String,
    >)
        ensures
            seen(r) == answered(agent@, system@, task@, None, log@, at as int),
    {
        Self::run_on_slot(agent, system, task, None, log, at)
    }

    /// Lets an agent answer a task, with a slot to be tried first.
    pub fn run_on_slot(
        agent: &str,
        system: &str,
        task: &str,
        slot_hint: Option<usize>,
        log: &[TurnReply],
        at: usize,
    ) -> (r: Talk<String>)
        ensures
            seen(r) == answered(agent@, system@, task@, slot_hint, log@, at as int),
    {
        let (_, at) = note_down(
            TurnEffect::Task { agent: agent.to_owned(), task: task.to_owned() },
            log,
            at,
        )?;
        let mut request = InferenceRequest::new(
            system.to_owned(),
            task.to_owned(),
            MAX_TOKENS,
            agent_tier(agent),
            agent_hora_depth(agent),
        );
        request.slot_hint = slot_hint;
        let (answer, at) = ask_answer(TurnEffect::Infer { request, provider: None }, log, at)?;
        let ((total_in, total_out), at) = ask_totals(
            TurnEffect::Tally { input: answer.input_tokens, output: answer.output_tokens },
            log,
            at,
        )?;
        let (_, at) = note_down(
            TurnEffect::Decision {
                agent: agent.to_owned(),
                text: tokens_text(answer.input_tokens, answer.output_tokens, total_in, total_out),
            },
            log,
            at,
        )?;
        let (_, at) = note_down(
            TurnEffect::Output { agent: agent.to_owned(), text: answer.text.clone() },
            log,
            at,
        )?;
        Ok((answer.text, at))
    }

    /// Lets an agent answer a task with tools instead of pasting all that it may need into its
    /// prompt, in at most `max_turns` turns.
    pub fn run_agentic(
        agent: &str,
        system: &str,
        task: &str,
        tools: &[ToolDef],
        max_turns: usize,
        log: &[TurnReply],
        at: usize,
    ) -> (r: Talk<String>)
        ensures
            seen(r) == talked(
                (Dialogue {
                    agent: agent@,
                    system: system@,
                    task: task@,
                    tools: views(tools@),
                    max_turns: max_turns as nat,
                }),
                log@,
                at as int,
            ),
    {
        let ghost d = Dialogue {
            agent: agent@,
            system: system@,
            task: task@,
            tools: views(tools@),
            max_turns: max_turns as nat,
        };
        let (_, begun) = note_down(
            TurnEffect::Task { agent: agent.to_owned(), task: task.to_owned() },
            log,
            at,
        )?;
        let mut history: Vec<Turn> = Vec::new();
        let mut provider: Option<String> = None;
        let mut now: usize = begun;
        let mut turn: usize = 0;
        assert(views(history@) =~= Seq::<TurnView>::empty());
        while turn < max_turns
            invariant
                turn <= max_turns,
                d == (Dialogue {
                    agent: agent@,
                    system: system@,
                    task: task@,
                    tools: views(tools@),
                    max_turns: max_turns as nat,
                }),
                talked_from(d, turn as nat, views(history@), opt_view(provider), log@, now as int)
                    == talked(d, log@, at as int),
            decreases max_turns - turn,
        {
            let copy = match &provider {
                Some(name) => Some(name.clone()),
                None => None,
            };
            let request = InferenceRequest {
                system: system.to_owned(),
                user: task.to_owned(),
                max_tokens: MAX_TOKENS,
                tier: agent_tier(agent),
                hora_depth: agent_hora_depth(agent),
                slot_hint: None,
                tools: copied_all(tools),
                history: copied_all(history.as_slice()),
            };
            let (answer, at1) = ask_answer(
                TurnEffect::Infer { request, provider: copy },
                log,
                now,
            )?;
            let ((total_in, total_out), at2) = ask_totals(
                TurnEffect::Tally { input: answer.input_tokens, output: answer.output_tokens },
                log,
                at1,
            )?;
            let (_, at3) = note_down(
                TurnEffect::Decision {
                    agent: agent.to_owned(),
                    text: "turn ".to_owned().concat(decimal_text(turn as u64).as_str()).concat(
                        ": ",
                    ).concat(
                        tokens_text(
                            answer.input_tokens,
                            answer.output_tokens,
                            total_in,
                            total_out,
                        ).as_str(),
                    ),
                },
                log,
                at2,
            )?;
            assert(views(answer.tool_calls@).len() == answer.tool_calls@.len());
            if answer.tool_calls.len() == 0 {
                let (_, at4) = note_down(
                    TurnEffect::Output { agent: agent.to_owned(), text: answer.text.clone() },
                    log,
                    at3,
                )?;
                return Ok((answer.text, at4));
            }
            let (results, at4) = call_tools(answer.tool_calls.as_slice(), log, at3)?;
            let ghost had = history@;
            let said = Turn::Assistant { text: answer.text, tool_calls: answer.tool_calls };
            let heard = Turn::ToolResults(results);
            let ghost said_view = said@;
            let ghost heard_view = heard@;
            history.push(said);
            history.push(heard);
            assert(views(history@) =~= views(had).push(said_view).push(heard_view));
            provider = Some(answer.provider);
            now = at4;
            turn += 1;
        }
        Err(
            Pause::Fail(
                agent.to_owned().concat(" did not produce a final answer within ").concat(
                    decimal_text(max_turns as u64).as_str(),
                ).concat(" tool-calling turns"),
            ),
        )
    }
}

/// Whether all models that answer from `at` on answer in the name of `name`.
pub open spec fn all_from(name: Seq<char>, log: Seq<TurnReply>, at: int) -> bool {
    forall|i: int|
        at <= i < log.len() && #[trigger] log[i] is Answer ==> log[i]->Answer_0.provider@ == name
}

proof fn lemma_tools_called(
    calls: Seq<ToolCallView>,
    k: int,
    had: Seq<ToolResultView>,
    log: Seq<TurnReply>,
    at: int,
)
    requires
        0 <= k <= calls.len(),
    ensures
        match tools_called(calls, k, had, log, at) {
            Ok((results, end)) => end == at + calls.len() - k && results.len() == had.len()
                + calls.len() - k,
            Err(PauseView::Ask(e)) => e is Tool,
            Err(PauseView::Fail(_)) => false,
        },
    decreases calls.len() - k,
{
    if k < calls.len() {
        if let Ok((content, next)) = tool_text_for(
            TurnEffectView::Tool { name: calls[k].name, arguments: calls[k].arguments },
            log,
            at,
        ) {
            lemma_tools_called(
                calls,
                k + 1,
                had.push(ToolResultView { id: calls[k].id, content }),
                log,
                next,
            );
        }
    }
}

/// A conversation stays with one provider: once one has answered, all that is asked of a model
/// is asked of that one.
pub proof fn law_conversations_stay_with_one_provider(
    d: Dialogue,
    turn: nat,
    history: Seq<TurnView>,
    name: Seq<char>,
    log: Seq<TurnReply>,
    at: int,
)
    requires
        0 <= at,
        all_from(name, log, at),
    ensures
        talked_from(d, turn, history, Some(name), log, at) matches Err(
            PauseView::Ask(TurnEffectView::Infer { provider, .. }),
        ) ==> provider == Some(name),
    decreases d.max_turns - turn,
{
    if turn < d.max_turns {
        let ask = TurnEffectView::Infer {
            request: turn_request(d, history),
            provider: Some(name),
        };
        if let Ok((answer, at1)) = answer_for(ask, log, at) {
            assert(log[at] is Answer);
            if at1 + 2 <= log.len() && answer.tool_calls.len() > 0 {
                lemma_tools_called(answer.tool_calls, 0, Seq::empty(), log, at1 + 2);
                if let Ok((results, at4)) = tools_called(
                    answer.tool_calls,
                    0,
                    Seq::empty(),
                    log,
                    at1 + 2,
                ) {
                    let more = history.push(
                        TurnView::Assistant { text: answer.text, tool_calls: answer.tool_calls },
                    ).push(TurnView::ToolResults(results));
                    law_conversations_stay_with_one_provider(d, turn + 1, more, name, log, at4);
                }
            }
        }
    }
}

/// A conversation whose model calls tools in every turn fails once its turns are used up.
pub proof fn law_conversations_end(
    d: Dialogue,
    turn: nat,
    history: Seq<TurnView>,
    provider: Option<Seq<char>>,
    log: Seq<TurnReply>,
    at: int,
)
    requires
        0 <= at,
        forall|i: int|
            at <= i < log.len() && #[trigger] log[i] is Answer
                ==> log[i]->Answer_0.tool_calls@.len() > 0,
    ensures
        talked_from(d, turn, history, provider, log, at) is Err,
    decreases d.max_turns - turn,
{
    if turn < d.max_turns {
        let ask = TurnEffectView::Infer { request: turn_request(d, history), provider };
        if let Ok((answer, at1)) = answer_for(ask, log, at) {
            assert(log[at] is Answer);
            assert(answer.tool_calls.len() == log[at]->Answer_0.tool_calls@.len());
            lemma_tools_called(answer.tool_calls, 0, Seq::empty(), log, at1 + 2);
            if let Ok((results, at4)) = tools_called(
                answer.tool_calls,
                0,
                Seq::empty(),
                log,
                at1 + 2,
            ) {
                let more = history.push(
                    TurnView::Assistant { text: answer.text, tool_calls: answer.tool_calls },
                ).push(TurnView::ToolResults(results));
                law_conversations_end(d, turn + 1, more, Some(answer.provider), log, at4);
            }
        }
    }
}

/// An agent is asked exactly its task: it is noted down, a model is asked for it once, its tokens are
/// counted, and what the model said is noted down and is the answer.
pub proof fn law_an_agent_is_asked_its_task(
    agent: Seq<char>,
    system: Seq<char>,
    task: Seq<char>,
    slot: Option<usize>,
    log: Seq<TurnReply>,
    at: int,
)
    requires
        0 <= at <= log.len(),
    ensures
        log.len() == at ==> answered(agent, system, task, slot, log, at) == Err::<
            (Seq<char>, int),
            PauseView<TurnEffectView>,
        >(PauseView::Ask(TurnEffectView::Task { agent, task })),
        log.len() == at + 1 && log[at] is Done ==> answered(agent, system, task, slot, log, at)
            == Err::<(Seq<char>, int), PauseView<TurnEffectView>>(
            PauseView::Ask(
                TurnEffectView::Infer {
                    request: RequestView {
                        system,
                        user: task,
                        max_tokens: 16_000,
                        tier: tier_of(agent),
                        hora_depth: hora_depth_of(agent),
                        slot_hint: slot,
                        tools: Seq::empty(),
                        history: Seq::empty(),
                    },
                    provider: None,
                },
            ),
        ),
        log.len() == at + 2 && log[at] is Done && log[at + 1] is Answer ==> answered(
            agent,
            system,
            task,
            slot,
            log,
            at,
        ) == Err::<(Seq<char>, int), PauseView<TurnEffectView>>(
            PauseView::Ask(
                TurnEffectView::Tally {
                    input: log[at + 1]->Answer_0@.input_tokens,
                    output: log[at + 1]->Answer_0@.output_tokens,
                },
            ),
        ),
        answered(agent, system, task, slot, log, at) matches Ok((text, end)) ==> {
            &&& end == at + 5
            &&& log[at + 1] is Answer && text == log[at + 1]->Answer_0@.text
            &&& answered(agent, system, task, slot, log.take(at + 4), at) == Err::<
                (Seq<char>, int),
                PauseView<TurnEffectView>,
            >(PauseView::Ask(TurnEffectView::Output { agent, text }))
        },
{
    if answered(agent, system, task, slot, log, at) is Ok {
        let cut = log.take(at + 4);
        assert(cut[at] == log[at] && cut[at + 1] == log[at + 1] && cut[at + 2] == log[at + 2]
            && cut[at + 3] == log[at + 3]);
    }
}

/// Every tool that a model calls is called, by the name and with the arguments that the model gave,
/// in that order, and what it says is kept under the id of the call.
pub proof fn law_tools_are_called_as_asked(
    calls: Seq<ToolCallView>,
    k: int,
    had: Seq<ToolResultView>,
    log: Seq<TurnReply>,
    at: int,
    i: int,
)
    requires
        0 <= k <= i < calls.len(),
        0 <= at,
        forall|j: int| k <= j < i ==> at + (j - k) < log.len() && #[trigger] log[at + (j - k)] is Text,
    ensures
        log.len() == at + (i - k) ==> tools_called(calls, k, had, log, at) == Err::<
            (Seq<ToolResultView>, int),
            PauseView<TurnEffectView>,
        >(
            PauseView::Ask(
                TurnEffectView::Tool { name: calls[i].name, arguments: calls[i].arguments },
            ),
        ),
        tools_called(calls, k, had, log, at) matches Ok((results, _)) ==> {
            &&& results.len() == had.len() + (calls.len() - k)
            &&& results[had.len() + (i - k)].id == calls[i].id
            &&& log[at + (i - k)] is Text
            &&& results[had.len() + (i - k)].content == log[at + (i - k)]->Text_0@
            &&& forall|j: int| 0 <= j < had.len() ==> results[j] == #[trigger] had[j]
        },
    decreases calls.len() - k,
{
    if k < i {
        assert(log[at + (k - k)] is Text);
        let one = ToolResultView { id: calls[k].id, content: log[at]->Text_0@ };
        let more = had.push(one);
        assert forall|j: int| k + 1 <= j < i implies at + 1 + (j - (k + 1)) < log.len()
            && #[trigger] log[at + 1 + (j - (k + 1))] is Text by {
            assert(at + 1 + (j - (k + 1)) == at + (j - k));
            assert(log[at + (j - k)] is Text);
        }
        law_tools_are_called_as_asked(calls, k + 1, more, log, at + 1, i);
        if let Ok((results, _)) = tools_called(calls, k, had, log, at) {
            assert forall|j: int| 0 <= j < had.len() implies results[j] == #[trigger] had[j] by {
                assert(more[j] == had[j]);
            }
        }
    } else if at < log.len() && log[at] is Text {
        let one = ToolResultView { id: calls[k].id, content: log[at]->Text_0@ };
        let more = had.push(one);
        lemma_results_are_kept(calls, k + 1, more, log, at + 1);
        if let Ok((results, _)) = tools_called(calls, k, had, log, at) {
            assert(results[had.len() as int] == more[had.len() as int]);
            assert forall|j: int| 0 <= j < had.len() implies results[j] == #[trigger] had[j] by {
                assert(more[j] == had[j]);
            }
        }
    }
}

proof fn lemma_results_are_kept(
    calls: Seq<ToolCallView>,
    k: int,
    had: Seq<ToolResultView>,
    log: Seq<TurnReply>,
    at: int,
)
    requires
        0 <= k <= calls.len(),
    ensures
        tools_called(calls, k, had, log, at) matches Ok((results, _)) ==> results.len() == had.len()
            + (calls.len() - k) && forall|j: int|
            0 <= j < had.len() ==> #[trigger] results[j] == had[j],
    decreases calls.len() - k,
{
    if k < calls.len() && 0 <= at < log.len() && log[at] is Text {
        let more = had.push(ToolResultView { id: calls[k].id, content: log[at]->Text_0@ });
        lemma_results_are_kept(calls, k + 1, more, log, at + 1);
        if let Ok((results, _)) = tools_called(calls, k, had, log, at) {
            assert forall|j: int| 0 <= j < had.len() implies #[trigger] results[j] == had[j] by {
                assert(more[j] == had[j]);
            }
        }
    }
}

/// A conversation remembers all of itself: after a turn in which tools were called, the model that
/// answered is asked again, with the same task and tools, what was said before, what it said and
/// called, and what each tool answered.
pub proof fn law_a_conversation_remembers_itself(
    d: Dialogue,
    turn: nat,
    history: Seq<TurnView>,
    provider: Option<Seq<char>>,
    log: Seq<TurnReply>,
    at: int,
    results: Seq<ToolResultView>,
)
    requires
        0 <= at,
        turn + 1 < d.max_turns,
        at + 3 <= log.len(),
        log[at] is Answer,
        log[at + 1] is Totals,
        log[at + 2] is Done,
        ({
            let calls = log[at]->Answer_0@.tool_calls;
            &&& calls.len() > 0
            &&& log.len() == at + 3 + calls.len()
            &&& results.len() == calls.len()
            &&& forall|j: int|
                0 <= j < calls.len() ==> (#[trigger] log[at + 3 + j]) is Text && results[j] == (
                ToolResultView { id: calls[j].id, content: log[at + 3 + j]->Text_0@ })
        }),
    ensures
        ({
            let answer = log[at]->Answer_0@;
            talked_from(d, turn, history, provider, log, at) == Err::<
                (Seq<char>, int),
                PauseView<TurnEffectView>,
            >(
                PauseView::Ask(
                    TurnEffectView::Infer {
                        request: RequestView {
                            system: d.system,
                            user: d.task,
                            max_tokens: 16_000,
                            tier: tier_of(d.agent),
                            hora_depth: hora_depth_of(d.agent),
                            slot_hint: None,
                            tools: d.tools,
                            history: history.push(
                                TurnView::Assistant {
                                    text: answer.text,
                                    tool_calls: answer.tool_calls,
                                },
                            ).push(TurnView::ToolResults(results)),
                        },
                        provider: Some(answer.provider),
                    },
                ),
            )
        }),
{
    let calls = log[at]->Answer_0@.tool_calls;
    lemma_all_tools_answer(calls, 0, Seq::empty(), log, at + 3, results);
    assert(Seq::<ToolResultView>::empty() + results =~= results);
    reveal_with_fuel(talked_from, 2);
}

proof fn lemma_all_tools_answer(
    calls: Seq<ToolCallView>,
    k: int,
    had: Seq<ToolResultView>,
    log: Seq<TurnReply>,
    at: int,
    results: Seq<ToolResultView>,
)
    requires
        0 <= k <= calls.len(),
        0 <= at,
        results.len() == calls.len() - k,
        at + results.len() == log.len(),
        forall|j: int|
            0 <= j < results.len() ==> (#[trigger] log[at + j]) is Text && results[j] == (
            ToolResultView { id: calls[k + j].id, content: log[at + j]->Text_0@ }),
    ensures
        tools_called(calls, k, had, log, at) == Ok::<
            (Seq<ToolResultView>, int),
            PauseView<TurnEffectView>,
        >((had + results, log.len() as int)),
    decreases calls.len() - k,
{
    if k == calls.len() {
        assert(had + results =~= had);
    } else {
        assert(log[at + 0] is Text);
        let rest = results.skip(1);
        assert forall|j: int| 0 <= j < rest.len() implies (#[trigger] log[at + 1 + j]) is Text
            && rest[j] == (ToolResultView {
            id: calls[k + 1 + j].id,
            content: log[at + 1 + j]->Text_0@,
        }) by {
            let m = j + 1;
            assert(log[at + m] is Text);
            assert(rest[j] == results[m]);
        }
        lemma_all_tools_answer(calls, k + 1, had.push(results[0]), log, at + 1, rest);
        assert(had.push(results[0]) + rest =~= had + results);
    }
}

/// The answer of an agent with tools is what a model said in a turn in which it called none.
pub proof fn law_the_answer_is_said(
    d: Dialogue,
    turn: nat,
    history: Seq<TurnView>,
    provider: Option<Seq<char>>,
    log: Seq<TurnReply>,
    at: int,
)
    requires
        0 <= at,
    ensures
        talked_from(d, turn, history, provider, log, at) matches Ok((text, _)) ==> exists|i: int|
            at <= i < log.len() && #[trigger] log[i] is Answer && log[i]->Answer_0@.tool_calls.len()
                == 0 && log[i]->Answer_0@.text == text,
    decreases d.max_turns - turn,
{
    if turn < d.max_turns && talked_from(d, turn, history, provider, log, at) is Ok {
        let answer = log[at]->Answer_0@;
        if answer.tool_calls.len() == 0 {
            assert(log[at] is Answer);
        } else {
            lemma_tools_called(answer.tool_calls, 0, Seq::empty(), log, at + 3);
            let (results, next) = tools_called(
                answer.tool_calls,
                0,
                Seq::empty(),
                log,
                at + 3,
            )->Ok_0;
            let more = history.push(
                TurnView::Assistant { text: answer.text, tool_calls: answer.tool_calls },
            ).push(TurnView::ToolResults(results));
            law_the_answer_is_said(d, turn + 1, more, Some(answer.provider), log, next);
        }
    }
}

} // verus!
