//! A whole run: contract, test matrix, analysis, schema and crate, one after the other. What a
//! stage came to is kept as an artifact, and a stage whose artifact is there is not run again.

use crate::agents::Skills;
use crate::building::{BriefView, AGENTIC_MAX_TURNS};
use crate::documents::{reviewed_from, Review};
use crate::effects::{
    ask_done, ask_found, ask_text, done_for, found_for, text_for, Effect, EffectView, Reply, Work,
    WorkView,
};
use crate::manager::Manager;
use crate::numbers::{decimal, decimal_text};
use crate::quality::{sections_of, unfenced};
use crate::sections::{listing, Listed, Section};
use crate::steps::{seen, PauseView};
use crate::synthesis::synthesized;
use crate::text::same;
use vstd::prelude::*;
use vstd::string::StringExecFns;

verus! {

pub const CONTRACT: &'static str = "objective_contract.md";

pub const REFINED_MATRIX: &'static str = "refined_test_matrix.json";

pub const ANALYSIS: &'static str = "inductive_analysis.md";

pub const SCHEMA: &'static str = "schema.rs";

pub const CRATE: &'static str = "v2.rs";

pub const CONTRACT_TASK: &'static str =
    "\n\nProduce the ObjectiveContract. V1 source has not been pasted in — read whatever files you actually need with your tools (list_files/read_file). Record deviations you observe — do not implement them.";

pub const REFINEMENT_TASK: &'static str =
    "\n\nRead the ObjectiveContract with read_artifact(\"objective_contract.md\"), then read whatever V1 source files you need with list_files/read_file. For each test case, determine concrete inputs and expected V1 outputs.";

pub const ANALYSIS_TASK: &'static str =
    "Read the ObjectiveContract with read_artifact(\"objective_contract.md\"), then analyze V1 as a system using list_files/read_file. Surface implicit invariants, systemic patterns, architectural analogies, and risk zones. For a large source tree, use fan_out to analyze independent subsystems concurrently, then weave the results together yourself.";

pub const SCHEMA_TASK: &'static str =
    "Read the ObjectiveContract (read_artifact(\"objective_contract.md\")) and the Inductive Analysis (read_artifact(\"inductive_analysis.md\")), then read whatever V1 source you need with list_files/read_file. Design the Rust type system and public API stubs for V2. Preserve the implicit invariants identified in the Inductive Analysis.";

/// The artifact `name`, if it is there.
pub open spec fn artifact(name: Seq<char>, log: Seq<Reply>, at: int) -> WorkView<
    Option<Seq<char>>,
> {
    found_for(EffectView::Recall { name }, log, at)
}

/// `text`, once it is kept as artifact `name`.
pub open spec fn filed(name: Seq<char>, text: Seq<char>, log: Seq<Reply>, at: int) -> WorkView<
    Seq<char>,
> {
    match done_for(EffectView::Store { name, content: text }, log, at) {
        Err(p) => Err(p),
        Ok((_, at)) => Ok((text, at)),
    }
}

/// What an agent with tools says to a task, kept as artifact `name`.
pub open spec fn answered_as(
    name: Seq<char>,
    agent: Seq<char>,
    system: Seq<char>,
    task: Seq<char>,
    log: Seq<Reply>,
    at: int,
) -> WorkView<Seq<char>> {
    match text_for(
        EffectView::Agentic { agent, system, task, max_turns: AGENTIC_MAX_TURNS as int },
        log,
        at,
    ) {
        Err(p) => Err(p),
        Ok((text, at)) => filed(name, text, log, at),
    }
}

/// A stage that is one agent's answer: the artifact that is there, or a new one.
pub open spec fn stage(
    name: Seq<char>,
    agent: Seq<char>,
    system: Seq<char>,
    task: Seq<char>,
    log: Seq<Reply>,
    at: int,
) -> WorkView<Seq<char>> {
    match artifact(name, log, at) {
        Err(p) => Err(p),
        Ok((Some(text), at)) => Ok((text, at)),
        Ok((None, at)) => answered_as(name, agent, system, task, log, at),
    }
}

/// The review that the contract goes through.
pub open spec fn contract_review(skills: Skills, mission: Seq<char>, max_iter: nat) -> Review {
    Review {
        worker_name: "MissionArchitect"@,
        worker_system: skills.mission_architect@,
        reviewer_name: "ContractReviewer"@,
        reviewer_system: skills.contract_reviewer@,
        base_task: "# Mission\n"@ + mission + CONTRACT_TASK@,
        approved_prefix: "APPROVED"@,
        max_iter,
    }
}

/// The contract.
pub open spec fn contracted(
    skills: Skills,
    mission: Seq<char>,
    max_iter: nat,
    log: Seq<Reply>,
    at: int,
) -> WorkView<Seq<char>> {
    match artifact(CONTRACT@, log, at) {
        Err(p) => Err(p),
        Ok((Some(text), at)) => Ok((text, at)),
        Ok((None, at)) => match reviewed_from(
            contract_review(skills, mission, max_iter),
            0,
            None,
            Seq::empty(),
            log,
            at,
        ) {
            Err(p) => Err(p),
            Ok((text, at)) => filed(CONTRACT@, text, log, at),
        },
    }
}

/// The test matrix, refined.
pub open spec fn refined(skills: Skills, log: Seq<Reply>, at: int) -> WorkView<Seq<char>> {
    match artifact(REFINED_MATRIX@, log, at) {
        Err(p) => Err(p),
        Ok((Some(text), at)) => Ok((text, at)),
        Ok((None, at)) => match text_for(EffectView::Matrix, log, at) {
            Err(p) => Err(p),
            Ok((raw, at)) => answered_as(
                REFINED_MATRIX@,
                "TestEngineer"@,
                skills.test_engineer@,
                "# Raw Test Matrix\n"@ + raw + REFINEMENT_TASK@,
                log,
                at,
            ),
        },
    }
}

/// The crate, from what the earlier stages came to.
pub open spec fn delivered(
    skills: Skills,
    contract: Seq<char>,
    schema: Seq<char>,
    inductive: Seq<char>,
    max_iter: nat,
    log: Seq<Reply>,
    at: int,
) -> WorkView<Seq<char>> {
    match artifact(CRATE@, log, at) {
        Err(p) => Err(p),
        Ok((Some(text), at)) => Ok((text, at)),
        Ok((None, at)) => match text_for(EffectView::Source, log, at) {
            Err(p) => Err(p),
            Ok((source, at)) => match text_for(EffectView::Matrix, log, at) {
                Err(p) => Err(p),
                Ok((matrix, at)) => match synthesized(
                    BriefView {
                        skills,
                        worker_system: skills.target_implementer@,
                        contract,
                        schema,
                        max_iter,
                    },
                    source,
                    matrix,
                    inductive,
                    Seq::empty(),
                    log,
                    at,
                ) {
                    Err(p) => Err(p),
                    Ok((code, at)) => filed(CRATE@, code, log, at),
                },
            },
        },
    }
}

/// What a whole run comes to.
pub open spec fn run_through(
    skills: Skills,
    mission: Seq<char>,
    max_iter: nat,
    log: Seq<Reply>,
    at: int,
) -> WorkView<Seq<char>> {
    match contracted(skills, mission, max_iter, log, at) {
        Err(p) => Err(p),
        Ok((contract, at)) => match refined(skills, log, at) {
            Err(p) => Err(p),
            Ok((_, at)) => match stage(
                ANALYSIS@,
                "InductiveReasoner"@,
                skills.inductive_reasoner@,
                ANALYSIS_TASK@,
                log,
                at,
            ) {
                Err(p) => Err(p),
                Ok((inductive, at)) => match stage(
                    SCHEMA@,
                    "SchemaArchitect"@,
                    skills.schema_architect@,
                    SCHEMA_TASK@,
                    log,
                    at,
                ) {
                    Err(p) => Err(p),
                    Ok((schema, at)) => delivered(
                        skills,
                        contract,
                        schema,
                        inductive,
                        max_iter,
                        log,
                        at,
                    ),
                },
            },
        },
    }
}

fn file(name: &str, text: String, log: &[Reply], at: usize) -> (r: Work<String>)
    ensures
        seen(r) == filed(name@, text@, log@, at as int),
{
    let (_, at) = ask_done(
        Effect::Store { name: name.to_owned(), content: text.clone() },
        log,
        at,
    )?;
    Ok((text, at))
}

fn answer_as(
    name: &str,
    agent: &str,
    system: &str,
    task: String,
    log: &[Reply],
    at: usize,
) -> (r: Work<String>)
    ensures
        seen(r) == answered_as(name@, agent@, system@, task@, log@, at as int),
{
    let (text, at) = ask_text(
        Effect::Agentic {
            agent: agent.to_owned(),
            system: system.to_owned(),
            task,
            max_turns: AGENTIC_MAX_TURNS,
        },
        log,
        at,
    )?;
    file(name, text, log, at)
}

fn run_stage(
    name: &str,
    agent: &str,
    system: &str,
    task: &str,
    log: &[Reply],
    at: usize,
) -> (r: Work<String>)
    ensures
        seen(r) == stage(name@, agent@, system@, task@, log@, at as int),
{
    let (kept, at) = ask_found(Effect::Recall { name: name.to_owned() }, log, at)?;
    match kept {
        Some(text) => Ok((text, at)),
        None => answer_as(name, agent, system, task.to_owned(), log, at),
    }
}

impl Manager {
    /// The contract: what the crate has to do, written by one agent and approved by another.
    pub fn make_contract(
        skills: &Skills,
        mission: &str,
        max_iter: usize,
        log: &[Reply],
        at: usize,
    ) -> (r: Work<String>)
        ensures
            seen(r) == contracted(*skills, mission@, max_iter as nat, log@, at as int),
    {
        let (kept, at) = ask_found(Effect::Recall { name: CONTRACT.to_owned() }, log, at)?;
        if let Some(text) = kept {
            return Ok((text, at));
        }
        let task = "# Mission\n".to_owned().concat(mission).concat(CONTRACT_TASK);
        let (text, at) = Self::run_with_review(
            "MissionArchitect",
            skills.mission_architect.as_str(),
            "ContractReviewer",
            skills.contract_reviewer.as_str(),
            task.as_str(),
            "APPROVED",
            max_iter,
            log,
            at,
        )?;
        file(CONTRACT, text, log, at)
    }

    /// The test matrix with concrete inputs and outputs.
    pub fn refine_matrix(skills: &Skills, log: &[Reply], at: usize) -> (r: Work<String>)
        ensures
            seen(r) == refined(*skills, log@, at as int),
    {
        let (kept, at) = ask_found(Effect::Recall { name: REFINED_MATRIX.to_owned() }, log, at)?;
        if let Some(text) = kept {
            return Ok((text, at));
        }
        let (raw, at) = ask_text(Effect::Matrix, log, at)?;
        let task = "# Raw Test Matrix\n".to_owned().concat(raw.as_str()).concat(REFINEMENT_TASK);
        answer_as(
            REFINED_MATRIX,
            "TestEngineer",
            skills.test_engineer.as_str(),
            task,
            log,
            at,
        )
    }

    /// The crate, from what the earlier stages came to.
    pub fn deliver(
        skills: &Skills,
        contract: &str,
        schema: &str,
        inductive: &str,
        max_iter: usize,
        log: &[Reply],
        at: usize,
    ) -> (r: Work<String>)
        ensures
            seen(r) == delivered(
                *skills,
                contract@,
                schema@,
                inductive@,
                max_iter as nat,
                log@,
                at as int,
            ),
    {
        let (kept, at) = ask_found(Effect::Recall { name: CRATE.to_owned() }, log, at)?;
        if let Some(text) = kept {
            return Ok((text, at));
        }
        let (source, at) = ask_text(Effect::Source, log, at)?;
        let (matrix, at) = ask_text(Effect::Matrix, log, at)?;
        proof {
            reveal_strlit("");
            assert(""@ =~= Seq::<char>::empty());
        }
        let (code, at) = Self::synthesize(
            skills,
            skills.target_implementer.as_str(),
            contract,
            schema,
            source.as_str(),
            matrix.as_str(),
            inductive,
            "",
            max_iter,
            log,
            at,
        )?;
        file(CRATE, code, log, at)
    }

    /// A whole run, from the mission to the crate.
    pub fn run_pipeline(
        skills: &Skills,
        mission: &str,
        max_iter: usize,
        log: &[Reply],
        at: usize,
    ) -> (r: Work<String>)
        ensures
            seen(r) == run_through(*skills, mission@, max_iter as nat, log@, at as int),
    {
        let (contract, at) = Self::make_contract(skills, mission, max_iter, log, at)?;
        let (_, at) = Self::refine_matrix(skills, log, at)?;
        let (inductive, at) = run_stage(
            ANALYSIS,
            "InductiveReasoner",
            skills.inductive_reasoner.as_str(),
            ANALYSIS_TASK,
            log,
            at,
        )?;
        let (schema, at) = run_stage(
            SCHEMA,
            "SchemaArchitect",
            skills.schema_architect.as_str(),
            SCHEMA_TASK,
            log,
            at,
        )?;
        Self::deliver(
            skills,
            contract.as_str(),
            schema.as_str(),
            inductive.as_str(),
            max_iter,
            log,
            at,
        )
    }
}

/// The artifacts that a crate is written out as.
pub open spec fn emitted(raw: Seq<char>) -> Seq<Listed> {
    listing(sections_of(unfenced(raw))).map_values(|file: Listed| ("v2/"@ + file.0, file.1))
}

/// The artifacts that a crate is written out as: one for each of its files.
pub fn emit_v2_source(raw: &str) -> (r: Vec<Section>)
    ensures
        r@.map_values(|s: Section| s@) == emitted(raw@),
{
    let code = Manager::strip_fences(raw);
    let files = Manager::parse_file_sections(code.as_str());
    let ghost list = listing(files@);
    let n: usize = files.len();
    let mut out: Vec<Section> = Vec::new();
    let mut i: usize = 0;
    while i < n
        invariant
            i <= n == list.len(),
            list == listing(files@),
            out@.len() == i,
            forall|j: int|
                0 <= j < i ==> (#[trigger] out@[j])@ == ("v2/"@ + list[j].0, list[j].1),
        decreases n - i,
    {
        let file = files.at(i);
        out.push(
            Section {
                path: "v2/".to_owned().concat(file.path.as_str()),
                content: file.content.clone(),
            },
        );
        i += 1;
    }
    assert(out@.map_values(|s: Section| s@) =~= emitted(raw@));
    out
}

/// The stage that comes to artifact `name`: what it is called, and what is said at its end.
pub open spec fn stage_of(name: Seq<char>) -> Option<(Seq<char>, Seq<char>)> {
    if name == CONTRACT@ {
        Some(("ObjectiveContract"@, "contract done"@))
    } else if name == REFINED_MATRIX@ {
        Some(("Test matrix refinement"@, "test matrix refined"@))
    } else if name == ANALYSIS@ {
        Some(("Inductive analysis"@, "inductive analysis done"@))
    } else if name == SCHEMA@ {
        Some(("Schema"@, "schema done"@))
    } else if name == CRATE@ {
        Some(("V2 synthesis"@, "v2 done"@))
    } else {
        None
    }
}

/// The stage that comes to an artifact: what it is called, and what is said at its end.
pub fn stage_names(name: &str) -> (r: Option<(&'static str, &'static str)>)
    ensures
        match r {
            Some((title, end)) => stage_of(name@) == Some((title@, end@)),
            None => stage_of(name@) is None,
        },
{
    if same(name, CONTRACT) {
        Some(("ObjectiveContract", "contract done"))
    } else if same(name, REFINED_MATRIX) {
        Some(("Test matrix refinement", "test matrix refined"))
    } else if same(name, ANALYSIS) {
        Some(("Inductive analysis", "inductive analysis done"))
    } else if same(name, SCHEMA) {
        Some(("Schema", "schema done"))
    } else if same(name, CRATE) {
        Some(("V2 synthesis", "v2 done"))
    } else {
        None
    }
}

/// The line that tells that a stage begins, or that what it came to earlier is taken up.
pub open spec fn stage_begins(title: Seq<char>, resumed: bool) -> Seq<char> {
    "==> "@ + title + if resumed {
        " (resuming from checkpoint)"@
    } else {
        ""@
    }
}

/// The line that tells that a stage begins.
pub fn stage_line(title: &str, resumed: bool) -> (r: String)
    ensures
        r@ == stage_begins(title@, resumed),
{
    "==> ".to_owned().concat(title).concat(
        if resumed {
            " (resuming from checkpoint)"
        } else {
            ""
        },
    )
}

/// What is noted down at the end of a run.
pub open spec fn completion(model: Seq<char>, input: u32, output: u32) -> Seq<char> {
    "Synthesis complete. Model: "@ + model + ". Tokens: "@ + decimal(input as nat) + "in/"@
        + decimal(output as nat)
        + "out. Artifacts: objective_contract.md, schema.rs, refined_test_matrix.json, v2/. Deviations recorded in deviations.md (deferred to next phase)."@
}

/// What is noted down at the end of a run.
pub fn completion_note(model: &str, input: u32, output: u32) -> (r: String)
    ensures
        r@ == completion(model@, input, output),
{
    "Synthesis complete. Model: ".to_owned().concat(model).concat(". Tokens: ").concat(
        decimal_text(input as u64).as_str(),
    ).concat("in/").concat(decimal_text(output as u64).as_str()).concat(
        "out. Artifacts: objective_contract.md, schema.rs, refined_test_matrix.json, v2/. Deviations recorded in deviations.md (deferred to next phase).",
    )
}

/// A run all of whose artifacts are there asks for nothing but them, and delivers the crate
/// that was kept.
pub proof fn law_finished_stages_are_not_run_again(
    skills: Skills,
    mission: Seq<char>,
    max_iter: nat,
    log: Seq<Reply>,
    at: int,
)
    requires
        0 <= at <= log.len() - 5,
        forall|i: int|
            at <= i < at + 5 ==> (#[trigger] log[i] matches Reply::Found(kept) && kept is Some),
    ensures
        run_through(skills, mission, max_iter, log, at) == Ok::<
            (Seq<char>, int),
            PauseView<EffectView>,
        >((log[at + 4]->Found_0->Some_0@, at + 5)),
{
    assert(log[at] is Found && log[at]->Found_0 is Some);
    assert(log[at + 1] is Found && log[at + 1]->Found_0 is Some);
    assert(log[at + 2] is Found && log[at + 2]->Found_0 is Some);
    assert(log[at + 3] is Found && log[at + 3]->Found_0 is Some);
    assert(log[at + 4] is Found && log[at + 4]->Found_0 is Some);
}

/// Whether a run asks for the artifact `name`.
pub open spec fn looks_for(r: WorkView<Seq<char>>, name: Seq<char>) -> bool {
    r matches Err(PauseView::Ask(EffectView::Recall { name: asked })) && asked == name
}

/// Whether a run asks an agent with tools.
pub open spec fn asks_with_tools(
    r: WorkView<Seq<char>>,
    who: Seq<char>,
    told: Seq<char>,
    what: Seq<char>,
) -> bool {
    r matches Err(PauseView::Ask(EffectView::Agentic { agent, system, task, max_turns })) && agent
        == who && system == told && task == what && max_turns == 20
}

/// The stages come in order: contract, test matrix, analysis, schema and crate. Where the artifacts
/// of the stages before are there, the artifact of a stage is looked for next; where it is not
/// there, its agent is asked for it; and what that says is kept under the name of the artifact.
pub proof fn law_stages_come_in_order(
    skills: Skills,
    mission: Seq<char>,
    max_iter: nat,
    log: Seq<Reply>,
    at: int,
)
    requires
        0 <= at <= log.len(),
        log.len() < at + 5,
        forall|i: int|
            at <= i < log.len() - 1 ==> (#[trigger] log[i] matches Reply::Found(kept) && kept is Some),
        log.len() > at ==> log[log.len() - 1] is Found,
    ensures
        ({
            let r = run_through(skills, mission, max_iter, log, at);
            let n = log.len() - at;
            let found = n == 0 || log[log.len() - 1]->Found_0 is Some;
            &&& found ==> looks_for(
                r,
                if n == 0 {
                    "objective_contract.md"@
                } else if n == 1 {
                    "refined_test_matrix.json"@
                } else if n == 2 {
                    "inductive_analysis.md"@
                } else if n == 3 {
                    "schema.rs"@
                } else {
                    "v2.rs"@
                },
            )
            &&& !found && n == 2 ==> r == Err::<(Seq<char>, int), PauseView<EffectView>>(
                PauseView::Ask(EffectView::Matrix),
            )
            &&& !found && n == 3 ==> asks_with_tools(
                r,
                "InductiveReasoner"@,
                skills.inductive_reasoner@,
                ANALYSIS_TASK@,
            )
            &&& !found && n == 4 ==> asks_with_tools(
                r,
                "SchemaArchitect"@,
                skills.schema_architect@,
                SCHEMA_TASK@,
            )
        }),
{
    if log.len() > at {
        assert(log[at] is Found);
        if log.len() > at + 1 {
            assert(log[at]->Found_0 is Some);
            assert(log[at + 1] is Found);
        }
        if log.len() > at + 2 {
            assert(log[at + 1]->Found_0 is Some);
            assert(log[at + 2] is Found);
        }
        if log.len() > at + 3 {
            assert(log[at + 2]->Found_0 is Some);
            assert(log[at + 3] is Found);
        }
    }
}

/// What an agent says in its stage is the result of the stage, and is kept as its artifact.
pub proof fn law_what_a_stage_says_is_kept(
    name: Seq<char>,
    agent: Seq<char>,
    system: Seq<char>,
    task: Seq<char>,
    log: Seq<Reply>,
    at: int,
)
    requires
        0 <= at,
        at + 2 <= log.len(),
        log[at] == Reply::Found(None),
        log[at + 1] is Text,
    ensures
        log.len() == at + 2 ==> stage(name, agent, system, task, log, at) == Err::<
            (Seq<char>, int),
            PauseView<EffectView>,
        >(PauseView::Ask(EffectView::Store { name, content: log[at + 1]->Text_0@ })),
        log.len() > at + 2 && log[at + 2] is Done ==> stage(name, agent, system, task, log, at)
            == Ok::<(Seq<char>, int), PauseView<EffectView>>((log[at + 1]->Text_0@, at + 3)),
{
}

} // verus!
