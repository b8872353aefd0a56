//! The agents of a run: which model each of them needs, and what each of them is told.

use crate::text::{join, joined, pieces, same, split, texts};
use crate::types::ModelTier;
use vstd::prelude::*;
use vstd::string::StringExecFns;

verus! {

/// The role of an agent: its name up to the first hyphen.
pub open spec fn role(name: Seq<char>) -> Seq<char> {
    pieces(name, '-')[0]
}

/// The tier that an agent's role needs. Those that write large pieces of code need the
/// heaviest models, those that analyse or read code lighter ones, those that only give a
/// verdict the lightest.
pub open spec fn tier_of(name: Seq<char>) -> ModelTier {
    let base = role(name);
    if base == "TargetImplementer"@ || base == "MergeAgent"@ {
        ModelTier::Heavy
    } else if base == "MissionArchitect"@ || base == "InductiveReasoner"@ || base
        == "SchemaArchitect"@ || base == "MilestonePlanner"@ || base == "TestEngineer"@ {
        ModelTier::Light
    } else if base == "MaintenanceReviewer"@ || base == "ProductionReadinessReviewer"@ {
        ModelTier::Light
    } else {
        ModelTier::Micro
    }
}

/// How much work is lost where an agent fails: 0 for an atomic task, 3 for the root of a
/// pipeline.
pub open spec fn hora_depth_of(name: Seq<char>) -> u8 {
    let base = role(name);
    if base == "MissionArchitect"@ || base == "InductiveReasoner"@ {
        3
    } else if base == "MergeAgent"@ || base == "SchemaArchitect"@ || base == "MilestonePlanner"@ {
        2
    } else if base == "TargetImplementer"@ || base == "ContractReviewer"@ || base
        == "TestEngineer"@ || base == "MaintenanceReviewer"@ || base
        == "ProductionReadinessReviewer"@ {
        1
    } else {
        0
    }
}

fn base_name(name: &str) -> (r: String)
    ensures
        r@ == role(name@),
{
    let parts = split(name, '-');
    assert(texts(parts@)[0] == parts@[0]@);
    parts[0].clone()
}

/// The tier that an agent needs.
pub fn agent_tier(name: &str) -> (r: ModelTier)
    ensures
        r == tier_of(name@),
{
    let base = base_name(name);
    let base = base.as_str();
    if same(base, "TargetImplementer") || same(base, "MergeAgent") {
        ModelTier::Heavy
    } else if same(base, "MissionArchitect") || same(base, "InductiveReasoner") || same(
        base,
        "SchemaArchitect",
    ) || same(base, "MilestonePlanner") || same(base, "TestEngineer") {
        ModelTier::Light
    } else if same(base, "MaintenanceReviewer") || same(base, "ProductionReadinessReviewer") {
        ModelTier::Light
    } else {
        ModelTier::Micro
    }
}

/// How much work is lost where an agent fails.
pub fn agent_hora_depth(name: &str) -> (r: u8)
    ensures
        r == hora_depth_of(name@),
{
    let base = base_name(name);
    let base = base.as_str();
    if same(base, "MissionArchitect") || same(base, "InductiveReasoner") {
        3
    } else if same(base, "MergeAgent") || same(base, "SchemaArchitect") || same(
        base,
        "MilestonePlanner",
    ) {
        2
    } else if same(base, "TargetImplementer") || same(base, "ContractReviewer") || same(
        base,
        "TestEngineer",
    ) || same(base, "MaintenanceReviewer") || same(base, "ProductionReadinessReviewer") {
        1
    } else {
        0
    }
}

/// Guidance for one domain, which an implementer is given only for a milestone that needs it.
#[derive(Debug)]
pub struct ImplementerPattern {
    pub name: &'static str,
    pub description: &'static str,
    pub content: String,
}

/// What each agent is told. The texts are skill files; the program holds only their places.
#[derive(Debug)]
pub struct Skills {
    pub mission_architect: String,
    pub contract_reviewer: String,
    pub test_engineer: String,
    pub inductive_reasoner: String,
    pub schema_architect: String,
    pub target_implementer: String,
    pub merge_agent: String,
    pub security_reviewer: String,
    pub security_reviewer_final: String,
    pub maintenance_reviewer: String,
    pub ip_counsel: String,
    pub formal_methods_reviewer: String,
    pub production_readiness_reviewer: String,
    pub milestone_planner: String,
    pub system_test_writer: String,
    pub patterns: Vec<ImplementerPattern>,
}

pub const PATH_HANDLING: &'static str =
    "Working with std::path::Path/PathBuf — Display/ToString conversions, accepting paths generically with AsRef<Path>.";

pub const MOVE_SEMANTICS: &'static str =
    "Ownership/borrow pitfalls: using a value right after moving it into a struct literal or a collection push.";

pub const ERROR_HANDLING: &'static str =
    "thiserror's #[source]/derive requirements and chrono's fallible DateTime::from_timestamp — Result/Option correctness gotchas.";

pub const TRAIT_OBJECTS: &'static str =
    "Box<dyn Trait> field ergonomics: the Default/Debug derive traps and the Send bound a trait object needs to cross an .await.";

/// The names of the implementer patterns, in the order of the catalog.
pub open spec fn pattern_names() -> Seq<Seq<char>> {
    seq!["path-handling"@, "move-semantics"@, "error-handling"@, "trait-objects"@]
}

/// What each pattern is about, in the order of the catalog.
pub open spec fn pattern_descriptions() -> Seq<Seq<char>> {
    seq![PATH_HANDLING@, MOVE_SEMANTICS@, ERROR_HANDLING@, TRAIT_OBJECTS@]
}

/// The implementer patterns, with the guidance that belongs to each.
pub fn implementer_patterns(
    path_handling: String,
    move_semantics: String,
    error_handling: String,
    trait_objects: String,
) -> (r: Vec<ImplementerPattern>)
    ensures
        r@.len() == 4,
        forall|i: int| 0 <= i < 4 ==> (#[trigger] r@[i]).name@ == pattern_names()[i],
        forall|i: int| 0 <= i < 4 ==> (#[trigger] r@[i]).description@ == pattern_descriptions()[i],
        r@[0].content@ == path_handling@,
        r@[1].content@ == move_semantics@,
        r@[2].content@ == error_handling@,
        r@[3].content@ == trait_objects@,
{
    vec![
        ImplementerPattern {
            name: "path-handling",
            description: PATH_HANDLING,
            content: path_handling,
        },
        ImplementerPattern {
            name: "move-semantics",
            description: MOVE_SEMANTICS,
            content: move_semantics,
        },
        ImplementerPattern {
            name: "error-handling",
            description: ERROR_HANDLING,
            content: error_handling,
        },
        ImplementerPattern {
            name: "trait-objects",
            description: TRAIT_OBJECTS,
            content: trait_objects,
        },
    ]
}

/// One line of the catalog.
pub open spec fn catalog_line(name: Seq<char>, description: Seq<char>) -> Seq<char> {
    "- "@ + name + ": "@ + description
}

/// The name and the description of every pattern, never its guidance.
pub open spec fn pattern_catalog() -> Seq<char> {
    joined(
        seq![
            catalog_line("path-handling"@, PATH_HANDLING@),
            catalog_line("move-semantics"@, MOVE_SEMANTICS@),
            catalog_line("error-handling"@, ERROR_HANDLING@),
            catalog_line("trait-objects"@, TRAIT_OBJECTS@),
        ],
        "\n"@,
    )
}

/// The name and the description of every pattern, never its guidance.
pub fn implementer_pattern_catalog() -> (r: String)
    ensures
        r@ == pattern_catalog(),
{
    let lines: Vec<String> = vec![
        "- ".to_owned().concat("path-handling").concat(": ").concat(PATH_HANDLING),
        "- ".to_owned().concat("move-semantics").concat(": ").concat(MOVE_SEMANTICS),
        "- ".to_owned().concat("error-handling").concat(": ").concat(ERROR_HANDLING),
        "- ".to_owned().concat("trait-objects").concat(": ").concat(TRAIT_OBJECTS),
    ];
    assert(texts(lines@) =~= seq![
        catalog_line("path-handling"@, PATH_HANDLING@),
        catalog_line("move-semantics"@, MOVE_SEMANTICS@),
        catalog_line("error-handling"@, ERROR_HANDLING@),
        catalog_line("trait-objects"@, TRAIT_OBJECTS@),
    ]);
    join(lines.as_slice(), "\n")
}

/// The guidance of those of `patterns` that `names` names, in the order of the catalog.
pub open spec fn chosen(names: Seq<Seq<char>>, patterns: Seq<ImplementerPattern>) -> Seq<Seq<char>>
    decreases patterns.len(),
{
    if patterns.len() == 0 {
        Seq::empty()
    } else if names.contains(patterns.last().name@) {
        chosen(names, patterns.drop_last()).push(patterns.last().content@)
    } else {
        chosen(names, patterns.drop_last())
    }
}

/// Whether `name` is among `names`.
pub fn is_among(names: &[String], name: &str) -> (r: bool)
    ensures
        r == texts(names@).contains(name@),
{
    let mut i: usize = 0;
    while i < names.len()
        invariant
            i <= names@.len(),
            forall|j: int| 0 <= j < i ==> texts(names@)[j] != name@,
        decreases names@.len() - i,
    {
        if same(names[i].as_str(), name) {
            assert(texts(names@)[i as int] == name@);
            return true;
        }
        i += 1;
    }
    false
}

/// The guidance of exactly the named patterns, in the order of the catalog whatever the order
/// of the names. A name that no pattern has is passed over.
pub fn resolve_implementer_patterns(names: &[String], patterns: &[ImplementerPattern]) -> (r:
    String)
    ensures
        r@ == joined(chosen(texts(names@), patterns@), "\n\n"@),
{
    let mut out: Vec<String> = Vec::new();
    let mut i: usize = 0;
    assert(texts(out@) =~= Seq::<Seq<char>>::empty());
    assert(patterns@.take(0) =~= Seq::<ImplementerPattern>::empty());
    while i < patterns.len()
        invariant
            i <= patterns@.len(),
            texts(out@) == chosen(texts(names@), patterns@.take(i as int)),
        decreases patterns@.len() - i,
    {
        let ghost had = out@;
        assert(patterns@.take(i + 1).drop_last() =~= patterns@.take(i as int));
        if is_among(names, patterns[i].name) {
            out.push(patterns[i].content.clone());
            assert(texts(out@) =~= texts(had).push(patterns@[i as int].content@));
        }
        i += 1;
    }
    assert(patterns@.take(i as int) =~= patterns@);
    join(out.as_slice(), "\n\n")
}

/// The names that no pattern has, in the order in which they are given.
pub open spec fn unknown_names(
    names: Seq<Seq<char>>,
    patterns: Seq<ImplementerPattern>,
) -> Seq<Seq<char>>
    decreases names.len(),
{
    if names.len() == 0 {
        Seq::empty()
    } else if is_pattern(names.last(), patterns) {
        unknown_names(names.drop_last(), patterns)
    } else {
        unknown_names(names.drop_last(), patterns).push(names.last())
    }
}

/// Whether a pattern is called `name`.
pub open spec fn is_pattern(name: Seq<char>, patterns: Seq<ImplementerPattern>) -> bool {
    exists|i: int| 0 <= i < patterns.len() && (#[trigger] patterns[i]).name@ == name
}

fn known(name: &str, patterns: &[ImplementerPattern]) -> (r: bool)
    ensures
        r == is_pattern(name@, patterns@),
{
    let mut i: usize = 0;
    while i < patterns.len()
        invariant
            i <= patterns@.len(),
            forall|j: int| 0 <= j < i ==> (#[trigger] patterns@[j]).name@ != name@,
        decreases patterns@.len() - i,
    {
        if same(patterns[i].name, name) {
            return true;
        }
        i += 1;
    }
    false
}

/// The names that no pattern has.
pub fn unknown_patterns(names: &[String], patterns: &[ImplementerPattern]) -> (r: Vec<String>)
    ensures
        texts(r@) == unknown_names(texts(names@), patterns@),
{
    let ghost all = texts(names@);
    let mut out: Vec<String> = Vec::new();
    let mut i: usize = 0;
    assert(texts(out@) =~= Seq::<Seq<char>>::empty());
    assert(all.take(0) =~= Seq::<Seq<char>>::empty());
    while i < names.len()
        invariant
            i <= names@.len(),
            all == texts(names@),
            texts(out@) == unknown_names(all.take(i as int), patterns@),
        decreases names@.len() - i,
    {
        let ghost had = out@;
        assert(all.take(i + 1).drop_last() =~= all.take(i as int));
        assert(all.take(i + 1).last() == names@[i as int]@);
        if !known(names[i].as_str(), patterns) {
            out.push(names[i].clone());
            assert(texts(out@) =~= texts(had).push(names@[i as int]@));
        }
        i += 1;
    }
    assert(all.take(i as int) =~= all);
    out
}

/// The guidance that is put together depends only on which patterns are named: not on the order of
/// the names, nor on how often one is named, nor on names that no pattern has.
pub proof fn law_order_of_names_is_irrelevant(
    a: Seq<Seq<char>>,
    b: Seq<Seq<char>>,
    patterns: Seq<ImplementerPattern>,
)
    requires
        forall|name: Seq<char>| #[trigger]
            is_pattern(name, patterns) ==> a.contains(name) == b.contains(name),
    ensures
        chosen(a, patterns) == chosen(b, patterns),
    decreases patterns.len(),
{
    if patterns.len() > 0 {
        let fewer = patterns.drop_last();
        assert forall|name: Seq<char>| #[trigger] is_pattern(name, fewer) implies a.contains(name)
            == b.contains(name) by {
            let i = choose|i: int| 0 <= i < fewer.len() && (#[trigger] fewer[i]).name@ == name;
            assert(patterns[i].name@ == name);
            assert(is_pattern(name, patterns));
        }
        law_order_of_names_is_irrelevant(a, b, fewer);
        assert(patterns[patterns.len() - 1].name@ == patterns.last().name@);
        assert(is_pattern(patterns.last().name@, patterns));
    }
}

} // verus!
