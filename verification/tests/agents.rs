use rewriter_queue::agents::{
    agent_hora_depth, agent_tier, implementer_pattern_catalog, implementer_patterns,
    resolve_implementer_patterns, unknown_patterns, ImplementerPattern,
};
use rewriter_queue::types::ModelTier;

fn patterns() -> Vec<ImplementerPattern> {
    implementer_patterns(
        "Contents: paths.".into(),
        "Contents: moves.".into(),
        "Contents: errors.".into(),
        "Contents: trait objects.".into(),
    )
}

fn content_of(name: &str) -> String {
    patterns().into_iter().find(|p| p.name == name).unwrap().content
}

#[test]
fn catalog_lists_every_pattern_by_name_and_description_only() {
    let catalog = implementer_pattern_catalog();
    for p in patterns() {
        assert!(catalog.contains(p.name), "catalog missing name {}", p.name);
        assert!(catalog.contains(p.description), "catalog missing description for {}", p.name);
        // The catalog is what MilestonePlanner sees up front -- it must never leak the
        // full pattern content, or there's no point keeping it separate from the core skill.
        assert!(!catalog.contains(&p.content), "catalog leaked full content for {}", p.name);
    }
}

#[test]
fn resolve_returns_only_the_named_patterns() {
    let names = vec!["trait-objects".to_string()];
    let resolved = resolve_implementer_patterns(&names, &patterns());
    assert!(resolved.contains(&content_of("trait-objects")));
    assert!(!resolved.contains(&content_of("move-semantics")));
}

#[test]
fn resolve_silently_ignores_an_unknown_name() {
    let names = vec!["not-a-real-pattern".to_string()];
    let resolved = resolve_implementer_patterns(&names, &patterns());
    assert!(resolved.is_empty());
}

#[test]
fn resolve_with_no_names_is_empty() {
    assert!(resolve_implementer_patterns(&[], &patterns()).is_empty());
}

#[test]
fn patterns_stand_in_their_own_order_whatever_order_names_them() {
    let one = vec!["trait-objects".to_string(), "move-semantics".to_string()];
    let other = vec!["move-semantics".to_string(), "trait-objects".to_string()];
    assert_eq!(
        resolve_implementer_patterns(&one, &patterns()),
        resolve_implementer_patterns(&other, &patterns())
    );
}

#[test]
fn unknown_names_are_reported() {
    let names = vec!["trait-object".to_string(), "error-handling".to_string()];
    assert_eq!(unknown_patterns(&names, &patterns()), vec!["trait-object".to_string()]);
}

#[test]
fn an_agent_is_placed_by_its_role() {
    assert_eq!(agent_tier("TargetImplementer"), ModelTier::Heavy);
    assert_eq!(agent_tier("TargetImplementer-chunk3"), ModelTier::Heavy);
    assert_eq!(agent_tier("SchemaArchitect"), ModelTier::Light);
    assert_eq!(agent_tier("SecurityReviewer"), ModelTier::Micro);
    assert_eq!(agent_tier("Nobody"), ModelTier::Micro);
    assert_eq!(agent_hora_depth("MissionArchitect"), 3);
    assert_eq!(agent_hora_depth("MergeAgent-1"), 2);
    assert_eq!(agent_hora_depth("ContractReviewer"), 1);
    assert_eq!(agent_hora_depth("Nobody"), 0);
}

#[test]
fn unknown_names_change_nothing() {
    let one = vec!["trait-objects".to_string()];
    let other = vec!["ghost".to_string(), "trait-objects".to_string(), "spook".to_string()];
    assert_eq!(
        resolve_implementer_patterns(&one, &patterns()),
        resolve_implementer_patterns(&other, &patterns())
    );
}
