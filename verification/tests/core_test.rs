use mempal::anchor::{
    bootstrap_anchor, bootstrap_defaults, bootstrap_provenance, validate_anchor_domain,
    DEFAULT_FIELD, LEGACY_REPO_ANCHOR_ID,
};
use mempal::types::{AnchorKind, Drawer, MemoryDomain, MemoryKind, Provenance, SourceType};

#[test]
fn bootstrap_anchor_is_the_legacy_repo() {
    let (kind, id, parent) = bootstrap_anchor();
    assert_eq!(kind, AnchorKind::Repo);
    assert_eq!(id, "repo://legacy");
    assert_eq!(parent, None);
    assert_eq!(LEGACY_REPO_ANCHOR_ID, "repo://legacy");
    assert_eq!(DEFAULT_FIELD, "general");
}

#[test]
fn bootstrap_provenance_by_source() {
    assert_eq!(bootstrap_provenance(&SourceType::Project), Provenance::Research);
    assert_eq!(bootstrap_provenance(&SourceType::Conversation), Provenance::Human);
    assert_eq!(bootstrap_provenance(&SourceType::Manual), Provenance::Human);
}

#[test]
fn bootstrap_defaults_for_project() {
    let defaults = bootstrap_defaults(&SourceType::Project);
    assert_eq!(defaults.field, "general");
    assert_eq!(defaults.anchor_kind, AnchorKind::Repo);
    assert_eq!(defaults.anchor_id, "repo://legacy");
    assert_eq!(defaults.parent_anchor_id, None);
    assert_eq!(defaults.provenance, Provenance::Research);
}

#[test]
fn global_anchor_needs_global_domain() {
    assert_eq!(
        validate_anchor_domain(&MemoryDomain::Project, &AnchorKind::Global),
        Err("global anchor requires domain=global")
    );
    assert_eq!(validate_anchor_domain(&MemoryDomain::Agent, &AnchorKind::Global).is_err(), true);
    assert_eq!(validate_anchor_domain(&MemoryDomain::Global, &AnchorKind::Global), Ok(()));
    assert_eq!(validate_anchor_domain(&MemoryDomain::Project, &AnchorKind::Repo), Ok(()));
    assert_eq!(validate_anchor_domain(&MemoryDomain::Skill, &AnchorKind::Worktree), Ok(()));
}

#[test]
fn test_migration_backfills_legacy_drawers_with_bootstrap_defaults() {
    let drawer = Drawer::new_bootstrap_evidence(
        "drawer_legacy_001".to_string(),
        "Legacy evidence body".to_string(),
        "mempal".to_string(),
        Some("bootstrap".to_string()),
        Some("docs/specs/legacy.md".to_string()),
        SourceType::Project,
        "1710000000".to_string(),
        Some(0),
        4,
    );
    let defaults = bootstrap_defaults(&SourceType::Project);
    assert_eq!(drawer.id, "drawer_legacy_001");
    assert_eq!(drawer.content, "Legacy evidence body");
    assert_eq!(drawer.room.as_deref(), Some("bootstrap"));
    assert_eq!(drawer.chunk_index, Some(0));
    assert_eq!(drawer.importance, 4);
    assert_eq!(drawer.memory_kind, MemoryKind::Evidence);
    assert_eq!(drawer.domain, MemoryDomain::Project);
    assert_eq!(drawer.field, defaults.field);
    assert_eq!(drawer.anchor_kind, defaults.anchor_kind);
    assert_eq!(drawer.anchor_id, defaults.anchor_id);
    assert_eq!(drawer.parent_anchor_id, None);
    assert_eq!(drawer.provenance, Some(Provenance::Research));
    assert_eq!(drawer.statement, None);
    assert_eq!(drawer.tier, None);
    assert_eq!(drawer.status, None);
    assert!(drawer.supporting_refs.is_empty());
    assert!(drawer.counterexample_refs.is_empty());
    assert!(drawer.teaching_refs.is_empty());
    assert!(drawer.verification_refs.is_empty());
    assert_eq!(drawer.scope_constraints, None);
    assert_eq!(drawer.trigger_hints, None);
    assert_eq!(validate_anchor_domain(&drawer.domain, &drawer.anchor_kind), Ok(()));
}

#[test]
fn conversation_evidence_is_human() {
    let drawer = Drawer::new_bootstrap_evidence(
        "d".to_string(),
        "c".to_string(),
        "w".to_string(),
        None,
        None,
        SourceType::Conversation,
        "t".to_string(),
        None,
        0,
    );
    assert_eq!(drawer.provenance, Some(Provenance::Human));
    assert_eq!(drawer.source_type, SourceType::Conversation);
}

#[test]
fn test_global_anchor_rejected_for_non_global_domain() {
    let drawer = Drawer {
        id: "drawer_invalid_anchor".to_string(),
        content: "repo-local note".to_string(),
        wing: "mempal".to_string(),
        room: Some("bootstrap".to_string()),
        source_file: Some("tests://mind-model".to_string()),
        source_type: SourceType::Manual,
        added_at: "1710001234".to_string(),
        chunk_index: None,
        importance: 0,
        memory_kind: MemoryKind::Evidence,
        domain: MemoryDomain::Project,
        field: "general".to_string(),
        anchor_kind: AnchorKind::Global,
        anchor_id: "global://all".to_string(),
        parent_anchor_id: None,
        provenance: Some(Provenance::Human),
        statement: None,
        tier: None,
        status: None,
        supporting_refs: Vec::new(),
        counterexample_refs: Vec::new(),
        teaching_refs: Vec::new(),
        verification_refs: Vec::new(),
        scope_constraints: None,
        trigger_hints: None,
    };

    let message = validate_anchor_domain(&drawer.domain, &drawer.anchor_kind)
        .expect_err("global anchor should reject non-global domain");
    assert!(
        message.contains("global") && message.contains("domain"),
        "unexpected error: {message}"
    );
}
