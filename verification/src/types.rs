//! The records of the memory store.

use vstd::prelude::*;

verus! {

/// Where a drawer's content came from.
#[derive(Debug, Clone, Copy, PartialEq, Eq, Structural)]
pub enum SourceType {
    Project,
    Conversation,
    Manual,
}

/// Whether a drawer holds raw evidence or distilled knowledge.
#[derive(Debug, Clone, Copy, PartialEq, Eq, Structural)]
pub enum MemoryKind {
    Evidence,
    Knowledge,
}

/// The scope a memory belongs to.
#[derive(Debug, Clone, Copy, PartialEq, Eq, Structural)]
pub enum MemoryDomain {
    Project,
    Agent,
    Skill,
    Global,
}

/// What a memory is anchored to.
#[derive(Debug, Clone, Copy, PartialEq, Eq, Structural)]
pub enum AnchorKind {
    Global,
    Repo,
    Worktree,
}

/// Who or what produced a memory.
#[derive(Debug, Clone, Copy, PartialEq, Eq, Structural)]
pub enum Provenance {
    Runtime,
    Research,
    Human,
}

/// The tier of a piece of knowledge.
#[derive(Debug, Clone, Copy, PartialEq, Eq, Structural)]
pub enum KnowledgeTier {
    Qi,
    Shu,
    DaoRen,
    DaoTian,
}

/// The life-cycle state of a piece of knowledge.
#[derive(Debug, Clone, Copy, PartialEq, Eq, Structural)]
pub enum KnowledgeStatus {
    Candidate,
    Promoted,
    Canonical,
    Demoted,
    Retired,
}

/// Hints on when a piece of knowledge applies.
#[derive(Debug, Clone, PartialEq, Eq)]
pub struct TriggerHints {
    pub intent_tags: Vec<String>,
    pub workflow_bias: Vec<String>,
    pub tool_needs: Vec<String>,
}

/// One stored memory.
#[derive(Debug, Clone, PartialEq, Eq)]
pub struct Drawer {
    pub id: String,
    pub content: String,
    pub wing: String,
    pub room: Option<String>,
    pub source_file: Option<String>,
    pub source_type: SourceType,
    pub added_at: String,
    pub chunk_index: Option<i64>,
    /// Importance ranking (0-5). Higher = more important for wake-up context.
    pub importance: i32,
    pub memory_kind: MemoryKind,
    pub domain: MemoryDomain,
    pub field: String,
    pub anchor_kind: AnchorKind,
    pub anchor_id: String,
    pub parent_anchor_id: Option<String>,
    pub provenance: Option<Provenance>,
    pub statement: Option<String>,
    pub tier: Option<KnowledgeTier>,
    pub status: Option<KnowledgeStatus>,
    pub supporting_refs: Vec<String>,
    pub counterexample_refs: Vec<String>,
    pub teaching_refs: Vec<String>,
    pub verification_refs: Vec<String>,
    pub scope_constraints: Option<String>,
    pub trigger_hints: Option<TriggerHints>,
}

/// A taxonomy room of a wing, with the keywords that route to it.
#[derive(Debug, Clone, PartialEq, Eq)]
pub struct TaxonomyEntry {
    pub wing: String,
    pub room: String,
    pub display_name: Option<String>,
    pub keywords: Vec<String>,
}

/// Counts over the knowledge-graph triples.
#[derive(Debug, Clone, PartialEq)]
pub struct TripleStats {
    pub total: i64,
    pub active: i64,
    pub expired: i64,
    pub entities: i64,
    pub top_predicates: Vec<(String, i64)>,
}

/// The provenance recorded for content from a given source: research for
/// project files, human for conversations and manual notes.
pub open spec fn provenance_for(source_type: SourceType) -> Provenance {
    match source_type {
        SourceType::Project => Provenance::Research,
        SourceType::Conversation | SourceType::Manual => Provenance::Human,
    }
}

/// The drawer that `Drawer::new_bootstrap_evidence` builds: the given
/// fields, project-domain evidence anchored at the legacy repository anchor
/// in the `general` field, with the source's provenance and nothing else set.
pub open spec fn is_bootstrap_evidence(
    d: Drawer,
    id: String,
    content: String,
    wing: String,
    room: Option<String>,
    source_file: Option<String>,
    source_type: SourceType,
    added_at: String,
    chunk_index: Option<i64>,
    importance: i32,
) -> bool {
    &&& d.id == id
    &&& d.content == content
    &&& d.wing == wing
    &&& d.room == room
    &&& d.source_file == source_file
    &&& d.source_type == source_type
    &&& d.added_at == added_at
    &&& d.chunk_index == chunk_index
    &&& d.importance == importance
    &&& d.memory_kind == MemoryKind::Evidence
    &&& d.domain == MemoryDomain::Project
    &&& d.field@ == "general"@
    &&& d.anchor_kind == AnchorKind::Repo
    &&& d.anchor_id@ == "repo://legacy"@
    &&& d.parent_anchor_id is None
    &&& d.provenance == Some(provenance_for(source_type))
    &&& d.statement is None
    &&& d.tier is None
    &&& d.status is None
    &&& d.supporting_refs@.len() == 0
    &&& d.counterexample_refs@.len() == 0
    &&& d.teaching_refs@.len() == 0
    &&& d.verification_refs@.len() == 0
    &&& d.scope_constraints is None
    &&& d.trigger_hints is None
}

impl Drawer {
    /// A drawer of evidence with the bootstrap defaults.
    pub fn new_bootstrap_evidence(
        id: String,
        content: String,
        wing: String,
        room: Option<String>,
        source_file: Option<String>,
        source_type: SourceType,
        added_at: String,
        chunk_index: Option<i64>,
        importance: i32,
    ) -> (r: Self)
        ensures
            is_bootstrap_evidence(
                r,
                id,
                content,
                wing,
                room,
                source_file,
                source_type,
                added_at,
                chunk_index,
                importance,
            ),
    {
        let provenance = match source_type {
            SourceType::Project => Some(Provenance::Research),
            SourceType::Conversation | SourceType::Manual => Some(Provenance::Human),
        };

        Self {
            id,
            content,
            wing,
            room,
            source_file,
            source_type,
            added_at,
            chunk_index,
            importance,
            memory_kind: MemoryKind::Evidence,
            domain: MemoryDomain::Project,
            field: String::from_str("general"),
            anchor_kind: AnchorKind::Repo,
            anchor_id: String::from_str("repo://legacy"),
            parent_anchor_id: None,
            provenance,
            statement: None,
            tier: None,
            status: None,
            supporting_refs: Vec::new(),
            counterexample_refs: Vec::new(),
            teaching_refs: Vec::new(),
            verification_refs: Vec::new(),
            scope_constraints: None,
            trigger_hints: None,
        }
    }
}

} // verus!
