//! The defaults that memories written before anchors existed are given, and
//! the rule that ties a global anchor to the global domain.

use vstd::prelude::*;
use crate::types::{is_bootstrap_evidence, provenance_for, AnchorKind, Drawer, MemoryDomain, Provenance, SourceType};

verus! {

/// The anchor of memories recorded before anchors existed.
pub const LEGACY_REPO_ANCHOR_ID: &'static str = "repo://legacy";

/// The field of memories recorded before fields existed.
pub const DEFAULT_FIELD: &'static str = "general";

/// The defaults given to a memory recorded before anchors existed.
#[derive(Debug, Clone, PartialEq, Eq)]
pub struct BootstrapDefaults {
    pub field: String,
    pub anchor_kind: AnchorKind,
    pub anchor_id: String,
    pub parent_anchor_id: Option<String>,
    pub provenance: Provenance,
}

/// The bootstrap anchor: the legacy repository anchor, with no parent.
pub fn bootstrap_anchor() -> (r: (AnchorKind, String, Option<String>))
    ensures
        r.0 == AnchorKind::Repo,
        r.1@ == LEGACY_REPO_ANCHOR_ID@,
        r.2 is None,
{
    (AnchorKind::Repo, String::from_str(LEGACY_REPO_ANCHOR_ID), None)
}

/// The provenance given to content from `source_type`.
pub fn bootstrap_provenance(source_type: &SourceType) -> (r: Provenance)
    ensures
        r == provenance_for(*source_type),
{
    match source_type {
        SourceType::Project => Provenance::Research,
        SourceType::Conversation | SourceType::Manual => Provenance::Human,
    }
}

/// All bootstrap defaults for content from `source_type`.
pub fn bootstrap_defaults(source_type: &SourceType) -> (r: BootstrapDefaults)
    ensures
        r.field@ == DEFAULT_FIELD@,
        r.anchor_kind == AnchorKind::Repo,
        r.anchor_id@ == LEGACY_REPO_ANCHOR_ID@,
        r.parent_anchor_id is None,
        r.provenance == provenance_for(*source_type),
{
    let (anchor_kind, anchor_id, parent_anchor_id) = bootstrap_anchor();
    BootstrapDefaults {
        field: String::from_str(DEFAULT_FIELD),
        anchor_kind,
        anchor_id,
        parent_anchor_id,
        provenance: bootstrap_provenance(source_type),
    }
}

/// A global anchor is only allowed in the global domain.
pub open spec fn anchor_allowed(domain: MemoryDomain, anchor_kind: AnchorKind) -> bool {
    anchor_kind == AnchorKind::Global ==> domain == MemoryDomain::Global
}

/// Checks that a global anchor comes with the global domain.
pub fn validate_anchor_domain(domain: &MemoryDomain, anchor_kind: &AnchorKind) -> (r: Result<
    (),
    &'static str,
>)
    ensures
        r is Ok <==> anchor_allowed(*domain, *anchor_kind),
        r is Ok <==> (*anchor_kind != AnchorKind::Global || *domain == MemoryDomain::Global),
        r matches Err(message) ==> message@ == "global anchor requires domain=global"@,
{
    if matches!(anchor_kind, AnchorKind::Global) && !matches!(domain, MemoryDomain::Global) {
        return Err("global anchor requires domain=global");
    }
    Ok(())
}


/// The bootstrap anchor is allowed in every domain: it is never global.
pub proof fn lemma_bootstrap_anchor_allowed(domain: MemoryDomain)
    ensures
        anchor_allowed(domain, AnchorKind::Repo),
{
}

/// A bootstrap evidence drawer carries exactly the bootstrap defaults for
/// its source type, and its anchor passes the domain check.
pub proof fn lemma_bootstrap_evidence_has_defaults(
    d: Drawer,
    id: String,
    content: String,
    wing: String,
    room: Option<String>,
    source_file: Option<String>,
    source_type: SourceType,
    added_at: String,
    chunk_index: Option<i64>,
    importance: i32,
)
    requires
        is_bootstrap_evidence(
            d,
            id,
            content,
            wing,
            room,
            source_file,
            source_type,
            added_at,
            chunk_index,
            importance,
        ),
    ensures
        d.field@ == DEFAULT_FIELD@,
        d.anchor_kind == AnchorKind::Repo,
        d.anchor_id@ == LEGACY_REPO_ANCHOR_ID@,
        d.parent_anchor_id is None,
        d.provenance == Some(provenance_for(source_type)),
        anchor_allowed(d.domain, d.anchor_kind),
{
}


/// A global anchor is rejected in every domain but the global one, and
/// every other anchor is accepted in every domain.
pub proof fn lemma_anchor_rule(domain: MemoryDomain, anchor_kind: AnchorKind)
    ensures
        anchor_kind == AnchorKind::Global && domain != MemoryDomain::Global ==> !anchor_allowed(
            domain,
            anchor_kind,
        ),
        anchor_kind != AnchorKind::Global ==> anchor_allowed(domain, anchor_kind),
        anchor_allowed(MemoryDomain::Global, anchor_kind),
        !anchor_allowed(MemoryDomain::Project, AnchorKind::Global),
        !anchor_allowed(MemoryDomain::Agent, AnchorKind::Global),
        !anchor_allowed(MemoryDomain::Skill, AnchorKind::Global),
{
}

} // verus!
