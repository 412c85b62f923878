//! Verified core of a project memory tool: format detection and
//! normalization of conversation transcripts, drawer bootstrap defaults,
//! ingest bookkeeping and embedder backend selection.

pub mod text;
pub mod json;
pub mod detect;
pub mod normalize;
pub mod types;
pub mod anchor;
pub mod ingest;
pub mod embed;
