//! The decisions of the ingest pipeline that do not touch the store: what a
//! file's content becomes before chunking, how it is chunked, which
//! directories the walk skips, and the counts it reports.

use vstd::prelude::*;
use crate::detect::{detect_format, format_of, Format};
use crate::normalize::{lemma_detected_format_normalizes, normalize_content, normalized, NormalizeError};
use crate::text::{str_chars, str_equals, trim, trim_chars};
use crate::types::SourceType;

verus! {

/// The window, in characters, that plain text is chunked in.
pub const CHUNK_WINDOW: usize = 800;

/// The characters that consecutive plain-text windows share.
pub const CHUNK_OVERLAP: usize = 100;

/// What an ingest run did: files read, chunks stored, chunks skipped
/// because they were already stored.
#[derive(Debug, Clone, Copy, PartialEq, Eq, Structural)]
pub struct IngestStats {
    pub files: usize,
    pub chunks: usize,
    pub skipped: usize,
}

impl Default for IngestStats {
    fn default() -> (r: Self)
        ensures
            r == (IngestStats { files: 0, chunks: 0, skipped: 0 }),
    {
        IngestStats { files: 0, chunks: 0, skipped: 0 }
    }
}

impl IngestStats {
    /// The counts of one file read, before any chunk of it is stored.
    pub fn for_file() -> (r: Self)
        ensures
            r == (IngestStats { files: 1, chunks: 0, skipped: 0 }),
    {
        IngestStats { files: 1, ..IngestStats::default() }
    }

    /// Counts one chunk: skipped where it was already stored, stored
    /// otherwise.
    pub fn record_chunk(&mut self, already_stored: bool)
        requires
            already_stored ==> old(self).skipped < usize::MAX,
            !already_stored ==> old(self).chunks < usize::MAX,
        ensures
            final(self).files == old(self).files,
            final(self).chunks == old(self).chunks + if already_stored { 0int } else { 1int },
            final(self).skipped == old(self).skipped + if already_stored { 1int } else { 0int },
    {
        if already_stored {
            self.skipped += 1;
        } else {
            self.chunks += 1;
        }
    }

    /// Adds the counts of another run, as a directory walk adds those of
    /// each file.
    pub fn absorb(&mut self, other: &IngestStats)
        requires
            old(self).files + other.files <= usize::MAX,
            old(self).chunks + other.chunks <= usize::MAX,
            old(self).skipped + other.skipped <= usize::MAX,
        ensures
            final(self).files == old(self).files + other.files,
            final(self).chunks == old(self).chunks + other.chunks,
            final(self).skipped == old(self).skipped + other.skipped,
    {
        self.files += other.files;
        self.chunks += other.chunks;
        self.skipped += other.skipped;
    }
}

/// The source type of content in `format`: conversations for the two
/// transcript formats, project for plain text.
pub open spec fn source_type_of(format: Format) -> SourceType {
    match format {
        Format::ClaudeJsonl | Format::ChatGptJson => SourceType::Conversation,
        Format::PlainText => SourceType::Project,
    }
}

/// The source type recorded for content in `format`.
pub fn source_type_for(format: Format) -> (r: SourceType)
    ensures
        r == source_type_of(format),
{
    match format {
        Format::ClaudeJsonl | Format::ChatGptJson => SourceType::Conversation,
        Format::PlainText => SourceType::Project,
    }
}

/// How normalized content is cut into chunks.
#[derive(Debug, Clone, Copy, PartialEq, Eq, Structural)]
pub enum Chunking {
    /// One chunk per question-and-answer exchange.
    Conversation,
    /// Fixed windows of `window` characters, `overlap` of them shared.
    Window { window: usize, overlap: usize },
}

/// The chunking for content in `format`.
pub open spec fn chunking_of(format: Format) -> Chunking {
    match format {
        Format::ClaudeJsonl | Format::ChatGptJson => Chunking::Conversation,
        Format::PlainText => Chunking::Window { window: CHUNK_WINDOW, overlap: CHUNK_OVERLAP },
    }
}

/// The chunking used for content in `format`.
pub fn chunking_for(format: Format) -> (r: Chunking)
    ensures
        r == chunking_of(format),
{
    match format {
        Format::ClaudeJsonl | Format::ChatGptJson => Chunking::Conversation,
        Format::PlainText => Chunking::Window { window: CHUNK_WINDOW, overlap: CHUNK_OVERLAP },
    }
}

/// A file's content made ready for chunking.
#[derive(Debug)]
pub struct PreparedFile {
    pub format: Format,
    pub normalized: String,
    pub source_type: SourceType,
    pub chunking: Chunking,
}

/// Reads a file's content as the ingest pipeline does: nothing for blank
/// content; else its detected format, its normalized text, the source type
/// and the chunking that go with the format. A detected format never fails
/// for want of JSON; only a ChatGPT export of no known shape is an error.
pub fn prepare_file(content: &str) -> (r: Result<Option<PreparedFile>, NormalizeError>)
    ensures
        trim(content@).len() == 0 ==> r matches Ok(None),
        trim(content@).len() > 0 ==> match normalized(content@, format_of(content@)) {
            Some(t) => r matches Ok(Some(p)) && p.format == format_of(content@) && p.normalized@
                == t && p.source_type == source_type_of(p.format) && p.chunking == chunking_of(
                p.format,
            ),
            None => r matches Err(NormalizeError::UnsupportedChatGptShape),
        },
{
    let trimmed = trim_chars(&str_chars(content));
    if trimmed.len() == 0 {
        return Ok(None);
    }
    let format = detect_format(content);
    proof {
        lemma_detected_format_normalizes(content@);
    }
    let normalized = match normalize_content(content, format) {
        Ok(text) => text,
        Err(e) => return Err(e),
    };
    Ok(
        Some(
            PreparedFile {
                format,
                normalized,
                source_type: source_type_for(format),
                chunking: chunking_for(format),
            },
        ),
    )
}

/// The directory names a walk does not enter.
pub open spec fn is_skipped_dir_name(name: Seq<char>) -> bool {
    name == ".git"@ || name == "target"@ || name == "node_modules"@
}

/// Whether a directory walk skips a directory with this file name: version
/// control, build output and dependency directories. A directory whose name
/// is missing or not valid UTF-8 is entered.
pub fn should_skip_dir(file_name: Option<&str>) -> (r: bool)
    ensures
        r == match file_name {
            Some(name) => is_skipped_dir_name(name@),
            None => false,
        },
        r == match file_name {
            Some(name) => name@ == ".git"@ || name@ == "target"@ || name@ == "node_modules"@,
            None => false,
        },
{
    match file_name {
        Some(name) => str_equals(name, ".git") || str_equals(name, "target") || str_equals(
            name,
            "node_modules",
        ),
        None => false,
    }
}


/// Exactly three directory names are skipped: `.git`, `target` and
/// `node_modules`; a directory of any other name is entered.
pub proof fn lemma_skipped_names(name: Seq<char>)
    ensures
        is_skipped_dir_name(name) <==> (name == ".git"@ || name == "target"@ || name
            == "node_modules"@),
        name != ".git"@ && name != "target"@ && name != "node_modules"@ ==> !is_skipped_dir_name(
            name,
        ),
{
}

} // verus!
