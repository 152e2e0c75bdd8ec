//! The records and errors that cross the library's boundary.

use crate::json::Fields;
use crate::text::joined;
use vstd::prelude::*;

verus! {

/// What can go wrong. Messages never carry row contents or host-supplied text.
#[derive(Debug)]
pub enum SyncError {
    Store(String),
    Flush(String),
    InvalidImport(String),
    /// A plaintext-free note patch found no live row to patch.
    PatchTargetMissing,
    /// An embedding call came before an embedder was registered.
    EmbedderNotRegistered,
    Embed(String),
}

/// The text of an error as a user reads it.
pub open spec fn error_text(error: SyncError) -> Seq<char> {
    match error {
        SyncError::Store(m) => "store error: "@ + m@,
        SyncError::Flush(m) => "flush error: "@ + m@,
        SyncError::InvalidImport(m) => "invalid import: "@ + m@,
        SyncError::PatchTargetMissing => "note patch requires an existing live row"@,
        SyncError::EmbedderNotRegistered => "no embedder registered"@,
        SyncError::Embed(m) => "embed error: "@ + m@,
    }
}

/// Whether an error is a store error with this message.
pub open spec fn store_error(error: SyncError, message: Seq<char>) -> bool {
    match error {
        SyncError::Store(m) => m@ == message,
        _ => false,
    }
}

/// Whether an error is a flush error with this message.
pub open spec fn flush_error(error: SyncError, message: Seq<char>) -> bool {
    match error {
        SyncError::Flush(m) => m@ == message,
        _ => false,
    }
}

/// Whether an error is an import error with this message.
pub open spec fn import_error(error: SyncError, message: Seq<char>) -> bool {
    match error {
        SyncError::InvalidImport(m) => m@ == message,
        _ => false,
    }
}

/// Whether an error is an embedding error with this message.
pub open spec fn embed_error(error: SyncError, message: Seq<char>) -> bool {
    match error {
        SyncError::Embed(m) => m@ == message,
        _ => false,
    }
}

impl SyncError {
    /// The text of the error as a user reads it.
    pub fn message(&self) -> (text: String)
        ensures
            text@ == error_text(*self),
    {
        match self {
            SyncError::Store(m) => joined("store error: ", m.as_str()),
            SyncError::Flush(m) => joined("flush error: ", m.as_str()),
            SyncError::InvalidImport(m) => joined("invalid import: ", m.as_str()),
            SyncError::PatchTargetMissing => "note patch requires an existing live row".to_owned(),
            SyncError::EmbedderNotRegistered => "no embedder registered".to_owned(),
            SyncError::Embed(m) => joined("embed error: ", m.as_str()),
        }
    }

    /// A store error with this message.
    pub fn store(message: &str) -> (error: SyncError)
        ensures
            store_error(error, message@),
    {
        SyncError::Store(message.to_owned())
    }

    /// A flush error with this message.
    pub fn flush(message: &str) -> (error: SyncError)
        ensures
            flush_error(error, message@),
    {
        SyncError::Flush(message.to_owned())
    }

    /// An embedding error with this message.
    pub fn embed(message: &str) -> (error: SyncError)
        ensures
            embed_error(error, message@),
    {
        SyncError::Embed(message.to_owned())
    }
}

/// Rows per table.
#[derive(Debug, PartialEq, Eq, Structural)]
pub struct ImportCounts {
    pub books: u32,
    pub notes: u32,
    pub custom_ideas: u32,
    pub note_links: u32,
    pub lenses: u32,
    pub collections: u32,
    pub collection_memberships: u32,
    pub note_signals: u32,
}

/// What an archive import did.
#[derive(Debug)]
pub struct ImportSummary {
    pub schema_version: u32,
    pub imported: ImportCounts,
    pub skipped_stale: ImportCounts,
}

/// How many queued writes a flush pushed, and how many it left.
#[derive(Debug)]
pub struct FlushSummary {
    pub pushed: u32,
    pub still_queued: u32,
}

/// A queued local edit that a pull dropped because a newer remote row won.
#[derive(Debug, PartialEq)]
pub struct SupersededEdit {
    pub table: String,
    pub record_id: String,
    pub discarded_updated_at: i64,
    pub winning_updated_at: i64,
}

/// What the reconciliation after a pull did.
#[derive(Debug)]
pub struct ReconcileSummary {
    pub books_backfilled: u32,
    pub notes_rehomed: u32,
    pub notes_detached: u32,
    pub ideas_created: u32,
    pub dupes_collapsed: u32,
    /// Signal rows retired for notes that are deleted locally.
    pub signals_retired: u32,
    pub covers_resolved: u32,
}

/// What a pull did.
#[derive(Debug)]
pub struct PullSummary {
    pub pulled: u32,
    pub merged: u32,
    pub skipped_tombstones: u32,
    pub superseded: Vec<SupersededEdit>,
    pub reconcile: ReconcileSummary,
}

/// What a pull followed by a flush did.
#[derive(Debug)]
pub struct SyncSummary {
    pub pull: PullSummary,
    pub flush: FlushSummary,
}

/// A note to write. Without plaintext it is a patch of an existing live note.
#[derive(Debug)]
pub struct NoteUpsert {
    pub id: String,
    pub book_id: Option<String>,
    pub plaintext: Option<String>,
    pub page: Option<String>,
    pub tags: Vec<String>,
    pub source: Option<String>,
    pub source_id: Option<String>,
    pub source_meta_json: Option<String>,
    pub chapter: Option<String>,
    pub image_path: Option<String>,
    pub ink_crop_path: Option<String>,
    pub created_at: i64,
    pub deleted: bool,
    pub clear_nullable_fields: Vec<String>,
}

/// One margin to file under a parent note: the child note's id, the id of its edge, its text.
#[derive(Debug)]
pub struct MarginChild {
    pub id: String,
    pub link_id: String,
    pub text: String,
    pub ink_crop_path: Option<String>,
}

/// A book to write.
#[derive(Debug)]
pub struct BookUpsert {
    pub id: String,
    pub title: String,
    pub author: Option<String>,
    pub isbn: Option<String>,
    pub cover_url: Option<String>,
    pub cover_source: Option<String>,
    pub cover_resolved_at: Option<i64>,
    pub created_at: i64,
    pub deleted: bool,
    pub clear_nullable_fields: Vec<String>,
}

/// The kind of behavioural signal recorded for a note.
#[derive(Debug, Clone, Copy, PartialEq, Eq, Structural)]
pub enum NoteSignalKind {
    /// The note passed the reader's eyes; throttled.
    Exposure,
    /// A deliberate act on the note.
    Engagement,
    /// The reader returned to re-read the note.
    ReturnVisit,
}

/// A live edge between two notes.
#[derive(Debug)]
pub struct NoteLinkRecord {
    pub id: String,
    pub from_note_id: String,
    pub to_note_id: String,
    pub relation_type: Option<String>,
    pub created_at: i64,
    pub updated_at: i64,
}

/// One row to stage: the table, the row's key, and the columns to write.
#[derive(Debug)]
pub struct Write {
    pub table: String,
    pub record_id: String,
    pub row: Fields,
}

/// A write by its contents.
pub struct WriteV {
    pub table: Seq<char>,
    pub record_id: Seq<char>,
    pub row: crate::json::RowV,
}

impl View for Write {
    type V = WriteV;

    open spec fn view(&self) -> WriteV {
        WriteV { table: self.table@, record_id: self.record_id@, row: self.row@ }
    }
}

pub open spec fn writes_view(writes: Seq<Write>) -> Seq<WriteV> {
    writes.map_values(|w: Write| w@)
}

} // verus!
