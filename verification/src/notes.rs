//! Local writes: the rows that books, notes and the other records are enqueued as.
//!
//! An absent optional column is left out, so that a write patches only what it names. A column is
//! cleared by naming it, and then written as an explicit null.

use crate::annotations::{
    build_link_row, cascade_fits, drafts_view, finish_cascade, link_row, link_tombstones,
    margins_to, opt_string, push_write, recounts, recounts_fit, scored_writes,
    stage_annotation_cascade_on_delete, write_to, CascadePlan, SealedText, SealV,
};
use crate::import::{opt_text, ScoreInputs};
use crate::json::{holds_text, int_json, texts_json, texts_view, Fields, Json, JsonV, RowV};
use crate::json_text::{parsed_json, read_json};
use crate::mirror::{is_live_row, live_row, opt_row_text, row_view, text_of, Mirror};
use crate::merge::opt_seal;
use crate::signals::{
    build_signals_tombstone, inputs_of, signals_tombstone, stamp_fits, stored_state,
    tombstone_inputs, Score,
};
use crate::tables::Table;
use crate::text::{joined, same_text};
use crate::types::{store_error, writes_view, BookUpsert, NoteUpsert, SyncError, Write, WriteV};
use vstd::prelude::*;
use vstd::string::StringExecFns;

verus! {

/// The key of a membership: the collection, a colon, the note.
pub open spec fn membership_key(collection_id: Seq<char>, note_id: Seq<char>) -> Seq<char> {
    collection_id + ":"@ + note_id
}

/// The key of the membership of a note in a collection.
pub fn membership_id(collection_id: String, note_id: String) -> (id: String)
    ensures
        id@ == membership_key(collection_id@, note_id@),
{
    let mut id = joined(collection_id.as_str(), ":");
    id.append(note_id.as_str());
    id
}

/// The book columns that may be cleared.
pub const CLEARABLE_BOOK_COLUMNS: [&'static str; 4] = [
    "isbn",
    "cover_url",
    "cover_source",
    "cover_resolved_at",
];

/// The note columns that may be cleared.
pub const CLEARABLE_NOTE_COLUMNS: [&'static str; 5] = [
    "book_id",
    "chapter",
    "image_path",
    "ink_crop_path",
    "source_id",
];

/// The columns of a table that may be cleared.
pub open spec fn clearable(table: Seq<char>) -> Seq<Seq<char>> {
    if table == "books"@ {
        seq!["isbn"@, "cover_url"@, "cover_source"@, "cover_resolved_at"@]
    } else if table == "notes"@ {
        seq!["book_id"@, "chapter"@, "image_path"@, "ink_crop_path"@, "source_id"@]
    } else {
        Seq::empty()
    }
}

pub open spec fn strs_view(texts: Seq<&'static str>) -> Seq<Seq<char>> {
    texts.map_values(|s: &'static str| s@)
}

/// The columns of a table that may be cleared.
pub fn clearable_columns(table: &str) -> (columns: Vec<&'static str>)
    ensures
        strs_view(columns@) == clearable(table@),
{
    let mut columns: Vec<&'static str> = Vec::new();
    if same_text(table, "books") {
        let mut i: usize = 0;
        while i < 4
            invariant
                i <= 4,
                columns@ == CLEARABLE_BOOK_COLUMNS@.take(i as int),
            decreases 4 - i,
        {
            columns.push(CLEARABLE_BOOK_COLUMNS[i]);
            i = i + 1;
        }
    } else if same_text(table, "notes") {
        let mut i: usize = 0;
        while i < 5
            invariant
                i <= 5,
                columns@ == CLEARABLE_NOTE_COLUMNS@.take(i as int),
            decreases 5 - i,
        {
            columns.push(CLEARABLE_NOTE_COLUMNS[i]);
            i = i + 1;
        }
    }
    assert(strs_view(columns@) =~= clearable(table@));
    columns
}

/// The message for a column that may not be cleared.
pub open spec fn not_clearable(table: Seq<char>) -> Seq<char> {
    "a column requested for clearing is not clearable on "@ + table
}

/// The message for a column that is both set and cleared.
pub open spec fn set_and_cleared(table: Seq<char>) -> Seq<char> {
    "a "@ + table + " column is both set and cleared — pass a value or clear it, not both"@
}

/// A row with columns cleared, or why that is refused.
pub open spec fn with_cleared(table: Seq<char>, row: RowV, columns: Seq<Seq<char>>) -> Result<
    RowV,
    Seq<char>,
>
    decreases columns.len(),
{
    if columns.len() == 0 {
        Ok(row)
    } else {
        match with_cleared(table, row, columns.drop_last()) {
            Err(reason) => Err(reason),
            Ok(row) => if !clearable(table).contains(columns.last()) {
                Err(not_clearable(table))
            } else if row.contains_key(columns.last()) {
                Err(set_and_cleared(table))
            } else {
                Ok(row.insert(columns.last(), JsonV::Null))
            },
        }
    }
}

proof fn lemma_cleared_prefix(table: Seq<char>, row: RowV, columns: Seq<Seq<char>>, i: int)
    requires
        0 <= i < columns.len(),
        with_cleared(table, row, columns.take(i + 1)) is Err,
    ensures
        with_cleared(table, row, columns) == with_cleared(table, row, columns.take(i + 1)),
    decreases columns.len(),
{
    if i == columns.len() - 1 {
        assert(columns.take(i + 1) =~= columns);
    } else {
        assert(columns.drop_last().take(i + 1) =~= columns.take(i + 1));
        lemma_cleared_prefix(table, row, columns.drop_last(), i);
    }
}

fn str_listed(texts: &Vec<&'static str>, text: &str) -> (yes: bool)
    ensures
        yes == strs_view(texts@).contains(text@),
{
    let ghost all = strs_view(texts@);
    let mut i: usize = 0;
    while i < texts.len()
        invariant
            i <= texts@.len(),
            all == strs_view(texts@),
            forall|j: int| 0 <= j < i ==> #[trigger] all[j] != text@,
        decreases texts.len() - i,
    {
        assert(all[i as int] == texts@[i as int]@);
        if same_text(texts[i], text) {
            return true;
        }
        i = i + 1;
    }
    false
}

/// Clears columns of a row under construction. Where that is refused, the row is not to be used.
pub fn apply_clears(table: &str, row: &mut Fields, clear_nullable_fields: &Vec<String>) -> (result: Result<
    (),
    SyncError,
>)
    ensures
        match (result, with_cleared(table@, old(row)@, texts_view(clear_nullable_fields@))) {
            (Ok(_), Ok(want)) => final(row)@ == want,
            (Err(e), Err(reason)) => store_error(e, reason),
            _ => false,
        },
{
    let allowed = clearable_columns(table);
    let ghost all = texts_view(clear_nullable_fields@);
    let mut i: usize = 0;
    assert(all.take(0).len() == 0);
    while i < clear_nullable_fields.len()
        invariant
            i <= clear_nullable_fields@.len(),
            strs_view(allowed@) == clearable(table@),
            all == texts_view(clear_nullable_fields@),
            with_cleared(table@, old(row)@, all.take(i as int)) == Ok::<RowV, Seq<char>>(row@),
        decreases clear_nullable_fields.len() - i,
    {
        let column = clear_nullable_fields[i].as_str();
        proof {
            assert(all.take(i + 1).drop_last() =~= all.take(i as int));
            assert(all.take(i + 1).last() == column@);
        }
        if !str_listed(&allowed, column) {
            proof {
                lemma_cleared_prefix(table@, old(row)@, all, i as int);
            }
            return Err(
                SyncError::Store(
                    joined("a column requested for clearing is not clearable on ", table),
                ),
            );
        }
        if row.contains(column) {
            proof {
                lemma_cleared_prefix(table@, old(row)@, all, i as int);
            }
            let mut message = joined("a ", table);
            message.append(" column is both set and cleared — pass a value or clear it, not both");
            return Err(SyncError::Store(message));
        }
        row.insert(column, Json::Null);
        i = i + 1;
    }
    assert(all.take(all.len() as int) =~= all);
    Ok(())
}

/// A row with a column set where there is a value.
pub open spec fn with_opt(row: RowV, name: Seq<char>, value: Option<JsonV>) -> RowV {
    match value {
        Some(v) => row.insert(name, v),
        None => row,
    }
}

pub open spec fn opt_str(text: Option<String>) -> Option<JsonV> {
    match text {
        Some(s) => Some(JsonV::Str(s@)),
        None => None,
    }
}

pub open spec fn opt_int(n: Option<i64>) -> Option<JsonV> {
    match n {
        Some(n) => Some(int_json(n)),
        None => None,
    }
}

fn insert_opt(row: &mut Fields, name: &str, value: &Option<String>)
    ensures
        final(row)@ == with_opt(old(row)@, name@, opt_str(*value)),
{
    if let Some(s) = value {
        row.insert(name, Json::Str(s.clone()));
    }
}

/// The columns of a book write before columns are cleared.
pub open spec fn book_row(draft: BookUpsert, now: i64) -> RowV {
    let row = Map::<Seq<char>, JsonV>::empty().insert("id"@, JsonV::Str(draft.id@)).insert(
        "title"@,
        JsonV::Str(draft.title@),
    );
    let row = with_opt(row, "author"@, opt_str(draft.author));
    let row = with_opt(row, "isbn"@, opt_str(draft.isbn));
    let row = with_opt(row, "cover_url"@, opt_str(draft.cover_url));
    let row = with_opt(row, "cover_source"@, opt_str(draft.cover_source));
    let row = with_opt(row, "cover_resolved_at"@, opt_int(draft.cover_resolved_at));
    row.insert("created_at"@, int_json(draft.created_at)).insert("updated_at"@, int_json(now)).insert(
        "deleted"@,
        JsonV::Bool(draft.deleted),
    )
}

/// Whether a write is of this row, or refused for this reason.
pub open spec fn written(
    result: Result<Write, SyncError>,
    table: Seq<char>,
    id: Seq<char>,
    want: Result<RowV, Seq<char>>,
) -> bool {
    match (result, want) {
        (Ok(write), Ok(row)) => write@ == write_to(table, id, row),
        (Err(e), Err(reason)) => store_error(e, reason),
        _ => false,
    }
}

/// The write of a book.
pub fn enqueue_book(draft: &BookUpsert, now: i64) -> (write: Result<Write, SyncError>)
    ensures
        written(
            write,
            "books"@,
            draft.id@,
            with_cleared(
                "books"@,
                book_row(*draft, now),
                texts_view(draft.clear_nullable_fields@),
            ),
        ),
{
    let mut row = Fields::new();
    row.insert("id", Json::text(draft.id.as_str()));
    row.insert("title", Json::text(draft.title.as_str()));
    insert_opt(&mut row, "author", &draft.author);
    insert_opt(&mut row, "isbn", &draft.isbn);
    insert_opt(&mut row, "cover_url", &draft.cover_url);
    insert_opt(&mut row, "cover_source", &draft.cover_source);
    if let Some(n) = draft.cover_resolved_at {
        row.insert("cover_resolved_at", Json::integer(n));
    }
    row.insert("created_at", Json::integer(draft.created_at));
    row.insert("updated_at", Json::integer(now));
    row.insert("deleted", Json::Bool(draft.deleted));
    if let Err(e) = apply_clears("books", &mut row, &draft.clear_nullable_fields) {
        return Err(e);
    }
    Ok(Write { table: "books".to_owned(), record_id: draft.id.clone(), row })
}

/// The source metadata of a note write: none, or a JSON object.
pub open spec fn source_meta(meta: Option<Option<JsonV>>) -> Result<Option<RowV>, Seq<char>> {
    match meta {
        None => Ok(None),
        Some(None) => Err("source_meta_json is not valid JSON"@),
        Some(Some(JsonV::Obj(fields))) => Ok(Some(fields)),
        Some(Some(_)) => Err("source_meta_json must be a JSON object"@),
    }
}

/// What was read of source metadata, by its contents.
pub open spec fn meta_view(meta: Option<Option<Json>>) -> Option<Option<JsonV>> {
    match meta {
        None => None,
        Some(None) => Some(None),
        Some(Some(value)) => Some(Some(value@)),
    }
}

/// Checks what was read of a note's source metadata: `None` where none was given, and inside it
/// nothing where the text was not JSON.
pub fn check_source_meta(meta: Option<Option<Json>>) -> (fields: Result<Option<Fields>, SyncError>)
    ensures
        match (fields, source_meta(meta_view(meta))) {
            (Ok(Some(f)), Ok(Some(want))) => f@ == want,
            (Ok(None), Ok(None)) => true,
            (Err(e), Err(reason)) => store_error(e, reason),
            _ => false,
        },
{
    match meta {
        None => Ok(None),
        Some(None) => Err(SyncError::store("source_meta_json is not valid JSON")),
        Some(Some(Json::Obj(fields))) => Ok(Some(fields)),
        Some(Some(_)) => Err(SyncError::store("source_meta_json must be a JSON object")),
    }
}

/// The columns of a note write that do not depend on its text, before columns are cleared.
pub open spec fn note_base_row(draft: NoteUpsert, meta: Option<RowV>, now: i64) -> RowV {
    let row = Map::<Seq<char>, JsonV>::empty().insert("id"@, JsonV::Str(draft.id@));
    let row = with_opt(row, "book_id"@, opt_str(draft.book_id));
    let row = with_opt(row, "page"@, opt_str(draft.page));
    let row = row.insert("tags"@, texts_json(texts_view(draft.tags@)));
    let row = with_opt(row, "source_id"@, opt_str(draft.source_id));
    let row = with_opt(
        row,
        "source_meta"@,
        match meta {
            Some(fields) => Some(JsonV::Obj(fields)),
            None => None,
        },
    );
    let row = with_opt(row, "chapter"@, opt_str(draft.chapter));
    let row = with_opt(row, "image_path"@, opt_str(draft.image_path));
    let row = with_opt(row, "ink_crop_path"@, opt_str(draft.ink_crop_path));
    row.insert("updated_at"@, int_json(now)).insert("deleted"@, JsonV::Bool(draft.deleted))
}

/// A note write before its text is sealed: with plaintext a full write, without a patch.
#[derive(Debug)]
pub struct NoteDraft {
    pub id: String,
    pub row: Fields,
    pub plaintext: Option<String>,
    pub book_id: Option<String>,
    pub source: Option<String>,
    pub created_at: i64,
    pub deleted: bool,
}

/// The row of a note draft, or why the write is refused. A patch cannot change the book, because
/// the tag of the sealed text depends on it.
pub open spec fn note_draft_row(draft: NoteUpsert, meta: Option<Option<JsonV>>, now: i64) -> Result<
    RowV,
    Seq<char>,
> {
    match source_meta(meta) {
        Err(reason) => Err(reason),
        Ok(fields) => match with_cleared(
            "notes"@,
            note_base_row(draft, fields, now),
            texts_view(draft.clear_nullable_fields@),
        ) {
            Err(reason) => Err(reason),
            Ok(row) => if draft.plaintext is Some {
                Ok(row)
            } else if draft.book_id is Some || texts_view(draft.clear_nullable_fields@).contains(
                "book_id"@,
            ) {
                Err("plaintext-free note patches cannot change book_id"@)
            } else {
                Ok(with_opt(row, "source"@, opt_str(draft.source)))
            },
        },
    }
}

/// Whether a note draft is the checked form of a note write.
pub open spec fn note_drafted(
    result: Result<NoteDraft, SyncError>,
    draft: NoteUpsert,
    meta: Option<Option<JsonV>>,
    now: i64,
) -> bool {
    match (result, note_draft_row(draft, meta, now)) {
        (Ok(d), Ok(row)) => {
            &&& d.id == draft.id
            &&& d.row@ == row
            &&& d.plaintext == draft.plaintext
            &&& d.book_id == draft.book_id
            &&& d.source == draft.source
            &&& d.created_at == draft.created_at
            &&& d.deleted == draft.deleted
        },
        (Err(e), Err(reason)) => store_error(e, reason),
        _ => false,
    }
}

/// Checks a note write, given what was read of its source metadata.
pub fn draft_note(draft: NoteUpsert, meta: Option<Option<Json>>, now: i64) -> (result: Result<
    NoteDraft,
    SyncError,
>)
    ensures
        note_drafted(result, draft, meta_view(meta), now),
{
    let fields = match check_source_meta(meta) {
        Ok(fields) => fields,
        Err(e) => {
            return Err(e);
        },
    };
    let mut row = Fields::new();
    row.insert("id", Json::text(draft.id.as_str()));
    insert_opt(&mut row, "book_id", &draft.book_id);
    insert_opt(&mut row, "page", &draft.page);
    row.insert("tags", Json::texts(&draft.tags));
    insert_opt(&mut row, "source_id", &draft.source_id);
    if let Some(meta) = fields {
        row.insert("source_meta", Json::Obj(meta));
    }
    insert_opt(&mut row, "chapter", &draft.chapter);
    insert_opt(&mut row, "image_path", &draft.image_path);
    insert_opt(&mut row, "ink_crop_path", &draft.ink_crop_path);
    row.insert("updated_at", Json::integer(now));
    row.insert("deleted", Json::Bool(draft.deleted));
    if let Err(e) = apply_clears("notes", &mut row, &draft.clear_nullable_fields) {
        return Err(e);
    }
    if draft.plaintext.is_none() {
        if draft.book_id.is_some() || holds_text(&draft.clear_nullable_fields, "book_id") {
            return Err(SyncError::store("plaintext-free note patches cannot change book_id"));
        }
        insert_opt(&mut row, "source", &draft.source);
    }
    Ok(
        NoteDraft {
            id: draft.id,
            row,
            plaintext: draft.plaintext,
            book_id: draft.book_id,
            source: draft.source,
            created_at: draft.created_at,
            deleted: draft.deleted,
        },
    )
}

/// What reading a note's source metadata gives.
pub open spec fn read_meta(text: Option<String>) -> Option<Option<JsonV>> {
    match text {
        Some(s) => Some(parsed_json(s@)),
        None => None,
    }
}

/// Checks a note write. Its source metadata is read before anything else, so that a write with
/// bad metadata seals and stages nothing.
pub fn enqueue_note(draft: NoteUpsert, now: i64) -> (result: Result<NoteDraft, SyncError>)
    ensures
        note_drafted(result, draft, read_meta(draft.source_meta_json), now),
{
    let meta = match &draft.source_meta_json {
        Some(s) => Some(read_json(s.as_str())),
        None => None,
    };
    draft_note(draft, meta, now)
}

/// The row of a full note write: sealed text, its tag, a source, and the time of writing.
pub open spec fn full_note_row(row: RowV, seal: SealV, source: Option<Seq<char>>, created_at: i64) -> RowV {
    row.insert("text"@, JsonV::Str(seal.ciphertext)).insert(
        "content_tag"@,
        JsonV::Str(seal.content_tag),
    ).insert(
        "source"@,
        JsonV::Str(
            match source {
                Some(s) => s,
                None => "manual"@,
            },
        ),
    ).insert("created_at"@, int_json(created_at))
}

/// The row of a note write: with a sealed text a full write, without one a patch.
pub open spec fn note_row(draft: NoteDraft, seal: Option<SealV>) -> RowV {
    match seal {
        Some(s) => full_note_row(draft.row@, s, opt_string(draft.source), draft.created_at),
        None => draft.row@,
    }
}

/// The write of a note draft: with a sealed text a full write, without one a patch.
pub fn note_write(draft: NoteDraft, seal: Option<&SealedText>) -> (write: Write)
    ensures
        write@ == write_to("notes"@, draft.id@, note_row(draft, opt_seal(seal))),
{
    let mut row = draft.row;
    if let Some(s) = seal {
        row.insert("text", Json::text(s.ciphertext.as_str()));
        row.insert("content_tag", Json::text(s.content_tag.as_str()));
        match &draft.source {
            Some(source) => row.insert("source", Json::text(source.as_str())),
            None => row.insert("source", Json::text("manual")),
        }
        row.insert("created_at", Json::integer(draft.created_at));
    }
    Write { table: "notes".to_owned(), record_id: draft.id, row }
}

/// Checks that a patch has a live row to patch.
pub fn check_patch_target(note: Option<&Fields>) -> (result: Result<(), SyncError>)
    ensures
        match result {
            Ok(_) => live_row(row_view(note)),
            Err(e) => !live_row(row_view(note)) && e == SyncError::PatchTargetMissing,
        },
{
    if is_live_row(note) {
        Ok(())
    } else {
        Err(SyncError::PatchTargetMissing)
    }
}

/// The source that a deleted note's signals are retired with: the one being written, else the
/// stored one.
pub open spec fn delete_source(row: RowV, stored: Option<RowV>) -> Option<Seq<char>> {
    match crate::json::row_text(row, "source"@) {
        Some(s) => Some(s),
        None => opt_row_text(stored, "source"@),
    }
}

/// The source that a deleted note's signals are retired with.
pub fn source_for_delete<'a>(row: &'a Fields, stored: Option<&'a Fields>) -> (source: Option<&'a String>)
    ensures
        opt_text(source) == delete_source(row@, row_view(stored)),
{
    match row.get_text("source") {
        Some(s) => Some(s),
        None => text_of(stored, "source"),
    }
}

/// What rides along with the delete of a note, in the same batch: the tombstone of its signals
/// and what becomes of the margin edges that lead to it.
pub open spec fn delete_extras(
    mirror: Mirror,
    note_id: Seq<char>,
    row: RowV,
    now: i64,
    importance: u64,
    cascade: Seq<WriteV>,
) -> Seq<WriteV> {
    let tomb = signals_tombstone(
        mirror.row_of(Table::NoteSignals, note_id),
        note_id,
        delete_source(row, mirror.row_of(Table::Notes, note_id)),
        now,
        importance,
    );
    match tomb {
        Some(t) => seq![write_to("note_signals"@, note_id, t)] + cascade,
        None => cascade,
    }
}

/// Builds what rides along with the delete of a note.
pub fn note_delete_extras(
    mirror: &Mirror,
    write: &Write,
    now: i64,
    importance: u64,
    plan: CascadePlan,
    scores: &Vec<Score>,
) -> (extras: Vec<Write>)
    requires
        stamp_fits(mirror.row_of(Table::NoteSignals, write.record_id@)),
        scores@.len() == plan.recounts@.len(),
        recounts_fit(*mirror, drafts_view(plan.recounts@), scores@),
    ensures
        writes_view(extras@) == delete_extras(
            *mirror,
            write.record_id@,
            write.row@,
            now,
            importance,
            writes_view(plan.edges@) + scored_writes(
                *mirror,
                drafts_view(plan.recounts@),
                scores@,
                now,
            ),
        ),
{
    let mut extras: Vec<Write> = Vec::new();
    let id = write.record_id.as_str();
    let source = source_for_delete(&write.row, mirror.get_row(Table::Notes, id));
    let tomb = build_signals_tombstone(
        mirror.get_row(Table::NoteSignals, id),
        id,
        source,
        now,
        importance,
    );
    assert(writes_view(extras@) =~= Seq::empty());
    if let Some(row) = tomb {
        push_write(&mut extras, "note_signals", id, row);
    }
    let ghost head = writes_view(extras@);
    let mut cascade = finish_cascade(mirror, plan, scores, now);
    let ghost tail = writes_view(cascade@);
    extras.append(&mut cascade);
    assert(writes_view(extras@) =~= head + tail);
    assert(Seq::<WriteV>::empty() + tail =~= tail);
    extras
}

/// The source that a drafted delete retires the note's signals with: the one that a full write
/// carries, and for a patch the one it names, else the stored one.
pub open spec fn retire_source(draft: NoteDraft, stored: Option<RowV>) -> Option<Seq<char>> {
    if draft.plaintext is Some {
        match draft.source {
            Some(s) => Some(s@),
            None => Some("manual"@),
        }
    } else {
        delete_source(draft.row@, stored)
    }
}

/// What a drafted delete takes along, before it is scored: what the signals' tombstone is scored
/// from, unless they are tombstoned already, and what becomes of the margin edges.
#[derive(Debug)]
pub struct Retirement {
    pub inputs: Option<ScoreInputs>,
    pub plan: CascadePlan,
}

/// Works out what a drafted delete takes along.
pub fn retire_note(draft: &NoteDraft, mirror: &Mirror, now: i64) -> (retirement: Retirement)
    requires
        cascade_fits(*mirror, draft.id@),
    ensures
        retirement.inputs == (match mirror.row_of(Table::NoteSignals, draft.id@) {
            Some(stored) if crate::json::row_deleted(stored) => None,
            stored => Some(
                inputs_of(
                    stored_state(
                        stored,
                        retire_source(*draft, mirror.row_of(Table::Notes, draft.id@)),
                    ),
                ),
            ),
        }),
        writes_view(retirement.plan.edges@) == link_tombstones(
            margins_to(mirror.edges(), draft.id@),
            now,
        ),
        drafts_view(retirement.plan.recounts@) == recounts(
            *mirror,
            draft.id@,
            margins_to(mirror.edges(), draft.id@),
            margins_to(mirror.edges(), draft.id@),
            now,
        ),
{
    let id = draft.id.as_str();
    let manual = "manual".to_owned();
    let source = match (&draft.plaintext, &draft.source) {
        (Some(_), Some(source)) => Some(source),
        (Some(_), None) => Some(&manual),
        (None, _) => source_for_delete(&draft.row, mirror.get_row(Table::Notes, id)),
    };
    Retirement {
        inputs: tombstone_inputs(mirror.get_row(Table::NoteSignals, id), source),
        plan: stage_annotation_cascade_on_delete(mirror, id, now),
    }
}

/// How a note write is staged.
#[derive(Debug)]
pub enum NoteStaging {
    /// Laid over the stored row and queued.
    Merge(Write),
    /// Staged together.
    Batch(Vec<Write>),
    /// Staged together, on the condition that the note is live.
    Patch(Vec<Write>),
}

pub enum NoteStagingV {
    Merge(WriteV),
    Batch(Seq<WriteV>),
    Patch(Seq<WriteV>),
}

impl View for NoteStaging {
    type V = NoteStagingV;

    open spec fn view(&self) -> NoteStagingV {
        match *self {
            NoteStaging::Merge(write) => NoteStagingV::Merge(write@),
            NoteStaging::Batch(writes) => NoteStagingV::Batch(writes_view(writes@)),
            NoteStaging::Patch(writes) => NoteStagingV::Patch(writes_view(writes@)),
        }
    }
}

/// How a note write is staged, with what rides along if it is a delete; a patch whose note is not
/// live is not staged.
pub open spec fn note_staging(
    draft: NoteDraft,
    seal: Option<SealV>,
    mirror: Mirror,
    extras: Seq<WriteV>,
) -> Option<NoteStagingV> {
    let write = write_to("notes"@, draft.id@, note_row(draft, seal));
    let writes = if draft.deleted {
        seq![write] + extras
    } else {
        seq![write]
    };
    if seal is None {
        if live_row(mirror.row_of(Table::Notes, draft.id@)) {
            Some(NoteStagingV::Patch(writes))
        } else {
            None
        }
    } else if draft.deleted {
        Some(NoteStagingV::Batch(writes))
    } else {
        Some(NoteStagingV::Merge(write))
    }
}

/// Says how a note write is staged. Its text, where it has one, comes sealed; where it deletes the
/// note, what it takes along comes scored.
pub fn stage_note(
    draft: NoteDraft,
    seal: Option<&SealedText>,
    mirror: &Mirror,
    now: i64,
    importance: u64,
    plan: CascadePlan,
    scores: &Vec<Score>,
) -> (result: Result<NoteStaging, SyncError>)
    requires
        draft.plaintext is Some <==> seal is Some,
        draft.deleted ==> stamp_fits(mirror.row_of(Table::NoteSignals, draft.id@)),
        draft.deleted ==> scores@.len() == plan.recounts@.len() && recounts_fit(
            *mirror,
            drafts_view(plan.recounts@),
            scores@,
        ),
    ensures
        match (
            result,
            note_staging(
                draft,
                opt_seal(seal),
                *mirror,
                delete_extras(
                    *mirror,
                    draft.id@,
                    note_row(draft, opt_seal(seal)),
                    now,
                    importance,
                    writes_view(plan.edges@) + scored_writes(
                        *mirror,
                        drafts_view(plan.recounts@),
                        scores@,
                        now,
                    ),
                ),
            ),
        ) {
            (Ok(staging), Some(want)) => staging@ == want,
            (Err(e), None) => e == SyncError::PatchTargetMissing,
            _ => false,
        },
{
    let full = seal.is_some();
    let deleted = draft.deleted;
    if !full {
        if let Err(e) = check_patch_target(mirror.get_row(Table::Notes, draft.id.as_str())) {
            return Err(e);
        }
    }
    let write = note_write(draft, seal);
    let ghost head = write@;
    if full && !deleted {
        return Ok(NoteStaging::Merge(write));
    }
    let mut extras: Vec<Write> = Vec::new();
    assert(writes_view(extras@) =~= Seq::empty());
    if deleted {
        extras = note_delete_extras(mirror, &write, now, importance, plan, scores);
    }
    let ghost tail = writes_view(extras@);
    let mut writes: Vec<Write> = Vec::new();
    writes.push(write);
    writes.append(&mut extras);
    assert(writes_view(writes@) =~= seq![head] + tail);
    assert(seq![head] + Seq::<WriteV>::empty() =~= seq![head]);
    if full {
        Ok(NoteStaging::Batch(writes))
    } else {
        Ok(NoteStaging::Patch(writes))
    }
}

/// The columns of a custom idea.
pub open spec fn custom_idea_row(
    id: Seq<char>,
    name: Seq<char>,
    description: Option<Seq<char>>,
    created_at: i64,
    now: i64,
    deleted: bool,
) -> RowV {
    Map::<Seq<char>, JsonV>::empty().insert("id"@, JsonV::Str(id)).insert(
        "name"@,
        JsonV::Str(name),
    ).insert(
        "description"@,
        JsonV::Str(
            match description {
                Some(s) => s,
                None => ""@,
            },
        ),
    ).insert("created_at"@, int_json(created_at)).insert("updated_at"@, int_json(now)).insert(
        "deleted"@,
        JsonV::Bool(deleted),
    )
}

/// The write of a custom idea.
pub fn enqueue_custom_idea(
    id: &str,
    name: &str,
    description: Option<&String>,
    created_at: i64,
    now: i64,
    deleted: bool,
) -> (write: Write)
    ensures
        write@ == write_to(
            "custom_ideas"@,
            id@,
            custom_idea_row(id@, name@, opt_text(description), created_at, now, deleted),
        ),
{
    let mut row = Fields::new();
    row.insert("id", Json::text(id));
    row.insert("name", Json::text(name));
    match description {
        Some(s) => row.insert("description", Json::text(s.as_str())),
        None => row.insert("description", Json::text("")),
    }
    row.insert("created_at", Json::integer(created_at));
    row.insert("updated_at", Json::integer(now));
    row.insert("deleted", Json::Bool(deleted));
    Write { table: "custom_ideas".to_owned(), record_id: id.to_owned(), row }
}

/// The write of an edge; without a relation it is a margin edge.
pub fn enqueue_note_link(
    id: &str,
    from_note_id: &str,
    to_note_id: &str,
    relation_type: Option<&String>,
    created_at: i64,
    now: i64,
    deleted: bool,
) -> (write: Write)
    ensures
        write@ == write_to(
            "note_links"@,
            id@,
            link_row(
                id@,
                from_note_id@,
                to_note_id@,
                match relation_type {
                    Some(s) => s@,
                    None => "handwritten_annotation"@,
                },
                created_at,
                now,
                deleted,
            ),
        ),
{
    let relation = match relation_type {
        Some(s) => s.as_str(),
        None => "handwritten_annotation",
    };
    let row = build_link_row(id, from_note_id, to_note_id, relation, created_at, now, deleted);
    Write { table: "note_links".to_owned(), record_id: id.to_owned(), row }
}

/// The columns of a lens.
pub open spec fn lens_row(
    id: Seq<char>,
    name: Seq<char>,
    leaf_ids: Seq<Seq<char>>,
    combinator: Option<Seq<char>>,
    threshold: Option<i64>,
    created_at: i64,
    now: i64,
    deleted: bool,
) -> RowV {
    Map::<Seq<char>, JsonV>::empty().insert("id"@, JsonV::Str(id)).insert(
        "name"@,
        JsonV::Str(name),
    ).insert("leaf_ids"@, texts_json(leaf_ids)).insert(
        "combinator"@,
        JsonV::Str(
            match combinator {
                Some(s) => s,
                None => "AND"@,
            },
        ),
    ).insert(
        "threshold"@,
        int_json(
            match threshold {
                Some(n) => n,
                None => 100,
            },
        ),
    ).insert("created_at"@, int_json(created_at)).insert("updated_at"@, int_json(now)).insert(
        "deleted"@,
        JsonV::Bool(deleted),
    )
}

/// The write of a lens.
pub fn enqueue_lens(
    id: &str,
    name: &str,
    leaf_ids: &Vec<String>,
    combinator: Option<&String>,
    threshold: Option<i64>,
    created_at: i64,
    now: i64,
    deleted: bool,
) -> (write: Write)
    ensures
        write@ == write_to(
            "lenses"@,
            id@,
            lens_row(
                id@,
                name@,
                texts_view(leaf_ids@),
                opt_text(combinator),
                threshold,
                created_at,
                now,
                deleted,
            ),
        ),
{
    let mut row = Fields::new();
    row.insert("id", Json::text(id));
    row.insert("name", Json::text(name));
    row.insert("leaf_ids", Json::texts(leaf_ids));
    match combinator {
        Some(s) => row.insert("combinator", Json::text(s.as_str())),
        None => row.insert("combinator", Json::text("AND")),
    }
    match threshold {
        Some(n) => row.insert("threshold", Json::integer(n)),
        None => row.insert("threshold", Json::integer(100)),
    }
    row.insert("created_at", Json::integer(created_at));
    row.insert("updated_at", Json::integer(now));
    row.insert("deleted", Json::Bool(deleted));
    Write { table: "lenses".to_owned(), record_id: id.to_owned(), row }
}

/// The columns of a collection.
pub open spec fn collection_row(
    id: Seq<char>,
    name: Seq<char>,
    created_at: i64,
    now: i64,
    deleted: bool,
) -> RowV {
    Map::<Seq<char>, JsonV>::empty().insert("id"@, JsonV::Str(id)).insert(
        "name"@,
        JsonV::Str(name),
    ).insert("created_at"@, int_json(created_at)).insert("updated_at"@, int_json(now)).insert(
        "deleted"@,
        JsonV::Bool(deleted),
    )
}

/// The write of a collection.
pub fn enqueue_collection(id: &str, name: &str, created_at: i64, now: i64, deleted: bool) -> (write: Write)
    ensures
        write@ == write_to(
            "collections"@,
            id@,
            collection_row(id@, name@, created_at, now, deleted),
        ),
{
    let mut row = Fields::new();
    row.insert("id", Json::text(id));
    row.insert("name", Json::text(name));
    row.insert("created_at", Json::integer(created_at));
    row.insert("updated_at", Json::integer(now));
    row.insert("deleted", Json::Bool(deleted));
    Write { table: "collections".to_owned(), record_id: id.to_owned(), row }
}

/// The columns of a membership.
pub open spec fn membership_row(
    note_id: Seq<char>,
    collection_id: Seq<char>,
    created_at: i64,
    now: i64,
    deleted: bool,
) -> RowV {
    Map::<Seq<char>, JsonV>::empty().insert(
        "id"@,
        JsonV::Str(membership_key(collection_id, note_id)),
    ).insert("note_id"@, JsonV::Str(note_id)).insert(
        "collection_id"@,
        JsonV::Str(collection_id),
    ).insert("created_at"@, int_json(created_at)).insert("updated_at"@, int_json(now)).insert(
        "deleted"@,
        JsonV::Bool(deleted),
    )
}

/// When a membership was filed: a removal keeps the stored time where there is one.
pub open spec fn filed_at(existing: Option<RowV>, created_at: i64, deleted: bool) -> i64 {
    if deleted {
        crate::signals::int_or(existing, "created_at"@, created_at)
    } else {
        created_at
    }
}

/// The write of a membership. Its key is derived, so that two devices that file the same note in
/// the same collection write one row.
pub fn enqueue_collection_membership(
    existing: Option<&Fields>,
    note_id: &str,
    collection_id: &str,
    created_at: i64,
    now: i64,
    deleted: bool,
) -> (write: Write)
    ensures
        write@ == write_to(
            "collection_memberships"@,
            membership_key(collection_id@, note_id@),
            membership_row(
                note_id@,
                collection_id@,
                filed_at(row_view(existing), created_at, deleted),
                now,
                deleted,
            ),
        ),
{
    let id = membership_id(collection_id.to_owned(), note_id.to_owned());
    let created = if deleted {
        crate::signals::read_int(existing, "created_at", created_at)
    } else {
        created_at
    };
    let mut row = Fields::new();
    row.insert("id", Json::text(id.as_str()));
    row.insert("note_id", Json::text(note_id));
    row.insert("collection_id", Json::text(collection_id));
    row.insert("created_at", Json::integer(created));
    row.insert("updated_at", Json::integer(now));
    row.insert("deleted", Json::Bool(deleted));
    Write { table: "collection_memberships".to_owned(), record_id: id, row }
}

/// Clearing changes only the named columns, each of which may be cleared and was not set, and
/// leaves each as an explicit null.
pub proof fn law_clearing_is_exact(
    table: Seq<char>,
    row: RowV,
    columns: Seq<Seq<char>>,
    name: Seq<char>,
)
    requires
        with_cleared(table, row, columns) is Ok,
    ensures
        ({
            let cleared = with_cleared(table, row, columns)->Ok_0;
            if columns.contains(name) {
                &&& clearable(table).contains(name)
                &&& !row.contains_key(name)
                &&& cleared.contains_key(name)
                &&& cleared[name] == JsonV::Null
            } else {
                &&& cleared.contains_key(name) == row.contains_key(name)
                &&& row.contains_key(name) ==> cleared[name] == row[name]
            }
        }),
    decreases columns.len(),
{
    if columns.len() > 0 {
        let before = columns.drop_last();
        law_clearing_is_exact(table, row, before, name);
        if columns.contains(name) && !before.contains(name) {
            let i = choose|i: int| 0 <= i < columns.len() && columns[i] == name;
            if i < before.len() {
                assert(before[i] == name);
            }
            assert(name == columns.last());
        }
        if before.contains(name) {
            let i = choose|i: int| 0 <= i < before.len() && before[i] == name;
            assert(columns[i] == name);
        }
        if !columns.contains(name) {
            assert(columns.last() != name) by {
                assert(columns[columns.len() - 1] == columns.last());
            }
        }
    }
}

/// A column that is both set and cleared is refused.
pub proof fn law_set_and_cleared_is_refused(
    table: Seq<char>,
    row: RowV,
    columns: Seq<Seq<char>>,
    name: Seq<char>,
)
    requires
        row.contains_key(name),
        columns.contains(name),
    ensures
        with_cleared(table, row, columns) is Err,
{
    if with_cleared(table, row, columns) is Ok {
        law_clearing_is_exact(table, row, columns, name);
    }
}

/// The delete of a note whose signals are not retired yet retires them in the same batch.
pub proof fn law_delete_retires_signals(
    mirror: Mirror,
    note_id: Seq<char>,
    row: RowV,
    now: i64,
    importance: u64,
    cascade: Seq<WriteV>,
)
    requires
        match mirror.row_of(Table::NoteSignals, note_id) {
            Some(stored) => !crate::json::row_deleted(stored),
            None => true,
        },
    ensures
        ({
            let extras = delete_extras(mirror, note_id, row, now, importance, cascade);
            &&& extras.len() == cascade.len() + 1
            &&& extras[0].table == "note_signals"@
            &&& extras[0].record_id == note_id
            &&& crate::json::row_deleted(extras[0].row)
        }),
{
    let stored = mirror.row_of(Table::NoteSignals, note_id);
    let source = delete_source(row, mirror.row_of(Table::Notes, note_id));
    crate::signals::lemma_signal_columns(
        note_id,
        crate::signals::stored_state(stored, source),
        importance,
        crate::signals::int_or(stored, "created_at"@, now),
        crate::signals::stamp_after(now, crate::signals::int_or(stored, "updated_at"@, 0)),
        true,
    );
}

/// The signals' tombstone of a drafted delete is scored for the source that it is written with.
pub proof fn law_retired_source(draft: NoteDraft, seal: Option<SealV>, stored: Option<RowV>)
    requires
        draft.plaintext is Some <==> seal is Some,
    ensures
        retire_source(draft, stored) == delete_source(note_row(draft, seal), stored),
{
    reveal_strlit("source");
    reveal_strlit("created_at");
    assert("source"@.len() != "created_at"@.len());
}

/// The delete of a note is staged in one piece with the tombstone of its signals, whichever way it
/// is staged.
pub proof fn law_delete_is_staged_whole(
    draft: NoteDraft,
    seal: Option<SealV>,
    mirror: Mirror,
    now: i64,
    importance: u64,
    cascade: Seq<WriteV>,
)
    requires
        draft.deleted,
        match mirror.row_of(Table::NoteSignals, draft.id@) {
            Some(stored) => !crate::json::row_deleted(stored),
            None => true,
        },
    ensures
        ({
            let extras = delete_extras(
                mirror,
                draft.id@,
                note_row(draft, seal),
                now,
                importance,
                cascade,
            );
            match note_staging(draft, seal, mirror, extras) {
                Some(NoteStagingV::Batch(writes)) | Some(NoteStagingV::Patch(writes)) => {
                    &&& writes.len() == cascade.len() + 2
                    &&& writes[0] == write_to("notes"@, draft.id@, note_row(draft, seal))
                    &&& writes[1].table == "note_signals"@
                    &&& writes[1].record_id == draft.id@
                    &&& crate::json::row_deleted(writes[1].row)
                    &&& writes.skip(2) == cascade
                },
                Some(NoteStagingV::Merge(_)) => false,
                None => seal is None,
            }
        }),
{
    let row = note_row(draft, seal);
    law_delete_retires_signals(mirror, draft.id@, row, now, importance, cascade);
    let extras = delete_extras(mirror, draft.id@, row, now, importance, cascade);
    let writes = seq![write_to("notes"@, draft.id@, row)] + extras;
    assert(writes.skip(2) =~= cascade);
}

/// A patch never brings a note back, and never makes one: it is staged only over a live note.
pub proof fn law_patch_needs_a_live_note(
    draft: NoteDraft,
    mirror: Mirror,
    extras: Seq<WriteV>,
)
    ensures
        note_staging(draft, None, mirror, extras) is Some <==> live_row(
            mirror.row_of(Table::Notes, draft.id@),
        ),
{
}

/// A patch carries no sealed text, no tag and no time of writing.
pub proof fn law_patch_is_narrow(draft: NoteUpsert, meta: Option<Option<JsonV>>, now: i64)
    requires
        draft.plaintext is None,
        note_draft_row(draft, meta, now) is Ok,
    ensures
        ({
            let row = note_draft_row(draft, meta, now)->Ok_0;
            &&& !row.contains_key("text"@)
            &&& !row.contains_key("content_tag"@)
            &&& !row.contains_key("created_at"@)
            &&& !row.contains_key("book_id"@)
            &&& draft.source is None ==> !row.contains_key("source"@)
        }),
{
    lemma_note_names();
    let names = base_note_names();
    assert(names[0] == "id"@ && names[1] == "page"@ && names[2] == "tags"@ && names[3]
        == "source_id"@ && names[4] == "source_meta"@ && names[5] == "chapter"@ && names[6]
        == "image_path"@ && names[7] == "ink_crop_path"@ && names[8] == "updated_at"@ && names[9]
        == "deleted"@ && names[10] == "source"@);
    let fields = source_meta(meta)->Ok_0;
    let base = note_base_row(draft, fields, now);
    let columns = texts_view(draft.clear_nullable_fields@);
    law_clearing_is_exact("notes"@, base, columns, "text"@);
    law_clearing_is_exact("notes"@, base, columns, "content_tag"@);
    law_clearing_is_exact("notes"@, base, columns, "created_at"@);
    law_clearing_is_exact("notes"@, base, columns, "book_id"@);
    law_clearing_is_exact("notes"@, base, columns, "source"@);
}

/// The columns that a note patch may set.
pub open spec fn base_note_names() -> Seq<Seq<char>> {
    seq![
        "id"@,
        "page"@,
        "tags"@,
        "source_id"@,
        "source_meta"@,
        "chapter"@,
        "image_path"@,
        "ink_crop_path"@,
        "updated_at"@,
        "deleted"@,
        "source"@,
    ]
}

proof fn lemma_note_names()
    ensures
        !clearable("notes"@).contains("text"@),
        !clearable("notes"@).contains("content_tag"@),
        !clearable("notes"@).contains("created_at"@),
        !clearable("notes"@).contains("source"@),
        forall|i: int|
            #![trigger base_note_names()[i]]
            0 <= i < 11 ==> base_note_names()[i] != "text"@ && base_note_names()[i]
                != "content_tag"@ && base_note_names()[i] != "created_at"@ && base_note_names()[i]
                != "book_id"@ && (i < 10 ==> base_note_names()[i] != "source"@),
        "book_id"@ != "text"@,
        "book_id"@ != "content_tag"@,
        "book_id"@ != "created_at"@,
        "book_id"@ != "source"@,
{
    reveal_strlit("books");
    reveal_strlit("notes");
    reveal_strlit("id");
    reveal_strlit("page");
    reveal_strlit("tags");
    reveal_strlit("source_id");
    reveal_strlit("source_meta");
    reveal_strlit("chapter");
    reveal_strlit("image_path");
    reveal_strlit("ink_crop_path");
    reveal_strlit("updated_at");
    reveal_strlit("deleted");
    reveal_strlit("source");
    reveal_strlit("text");
    reveal_strlit("content_tag");
    reveal_strlit("created_at");
    reveal_strlit("book_id");
    assert("id"@.len() == 2 && "page"@.len() == 4 && "tags"@.len() == 4 && "source_id"@.len() == 9
        && "source_meta"@.len() == 11 && "chapter"@.len() == 7 && "image_path"@.len() == 10
        && "ink_crop_path"@.len() == 13 && "updated_at"@.len() == 10 && "deleted"@.len() == 7
        && "source"@.len() == 6 && "text"@.len() == 4 && "content_tag"@.len() == 11
        && "created_at"@.len() == 10 && "book_id"@.len() == 7 && "books"@[0] == 'b' && "notes"@[0]
        == 'n');
    assert("page"@[0] == 'p' && "tags"@[1] == 'a' && "text"@[1] == 'e' && "source_meta"@[0] == 's'
        && "content_tag"@[0] == 'c' && "chapter"@[0] == 'c' && "book_id"@[0] == 'b' && "deleted"@[0]
        == 'd' && "image_path"@[0] == 'i' && "updated_at"@[0] == 'u' && "created_at"@[0] == 'c'
        && "text"@[0] == 't');
}

} // verus!
