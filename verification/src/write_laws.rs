//! What local writes carry, column by column.

use crate::annotations::{link_row, SealV};
use crate::json::{row_i64, texts_view, JsonV, Number, RowV};
use crate::json_text::parsed_json;
use crate::mirror::Mirror;
use crate::names::{lemma_column_names, lemma_table_names};
use crate::notes::{
    base_note_names, book_row, clearable, collection_row, enqueue_note_link, custom_idea_row, filed_at,
    law_clearing_is_exact, lens_row, membership_key, membership_row, note_base_row, note_draft_row,
    note_drafted, note_row, note_staging, read_meta, source_meta, with_cleared, written, NoteDraft,
    NoteStagingV,
};
use crate::tables::Table;
use crate::types::{BookUpsert, NoteUpsert, Write, WriteV};
use vstd::prelude::*;

verus! {

/// Whether a column holds this value.
pub open spec fn holds(row: RowV, name: Seq<char>, value: JsonV) -> bool {
    row.contains_key(name) && row[name] == value
}

/// Whether a column holds the text that is given for it, and is absent where none is.
pub open spec fn carries(row: RowV, name: Seq<char>, given: Option<String>) -> bool {
    match given {
        Some(s) => holds(row, name, JsonV::Str(s@)),
        None => !row.contains_key(name),
    }
}

/// Whether a column holds the text that is given for it, is an explicit null where it is cleared,
/// and is absent otherwise.
pub open spec fn carries_or_clears(
    row: RowV,
    name: Seq<char>,
    given: Option<String>,
    cleared: Seq<Seq<char>>,
) -> bool {
    match given {
        Some(s) => holds(row, name, JsonV::Str(s@)),
        None => if cleared.contains(name) {
            holds(row, name, JsonV::Null)
        } else {
            !row.contains_key(name)
        },
    }
}

/// Whether a value is the array of these texts, in order.
pub open spec fn lists_texts(value: JsonV, texts: Seq<Seq<char>>) -> bool {
    match value {
        JsonV::Arr(items) => items.len() == texts.len() && forall|i: int|
            0 <= i < texts.len() ==> #[trigger] items[i] == JsonV::Str(texts[i]),
        _ => false,
    }
}

/// Whether a column holds a whole number.
pub open spec fn holds_integer(row: RowV, name: Seq<char>, n: int) -> bool {
    row.contains_key(name) && match row[name] {
        JsonV::Num(Number::PosInt(m)) => n >= 0 && m == n,
        JsonV::Num(Number::NegInt(m)) => n < 0 && m == n,
        _ => false,
    }
}

/// Columns are cleared if and only if each may be cleared, none is set and none is named twice.
pub proof fn law_clearing_is_accepted(table: Seq<char>, row: RowV, columns: Seq<Seq<char>>)
    ensures
        with_cleared(table, row, columns) is Ok <==> {
            &&& columns.no_duplicates()
            &&& forall|i: int|
                0 <= i < columns.len() ==> clearable(table).contains(#[trigger] columns[i])
                    && !row.contains_key(columns[i])
        },
    decreases columns.len(),
{
    if columns.len() > 0 {
        let before = columns.drop_last();
        let last = columns.last();
        law_clearing_is_accepted(table, row, before);
        assert(columns[columns.len() - 1] == last);
        assert forall|i: int| 0 <= i < before.len() implies #[trigger] before[i] == columns[i] by {}
        if with_cleared(table, row, before) is Ok {
            law_clearing_is_exact(table, row, before, last);
        }
        if with_cleared(table, row, columns) is Ok {
            assert forall|i: int, j: int|
                0 <= i < columns.len() && 0 <= j < columns.len() && i != j implies columns[i]
                != columns[j] by {
                if i < before.len() && j < before.len() {
                    assert(before[i] != before[j]);
                } else if i < before.len() {
                    assert(before[i] == columns[i]);
                    assert(before.contains(before[i]));
                } else {
                    assert(before[j] == columns[j]);
                    assert(before.contains(before[j]));
                }
            }
            assert forall|i: int| 0 <= i < columns.len() implies clearable(table).contains(
                #[trigger] columns[i],
            ) && !row.contains_key(columns[i]) by {
                if i < before.len() {
                    assert(before[i] == columns[i]);
                }
            }
        } else if columns.no_duplicates() && forall|i: int|
            0 <= i < columns.len() ==> clearable(table).contains(#[trigger] columns[i])
                && !row.contains_key(columns[i]) {
            assert(before.no_duplicates());
            assert forall|i: int| 0 <= i < before.len() implies clearable(table).contains(
                #[trigger] before[i],
            ) && !row.contains_key(before[i]) by {
                assert(columns[i] == before[i]);
            }
            if before.contains(last) {
                let i = choose|i: int| 0 <= i < before.len() && before[i] == last;
                assert(columns[i] == columns[columns.len() - 1]);
            }
        }
    }
}

/// The book columns that may be cleared are the ISBN and those of the cover; the note columns are
/// the book, the chapter, the two pictures and the source's key; no other table has any.
pub proof fn law_clearable_columns(table: Seq<char>, column: Seq<char>)
    ensures
        clearable(table).contains(column) <==> {
            ||| table == "books"@ && (column == "isbn"@ || column == "cover_url"@ || column
                == "cover_source"@ || column == "cover_resolved_at"@)
            ||| table == "notes"@ && (column == "book_id"@ || column == "chapter"@ || column
                == "image_path"@ || column == "ink_crop_path"@ || column == "source_id"@)
        },
{
    lemma_table_names();
    let names = clearable(table);
    if table == "books"@ {
        assert(names[0] == "isbn"@ && names[1] == "cover_url"@ && names[2] == "cover_source"@
            && names[3] == "cover_resolved_at"@);
    } else if table == "notes"@ {
        assert(names[0] == "book_id"@ && names[1] == "chapter"@ && names[2] == "image_path"@
            && names[3] == "ink_crop_path"@ && names[4] == "source_id"@);
    }
}

/// An accepted note write carries each column that is given under its name with the given value:
/// the page, the book, the source's key, the chapter, the two pictures, the tags and the source's
/// metadata. A column that is cleared is an explicit null, and one that is neither given nor
/// cleared is absent. The key, the time of the write and the mark of deletion are always there.
pub proof fn law_note_write_carries_what_is_given(
    draft: NoteUpsert,
    meta: Option<Option<JsonV>>,
    now: i64,
    result: NoteDraft,
)
    requires
        note_drafted(Ok(result), draft, meta, now),
    ensures
        ({
            let row = result.row@;
            let cleared = texts_view(draft.clear_nullable_fields@);
            &&& holds(row, "id"@, JsonV::Str(draft.id@))
            &&& carries(row, "page"@, draft.page)
            &&& carries_or_clears(row, "book_id"@, draft.book_id, cleared)
            &&& carries_or_clears(row, "source_id"@, draft.source_id, cleared)
            &&& carries_or_clears(row, "chapter"@, draft.chapter, cleared)
            &&& carries_or_clears(row, "image_path"@, draft.image_path, cleared)
            &&& carries_or_clears(row, "ink_crop_path"@, draft.ink_crop_path, cleared)
            &&& row.contains_key("tags"@) && lists_texts(row["tags"@], texts_view(draft.tags@))
            &&& match meta {
                Some(Some(value)) => value is Obj && holds(row, "source_meta"@, value),
                Some(None) => false,
                None => !row.contains_key("source_meta"@),
            }
            &&& draft.plaintext is None ==> carries(row, "source"@, draft.source)
            &&& draft.plaintext is Some ==> !row.contains_key("source"@)
            &&& holds_integer(row, "updated_at"@, now as int)
            &&& holds(row, "deleted"@, JsonV::Bool(draft.deleted))
            &&& forall|name: Seq<char>| #[trigger]
                row.contains_key(name) ==> name == "book_id"@ || base_note_names().contains(name)
            &&& result.id@ == draft.id@
            &&& result.plaintext == draft.plaintext
            &&& result.book_id == draft.book_id
            &&& result.source == draft.source
            &&& result.created_at == draft.created_at
            &&& result.deleted == draft.deleted
        }),
{
    lemma_column_names();
    let fields = source_meta(meta)->Ok_0;
    let base = note_base_row(draft, fields, now);
    let columns = texts_view(draft.clear_nullable_fields@);
    let cleared = with_cleared("notes"@, base, columns)->Ok_0;
    lemma_base_columns(draft, fields, now);
    lemma_cleared_column(base, columns, "id"@);
    lemma_cleared_column(base, columns, "page"@);
    lemma_cleared_column(base, columns, "book_id"@);
    lemma_cleared_column(base, columns, "source_id"@);
    lemma_cleared_column(base, columns, "chapter"@);
    lemma_cleared_column(base, columns, "image_path"@);
    lemma_cleared_column(base, columns, "ink_crop_path"@);
    lemma_cleared_column(base, columns, "tags"@);
    lemma_cleared_column(base, columns, "source_meta"@);
    lemma_cleared_column(base, columns, "source"@);
    lemma_cleared_column(base, columns, "updated_at"@);
    lemma_cleared_column(base, columns, "deleted"@);
    lemma_base_names();
    assert forall|name: Seq<char>| #[trigger] result.row@.contains_key(name) implies name
        == "book_id"@ || base_note_names().contains(name) by {
        lemma_cleared_column(base, columns, name);
        assert(cleared.contains_key(name) || name == "source"@);
    }
    assert(cleared["tags"@] == base["tags"@]);
}

proof fn lemma_cleared_column(base: RowV, columns: Seq<Seq<char>>, name: Seq<char>)
    requires
        with_cleared("notes"@, base, columns) is Ok,
    ensures
        ({
            let cleared = with_cleared("notes"@, base, columns)->Ok_0;
            if columns.contains(name) {
                &&& name == "book_id"@ || name == "chapter"@ || name == "image_path"@ || name
                    == "ink_crop_path"@ || name == "source_id"@
                &&& !base.contains_key(name)
                &&& cleared.contains_key(name)
                &&& cleared[name] == JsonV::Null
            } else {
                &&& cleared.contains_key(name) == base.contains_key(name)
                &&& base.contains_key(name) ==> cleared[name] == base[name]
            }
        }),
{
    lemma_table_names();
    law_clearing_is_exact("notes"@, base, columns, name);
    law_clearable_columns("notes"@, name);
}

proof fn lemma_base_columns(draft: NoteUpsert, meta: Option<RowV>, now: i64)
    ensures
        ({
            let row = note_base_row(draft, meta, now);
            &&& holds(row, "id"@, JsonV::Str(draft.id@))
            &&& carries(row, "page"@, draft.page)
            &&& carries(row, "book_id"@, draft.book_id)
            &&& carries(row, "source_id"@, draft.source_id)
            &&& carries(row, "chapter"@, draft.chapter)
            &&& carries(row, "image_path"@, draft.image_path)
            &&& carries(row, "ink_crop_path"@, draft.ink_crop_path)
            &&& row.contains_key("tags"@) && lists_texts(row["tags"@], texts_view(draft.tags@))
            &&& match meta {
                Some(fields) => holds(row, "source_meta"@, JsonV::Obj(fields)),
                None => !row.contains_key("source_meta"@),
            }
            &&& !row.contains_key("source"@)
            &&& holds_integer(row, "updated_at"@, now as int)
            &&& holds(row, "deleted"@, JsonV::Bool(draft.deleted))
            &&& forall|name: Seq<char>| #[trigger]
                row.contains_key(name) ==> name == "book_id"@ || base_note_names().contains(name)
        }),
{
    lemma_column_names();
    lemma_base_names();
}

proof fn lemma_base_names()
    ensures
        forall|name: Seq<char>|
            #![trigger base_note_names().contains(name)]
            base_note_names().contains(name) <==> (name == "id"@ || name == "page"@ || name
                == "tags"@ || name == "source_id"@ || name == "source_meta"@ || name == "chapter"@
                || name == "image_path"@ || name == "ink_crop_path"@ || name == "updated_at"@
                || name == "deleted"@ || name == "source"@),
{
    let names = base_note_names();
    assert(names[0] == "id"@ && names[1] == "page"@ && names[2] == "tags"@ && names[3]
        == "source_id"@ && names[4] == "source_meta"@ && names[5] == "chapter"@ && names[6]
        == "image_path"@ && names[7] == "ink_crop_path"@ && names[8] == "updated_at"@ && names[9]
        == "deleted"@ && names[10] == "source"@);
}

/// Clearing is refused at the first column that may not be cleared or is set already, with a reason
/// that says which of the two it is; what follows that column does not matter.
pub proof fn law_clearing_refusal(table: Seq<char>, row: RowV, columns: Seq<Seq<char>>, at: int)
    requires
        0 <= at < columns.len(),
        columns.take(at).no_duplicates(),
        forall|i: int|
            0 <= i < at ==> clearable(table).contains(#[trigger] columns[i]) && !row.contains_key(
                columns[i],
            ),
        !clearable(table).contains(columns[at]) || row.contains_key(columns[at])
            || columns.take(at).contains(columns[at]),
    ensures
        with_cleared(table, row, columns) == Err::<RowV, Seq<char>>(
            if !clearable(table).contains(columns[at]) {
                "a column requested for clearing is not clearable on "@ + table
            } else {
                "a "@ + table
                    + " column is both set and cleared — pass a value or clear it, not both"@
            },
        ),
    decreases columns.len(),
{
    let before = columns.drop_last();
    if at < columns.len() - 1 {
        assert(before.take(at) =~= columns.take(at));
        law_clearing_refusal(table, row, before, at);
    } else {
        assert(before =~= columns.take(at));
        law_clearing_is_accepted(table, row, before);
        law_clearing_is_exact(table, row, before, columns[at]);
    }
}

/// Whether a note write gives a value for a column that may be cleared.
pub open spec fn gives(draft: NoteUpsert, name: Seq<char>) -> bool {
    ||| name == "book_id"@ && draft.book_id is Some
    ||| name == "chapter"@ && draft.chapter is Some
    ||| name == "image_path"@ && draft.image_path is Some
    ||| name == "ink_crop_path"@ && draft.ink_crop_path is Some
    ||| name == "source_id"@ && draft.source_id is Some
}

/// A note write is accepted if and only if its source metadata, where there is any, is a JSON
/// object, it clears only columns that may be cleared, each once and none that it gives, and, where
/// it has no plaintext, it leaves the book alone.
pub proof fn law_note_write_is_accepted(draft: NoteUpsert, meta: Option<Option<JsonV>>, now: i64)
    ensures
        note_draft_row(draft, meta, now) is Ok <==> {
            let cleared = texts_view(draft.clear_nullable_fields@);
            &&& meta is None || (meta matches Some(Some(value)) && value is Obj)
            &&& cleared.no_duplicates()
            &&& forall|i: int|
                0 <= i < cleared.len() ==> !gives(draft, #[trigger] cleared[i]) && (cleared[i]
                    == "book_id"@ || cleared[i] == "chapter"@ || cleared[i] == "image_path"@
                    || cleared[i] == "ink_crop_path"@ || cleared[i] == "source_id"@)
            &&& draft.plaintext is None ==> draft.book_id is None && !cleared.contains("book_id"@)
        },
        meta == Some(None::<JsonV>) ==> note_draft_row(draft, meta, now) == Err::<
            RowV,
            Seq<char>,
        >("source_meta_json is not valid JSON"@),
        meta matches Some(Some(value)) && !(value is Obj) ==> note_draft_row(draft, meta, now)
            == Err::<RowV, Seq<char>>("source_meta_json must be a JSON object"@),
{
    lemma_column_names();
    lemma_table_names();
    if meta is None || (meta matches Some(Some(value)) && value is Obj) {
        let fields = source_meta(meta)->Ok_0;
        let base = note_base_row(draft, fields, now);
        let columns = texts_view(draft.clear_nullable_fields@);
        lemma_base_columns(draft, fields, now);
        law_clearing_is_accepted("notes"@, base, columns);
        assert forall|i: int| 0 <= i < columns.len() implies (clearable("notes"@).contains(
            #[trigger] columns[i],
        ) && !base.contains_key(columns[i])) == (!gives(draft, columns[i]) && (columns[i]
            == "book_id"@ || columns[i] == "chapter"@ || columns[i] == "image_path"@ || columns[i]
            == "ink_crop_path"@ || columns[i] == "source_id"@)) by {
            law_clearable_columns("notes"@, columns[i]);
        }
    }
}

/// A full note write carries the sealed text and its tag, the source, which is `manual` where none
/// is given, and the time of writing, and leaves every other column as drafted. A patch is written
/// as drafted.
pub proof fn law_full_note_carries_its_seal(draft: NoteDraft, seal: SealV, name: Seq<char>)
    ensures
        note_row(draft, None) == draft.row@,
        ({
            let row = note_row(draft, Some(seal));
            &&& holds(row, "text"@, JsonV::Str(seal.ciphertext))
            &&& holds(row, "content_tag"@, JsonV::Str(seal.content_tag))
            &&& match draft.source {
                Some(s) => holds(row, "source"@, JsonV::Str(s@)),
                None => holds(row, "source"@, JsonV::Str("manual"@)),
            }
            &&& holds_integer(row, "created_at"@, draft.created_at as int)
            &&& name != "text"@ && name != "content_tag"@ && name != "source"@ && name
                != "created_at"@ ==> row.contains_key(name) == draft.row@.contains_key(name)
                && row[name] == draft.row@[name]
        }),
{
    lemma_column_names();
}

/// A note write is staged under the note's own key with the row that it carries: a full write that
/// deletes nothing by itself, a full delete ahead of what it takes along, and a patch, which needs a
/// stored note that is not deleted, ahead of what it takes along if it deletes.
pub proof fn law_note_is_staged_as_written(
    draft: NoteDraft,
    seal: Option<SealV>,
    mirror: Mirror,
    extras: Seq<WriteV>,
)
    ensures
        ({
            let write = WriteV { table: "notes"@, record_id: draft.id@, row: note_row(draft, seal) };
            let stored = mirror.row_of(Table::Notes, draft.id@);
            let live = stored is Some && !(stored->Some_0.contains_key("deleted"@)
                && stored->Some_0["deleted"@] == JsonV::Bool(true));
            match note_staging(draft, seal, mirror, extras) {
                None => seal is None && !live,
                Some(NoteStagingV::Merge(w)) => seal is Some && !draft.deleted && w == write,
                Some(NoteStagingV::Batch(ws)) => seal is Some && draft.deleted && ws =~= seq![write]
                    + extras,
                Some(NoteStagingV::Patch(ws)) => seal is None && live && ws =~= (
                if draft.deleted {
                    seq![write] + extras
                } else {
                    seq![write]
                }),
            }
        }),
{
}

/// An accepted book write carries each column that is given under its name with the given value. A
/// column that is cleared is an explicit null, and one that is neither given nor cleared is absent.
pub proof fn law_book_write_carries_what_is_given(draft: BookUpsert, now: i64, write: Write)
    requires
        written(
            Ok(write),
            "books"@,
            draft.id@,
            with_cleared(
                "books"@,
                book_row(draft, now),
                texts_view(draft.clear_nullable_fields@),
            ),
        ),
    ensures
        write.table@ == "books"@,
        write.record_id@ == draft.id@,
        ({
            let row = write.row@;
            let cleared = texts_view(draft.clear_nullable_fields@);
            &&& holds(row, "id"@, JsonV::Str(draft.id@))
            &&& holds(row, "title"@, JsonV::Str(draft.title@))
            &&& carries(row, "author"@, draft.author)
            &&& carries_or_clears(row, "isbn"@, draft.isbn, cleared)
            &&& carries_or_clears(row, "cover_url"@, draft.cover_url, cleared)
            &&& carries_or_clears(row, "cover_source"@, draft.cover_source, cleared)
            &&& match draft.cover_resolved_at {
                Some(n) => holds_integer(row, "cover_resolved_at"@, n as int),
                None => if cleared.contains("cover_resolved_at"@) {
                    holds(row, "cover_resolved_at"@, JsonV::Null)
                } else {
                    !row.contains_key("cover_resolved_at"@)
                },
            }
            &&& holds_integer(row, "created_at"@, draft.created_at as int)
            &&& holds_integer(row, "updated_at"@, now as int)
            &&& holds(row, "deleted"@, JsonV::Bool(draft.deleted))
            &&& forall|name: Seq<char>| #[trigger]
                row.contains_key(name) ==> name == "id"@ || name == "title"@ || name == "author"@
                    || name == "isbn"@ || name == "cover_url"@ || name == "cover_source"@ || name
                    == "cover_resolved_at"@ || name == "created_at"@ || name == "updated_at"@
                    || name == "deleted"@
        }),
{
    lemma_column_names();
    let base = book_row(draft, now);
    let columns = texts_view(draft.clear_nullable_fields@);
    assert(write.row@ == write@.row && write.table@ == write@.table && write.record_id@
        == write@.record_id);
    lemma_cleared_book_column(base, columns, "id"@);
    lemma_cleared_book_column(base, columns, "title"@);
    lemma_cleared_book_column(base, columns, "author"@);
    lemma_cleared_book_column(base, columns, "isbn"@);
    lemma_cleared_book_column(base, columns, "cover_url"@);
    lemma_cleared_book_column(base, columns, "cover_source"@);
    lemma_cleared_book_column(base, columns, "cover_resolved_at"@);
    lemma_cleared_book_column(base, columns, "created_at"@);
    lemma_cleared_book_column(base, columns, "updated_at"@);
    lemma_cleared_book_column(base, columns, "deleted"@);
    assert forall|name: Seq<char>| #[trigger] write.row@.contains_key(name) implies name == "id"@
        || name == "title"@ || name == "author"@ || name == "isbn"@ || name == "cover_url"@ || name
        == "cover_source"@ || name == "cover_resolved_at"@ || name == "created_at"@ || name
        == "updated_at"@ || name == "deleted"@ by {
        lemma_cleared_book_column(base, columns, name);
    }
}

proof fn lemma_cleared_book_column(base: RowV, columns: Seq<Seq<char>>, name: Seq<char>)
    requires
        with_cleared("books"@, base, columns) is Ok,
    ensures
        ({
            let cleared = with_cleared("books"@, base, columns)->Ok_0;
            if columns.contains(name) {
                &&& name == "isbn"@ || name == "cover_url"@ || name == "cover_source"@ || name
                    == "cover_resolved_at"@
                &&& !base.contains_key(name)
                &&& cleared.contains_key(name)
                &&& cleared[name] == JsonV::Null
            } else {
                &&& cleared.contains_key(name) == base.contains_key(name)
                &&& base.contains_key(name) ==> cleared[name] == base[name]
            }
        }),
{
    lemma_table_names();
    law_clearing_is_exact("books"@, base, columns, name);
    law_clearable_columns("books"@, name);
}

/// A book write is accepted if and only if it clears only columns that may be cleared, each once
/// and none that it gives.
pub proof fn law_book_write_is_accepted(draft: BookUpsert, now: i64)
    ensures
        with_cleared(
            "books"@,
            book_row(draft, now),
            texts_view(draft.clear_nullable_fields@),
        ) is Ok <==> {
            let cleared = texts_view(draft.clear_nullable_fields@);
            &&& cleared.no_duplicates()
            &&& forall|i: int|
                #![trigger cleared[i]]
                0 <= i < cleared.len() ==> {
                    ||| cleared[i] == "isbn"@ && draft.isbn is None
                    ||| cleared[i] == "cover_url"@ && draft.cover_url is None
                    ||| cleared[i] == "cover_source"@ && draft.cover_source is None
                    ||| cleared[i] == "cover_resolved_at"@ && draft.cover_resolved_at is None
                }
        },
{
    lemma_column_names();
    let base = book_row(draft, now);
    let columns = texts_view(draft.clear_nullable_fields@);
    law_clearing_is_accepted("books"@, base, columns);
    lemma_table_names();
    assert forall|i: int| 0 <= i < columns.len() implies (clearable("books"@).contains(
        #[trigger] columns[i],
    ) && !base.contains_key(columns[i])) == ({
        ||| columns[i] == "isbn"@ && draft.isbn is None
        ||| columns[i] == "cover_url"@ && draft.cover_url is None
        ||| columns[i] == "cover_source"@ && draft.cover_source is None
        ||| columns[i] == "cover_resolved_at"@ && draft.cover_resolved_at is None
    }) by {
        law_clearable_columns("books"@, columns[i]);
    }
}

/// A custom idea is written whole: the key, the name, the description, which is empty where none is
/// given, the two times and the mark of deletion.
pub proof fn law_custom_idea_is_written_whole(
    id: Seq<char>,
    name: Seq<char>,
    description: Option<Seq<char>>,
    created_at: i64,
    now: i64,
    deleted: bool,
)
    ensures
        ({
            let row = custom_idea_row(id, name, description, created_at, now, deleted);
            &&& holds(row, "id"@, JsonV::Str(id))
            &&& holds(row, "name"@, JsonV::Str(name))
            &&& row.contains_key("description"@)
            &&& row["description"@] matches JsonV::Str(text) && match description {
                Some(s) => text == s,
                None => text.len() == 0,
            }
            &&& holds_integer(row, "created_at"@, created_at as int)
            &&& holds_integer(row, "updated_at"@, now as int)
            &&& holds(row, "deleted"@, JsonV::Bool(deleted))
            &&& row.dom().len() == 6
        }),
{
    lemma_column_names();
    reveal_strlit("");
    let row = custom_idea_row(id, name, description, created_at, now, deleted);
    assert(row.dom() =~= Set::empty().insert("id"@).insert("name"@).insert("description"@).insert(
        "created_at"@,
    ).insert("updated_at"@).insert("deleted"@));
}

/// An edge is written whole: the key, the two ends, the relation, the two times and the mark of
/// deletion.
pub proof fn law_edge_is_written_whole(
    id: Seq<char>,
    from: Seq<char>,
    to: Seq<char>,
    relation: Seq<char>,
    created_at: i64,
    updated_at: i64,
    deleted: bool,
)
    ensures
        ({
            let row = link_row(id, from, to, relation, created_at, updated_at, deleted);
            &&& holds(row, "id"@, JsonV::Str(id))
            &&& holds(row, "from_note_id"@, JsonV::Str(from))
            &&& holds(row, "to_note_id"@, JsonV::Str(to))
            &&& holds(row, "relation_type"@, JsonV::Str(relation))
            &&& holds_integer(row, "created_at"@, created_at as int)
            &&& holds_integer(row, "updated_at"@, updated_at as int)
            &&& holds(row, "deleted"@, JsonV::Bool(deleted))
            &&& row.dom().len() == 7
        }),
{
    lemma_column_names();
    let row = link_row(id, from, to, relation, created_at, updated_at, deleted);
    assert(row.dom() =~= Set::empty().insert("id"@).insert("from_note_id"@).insert(
        "to_note_id"@,
    ).insert("relation_type"@).insert("created_at"@).insert("updated_at"@).insert("deleted"@));
}

/// A lens is written whole: the key, the name, its leaves in order, the combinator, which is `AND`
/// where none is given, the threshold, which is one hundred where none is given, the two times and
/// the mark of deletion.
pub proof fn law_lens_is_written_whole(
    id: Seq<char>,
    name: Seq<char>,
    leaf_ids: Seq<Seq<char>>,
    combinator: Option<Seq<char>>,
    threshold: Option<i64>,
    created_at: i64,
    now: i64,
    deleted: bool,
)
    ensures
        ({
            let row = lens_row(
                id,
                name,
                leaf_ids,
                combinator,
                threshold,
                created_at,
                now,
                deleted,
            );
            &&& holds(row, "id"@, JsonV::Str(id))
            &&& holds(row, "name"@, JsonV::Str(name))
            &&& row.contains_key("leaf_ids"@) && lists_texts(row["leaf_ids"@], leaf_ids)
            &&& match combinator {
                Some(s) => holds(row, "combinator"@, JsonV::Str(s)),
                None => holds(row, "combinator"@, JsonV::Str("AND"@)),
            }
            &&& match threshold {
                Some(n) => holds_integer(row, "threshold"@, n as int),
                None => holds_integer(row, "threshold"@, 100),
            }
            &&& holds_integer(row, "created_at"@, created_at as int)
            &&& holds_integer(row, "updated_at"@, now as int)
            &&& holds(row, "deleted"@, JsonV::Bool(deleted))
            &&& row.dom().len() == 8
        }),
{
    lemma_column_names();
    let row = lens_row(id, name, leaf_ids, combinator, threshold, created_at, now, deleted);
    assert(row.dom() =~= Set::empty().insert("id"@).insert("name"@).insert("leaf_ids"@).insert(
        "combinator"@,
    ).insert("threshold"@).insert("created_at"@).insert("updated_at"@).insert("deleted"@));
}

/// A collection is written whole: the key, the name, the two times and the mark of deletion.
pub proof fn law_collection_is_written_whole(
    id: Seq<char>,
    name: Seq<char>,
    created_at: i64,
    now: i64,
    deleted: bool,
)
    ensures
        ({
            let row = collection_row(id, name, created_at, now, deleted);
            &&& holds(row, "id"@, JsonV::Str(id))
            &&& holds(row, "name"@, JsonV::Str(name))
            &&& holds_integer(row, "created_at"@, created_at as int)
            &&& holds_integer(row, "updated_at"@, now as int)
            &&& holds(row, "deleted"@, JsonV::Bool(deleted))
            &&& row.dom().len() == 5
        }),
{
    lemma_column_names();
    let row = collection_row(id, name, created_at, now, deleted);
    assert(row.dom() =~= Set::empty().insert("id"@).insert("name"@).insert("created_at"@).insert(
        "updated_at"@,
    ).insert("deleted"@));
}

/// A membership is written whole, under a key that is the collection's, a colon and the note's. A
/// removal keeps the time at which the stored membership was filed, where that is a whole number;
/// filing takes the given time whatever is stored.
pub proof fn law_membership_is_written_whole(
    existing: Option<RowV>,
    note_id: Seq<char>,
    collection_id: Seq<char>,
    created_at: i64,
    now: i64,
    deleted: bool,
)
    ensures
        ({
            let filed = filed_at(existing, created_at, deleted);
            let row = membership_row(note_id, collection_id, filed, now, deleted);
            let key = membership_key(collection_id, note_id);
            &&& key.len() == collection_id.len() + 1 + note_id.len()
            &&& key.take(collection_id.len() as int) =~= collection_id
            &&& key[collection_id.len() as int] == ':'
            &&& key.skip(collection_id.len() as int + 1) =~= note_id
            &&& holds(row, "id"@, JsonV::Str(key))
            &&& holds(row, "note_id"@, JsonV::Str(note_id))
            &&& holds(row, "collection_id"@, JsonV::Str(collection_id))
            &&& holds_integer(row, "created_at"@, filed as int)
            &&& holds_integer(row, "updated_at"@, now as int)
            &&& holds(row, "deleted"@, JsonV::Bool(deleted))
            &&& row.dom().len() == 6
            &&& !deleted ==> filed == created_at
            &&& deleted ==> match existing {
                Some(stored) => forall|n: i64|
                    #![trigger holds_integer(stored, "created_at"@, n as int)]
                    holds_integer(stored, "created_at"@, n as int) ==> filed == n,
                None => filed == created_at,
            }
            &&& deleted && existing is Some && row_i64(existing->Some_0, "created_at"@) is None
                ==> filed == created_at
        }),
{
    lemma_column_names();
    reveal_strlit(":");
    let row = membership_row(
        note_id,
        collection_id,
        filed_at(existing, created_at, deleted),
        now,
        deleted,
    );
    assert(row.dom() =~= Set::empty().insert("id"@).insert("note_id"@).insert(
        "collection_id"@,
    ).insert("created_at"@).insert("updated_at"@).insert("deleted"@));
}

/// The source metadata of an accepted note write is what its text reads as, whole: an object under
/// its own column. A write without metadata has none, and one whose text reads as nothing or as
/// anything but an object is refused.
pub proof fn law_source_metadata_is_read(draft: NoteUpsert, now: i64, result: NoteDraft)
    ensures
        note_drafted(Ok(result), draft, read_meta(draft.source_meta_json), now) ==> match draft.source_meta_json {
            Some(text) => parsed_json(text@) matches Some(value) && value is Obj && holds(
                result.row@,
                "source_meta"@,
                value,
            ),
            None => !result.row@.contains_key("source_meta"@),
        },
        draft.source_meta_json matches Some(text) && !(parsed_json(text@) matches Some(value)
            && value is Obj) ==> note_draft_row(
            draft,
            read_meta(draft.source_meta_json),
            now,
        ) is Err,
{
    let meta = read_meta(draft.source_meta_json);
    if note_drafted(Ok(result), draft, meta, now) {
        law_note_write_carries_what_is_given(draft, meta, now, result);
    }
    law_note_write_is_accepted(draft, meta, now);
}

/// An edge is enqueued whole under its own key; one without a relation gets that of margins.
pub proof fn law_edge_is_enqueued(
    id: &str,
    from: &str,
    to: &str,
    relation: Option<&String>,
    created_at: i64,
    now: i64,
    deleted: bool,
    write: Write,
)
    requires
        call_ensures(
            enqueue_note_link,
            (id, from, to, relation, created_at, now, deleted),
            write,
        ),
    ensures
        write.table@ == "note_links"@,
        write.record_id@ == id@,
        write.row@.contains_key("relation_type"@),
        write.row@["relation_type"@] == JsonV::Str(
            match relation {
                Some(s) => s@,
                None => "handwritten_annotation"@,
            },
        ),
        holds(write.row@, "from_note_id"@, JsonV::Str(from@)),
        holds(write.row@, "to_note_id"@, JsonV::Str(to@)),
        holds_integer(write.row@, "created_at"@, created_at as int),
        holds_integer(write.row@, "updated_at"@, now as int),
        holds(write.row@, "deleted"@, JsonV::Bool(deleted)),
{
    law_edge_is_written_whole(
        id@,
        from@,
        to@,
        match relation {
            Some(s) => s@,
            None => "handwritten_annotation"@,
        },
        created_at,
        now,
        deleted,
    );
    assert(write@.row == write.row@ && write@.table == write.table@ && write@.record_id
        == write.record_id@);
}

} // verus!
