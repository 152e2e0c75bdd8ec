//! The columns of each table, with the names that an archive gives them, and what becomes of an
//! archive row that is staged.

use crate::annotations::SealV;
use crate::columns::{fields_of, has_column, law_completed_row, mapped_row};
use crate::json::{int_json, JsonV, RowV};
use crate::merge::{seal_wanted, staged_row, staged_writes, CandidateV};
use crate::names::lemma_column_names;
use crate::round_trip::{
    distinct_names, law_exported_columns, law_exported_nothing_else, lemma_book_names,
    lemma_collection_names, lemma_custom_idea_names, lemma_lens_names, lemma_membership_names,
    lemma_note_link_names, lemma_note_names, lemma_signal_names,
};
use crate::tables::{archive_key, archive_name, key_column, table_name, Table};
use crate::types::WriteV;
use crate::write_laws::{holds, holds_integer};
use vstd::prelude::*;

verus! {

/// The name that an archive gives a column of a table.
pub open spec fn named_in_archive(table: Table, column: Seq<char>, name: Seq<char>) -> bool {
    match table {
        Table::Books => {
            ||| column == "id"@ && name == "id"@
            ||| column == "title"@ && name == "title"@
            ||| column == "author"@ && name == "author"@
            ||| column == "isbn"@ && name == "isbn"@
            ||| column == "cover_url"@ && name == "coverUrl"@
            ||| column == "cover_source"@ && name == "coverSource"@
            ||| column == "cover_resolved_at"@ && name == "coverResolvedAt"@
            ||| column == "created_at"@ && name == "createdAt"@
            ||| column == "updated_at"@ && name == "updatedAt"@
            ||| column == "deleted"@ && name == "deleted"@
        },
        Table::Notes => {
            ||| column == "id"@ && name == "id"@
            ||| column == "book_id"@ && name == "bookId"@
            ||| column == "text"@ && name == "text"@
            ||| column == "page"@ && name == "page"@
            ||| column == "tags"@ && name == "tags"@
            ||| column == "image_path"@ && name == "imagePath"@
            ||| column == "ink_crop_path"@ && name == "inkCropPath"@
            ||| column == "source"@ && name == "source"@
            ||| column == "source_id"@ && name == "sourceId"@
            ||| column == "source_meta"@ && name == "sourceMeta"@
            ||| column == "chapter"@ && name == "chapter"@
            ||| column == "content_tag"@ && name == "contentTag"@
            ||| column == "created_at"@ && name == "createdAt"@
            ||| column == "updated_at"@ && name == "updatedAt"@
            ||| column == "deleted"@ && name == "deleted"@
        },
        Table::CustomIdeas => {
            ||| column == "id"@ && name == "id"@
            ||| column == "name"@ && name == "name"@
            ||| column == "description"@ && name == "description"@
            ||| column == "created_at"@ && name == "createdAt"@
            ||| column == "updated_at"@ && name == "updatedAt"@
            ||| column == "deleted"@ && name == "deleted"@
        },
        Table::NoteLinks => {
            ||| column == "id"@ && name == "id"@
            ||| column == "from_note_id"@ && name == "fromNoteId"@
            ||| column == "to_note_id"@ && name == "toNoteId"@
            ||| column == "relation_type"@ && name == "relationType"@
            ||| column == "created_at"@ && name == "createdAt"@
            ||| column == "updated_at"@ && name == "updatedAt"@
            ||| column == "deleted"@ && name == "deleted"@
        },
        Table::Lenses => {
            ||| column == "id"@ && name == "id"@
            ||| column == "name"@ && name == "name"@
            ||| column == "leaf_ids"@ && name == "leafIds"@
            ||| column == "combinator"@ && name == "combinator"@
            ||| column == "threshold"@ && name == "threshold"@
            ||| column == "created_at"@ && name == "createdAt"@
            ||| column == "updated_at"@ && name == "updatedAt"@
            ||| column == "deleted"@ && name == "deleted"@
        },
        Table::Collections => {
            ||| column == "id"@ && name == "id"@
            ||| column == "name"@ && name == "name"@
            ||| column == "created_at"@ && name == "createdAt"@
            ||| column == "updated_at"@ && name == "updatedAt"@
            ||| column == "deleted"@ && name == "deleted"@
        },
        Table::CollectionMemberships => {
            ||| column == "id"@ && name == "id"@
            ||| column == "note_id"@ && name == "noteId"@
            ||| column == "collection_id"@ && name == "collectionId"@
            ||| column == "created_at"@ && name == "createdAt"@
            ||| column == "updated_at"@ && name == "updatedAt"@
            ||| column == "deleted"@ && name == "deleted"@
        },
        Table::NoteSignals => {
            ||| column == "note_id"@ && name == "noteId"@
            ||| column == "source_prior"@ && name == "sourcePrior"@
            ||| column == "return_visits"@ && name == "returnVisits"@
            ||| column == "has_annotation"@ && name == "hasAnnotation"@
            ||| column == "stitch_spawns"@ && name == "stitchSpawns"@
            ||| column == "exposure_recency_at"@ && name == "exposureRecencyAt"@
            ||| column == "engagement_recency_at"@ && name == "engagementRecencyAt"@
            ||| column == "importance"@ && name == "importance"@
            ||| column == "created_at"@ && name == "createdAt"@
            ||| column == "updated_at"@ && name == "updatedAt"@
            ||| column == "deleted"@ && name == "deleted"@
        },
    }
}

/// A table has these columns and no others, each under its name in an archive.
pub proof fn law_columns_and_their_names(table: Table, column: Seq<char>, name: Seq<char>)
    ensures
        fields_of(table).contains((column, name)) <==> named_in_archive(table, column, name),
{
    let fields = fields_of(table);
    match table {
        Table::Books => {
            assert(fields[0] == ("id"@, "id"@));
            assert(fields[1] == ("title"@, "title"@));
            assert(fields[2] == ("author"@, "author"@));
            assert(fields[3] == ("isbn"@, "isbn"@));
            assert(fields[4] == ("cover_url"@, "coverUrl"@));
            assert(fields[5] == ("cover_source"@, "coverSource"@));
            assert(fields[6] == ("cover_resolved_at"@, "coverResolvedAt"@));
            assert(fields[7] == ("created_at"@, "createdAt"@));
            assert(fields[8] == ("updated_at"@, "updatedAt"@));
            assert(fields[9] == ("deleted"@, "deleted"@));
        },
        Table::Notes => {
            assert(fields[0] == ("id"@, "id"@));
            assert(fields[1] == ("book_id"@, "bookId"@));
            assert(fields[2] == ("text"@, "text"@));
            assert(fields[3] == ("page"@, "page"@));
            assert(fields[4] == ("tags"@, "tags"@));
            assert(fields[5] == ("image_path"@, "imagePath"@));
            assert(fields[6] == ("ink_crop_path"@, "inkCropPath"@));
            assert(fields[7] == ("source"@, "source"@));
            assert(fields[8] == ("source_id"@, "sourceId"@));
            assert(fields[9] == ("source_meta"@, "sourceMeta"@));
            assert(fields[10] == ("chapter"@, "chapter"@));
            assert(fields[11] == ("content_tag"@, "contentTag"@));
            assert(fields[12] == ("created_at"@, "createdAt"@));
            assert(fields[13] == ("updated_at"@, "updatedAt"@));
            assert(fields[14] == ("deleted"@, "deleted"@));
        },
        Table::CustomIdeas => {
            assert(fields[0] == ("id"@, "id"@));
            assert(fields[1] == ("name"@, "name"@));
            assert(fields[2] == ("description"@, "description"@));
            assert(fields[3] == ("created_at"@, "createdAt"@));
            assert(fields[4] == ("updated_at"@, "updatedAt"@));
            assert(fields[5] == ("deleted"@, "deleted"@));
        },
        Table::NoteLinks => {
            assert(fields[0] == ("id"@, "id"@));
            assert(fields[1] == ("from_note_id"@, "fromNoteId"@));
            assert(fields[2] == ("to_note_id"@, "toNoteId"@));
            assert(fields[3] == ("relation_type"@, "relationType"@));
            assert(fields[4] == ("created_at"@, "createdAt"@));
            assert(fields[5] == ("updated_at"@, "updatedAt"@));
            assert(fields[6] == ("deleted"@, "deleted"@));
        },
        Table::Lenses => {
            assert(fields[0] == ("id"@, "id"@));
            assert(fields[1] == ("name"@, "name"@));
            assert(fields[2] == ("leaf_ids"@, "leafIds"@));
            assert(fields[3] == ("combinator"@, "combinator"@));
            assert(fields[4] == ("threshold"@, "threshold"@));
            assert(fields[5] == ("created_at"@, "createdAt"@));
            assert(fields[6] == ("updated_at"@, "updatedAt"@));
            assert(fields[7] == ("deleted"@, "deleted"@));
        },
        Table::Collections => {
            assert(fields[0] == ("id"@, "id"@));
            assert(fields[1] == ("name"@, "name"@));
            assert(fields[2] == ("created_at"@, "createdAt"@));
            assert(fields[3] == ("updated_at"@, "updatedAt"@));
            assert(fields[4] == ("deleted"@, "deleted"@));
        },
        Table::CollectionMemberships => {
            assert(fields[0] == ("id"@, "id"@));
            assert(fields[1] == ("note_id"@, "noteId"@));
            assert(fields[2] == ("collection_id"@, "collectionId"@));
            assert(fields[3] == ("created_at"@, "createdAt"@));
            assert(fields[4] == ("updated_at"@, "updatedAt"@));
            assert(fields[5] == ("deleted"@, "deleted"@));
        },
        Table::NoteSignals => {
            assert(fields[0] == ("note_id"@, "noteId"@));
            assert(fields[1] == ("source_prior"@, "sourcePrior"@));
            assert(fields[2] == ("return_visits"@, "returnVisits"@));
            assert(fields[3] == ("has_annotation"@, "hasAnnotation"@));
            assert(fields[4] == ("stitch_spawns"@, "stitchSpawns"@));
            assert(fields[5] == ("exposure_recency_at"@, "exposureRecencyAt"@));
            assert(fields[6] == ("engagement_recency_at"@, "engagementRecencyAt"@));
            assert(fields[7] == ("importance"@, "importance"@));
            assert(fields[8] == ("created_at"@, "createdAt"@));
            assert(fields[9] == ("updated_at"@, "updatedAt"@));
            assert(fields[10] == ("deleted"@, "deleted"@));
        },
    }
}

/// A staged row holds, in every column of its table but the four that staging sets, exactly what
/// the archive row holds in table shape, or null where that row lacks the column. A note's text and
/// tag are those of its seal, or null without one; the time is the common one, and the row is live.
/// It has no other columns.
pub proof fn law_staged_row_keeps_the_archive_columns(
    candidate: CandidateV,
    time: i64,
    seal: Option<SealV>,
    column: Seq<char>,
    name: Seq<char>,
)
    ensures
        named_in_archive(candidate.table, column, name) ==> {
            let row = staged_row(candidate, time, seal);
            let archived = candidate.row.row;
            &&& row.contains_key(column)
            &&& if column == "updated_at"@ {
                holds_integer(row, column, time as int)
            } else if column == "deleted"@ {
                row[column] == JsonV::Bool(false)
            } else if candidate.table == Table::Notes && column == "text"@ {
                row[column] == match seal {
                    Some(s) => JsonV::Str(s.ciphertext),
                    None => JsonV::Null,
                }
            } else if candidate.table == Table::Notes && column == "content_tag"@ {
                row[column] == match seal {
                    Some(s) => JsonV::Str(s.content_tag),
                    None => JsonV::Null,
                }
            } else if archived.contains_key(column) {
                row[column] == archived[column]
            } else {
                row[column] == JsonV::Null
            }
        },
        staged_row(candidate, time, seal).contains_key(column) ==> exists|given: Seq<char>| #[trigger]
            named_in_archive(candidate.table, column, given),
{
    lemma_column_names();
    let archived = candidate.row.row;
    let sealed = if candidate.table == Table::Notes {
        match seal {
            Some(s) => archived.insert("text"@, JsonV::Str(s.ciphertext)).insert(
                "content_tag"@,
                JsonV::Str(s.content_tag),
            ),
            None => archived.insert("text"@, JsonV::Null).insert("content_tag"@, JsonV::Null),
        }
    } else {
        archived
    };
    let marked = sealed.insert("updated_at"@, int_json(time)).insert(
        "deleted"@,
        JsonV::Bool(false),
    );
    let fields = fields_of(candidate.table);
    law_completed_row(marked, fields, column);
    law_columns_and_their_names(candidate.table, column, name);
    if named_in_archive(candidate.table, column, name) {
        let i = choose|i: int| 0 <= i < fields.len() && fields[i] == (column, name);
        assert(fields[i].0 == column);
        assert(has_column(fields, column));
    }
    if has_column(fields, column) {
        let i = choose|i: int| 0 <= i < fields.len() && (#[trigger] fields[i]).0 == column;
        assert(fields.contains((column, fields[i].1)));
        law_columns_and_their_names(candidate.table, column, fields[i].1);
        assert(named_in_archive(candidate.table, column, fields[i].1));
    }
}

/// The rows that are merged are staged in order, each once, in its own table and under its own key.
pub proof fn law_merged_rows_are_staged(
    candidates: Seq<CandidateV>,
    accepted: Seq<usize>,
    time: i64,
    seals: Seq<Option<SealV>>,
    i: int,
)
    requires
        0 <= i < accepted.len(),
    ensures
        ({
            let writes = staged_writes(candidates, accepted, time, seals);
            let candidate = candidates[accepted[i] as int];
            &&& writes.len() == accepted.len()
            &&& writes[i] == (WriteV {
                table: table_name(candidate.table),
                record_id: candidate.row.primary_key,
                row: staged_row(candidate, time, seals[i]),
            })
        }),
{
}

/// A text is sealed before staging if and only if it is that of a note: the plaintext of the row,
/// for the note's own key and its book. A note whose text or book is neither a text nor null is not
/// in table shape.
pub proof fn law_note_texts_are_sealed(candidate: CandidateV)
    ensures
        ({
            let row = candidate.row.row;
            let shaped = |column: Seq<char>|
                !row.contains_key(column) || row[column] is Null || row[column] is Str;
            match seal_wanted(candidate) {
                Ok(Some(wanted)) => {
                    &&& candidate.table == Table::Notes
                    &&& wanted.note_id == candidate.row.primary_key
                    &&& holds(row, "text"@, JsonV::Str(wanted.plaintext))
                    &&& match wanted.book_id {
                        Some(book) => holds(row, "book_id"@, JsonV::Str(book)),
                        None => !row.contains_key("book_id"@) || row["book_id"@] == JsonV::Null,
                    }
                },
                Ok(None) => candidate.table != Table::Notes || !row.contains_key("text"@)
                    || row["text"@] == JsonV::Null,
                Err(_) => candidate.table == Table::Notes && (!shaped("text"@) || !shaped(
                    "book_id"@,
                )),
            }
        }),
{
}

/// An exported row holds every column of its table under the column's name in the archive, with the
/// stored value, or null where there is none; the mark of deletion is the number zero. It holds
/// nothing else.
pub proof fn law_exported_row_holds_the_columns(
    table: Table,
    row: RowV,
    column: Seq<char>,
    name: Seq<char>,
)
    ensures
        named_in_archive(table, column, name) ==> {
            let mapped = mapped_row(row, fields_of(table));
            &&& mapped.contains_key(name)
            &&& if name == "deleted"@ {
                holds_integer(mapped, name, 0)
            } else if row.contains_key(column) {
                mapped[name] == row[column]
            } else {
                mapped[name] == JsonV::Null
            }
        },
        mapped_row(row, fields_of(table)).contains_key(name) ==> exists|from: Seq<char>| #[trigger]
            named_in_archive(table, from, name),
{
    let fields = fields_of(table);
    lemma_names_differ(table);
    law_columns_and_their_names(table, column, name);
    if named_in_archive(table, column, name) {
        let i = choose|i: int| 0 <= i < fields.len() && fields[i] == (column, name);
        law_exported_columns(row, fields, i);
        let last = fields.len() - 1;
        assert(fields[last] == ("deleted"@, "deleted"@));
        if name == "deleted"@ && i < last {
            assert(fields[i].1 != fields[last].1);
        }
    }
    if mapped_row(row, fields).contains_key(name) {
        law_exported_nothing_else(row, fields, name);
        let i = choose|i: int| 0 <= i < fields.len() && (#[trigger] fields[i]).1 == name;
        assert(fields.contains((fields[i].0, name)));
        law_columns_and_their_names(table, fields[i].0, name);
        assert(named_in_archive(table, fields[i].0, name));
    }
}

proof fn lemma_names_differ(table: Table)
    ensures
        distinct_names(fields_of(table)),
{
    match table {
        Table::Books => lemma_book_names(),
        Table::Notes => lemma_note_names(),
        Table::CustomIdeas => lemma_custom_idea_names(),
        Table::NoteLinks => lemma_note_link_names(),
        Table::Lenses => lemma_lens_names(),
        Table::Collections => lemma_collection_names(),
        Table::CollectionMemberships => lemma_membership_names(),
        Table::NoteSignals => lemma_signal_names(),
    }
}

/// The names of the tables, their names in an archive, and the columns and fields of their keys.
pub proof fn law_names_of_tables(table: Table)
    ensures
        match table {
            Table::Books => table_name(table) == "books"@ && archive_name(table) == "books"@,
            Table::Notes => table_name(table) == "notes"@ && archive_name(table) == "notes"@,
            Table::CustomIdeas => table_name(table) == "custom_ideas"@ && archive_name(table)
                == "customIdeas"@,
            Table::NoteLinks => table_name(table) == "note_links"@ && archive_name(table)
                == "noteLinks"@,
            Table::Lenses => table_name(table) == "lenses"@ && archive_name(table) == "lenses"@,
            Table::Collections => table_name(table) == "collections"@ && archive_name(table)
                == "collections"@,
            Table::CollectionMemberships => table_name(table) == "collection_memberships"@
                && archive_name(table) == "collectionMemberships"@,
            Table::NoteSignals => table_name(table) == "note_signals"@ && archive_name(table)
                == "noteSignals"@,
        },
        table == Table::NoteSignals ==> key_column(table) == "note_id"@ && archive_key(table)
            == "noteId"@,
        table != Table::NoteSignals ==> key_column(table) == "id"@ && archive_key(table) == "id"@,
        named_in_archive(table, key_column(table), archive_key(table)),
{
}

} // verus!
