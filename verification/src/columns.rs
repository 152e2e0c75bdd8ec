//! The columns of the synced tables, each with its name in an archive.

use crate::json::{field, int_json, Fields, Json, JsonV, RowV};
use crate::tables::Table;
use crate::tags::pairs_view;
use crate::text::same_text;
use vstd::prelude::*;

verus! {

pub const BOOK_FIELDS: [(&'static str, &'static str); 10] = [
    ("id", "id"),
    ("title", "title"),
    ("author", "author"),
    ("isbn", "isbn"),
    ("cover_url", "coverUrl"),
    ("cover_source", "coverSource"),
    ("cover_resolved_at", "coverResolvedAt"),
    ("created_at", "createdAt"),
    ("updated_at", "updatedAt"),
    ("deleted", "deleted"),
];

pub const NOTE_FIELDS: [(&'static str, &'static str); 15] = [
    ("id", "id"),
    ("book_id", "bookId"),
    ("text", "text"),
    ("page", "page"),
    ("tags", "tags"),
    ("image_path", "imagePath"),
    ("ink_crop_path", "inkCropPath"),
    ("source", "source"),
    ("source_id", "sourceId"),
    ("source_meta", "sourceMeta"),
    ("chapter", "chapter"),
    ("content_tag", "contentTag"),
    ("created_at", "createdAt"),
    ("updated_at", "updatedAt"),
    ("deleted", "deleted"),
];

pub const CUSTOM_IDEA_FIELDS: [(&'static str, &'static str); 6] = [
    ("id", "id"),
    ("name", "name"),
    ("description", "description"),
    ("created_at", "createdAt"),
    ("updated_at", "updatedAt"),
    ("deleted", "deleted"),
];

pub const NOTE_LINK_FIELDS: [(&'static str, &'static str); 7] = [
    ("id", "id"),
    ("from_note_id", "fromNoteId"),
    ("to_note_id", "toNoteId"),
    ("relation_type", "relationType"),
    ("created_at", "createdAt"),
    ("updated_at", "updatedAt"),
    ("deleted", "deleted"),
];

pub const LENS_FIELDS: [(&'static str, &'static str); 8] = [
    ("id", "id"),
    ("name", "name"),
    ("leaf_ids", "leafIds"),
    ("combinator", "combinator"),
    ("threshold", "threshold"),
    ("created_at", "createdAt"),
    ("updated_at", "updatedAt"),
    ("deleted", "deleted"),
];

pub const COLLECTION_FIELDS: [(&'static str, &'static str); 5] = [
    ("id", "id"),
    ("name", "name"),
    ("created_at", "createdAt"),
    ("updated_at", "updatedAt"),
    ("deleted", "deleted"),
];

pub const MEMBERSHIP_FIELDS: [(&'static str, &'static str); 6] = [
    ("id", "id"),
    ("note_id", "noteId"),
    ("collection_id", "collectionId"),
    ("created_at", "createdAt"),
    ("updated_at", "updatedAt"),
    ("deleted", "deleted"),
];

pub const SIGNAL_FIELDS: [(&'static str, &'static str); 11] = [
    ("note_id", "noteId"),
    ("source_prior", "sourcePrior"),
    ("return_visits", "returnVisits"),
    ("has_annotation", "hasAnnotation"),
    ("stitch_spawns", "stitchSpawns"),
    ("exposure_recency_at", "exposureRecencyAt"),
    ("engagement_recency_at", "engagementRecencyAt"),
    ("importance", "importance"),
    ("created_at", "createdAt"),
    ("updated_at", "updatedAt"),
    ("deleted", "deleted"),
];

/// A table's columns, each with its name in an archive.
pub open spec fn fields_of(table: Table) -> Seq<(Seq<char>, Seq<char>)> {
    match table {
        Table::Books => pairs_view(BOOK_FIELDS@),
        Table::Notes => pairs_view(NOTE_FIELDS@),
        Table::CustomIdeas => pairs_view(CUSTOM_IDEA_FIELDS@),
        Table::NoteLinks => pairs_view(NOTE_LINK_FIELDS@),
        Table::Lenses => pairs_view(LENS_FIELDS@),
        Table::Collections => pairs_view(COLLECTION_FIELDS@),
        Table::CollectionMemberships => pairs_view(MEMBERSHIP_FIELDS@),
        Table::NoteSignals => pairs_view(SIGNAL_FIELDS@),
    }
}

/// A column's value; an absent one is null.
pub open spec fn column_value(row: RowV, column: Seq<char>) -> JsonV {
    match field(row, column) {
        Some(value) => value,
        None => JsonV::Null,
    }
}

/// A row with just these columns, the absent ones null.
pub open spec fn completed_row(row: RowV, fields: Seq<(Seq<char>, Seq<char>)>) -> RowV
    decreases fields.len(),
{
    if fields.len() == 0 {
        Map::empty()
    } else {
        let column = fields.last().0;
        completed_row(row, fields.drop_last()).insert(column, column_value(row, column))
    }
}

/// A live row under its archive names; the mark of deletion is the number zero.
pub open spec fn mapped_row(row: RowV, fields: Seq<(Seq<char>, Seq<char>)>) -> RowV
    decreases fields.len(),
{
    if fields.len() == 0 {
        Map::empty()
    } else {
        let (column, name) = fields.last();
        mapped_row(row, fields.drop_last()).insert(
            name,
            if column == "deleted"@ && name == "deleted"@ {
                int_json(0)
            } else {
                column_value(row, column)
            },
        )
    }
}

/// A table's columns, each with its name in an archive.
pub fn archive_fields(table: Table) -> (fields: &'static [(&'static str, &'static str)])
    ensures
        pairs_view(fields@) == fields_of(table),
{
    match table {
        Table::Books => BOOK_FIELDS.as_slice(),
        Table::Notes => NOTE_FIELDS.as_slice(),
        Table::CustomIdeas => CUSTOM_IDEA_FIELDS.as_slice(),
        Table::NoteLinks => NOTE_LINK_FIELDS.as_slice(),
        Table::Lenses => LENS_FIELDS.as_slice(),
        Table::Collections => COLLECTION_FIELDS.as_slice(),
        Table::CollectionMemberships => MEMBERSHIP_FIELDS.as_slice(),
        Table::NoteSignals => SIGNAL_FIELDS.as_slice(),
    }
}

fn value_of(row: &Fields, column: &str) -> (value: Json)
    ensures
        crate::json::json_view(value) == column_value(row@, column@),
{
    match row.get(column) {
        Some(value) => value.copy(),
        None => Json::Null,
    }
}

/// A row with just the columns of its table, the absent ones null.
pub fn complete_row(row: &Fields, table: Table) -> (complete: Fields)
    ensures
        complete@ == completed_row(row@, fields_of(table)),
{
    let fields = archive_fields(table);
    let ghost pairs = pairs_view(fields@);
    let mut complete = Fields::new();
    let mut i: usize = 0;
    assert(pairs.take(0) =~= Seq::empty());
    while i < fields.len()
        invariant
            i <= fields@.len(),
            pairs == pairs_view(fields@),
            complete@ == completed_row(row@, pairs.take(i as int)),
        decreases fields.len() - i,
    {
        assert(pairs.take(i + 1).drop_last() =~= pairs.take(i as int));
        assert(pairs[i as int] == (fields@[i as int].0@, fields@[i as int].1@));
        let column = fields[i].0;
        complete.insert(column, value_of(row, column));
        i = i + 1;
    }
    assert(pairs.take(pairs.len() as int) =~= pairs);
    complete
}

/// A live row under its archive names.
pub fn map_fields(row: &Fields, table: Table) -> (mapped: Fields)
    ensures
        mapped@ == mapped_row(row@, fields_of(table)),
{
    let fields = archive_fields(table);
    let ghost pairs = pairs_view(fields@);
    let mut mapped = Fields::new();
    let mut i: usize = 0;
    assert(pairs.take(0) =~= Seq::empty());
    while i < fields.len()
        invariant
            i <= fields@.len(),
            pairs == pairs_view(fields@),
            mapped@ == mapped_row(row@, pairs.take(i as int)),
        decreases fields.len() - i,
    {
        assert(pairs.take(i + 1).drop_last() =~= pairs.take(i as int));
        assert(pairs[i as int] == (fields@[i as int].0@, fields@[i as int].1@));
        let (column, name) = fields[i];
        if same_text(column, "deleted") && same_text(name, "deleted") {
            mapped.insert(name, Json::integer(0));
        } else {
            mapped.insert(name, value_of(row, column));
        }
        i = i + 1;
    }
    assert(pairs.take(pairs.len() as int) =~= pairs);
    mapped
}

/// Whether a column is among some.
pub open spec fn has_column(fields: Seq<(Seq<char>, Seq<char>)>, column: Seq<char>) -> bool {
    exists|i: int| 0 <= i < fields.len() && (#[trigger] fields[i]).0 == column
}

/// A completed row has every column and no other, each with the row's own value or null.
pub proof fn law_completed_row(row: RowV, fields: Seq<(Seq<char>, Seq<char>)>, column: Seq<char>)
    ensures
        completed_row(row, fields).contains_key(column) <==> has_column(fields, column),
        has_column(fields, column) ==> completed_row(row, fields)[column] == column_value(
            row,
            column,
        ),
    decreases fields.len(),
{
    if fields.len() > 0 {
        let before = fields.drop_last();
        law_completed_row(row, before, column);
        if has_column(before, column) {
            let i = choose|i: int| 0 <= i < before.len() && (#[trigger] before[i]).0 == column;
            assert(fields[i] == before[i]);
        }
        if has_column(fields, column) {
            let i = choose|i: int| 0 <= i < fields.len() && (#[trigger] fields[i]).0 == column;
            if i < before.len() {
                assert(before[i] == fields[i]);
            }
        }
        assert(fields[fields.len() - 1] == fields.last());
    }
}

} // verus!
