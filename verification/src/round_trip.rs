//! What an archive gives back: a live row that is exported and imported comes back as it was
//! stored.

use crate::columns::{
    column_value, completed_row, fields_of, has_column, law_completed_row, mapped_row,
};
use crate::export::{
    annotated, archive_object, as_items, listed_margins, mapped_note, mapped_notes, mapped_rows,
    margin_edges, note_text, opened_view, rows_of_fields, snapshot_of, with_margins, Snapshot,
    SnapshotRows, SCHEMA_VERSION,
};
use crate::import::{
    all_texts, archive_version, finished_row, key_seen, normalized_archive, normalized_row,
    normalized_rows, raw_notes_of, table_columns, text_items, ImportContext, NormalizedImportV,
    NormalizedRowV,
};
use crate::json::{field, finite_bits, int_json, json_i64, texts_json, JsonV, Number, RowV};
use crate::json_text::parsed_json;
use crate::merge::read_archive;
use crate::tables::{key_column, Table};
use crate::tags::law_current_tags_kept;
use vstd::prelude::*;

verus! {

pub open spec fn is_text(value: JsonV) -> bool {
    value is Str
}

/// A text that is not empty.
pub open spec fn is_filled(value: JsonV) -> bool {
    value is Str && value->Str_0.len() > 0
}

pub open spec fn is_opt_text(value: JsonV) -> bool {
    value is Str || value is Null
}

pub open spec fn is_int(value: JsonV) -> bool {
    match json_i64(value) {
        Some(n) => value == int_json(n),
        None => false,
    }
}

pub open spec fn is_opt_int(value: JsonV) -> bool {
    value is Null || is_int(value)
}

/// A time: an integer that is not zero.
pub open spec fn is_stamp(value: JsonV) -> bool {
    is_int(value) && json_i64(value) != Some(0i64)
}

pub open spec fn is_texts(value: JsonV) -> bool {
    value is Arr && all_texts(value->Arr_0)
}

/// A finite number that is held as a float.
pub open spec fn is_float(value: JsonV) -> bool {
    match value {
        JsonV::Num(Number::Float(bits)) => finite_bits(bits),
        _ => false,
    }
}

pub open spec fn is_flag(value: JsonV) -> bool {
    value is Bool
}

pub open spec fn is_object(value: JsonV) -> bool {
    value is Obj
}

pub open spec fn distinct_names(fields: Seq<(Seq<char>, Seq<char>)>) -> bool {
    forall|i: int, j: int|
        0 <= i < j < fields.len() ==> (#[trigger] fields[i]).1 != (#[trigger] fields[j]).1
            && fields[i].0 != fields[j].0
}

/// A column's value in an archive.
pub open spec fn archived_value(row: RowV, pair: (Seq<char>, Seq<char>)) -> JsonV {
    if pair.0 == "deleted"@ && pair.1 == "deleted"@ {
        int_json(0)
    } else {
        column_value(row, pair.0)
    }
}

proof fn lemma_mapped_absent(row: RowV, fields: Seq<(Seq<char>, Seq<char>)>, name: Seq<char>)
    requires
        forall|i: int| 0 <= i < fields.len() ==> (#[trigger] fields[i]).1 != name,
    ensures
        !mapped_row(row, fields).contains_key(name),
    decreases fields.len(),
{
    if fields.len() > 0 {
        let before = fields.drop_last();
        assert forall|i: int| 0 <= i < before.len() implies (#[trigger] before[i]).1 != name by {
            assert(before[i] == fields[i]);
        }
        assert(fields[fields.len() - 1] == fields.last());
        lemma_mapped_absent(row, before, name);
    }
}

/// An exported row holds each column under its archive name.
pub proof fn law_exported_columns(row: RowV, fields: Seq<(Seq<char>, Seq<char>)>, i: int)
    requires
        distinct_names(fields),
        0 <= i < fields.len(),
    ensures
        field(mapped_row(row, fields), fields[i].1) == Some(archived_value(row, fields[i])),
    decreases fields.len(),
{
    let before = fields.drop_last();
    assert(fields[fields.len() - 1] == fields.last());
    if i < before.len() {
        assert forall|a: int, b: int| 0 <= a < b < before.len() implies (#[trigger] before[a]).1
            != (#[trigger] before[b]).1 && before[a].0 != before[b].0 by {
            assert(before[a] == fields[a]);
            assert(before[b] == fields[b]);
        }
        law_exported_columns(row, before, i);
        assert(before[i] == fields[i]);
    }
}

/// An exported row holds nothing but its table's columns: what is local to the device stays there.
pub proof fn law_exported_nothing_else(
    row: RowV,
    fields: Seq<(Seq<char>, Seq<char>)>,
    name: Seq<char>,
)
    requires
        mapped_row(row, fields).contains_key(name),
    ensures
        exists|i: int| 0 <= i < fields.len() && (#[trigger] fields[i]).1 == name,
{
    if forall|i: int| 0 <= i < fields.len() ==> (#[trigger] fields[i]).1 != name {
        lemma_mapped_absent(row, fields, name);
    }
}

proof fn lemma_all_archived(row: RowV, fields: Seq<(Seq<char>, Seq<char>)>)
    requires
        distinct_names(fields),
    ensures
        forall|i: int|
            0 <= i < fields.len() ==> field(mapped_row(row, fields), (#[trigger] fields[i]).1)
                == Some(archived_value(row, fields[i])),
{
    assert forall|i: int| 0 <= i < fields.len() implies field(
        mapped_row(row, fields),
        (#[trigger] fields[i]).1,
    ) == Some(archived_value(row, fields[i])) by {
        law_exported_columns(row, fields, i);
    }
}

proof fn lemma_all_completed(row: RowV, fields: Seq<(Seq<char>, Seq<char>)>)
    ensures
        forall|column: Seq<char>| #[trigger]
            completed_row(row, fields).contains_key(column) <==> has_column(fields, column),
        forall|i: int|
            0 <= i < fields.len() ==> completed_row(row, fields).contains_key(
                (#[trigger] fields[i]).0,
            ) && completed_row(row, fields)[fields[i].0] == column_value(row, fields[i].0),
{
    assert forall|column: Seq<char>| #[trigger]
        completed_row(row, fields).contains_key(column) <==> has_column(fields, column) by {
        law_completed_row(row, fields, column);
    }
    assert forall|i: int| 0 <= i < fields.len() implies completed_row(row, fields).contains_key(
        (#[trigger] fields[i]).0,
    ) && completed_row(row, fields)[fields[i].0] == column_value(row, fields[i].0) by {
        law_completed_row(row, fields, fields[i].0);
    }
}

proof fn lemma_texts_back(value: JsonV)
    requires
        is_texts(value),
    ensures
        text_items(value) is Ok,
        texts_json(text_items(value)->Ok_0) == value,
{
    let items = value->Arr_0;
    let texts = items.map_values(|v: JsonV| v->Str_0);
    assert forall|i: int| 0 <= i < items.len() implies JsonV::Str(texts[i]) == items[i] by {
        assert(items[i] is Str);
    }
    assert(texts.map_values(|s: Seq<char>| JsonV::Str(s)) =~= items);
}

/// A book as the store holds it, live and in table shape.
pub open spec fn book_shaped(row: RowV) -> bool {
    &&& is_filled(column_value(row, "id"@))
    &&& is_text(column_value(row, "title"@))
    &&& is_opt_text(column_value(row, "author"@))
    &&& is_opt_text(column_value(row, "isbn"@))
    &&& is_opt_text(column_value(row, "cover_url"@))
    &&& is_opt_text(column_value(row, "cover_source"@))
    &&& is_opt_int(column_value(row, "cover_resolved_at"@))
    &&& is_int(column_value(row, "created_at"@))
    &&& is_stamp(column_value(row, "updated_at"@))
    &&& column_value(row, "deleted"@) == JsonV::Bool(false)
}

/// The names that books have in an archive differ from each other.
pub proof fn lemma_book_names()
    ensures
        distinct_names(fields_of(Table::Books)),
        fields_of(Table::Books)[0] == ("id"@, "id"@),
        fields_of(Table::Books)[1] == ("title"@, "title"@),
        fields_of(Table::Books)[2] == ("author"@, "author"@),
        fields_of(Table::Books)[3] == ("isbn"@, "isbn"@),
        fields_of(Table::Books)[4] == ("cover_url"@, "coverUrl"@),
        fields_of(Table::Books)[5] == ("cover_source"@, "coverSource"@),
        fields_of(Table::Books)[6] == ("cover_resolved_at"@, "coverResolvedAt"@),
        fields_of(Table::Books)[7] == ("created_at"@, "createdAt"@),
        fields_of(Table::Books)[8] == ("updated_at"@, "updatedAt"@),
        fields_of(Table::Books)[9] == ("deleted"@, "deleted"@),
        fields_of(Table::Books).len() == 10,
{
    reveal_strlit("id");
    reveal_strlit("isbn");
    reveal_strlit("title");
    reveal_strlit("author");
    reveal_strlit("deleted");
    reveal_strlit("coverUrl");
    reveal_strlit("cover_url");
    reveal_strlit("createdAt");
    reveal_strlit("updatedAt");
    reveal_strlit("created_at");
    reveal_strlit("updated_at");
    reveal_strlit("coverSource");
    reveal_strlit("cover_source");
    reveal_strlit("coverResolvedAt");
    reveal_strlit("cover_resolved_at");
    assert("id"@.len() == 2);
    assert("isbn"@.len() == 4);
    assert("title"@.len() == 5);
    assert("author"@.len() == 6);
    assert("deleted"@.len() == 7);
    assert("coverUrl"@.len() == 8);
    assert("cover_url"@.len() == 9);
    assert("createdAt"@.len() == 9);
    assert("updatedAt"@.len() == 9);
    assert("created_at"@.len() == 10);
    assert("updated_at"@.len() == 10);
    assert("coverSource"@.len() == 11);
    assert("cover_source"@.len() == 12);
    assert("coverResolvedAt"@.len() == 15);
    assert("cover_resolved_at"@.len() == 17);
    assert("cover_url"@[1] == 'o');
    assert("createdAt"@[1] == 'r');
    assert("cover_url"@[0] == 'c');
    assert("updatedAt"@[0] == 'u');
    assert("createdAt"@[0] == 'c');
    assert("created_at"@[0] == 'c');
    assert("updated_at"@[0] == 'u');
    let fields = fields_of(Table::Books);
    assert(fields[0] == ("id"@, "id"@));
    assert(fields[1] == ("title"@, "title"@));
    assert(fields[2] == ("author"@, "author"@));
    assert(fields[3] == ("isbn"@, "isbn"@));
    assert(fields[4] == ("cover_url"@, "coverUrl"@));
    assert(fields[5] == ("cover_source"@, "coverSource"@));
    assert(fields[6] == ("cover_resolved_at"@, "coverResolvedAt"@));
    assert(fields[7] == ("created_at"@, "createdAt"@));
    assert(fields[8] == ("updated_at"@, "updatedAt"@));
    assert(fields[9] == ("deleted"@, "deleted"@));
    assert forall|i: int, j: int| 0 <= i < j < fields.len() implies (#[trigger] fields[i]).1 != (#[trigger] fields[j]).1 && fields[i].0 != fields[j].0 by {
        assert(i == 0 || i == 1 || i == 2 || i == 3 || i == 4 || i == 5 || i == 6 || i == 7 || i == 8 || i == 9);
        assert(j == 0 || j == 1 || j == 2 || j == 3 || j == 4 || j == 5 || j == 6 || j == 7 || j == 8 || j == 9);
    }
}
/// A book comes back as it was stored.
pub proof fn law_book_comes_back(row: RowV, seen: Seq<NormalizedRowV>, context: ImportContext)
    requires
        book_shaped(row),
        !key_seen(seen, column_value(row, "id"@)->Str_0),
    ensures
        normalized_row(
            Table::Books,
            JsonV::Obj(mapped_row(row, fields_of(Table::Books))),
            seen,
            context,
        ) == Ok::<NormalizedRowV, Seq<char>>(
            NormalizedRowV {
                primary_key: column_value(row, "id"@)->Str_0,
                row: completed_row(row, fields_of(Table::Books)),
                updated_at: json_i64(column_value(row, "updated_at"@))->Some_0,
            },
        ),
{
    lemma_book_names();
    let fields = fields_of(Table::Books);
    lemma_all_archived(row, fields);
    lemma_all_completed(row, fields);
    let input = mapped_row(row, fields);
    assert(field(input, fields[0].1) == Some(column_value(row, "id"@)));
    assert(field(input, fields[1].1) == Some(column_value(row, "title"@)));
    assert(field(input, fields[2].1) == Some(column_value(row, "author"@)));
    assert(field(input, fields[3].1) == Some(column_value(row, "isbn"@)));
    assert(field(input, fields[4].1) == Some(column_value(row, "cover_url"@)));
    assert(field(input, fields[5].1) == Some(column_value(row, "cover_source"@)));
    assert(field(input, fields[6].1) == Some(column_value(row, "cover_resolved_at"@)));
    assert(field(input, fields[7].1) == Some(column_value(row, "created_at"@)));
    assert(field(input, fields[8].1) == Some(column_value(row, "updated_at"@)));
    assert(field(input, fields[9].1) == Some(int_json(0)));
    let key = column_value(row, "id"@)->Str_0;
    let columns = table_columns(Table::Books, input, key, context);
    assert(columns is Ok);
    let back = finished_row(Table::Books, key, columns->Ok_0).row;
    assert forall|column: Seq<char>| #[trigger] back.contains_key(column) <==> completed_row(row, fields).contains_key(column) by {
        if has_column(fields, column) {
            let i = choose|i: int| 0 <= i < fields.len() && (#[trigger] fields[i]).0 == column;
            assert(i == 0 || i == 1 || i == 2 || i == 3 || i == 4 || i == 5 || i == 6 || i == 7 || i == 8 || i == 9);
        }
    }
    assert(back =~= completed_row(row, fields));
}

/// A custom idea as the store holds it, live and in table shape.
pub open spec fn custom_idea_shaped(row: RowV) -> bool {
    &&& is_filled(column_value(row, "id"@))
    &&& is_text(column_value(row, "name"@))
    &&& is_opt_text(column_value(row, "description"@))
    &&& is_int(column_value(row, "created_at"@))
    &&& is_stamp(column_value(row, "updated_at"@))
    &&& column_value(row, "deleted"@) == JsonV::Bool(false)
}

/// The names that custom ideas have in an archive differ from each other.
pub proof fn lemma_custom_idea_names()
    ensures
        distinct_names(fields_of(Table::CustomIdeas)),
        fields_of(Table::CustomIdeas)[0] == ("id"@, "id"@),
        fields_of(Table::CustomIdeas)[1] == ("name"@, "name"@),
        fields_of(Table::CustomIdeas)[2] == ("description"@, "description"@),
        fields_of(Table::CustomIdeas)[3] == ("created_at"@, "createdAt"@),
        fields_of(Table::CustomIdeas)[4] == ("updated_at"@, "updatedAt"@),
        fields_of(Table::CustomIdeas)[5] == ("deleted"@, "deleted"@),
        fields_of(Table::CustomIdeas).len() == 6,
{
    reveal_strlit("id");
    reveal_strlit("name");
    reveal_strlit("deleted");
    reveal_strlit("createdAt");
    reveal_strlit("updatedAt");
    reveal_strlit("created_at");
    reveal_strlit("updated_at");
    reveal_strlit("description");
    assert("id"@.len() == 2);
    assert("name"@.len() == 4);
    assert("deleted"@.len() == 7);
    assert("createdAt"@.len() == 9);
    assert("updatedAt"@.len() == 9);
    assert("created_at"@.len() == 10);
    assert("updated_at"@.len() == 10);
    assert("description"@.len() == 11);
    assert("createdAt"@[0] == 'c');
    assert("updatedAt"@[0] == 'u');
    assert("created_at"@[0] == 'c');
    assert("updated_at"@[0] == 'u');
    let fields = fields_of(Table::CustomIdeas);
    assert(fields[0] == ("id"@, "id"@));
    assert(fields[1] == ("name"@, "name"@));
    assert(fields[2] == ("description"@, "description"@));
    assert(fields[3] == ("created_at"@, "createdAt"@));
    assert(fields[4] == ("updated_at"@, "updatedAt"@));
    assert(fields[5] == ("deleted"@, "deleted"@));
    assert forall|i: int, j: int| 0 <= i < j < fields.len() implies (#[trigger] fields[i]).1 != (#[trigger] fields[j]).1 && fields[i].0 != fields[j].0 by {
        assert(i == 0 || i == 1 || i == 2 || i == 3 || i == 4 || i == 5);
        assert(j == 0 || j == 1 || j == 2 || j == 3 || j == 4 || j == 5);
    }
}
/// A custom idea comes back as it was stored.
pub proof fn law_custom_idea_comes_back(row: RowV, seen: Seq<NormalizedRowV>, context: ImportContext)
    requires
        custom_idea_shaped(row),
        !key_seen(seen, column_value(row, "id"@)->Str_0),
    ensures
        normalized_row(
            Table::CustomIdeas,
            JsonV::Obj(mapped_row(row, fields_of(Table::CustomIdeas))),
            seen,
            context,
        ) == Ok::<NormalizedRowV, Seq<char>>(
            NormalizedRowV {
                primary_key: column_value(row, "id"@)->Str_0,
                row: completed_row(row, fields_of(Table::CustomIdeas)),
                updated_at: json_i64(column_value(row, "updated_at"@))->Some_0,
            },
        ),
{
    lemma_custom_idea_names();
    let fields = fields_of(Table::CustomIdeas);
    lemma_all_archived(row, fields);
    lemma_all_completed(row, fields);
    let input = mapped_row(row, fields);
    assert(field(input, fields[0].1) == Some(column_value(row, "id"@)));
    assert(field(input, fields[1].1) == Some(column_value(row, "name"@)));
    assert(field(input, fields[2].1) == Some(column_value(row, "description"@)));
    assert(field(input, fields[3].1) == Some(column_value(row, "created_at"@)));
    assert(field(input, fields[4].1) == Some(column_value(row, "updated_at"@)));
    assert(field(input, fields[5].1) == Some(int_json(0)));
    let key = column_value(row, "id"@)->Str_0;
    let columns = table_columns(Table::CustomIdeas, input, key, context);
    assert(columns is Ok);
    let back = finished_row(Table::CustomIdeas, key, columns->Ok_0).row;
    assert forall|column: Seq<char>| #[trigger] back.contains_key(column) <==> completed_row(row, fields).contains_key(column) by {
        if has_column(fields, column) {
            let i = choose|i: int| 0 <= i < fields.len() && (#[trigger] fields[i]).0 == column;
            assert(i == 0 || i == 1 || i == 2 || i == 3 || i == 4 || i == 5);
        }
    }
    assert(back =~= completed_row(row, fields));
}

/// An edge as the store holds it, live and in table shape.
pub open spec fn note_link_shaped(row: RowV) -> bool {
    &&& is_filled(column_value(row, "id"@))
    &&& is_text(column_value(row, "from_note_id"@))
    &&& is_text(column_value(row, "to_note_id"@))
    &&& is_filled(column_value(row, "relation_type"@))
    &&& is_stamp(column_value(row, "created_at"@))
    &&& is_stamp(column_value(row, "updated_at"@))
    &&& column_value(row, "deleted"@) == JsonV::Bool(false)
}

/// The names that edges have in an archive differ from each other.
pub proof fn lemma_note_link_names()
    ensures
        distinct_names(fields_of(Table::NoteLinks)),
        fields_of(Table::NoteLinks)[0] == ("id"@, "id"@),
        fields_of(Table::NoteLinks)[1] == ("from_note_id"@, "fromNoteId"@),
        fields_of(Table::NoteLinks)[2] == ("to_note_id"@, "toNoteId"@),
        fields_of(Table::NoteLinks)[3] == ("relation_type"@, "relationType"@),
        fields_of(Table::NoteLinks)[4] == ("created_at"@, "createdAt"@),
        fields_of(Table::NoteLinks)[5] == ("updated_at"@, "updatedAt"@),
        fields_of(Table::NoteLinks)[6] == ("deleted"@, "deleted"@),
        fields_of(Table::NoteLinks).len() == 7,
{
    reveal_strlit("id");
    reveal_strlit("deleted");
    reveal_strlit("toNoteId");
    reveal_strlit("createdAt");
    reveal_strlit("updatedAt");
    reveal_strlit("created_at");
    reveal_strlit("fromNoteId");
    reveal_strlit("to_note_id");
    reveal_strlit("updated_at");
    reveal_strlit("from_note_id");
    reveal_strlit("relationType");
    reveal_strlit("relation_type");
    assert("id"@.len() == 2);
    assert("deleted"@.len() == 7);
    assert("toNoteId"@.len() == 8);
    assert("createdAt"@.len() == 9);
    assert("updatedAt"@.len() == 9);
    assert("created_at"@.len() == 10);
    assert("fromNoteId"@.len() == 10);
    assert("to_note_id"@.len() == 10);
    assert("updated_at"@.len() == 10);
    assert("from_note_id"@.len() == 12);
    assert("relationType"@.len() == 12);
    assert("relation_type"@.len() == 13);
    assert("createdAt"@[0] == 'c');
    assert("updatedAt"@[0] == 'u');
    assert("created_at"@[0] == 'c');
    assert("fromNoteId"@[0] == 'f');
    assert("to_note_id"@[0] == 't');
    assert("updated_at"@[0] == 'u');
    assert("from_note_id"@[0] == 'f');
    assert("relationType"@[0] == 'r');
    let fields = fields_of(Table::NoteLinks);
    assert(fields[0] == ("id"@, "id"@));
    assert(fields[1] == ("from_note_id"@, "fromNoteId"@));
    assert(fields[2] == ("to_note_id"@, "toNoteId"@));
    assert(fields[3] == ("relation_type"@, "relationType"@));
    assert(fields[4] == ("created_at"@, "createdAt"@));
    assert(fields[5] == ("updated_at"@, "updatedAt"@));
    assert(fields[6] == ("deleted"@, "deleted"@));
    assert forall|i: int, j: int| 0 <= i < j < fields.len() implies (#[trigger] fields[i]).1 != (#[trigger] fields[j]).1 && fields[i].0 != fields[j].0 by {
        assert(i == 0 || i == 1 || i == 2 || i == 3 || i == 4 || i == 5 || i == 6);
        assert(j == 0 || j == 1 || j == 2 || j == 3 || j == 4 || j == 5 || j == 6);
    }
}
/// An edge comes back as it was stored.
pub proof fn law_note_link_comes_back(row: RowV, seen: Seq<NormalizedRowV>, context: ImportContext)
    requires
        note_link_shaped(row),
        !key_seen(seen, column_value(row, "id"@)->Str_0),
    ensures
        normalized_row(
            Table::NoteLinks,
            JsonV::Obj(mapped_row(row, fields_of(Table::NoteLinks))),
            seen,
            context,
        ) == Ok::<NormalizedRowV, Seq<char>>(
            NormalizedRowV {
                primary_key: column_value(row, "id"@)->Str_0,
                row: completed_row(row, fields_of(Table::NoteLinks)),
                updated_at: json_i64(column_value(row, "updated_at"@))->Some_0,
            },
        ),
{
    lemma_note_link_names();
    let fields = fields_of(Table::NoteLinks);
    lemma_all_archived(row, fields);
    lemma_all_completed(row, fields);
    let input = mapped_row(row, fields);
    assert(field(input, fields[0].1) == Some(column_value(row, "id"@)));
    assert(field(input, fields[1].1) == Some(column_value(row, "from_note_id"@)));
    assert(field(input, fields[2].1) == Some(column_value(row, "to_note_id"@)));
    assert(field(input, fields[3].1) == Some(column_value(row, "relation_type"@)));
    assert(field(input, fields[4].1) == Some(column_value(row, "created_at"@)));
    assert(field(input, fields[5].1) == Some(column_value(row, "updated_at"@)));
    assert(field(input, fields[6].1) == Some(int_json(0)));
    let key = column_value(row, "id"@)->Str_0;
    let columns = table_columns(Table::NoteLinks, input, key, context);
    assert(columns is Ok);
    let back = finished_row(Table::NoteLinks, key, columns->Ok_0).row;
    assert forall|column: Seq<char>| #[trigger] back.contains_key(column) <==> completed_row(row, fields).contains_key(column) by {
        if has_column(fields, column) {
            let i = choose|i: int| 0 <= i < fields.len() && (#[trigger] fields[i]).0 == column;
            assert(i == 0 || i == 1 || i == 2 || i == 3 || i == 4 || i == 5 || i == 6);
        }
    }
    assert(back =~= completed_row(row, fields));
}

/// A lens as the store holds it, live and in table shape.
pub open spec fn lens_shaped(row: RowV) -> bool {
    &&& is_filled(column_value(row, "id"@))
    &&& is_text(column_value(row, "name"@))
    &&& is_texts(column_value(row, "leaf_ids"@))
    &&& is_filled(column_value(row, "combinator"@))
    &&& is_int(column_value(row, "threshold"@))
    &&& is_stamp(column_value(row, "created_at"@))
    &&& is_stamp(column_value(row, "updated_at"@))
    &&& column_value(row, "deleted"@) == JsonV::Bool(false)
}

/// The names that lenses have in an archive differ from each other.
pub proof fn lemma_lens_names()
    ensures
        distinct_names(fields_of(Table::Lenses)),
        fields_of(Table::Lenses)[0] == ("id"@, "id"@),
        fields_of(Table::Lenses)[1] == ("name"@, "name"@),
        fields_of(Table::Lenses)[2] == ("leaf_ids"@, "leafIds"@),
        fields_of(Table::Lenses)[3] == ("combinator"@, "combinator"@),
        fields_of(Table::Lenses)[4] == ("threshold"@, "threshold"@),
        fields_of(Table::Lenses)[5] == ("created_at"@, "createdAt"@),
        fields_of(Table::Lenses)[6] == ("updated_at"@, "updatedAt"@),
        fields_of(Table::Lenses)[7] == ("deleted"@, "deleted"@),
        fields_of(Table::Lenses).len() == 8,
{
    reveal_strlit("id");
    reveal_strlit("name");
    reveal_strlit("deleted");
    reveal_strlit("leafIds");
    reveal_strlit("leaf_ids");
    reveal_strlit("createdAt");
    reveal_strlit("threshold");
    reveal_strlit("updatedAt");
    reveal_strlit("combinator");
    reveal_strlit("created_at");
    reveal_strlit("updated_at");
    assert("id"@.len() == 2);
    assert("name"@.len() == 4);
    assert("deleted"@.len() == 7);
    assert("leafIds"@.len() == 7);
    assert("leaf_ids"@.len() == 8);
    assert("createdAt"@.len() == 9);
    assert("threshold"@.len() == 9);
    assert("updatedAt"@.len() == 9);
    assert("combinator"@.len() == 10);
    assert("created_at"@.len() == 10);
    assert("updated_at"@.len() == 10);
    assert("deleted"@[0] == 'd');
    assert("leafIds"@[0] == 'l');
    assert("createdAt"@[0] == 'c');
    assert("threshold"@[0] == 't');
    assert("updatedAt"@[0] == 'u');
    assert("combinator"@[1] == 'o');
    assert("created_at"@[1] == 'r');
    assert("combinator"@[0] == 'c');
    assert("updated_at"@[0] == 'u');
    assert("created_at"@[0] == 'c');
    let fields = fields_of(Table::Lenses);
    assert(fields[0] == ("id"@, "id"@));
    assert(fields[1] == ("name"@, "name"@));
    assert(fields[2] == ("leaf_ids"@, "leafIds"@));
    assert(fields[3] == ("combinator"@, "combinator"@));
    assert(fields[4] == ("threshold"@, "threshold"@));
    assert(fields[5] == ("created_at"@, "createdAt"@));
    assert(fields[6] == ("updated_at"@, "updatedAt"@));
    assert(fields[7] == ("deleted"@, "deleted"@));
    assert forall|i: int, j: int| 0 <= i < j < fields.len() implies (#[trigger] fields[i]).1 != (#[trigger] fields[j]).1 && fields[i].0 != fields[j].0 by {
        assert(i == 0 || i == 1 || i == 2 || i == 3 || i == 4 || i == 5 || i == 6 || i == 7);
        assert(j == 0 || j == 1 || j == 2 || j == 3 || j == 4 || j == 5 || j == 6 || j == 7);
    }
}
/// A lens comes back as it was stored.
pub proof fn law_lens_comes_back(row: RowV, seen: Seq<NormalizedRowV>, context: ImportContext)
    requires
        lens_shaped(row),
        !key_seen(seen, column_value(row, "id"@)->Str_0),
    ensures
        normalized_row(
            Table::Lenses,
            JsonV::Obj(mapped_row(row, fields_of(Table::Lenses))),
            seen,
            context,
        ) == Ok::<NormalizedRowV, Seq<char>>(
            NormalizedRowV {
                primary_key: column_value(row, "id"@)->Str_0,
                row: completed_row(row, fields_of(Table::Lenses)),
                updated_at: json_i64(column_value(row, "updated_at"@))->Some_0,
            },
        ),
{
    lemma_lens_names();
    let fields = fields_of(Table::Lenses);
    lemma_all_archived(row, fields);
    lemma_all_completed(row, fields);
    let input = mapped_row(row, fields);
    assert(field(input, fields[0].1) == Some(column_value(row, "id"@)));
    assert(field(input, fields[1].1) == Some(column_value(row, "name"@)));
    assert(field(input, fields[2].1) == Some(column_value(row, "leaf_ids"@)));
    lemma_texts_back(column_value(row, "leaf_ids"@));
    assert(field(input, fields[3].1) == Some(column_value(row, "combinator"@)));
    assert(field(input, fields[4].1) == Some(column_value(row, "threshold"@)));
    assert(field(input, fields[5].1) == Some(column_value(row, "created_at"@)));
    assert(field(input, fields[6].1) == Some(column_value(row, "updated_at"@)));
    assert(field(input, fields[7].1) == Some(int_json(0)));
    let key = column_value(row, "id"@)->Str_0;
    let columns = table_columns(Table::Lenses, input, key, context);
    assert(columns is Ok);
    let back = finished_row(Table::Lenses, key, columns->Ok_0).row;
    assert forall|column: Seq<char>| #[trigger] back.contains_key(column) <==> completed_row(row, fields).contains_key(column) by {
        if has_column(fields, column) {
            let i = choose|i: int| 0 <= i < fields.len() && (#[trigger] fields[i]).0 == column;
            assert(i == 0 || i == 1 || i == 2 || i == 3 || i == 4 || i == 5 || i == 6 || i == 7);
        }
    }
    assert(back =~= completed_row(row, fields));
}

/// A collection as the store holds it, live and in table shape.
pub open spec fn collection_shaped(row: RowV) -> bool {
    &&& is_filled(column_value(row, "id"@))
    &&& is_text(column_value(row, "name"@))
    &&& is_stamp(column_value(row, "created_at"@))
    &&& is_stamp(column_value(row, "updated_at"@))
    &&& column_value(row, "deleted"@) == JsonV::Bool(false)
}

/// The names that collections have in an archive differ from each other.
pub proof fn lemma_collection_names()
    ensures
        distinct_names(fields_of(Table::Collections)),
        fields_of(Table::Collections)[0] == ("id"@, "id"@),
        fields_of(Table::Collections)[1] == ("name"@, "name"@),
        fields_of(Table::Collections)[2] == ("created_at"@, "createdAt"@),
        fields_of(Table::Collections)[3] == ("updated_at"@, "updatedAt"@),
        fields_of(Table::Collections)[4] == ("deleted"@, "deleted"@),
        fields_of(Table::Collections).len() == 5,
{
    reveal_strlit("id");
    reveal_strlit("name");
    reveal_strlit("deleted");
    reveal_strlit("createdAt");
    reveal_strlit("updatedAt");
    reveal_strlit("created_at");
    reveal_strlit("updated_at");
    assert("id"@.len() == 2);
    assert("name"@.len() == 4);
    assert("deleted"@.len() == 7);
    assert("createdAt"@.len() == 9);
    assert("updatedAt"@.len() == 9);
    assert("created_at"@.len() == 10);
    assert("updated_at"@.len() == 10);
    assert("createdAt"@[0] == 'c');
    assert("updatedAt"@[0] == 'u');
    assert("created_at"@[0] == 'c');
    assert("updated_at"@[0] == 'u');
    let fields = fields_of(Table::Collections);
    assert(fields[0] == ("id"@, "id"@));
    assert(fields[1] == ("name"@, "name"@));
    assert(fields[2] == ("created_at"@, "createdAt"@));
    assert(fields[3] == ("updated_at"@, "updatedAt"@));
    assert(fields[4] == ("deleted"@, "deleted"@));
    assert forall|i: int, j: int| 0 <= i < j < fields.len() implies (#[trigger] fields[i]).1 != (#[trigger] fields[j]).1 && fields[i].0 != fields[j].0 by {
        assert(i == 0 || i == 1 || i == 2 || i == 3 || i == 4);
        assert(j == 0 || j == 1 || j == 2 || j == 3 || j == 4);
    }
}
/// A collection comes back as it was stored.
pub proof fn law_collection_comes_back(row: RowV, seen: Seq<NormalizedRowV>, context: ImportContext)
    requires
        collection_shaped(row),
        !key_seen(seen, column_value(row, "id"@)->Str_0),
    ensures
        normalized_row(
            Table::Collections,
            JsonV::Obj(mapped_row(row, fields_of(Table::Collections))),
            seen,
            context,
        ) == Ok::<NormalizedRowV, Seq<char>>(
            NormalizedRowV {
                primary_key: column_value(row, "id"@)->Str_0,
                row: completed_row(row, fields_of(Table::Collections)),
                updated_at: json_i64(column_value(row, "updated_at"@))->Some_0,
            },
        ),
{
    lemma_collection_names();
    let fields = fields_of(Table::Collections);
    lemma_all_archived(row, fields);
    lemma_all_completed(row, fields);
    let input = mapped_row(row, fields);
    assert(field(input, fields[0].1) == Some(column_value(row, "id"@)));
    assert(field(input, fields[1].1) == Some(column_value(row, "name"@)));
    assert(field(input, fields[2].1) == Some(column_value(row, "created_at"@)));
    assert(field(input, fields[3].1) == Some(column_value(row, "updated_at"@)));
    assert(field(input, fields[4].1) == Some(int_json(0)));
    let key = column_value(row, "id"@)->Str_0;
    let columns = table_columns(Table::Collections, input, key, context);
    assert(columns is Ok);
    let back = finished_row(Table::Collections, key, columns->Ok_0).row;
    assert forall|column: Seq<char>| #[trigger] back.contains_key(column) <==> completed_row(row, fields).contains_key(column) by {
        if has_column(fields, column) {
            let i = choose|i: int| 0 <= i < fields.len() && (#[trigger] fields[i]).0 == column;
            assert(i == 0 || i == 1 || i == 2 || i == 3 || i == 4);
        }
    }
    assert(back =~= completed_row(row, fields));
}

/// A membership as the store holds it, live and in table shape.
pub open spec fn membership_shaped(row: RowV) -> bool {
    &&& is_filled(column_value(row, "id"@))
    &&& is_text(column_value(row, "note_id"@))
    &&& is_text(column_value(row, "collection_id"@))
    &&& is_stamp(column_value(row, "created_at"@))
    &&& is_stamp(column_value(row, "updated_at"@))
    &&& column_value(row, "deleted"@) == JsonV::Bool(false)
}

/// The names that memberships have in an archive differ from each other.
pub proof fn lemma_membership_names()
    ensures
        distinct_names(fields_of(Table::CollectionMemberships)),
        fields_of(Table::CollectionMemberships)[0] == ("id"@, "id"@),
        fields_of(Table::CollectionMemberships)[1] == ("note_id"@, "noteId"@),
        fields_of(Table::CollectionMemberships)[2] == ("collection_id"@, "collectionId"@),
        fields_of(Table::CollectionMemberships)[3] == ("created_at"@, "createdAt"@),
        fields_of(Table::CollectionMemberships)[4] == ("updated_at"@, "updatedAt"@),
        fields_of(Table::CollectionMemberships)[5] == ("deleted"@, "deleted"@),
        fields_of(Table::CollectionMemberships).len() == 6,
{
    reveal_strlit("id");
    reveal_strlit("noteId");
    reveal_strlit("deleted");
    reveal_strlit("note_id");
    reveal_strlit("createdAt");
    reveal_strlit("updatedAt");
    reveal_strlit("created_at");
    reveal_strlit("updated_at");
    reveal_strlit("collectionId");
    reveal_strlit("collection_id");
    assert("id"@.len() == 2);
    assert("noteId"@.len() == 6);
    assert("deleted"@.len() == 7);
    assert("note_id"@.len() == 7);
    assert("createdAt"@.len() == 9);
    assert("updatedAt"@.len() == 9);
    assert("created_at"@.len() == 10);
    assert("updated_at"@.len() == 10);
    assert("collectionId"@.len() == 12);
    assert("collection_id"@.len() == 13);
    assert("deleted"@[0] == 'd');
    assert("note_id"@[0] == 'n');
    assert("createdAt"@[0] == 'c');
    assert("updatedAt"@[0] == 'u');
    assert("created_at"@[0] == 'c');
    assert("updated_at"@[0] == 'u');
    let fields = fields_of(Table::CollectionMemberships);
    assert(fields[0] == ("id"@, "id"@));
    assert(fields[1] == ("note_id"@, "noteId"@));
    assert(fields[2] == ("collection_id"@, "collectionId"@));
    assert(fields[3] == ("created_at"@, "createdAt"@));
    assert(fields[4] == ("updated_at"@, "updatedAt"@));
    assert(fields[5] == ("deleted"@, "deleted"@));
    assert forall|i: int, j: int| 0 <= i < j < fields.len() implies (#[trigger] fields[i]).1 != (#[trigger] fields[j]).1 && fields[i].0 != fields[j].0 by {
        assert(i == 0 || i == 1 || i == 2 || i == 3 || i == 4 || i == 5);
        assert(j == 0 || j == 1 || j == 2 || j == 3 || j == 4 || j == 5);
    }
}
/// A membership comes back as it was stored.
pub proof fn law_membership_comes_back(row: RowV, seen: Seq<NormalizedRowV>, context: ImportContext)
    requires
        membership_shaped(row),
        !key_seen(seen, column_value(row, "id"@)->Str_0),
    ensures
        normalized_row(
            Table::CollectionMemberships,
            JsonV::Obj(mapped_row(row, fields_of(Table::CollectionMemberships))),
            seen,
            context,
        ) == Ok::<NormalizedRowV, Seq<char>>(
            NormalizedRowV {
                primary_key: column_value(row, "id"@)->Str_0,
                row: completed_row(row, fields_of(Table::CollectionMemberships)),
                updated_at: json_i64(column_value(row, "updated_at"@))->Some_0,
            },
        ),
{
    lemma_membership_names();
    let fields = fields_of(Table::CollectionMemberships);
    lemma_all_archived(row, fields);
    lemma_all_completed(row, fields);
    let input = mapped_row(row, fields);
    assert(field(input, fields[0].1) == Some(column_value(row, "id"@)));
    assert(field(input, fields[1].1) == Some(column_value(row, "note_id"@)));
    assert(field(input, fields[2].1) == Some(column_value(row, "collection_id"@)));
    assert(field(input, fields[3].1) == Some(column_value(row, "created_at"@)));
    assert(field(input, fields[4].1) == Some(column_value(row, "updated_at"@)));
    assert(field(input, fields[5].1) == Some(int_json(0)));
    let key = column_value(row, "id"@)->Str_0;
    let columns = table_columns(Table::CollectionMemberships, input, key, context);
    assert(columns is Ok);
    let back = finished_row(Table::CollectionMemberships, key, columns->Ok_0).row;
    assert forall|column: Seq<char>| #[trigger] back.contains_key(column) <==> completed_row(row, fields).contains_key(column) by {
        if has_column(fields, column) {
            let i = choose|i: int| 0 <= i < fields.len() && (#[trigger] fields[i]).0 == column;
            assert(i == 0 || i == 1 || i == 2 || i == 3 || i == 4 || i == 5);
        }
    }
    assert(back =~= completed_row(row, fields));
}

/// A note as the store holds it, live and in table shape.
pub open spec fn note_shaped(row: RowV) -> bool {
    &&& is_filled(column_value(row, "id"@))
    &&& is_opt_text(column_value(row, "book_id"@))
    &&& is_opt_text(column_value(row, "page"@))
    &&& is_texts(column_value(row, "tags"@))
    &&& is_opt_text(column_value(row, "image_path"@))
    &&& is_opt_text(column_value(row, "ink_crop_path"@))
    &&& is_text(column_value(row, "source"@))
    &&& is_opt_text(column_value(row, "source_id"@))
    &&& is_object(column_value(row, "source_meta"@))
    &&& is_opt_text(column_value(row, "chapter"@))
    &&& is_opt_text(column_value(row, "content_tag"@))
    &&& is_int(column_value(row, "created_at"@))
    &&& is_stamp(column_value(row, "updated_at"@))
    &&& column_value(row, "deleted"@) == JsonV::Bool(false)
}

/// The names that notes have in an archive differ from each other.
pub proof fn lemma_note_names()
    ensures
        distinct_names(fields_of(Table::Notes)),
        fields_of(Table::Notes)[0] == ("id"@, "id"@),
        fields_of(Table::Notes)[1] == ("book_id"@, "bookId"@),
        fields_of(Table::Notes)[2] == ("text"@, "text"@),
        fields_of(Table::Notes)[3] == ("page"@, "page"@),
        fields_of(Table::Notes)[4] == ("tags"@, "tags"@),
        fields_of(Table::Notes)[5] == ("image_path"@, "imagePath"@),
        fields_of(Table::Notes)[6] == ("ink_crop_path"@, "inkCropPath"@),
        fields_of(Table::Notes)[7] == ("source"@, "source"@),
        fields_of(Table::Notes)[8] == ("source_id"@, "sourceId"@),
        fields_of(Table::Notes)[9] == ("source_meta"@, "sourceMeta"@),
        fields_of(Table::Notes)[10] == ("chapter"@, "chapter"@),
        fields_of(Table::Notes)[11] == ("content_tag"@, "contentTag"@),
        fields_of(Table::Notes)[12] == ("created_at"@, "createdAt"@),
        fields_of(Table::Notes)[13] == ("updated_at"@, "updatedAt"@),
        fields_of(Table::Notes)[14] == ("deleted"@, "deleted"@),
        fields_of(Table::Notes).len() == 15,
        forall|i: int| 0 <= i < 15 ==> (#[trigger] fields_of(Table::Notes)[i]).1 != "user_metadata"@,
{
    reveal_strlit("id");
    reveal_strlit("page");
    reveal_strlit("tags");
    reveal_strlit("text");
    reveal_strlit("bookId");
    reveal_strlit("source");
    reveal_strlit("book_id");
    reveal_strlit("chapter");
    reveal_strlit("deleted");
    reveal_strlit("sourceId");
    reveal_strlit("createdAt");
    reveal_strlit("imagePath");
    reveal_strlit("source_id");
    reveal_strlit("updatedAt");
    reveal_strlit("contentTag");
    reveal_strlit("created_at");
    reveal_strlit("image_path");
    reveal_strlit("sourceMeta");
    reveal_strlit("updated_at");
    reveal_strlit("content_tag");
    reveal_strlit("inkCropPath");
    reveal_strlit("source_meta");
    reveal_strlit("ink_crop_path");
    reveal_strlit("user_metadata");
    assert("id"@.len() == 2);
    assert("page"@.len() == 4);
    assert("tags"@.len() == 4);
    assert("text"@.len() == 4);
    assert("bookId"@.len() == 6);
    assert("source"@.len() == 6);
    assert("book_id"@.len() == 7);
    assert("chapter"@.len() == 7);
    assert("deleted"@.len() == 7);
    assert("sourceId"@.len() == 8);
    assert("createdAt"@.len() == 9);
    assert("imagePath"@.len() == 9);
    assert("source_id"@.len() == 9);
    assert("updatedAt"@.len() == 9);
    assert("contentTag"@.len() == 10);
    assert("created_at"@.len() == 10);
    assert("image_path"@.len() == 10);
    assert("sourceMeta"@.len() == 10);
    assert("updated_at"@.len() == 10);
    assert("content_tag"@.len() == 11);
    assert("inkCropPath"@.len() == 11);
    assert("source_meta"@.len() == 11);
    assert("ink_crop_path"@.len() == 13);
    assert("user_metadata"@.len() == 13);
    assert("page"@[0] == 'p');
    assert("tags"@[0] == 't');
    assert("text"@[0] == 't');
    assert("tags"@[1] == 'a');
    assert("text"@[1] == 'e');
    assert("bookId"@[0] == 'b');
    assert("source"@[0] == 's');
    assert("book_id"@[0] == 'b');
    assert("chapter"@[0] == 'c');
    assert("deleted"@[0] == 'd');
    assert("createdAt"@[0] == 'c');
    assert("imagePath"@[0] == 'i');
    assert("source_id"@[0] == 's');
    assert("updatedAt"@[0] == 'u');
    assert("contentTag"@[1] == 'o');
    assert("created_at"@[1] == 'r');
    assert("contentTag"@[0] == 'c');
    assert("image_path"@[0] == 'i');
    assert("sourceMeta"@[0] == 's');
    assert("updated_at"@[0] == 'u');
    assert("created_at"@[0] == 'c');
    assert("content_tag"@[0] == 'c');
    assert("inkCropPath"@[0] == 'i');
    assert("source_meta"@[0] == 's');
    assert("ink_crop_path"@[0] == 'i');
    assert("user_metadata"@[0] == 'u');
    let fields = fields_of(Table::Notes);
    assert(fields[0] == ("id"@, "id"@));
    assert(fields[1] == ("book_id"@, "bookId"@));
    assert(fields[2] == ("text"@, "text"@));
    assert(fields[3] == ("page"@, "page"@));
    assert(fields[4] == ("tags"@, "tags"@));
    assert(fields[5] == ("image_path"@, "imagePath"@));
    assert(fields[6] == ("ink_crop_path"@, "inkCropPath"@));
    assert(fields[7] == ("source"@, "source"@));
    assert(fields[8] == ("source_id"@, "sourceId"@));
    assert(fields[9] == ("source_meta"@, "sourceMeta"@));
    assert(fields[10] == ("chapter"@, "chapter"@));
    assert(fields[11] == ("content_tag"@, "contentTag"@));
    assert(fields[12] == ("created_at"@, "createdAt"@));
    assert(fields[13] == ("updated_at"@, "updatedAt"@));
    assert(fields[14] == ("deleted"@, "deleted"@));
    assert forall|i: int, j: int| 0 <= i < j < fields.len() implies (#[trigger] fields[i]).1 != (#[trigger] fields[j]).1 && fields[i].0 != fields[j].0 by {
        assert(i == 0 || i == 1 || i == 2 || i == 3 || i == 4 || i == 5 || i == 6 || i == 7 || i == 8 || i == 9 || i == 10 || i == 11 || i == 12 || i == 13 || i == 14);
        assert(j == 0 || j == 1 || j == 2 || j == 3 || j == 4 || j == 5 || j == 6 || j == 7 || j == 8 || j == 9 || j == 10 || j == 11 || j == 12 || j == 13 || j == 14);
    }
    assert forall|i: int| 0 <= i < 15 implies (#[trigger] fields[i]).1 != "user_metadata"@ by {
        assert(i == 0 || i == 1 || i == 2 || i == 3 || i == 4 || i == 5 || i == 6 || i == 7 || i == 8 || i == 9 || i == 10 || i == 11 || i == 12 || i == 13 || i == 14);
    }
}
/// What a note comes back as: its text opened, its tag left to be computed anew.
pub open spec fn returned_note(row: RowV, text: JsonV) -> RowV {
    completed_row(row, fields_of(Table::Notes)).insert("text"@, text).remove("content_tag"@)
}

/// A note comes back whole, its text opened, whatever margins are listed with it.
pub proof fn law_note_comes_back(
    row: RowV,
    opened: Option<Seq<char>>,
    margins: Seq<Seq<char>>,
    seen: Seq<NormalizedRowV>,
    context: ImportContext,
)
    requires
        note_shaped(row),
        mapped_note(row, opened) is Some,
        context.schema_version >= 14,
        !key_seen(seen, column_value(row, "id"@)->Str_0),
    ensures
        normalized_row(
            Table::Notes,
            JsonV::Obj(with_margins(mapped_note(row, opened)->Some_0, margins)),
            seen,
            context,
        ) == Ok::<NormalizedRowV, Seq<char>>(
            NormalizedRowV {
                primary_key: column_value(row, "id"@)->Str_0,
                row: returned_note(row, note_text(row, opened)->Some_0),
                updated_at: json_i64(column_value(row, "updated_at"@))->Some_0,
            },
        ),
{
    lemma_note_names();
    let fields = fields_of(Table::Notes);
    lemma_all_archived(row, fields);
    lemma_all_completed(row, fields);
    let text = note_text(row, opened)->Some_0;
    let input = with_margins(mapped_note(row, opened)->Some_0, margins);
    assert(field(input, fields[0].1) == Some(column_value(row, "id"@)));
    assert(field(input, fields[1].1) == Some(column_value(row, "book_id"@)));
    assert(field(input, "text"@) == Some(text));
    assert(field(input, fields[3].1) == Some(column_value(row, "page"@)));
    assert(field(input, fields[4].1) == Some(column_value(row, "tags"@)));
    lemma_texts_back(column_value(row, "tags"@));
    assert(field(input, fields[5].1) == Some(column_value(row, "image_path"@)));
    assert(field(input, fields[6].1) == Some(column_value(row, "ink_crop_path"@)));
    assert(field(input, fields[7].1) == Some(column_value(row, "source"@)));
    assert(field(input, fields[8].1) == Some(column_value(row, "source_id"@)));
    assert(field(input, fields[9].1) == Some(column_value(row, "source_meta"@)));
    assert(field(input, fields[10].1) == Some(column_value(row, "chapter"@)));
    assert(field(input, fields[11].1) == Some(column_value(row, "content_tag"@)));
    assert(field(input, fields[12].1) == Some(column_value(row, "created_at"@)));
    assert(field(input, fields[13].1) == Some(column_value(row, "updated_at"@)));
    assert(field(input, fields[14].1) == Some(int_json(0)));
    law_current_tags_kept(text_items(column_value(row, "tags"@))->Ok_0, context.schema_version);
    let key = column_value(row, "id"@)->Str_0;
    let columns = table_columns(Table::Notes, input, key, context);
    assert(columns is Ok);
    let back = finished_row(Table::Notes, key, columns->Ok_0).row;
    assert forall|column: Seq<char>| #[trigger] back.contains_key(column) <==> returned_note(row, text).contains_key(column) by {
        if has_column(fields, column) {
            let i = choose|i: int| 0 <= i < fields.len() && (#[trigger] fields[i]).0 == column;
            assert(i == 0 || i == 1 || i == 2 || i == 3 || i == 4 || i == 5 || i == 6 || i == 7 || i == 8 || i == 9 || i == 10 || i == 11 || i == 12 || i == 13 || i == 14);
        }
    }
    assert(back =~= returned_note(row, text));
}

/// A signal row as the store holds it, live and in table shape.
pub open spec fn signal_shaped(row: RowV) -> bool {
    &&& is_filled(column_value(row, "note_id"@))
    &&& is_float(column_value(row, "source_prior"@))
    &&& is_int(column_value(row, "return_visits"@))
    &&& is_flag(column_value(row, "has_annotation"@))
    &&& is_int(column_value(row, "stitch_spawns"@))
    &&& is_int(column_value(row, "exposure_recency_at"@))
    &&& is_int(column_value(row, "engagement_recency_at"@))
    &&& is_float(column_value(row, "importance"@))
    &&& is_stamp(column_value(row, "created_at"@))
    &&& is_stamp(column_value(row, "updated_at"@))
    &&& column_value(row, "deleted"@) == JsonV::Bool(false)
}

/// The names that signal rows have in an archive differ from each other.
pub proof fn lemma_signal_names()
    ensures
        distinct_names(fields_of(Table::NoteSignals)),
        fields_of(Table::NoteSignals)[0] == ("note_id"@, "noteId"@),
        fields_of(Table::NoteSignals)[1] == ("source_prior"@, "sourcePrior"@),
        fields_of(Table::NoteSignals)[2] == ("return_visits"@, "returnVisits"@),
        fields_of(Table::NoteSignals)[3] == ("has_annotation"@, "hasAnnotation"@),
        fields_of(Table::NoteSignals)[4] == ("stitch_spawns"@, "stitchSpawns"@),
        fields_of(Table::NoteSignals)[5] == ("exposure_recency_at"@, "exposureRecencyAt"@),
        fields_of(Table::NoteSignals)[6] == ("engagement_recency_at"@, "engagementRecencyAt"@),
        fields_of(Table::NoteSignals)[7] == ("importance"@, "importance"@),
        fields_of(Table::NoteSignals)[8] == ("created_at"@, "createdAt"@),
        fields_of(Table::NoteSignals)[9] == ("updated_at"@, "updatedAt"@),
        fields_of(Table::NoteSignals)[10] == ("deleted"@, "deleted"@),
        fields_of(Table::NoteSignals).len() == 11,
{
    reveal_strlit("noteId");
    reveal_strlit("deleted");
    reveal_strlit("note_id");
    reveal_strlit("createdAt");
    reveal_strlit("updatedAt");
    reveal_strlit("created_at");
    reveal_strlit("importance");
    reveal_strlit("updated_at");
    reveal_strlit("sourcePrior");
    reveal_strlit("returnVisits");
    reveal_strlit("source_prior");
    reveal_strlit("stitchSpawns");
    reveal_strlit("hasAnnotation");
    reveal_strlit("return_visits");
    reveal_strlit("stitch_spawns");
    reveal_strlit("has_annotation");
    reveal_strlit("exposureRecencyAt");
    reveal_strlit("engagementRecencyAt");
    reveal_strlit("exposure_recency_at");
    reveal_strlit("engagement_recency_at");
    assert("noteId"@.len() == 6);
    assert("deleted"@.len() == 7);
    assert("note_id"@.len() == 7);
    assert("createdAt"@.len() == 9);
    assert("updatedAt"@.len() == 9);
    assert("created_at"@.len() == 10);
    assert("importance"@.len() == 10);
    assert("updated_at"@.len() == 10);
    assert("sourcePrior"@.len() == 11);
    assert("returnVisits"@.len() == 12);
    assert("source_prior"@.len() == 12);
    assert("stitchSpawns"@.len() == 12);
    assert("hasAnnotation"@.len() == 13);
    assert("return_visits"@.len() == 13);
    assert("stitch_spawns"@.len() == 13);
    assert("has_annotation"@.len() == 14);
    assert("exposureRecencyAt"@.len() == 17);
    assert("engagementRecencyAt"@.len() == 19);
    assert("exposure_recency_at"@.len() == 19);
    assert("engagement_recency_at"@.len() == 21);
    assert("deleted"@[0] == 'd');
    assert("note_id"@[0] == 'n');
    assert("createdAt"@[0] == 'c');
    assert("updatedAt"@[0] == 'u');
    assert("created_at"@[0] == 'c');
    assert("importance"@[0] == 'i');
    assert("updated_at"@[0] == 'u');
    assert("returnVisits"@[0] == 'r');
    assert("source_prior"@[0] == 's');
    assert("stitchSpawns"@[0] == 's');
    assert("source_prior"@[1] == 'o');
    assert("stitchSpawns"@[1] == 't');
    assert("hasAnnotation"@[0] == 'h');
    assert("return_visits"@[0] == 'r');
    assert("stitch_spawns"@[0] == 's');
    assert("engagementRecencyAt"@[1] == 'n');
    assert("exposure_recency_at"@[1] == 'x');
    let fields = fields_of(Table::NoteSignals);
    assert(fields[0] == ("note_id"@, "noteId"@));
    assert(fields[1] == ("source_prior"@, "sourcePrior"@));
    assert(fields[2] == ("return_visits"@, "returnVisits"@));
    assert(fields[3] == ("has_annotation"@, "hasAnnotation"@));
    assert(fields[4] == ("stitch_spawns"@, "stitchSpawns"@));
    assert(fields[5] == ("exposure_recency_at"@, "exposureRecencyAt"@));
    assert(fields[6] == ("engagement_recency_at"@, "engagementRecencyAt"@));
    assert(fields[7] == ("importance"@, "importance"@));
    assert(fields[8] == ("created_at"@, "createdAt"@));
    assert(fields[9] == ("updated_at"@, "updatedAt"@));
    assert(fields[10] == ("deleted"@, "deleted"@));
    assert forall|i: int, j: int| 0 <= i < j < fields.len() implies (#[trigger] fields[i]).1 != (#[trigger] fields[j]).1 && fields[i].0 != fields[j].0 by {
        assert(i == 0 || i == 1 || i == 2 || i == 3 || i == 4 || i == 5 || i == 6 || i == 7 || i == 8 || i == 9 || i == 10);
        assert(j == 0 || j == 1 || j == 2 || j == 3 || j == 4 || j == 5 || j == 6 || j == 7 || j == 8 || j == 9 || j == 10);
    }
}
/// A signal row comes back as it was stored, but for its score, which is computed anew.
pub proof fn law_signal_comes_back(row: RowV, seen: Seq<NormalizedRowV>, context: ImportContext)
    requires
        signal_shaped(row),
        !key_seen(seen, column_value(row, "note_id"@)->Str_0),
    ensures
        normalized_row(
            Table::NoteSignals,
            JsonV::Obj(mapped_row(row, fields_of(Table::NoteSignals))),
            seen,
            context,
        ) == Ok::<NormalizedRowV, Seq<char>>(
            NormalizedRowV {
                primary_key: column_value(row, "note_id"@)->Str_0,
                row: completed_row(row, fields_of(Table::NoteSignals)).remove("importance"@),
                updated_at: json_i64(column_value(row, "updated_at"@))->Some_0,
            },
        ),
{
    lemma_signal_names();
    let fields = fields_of(Table::NoteSignals);
    lemma_all_archived(row, fields);
    lemma_all_completed(row, fields);
    let input = mapped_row(row, fields);
    assert(field(input, fields[0].1) == Some(column_value(row, "note_id"@)));
    assert(field(input, fields[1].1) == Some(column_value(row, "source_prior"@)));
    assert(field(input, fields[2].1) == Some(column_value(row, "return_visits"@)));
    assert(field(input, fields[3].1) == Some(column_value(row, "has_annotation"@)));
    assert(field(input, fields[4].1) == Some(column_value(row, "stitch_spawns"@)));
    assert(field(input, fields[5].1) == Some(column_value(row, "exposure_recency_at"@)));
    assert(field(input, fields[6].1) == Some(column_value(row, "engagement_recency_at"@)));
    assert(field(input, fields[7].1) == Some(column_value(row, "importance"@)));
    assert(field(input, fields[8].1) == Some(column_value(row, "created_at"@)));
    assert(field(input, fields[9].1) == Some(column_value(row, "updated_at"@)));
    assert(field(input, fields[10].1) == Some(int_json(0)));
    let key = column_value(row, "note_id"@)->Str_0;
    let columns = table_columns(Table::NoteSignals, input, key, context);
    assert(columns is Ok);
    let back = finished_row(Table::NoteSignals, key, columns->Ok_0).row;
    assert forall|column: Seq<char>| #[trigger] back.contains_key(column) <==> completed_row(row, fields).remove("importance"@).contains_key(column) by {
        if has_column(fields, column) {
            let i = choose|i: int| 0 <= i < fields.len() && (#[trigger] fields[i]).0 == column;
            assert(i == 0 || i == 1 || i == 2 || i == 3 || i == 4 || i == 5 || i == 6 || i == 7 || i == 8 || i == 9 || i == 10);
        }
    }
    assert(back =~= completed_row(row, fields).remove("importance"@));
}

/// A row of a table as the store holds it, live and in table shape.
pub open spec fn shaped(table: Table, row: RowV) -> bool {
    match table {
        Table::Books => book_shaped(row),
        Table::Notes => note_shaped(row),
        Table::CustomIdeas => custom_idea_shaped(row),
        Table::NoteLinks => note_link_shaped(row),
        Table::Lenses => lens_shaped(row),
        Table::Collections => collection_shaped(row),
        Table::CollectionMemberships => membership_shaped(row),
        Table::NoteSignals => signal_shaped(row),
    }
}

/// A stored row's key.
pub open spec fn stored_key(table: Table, row: RowV) -> Seq<char> {
    column_value(row, key_column(table))->Str_0
}

/// What a row comes back as.
pub open spec fn returned_row(table: Table, row: RowV) -> NormalizedRowV {
    let whole = completed_row(row, fields_of(table));
    NormalizedRowV {
        primary_key: stored_key(table, row),
        row: if table == Table::NoteSignals {
            whole.remove("importance"@)
        } else {
            whole
        },
        updated_at: json_i64(column_value(row, "updated_at"@))->Some_0,
    }
}

/// The rows of a store as they come back.
pub open spec fn returned_rows(table: Table, rows: Seq<RowV>) -> Seq<NormalizedRowV> {
    rows.map_values(|r: RowV| returned_row(table, r))
}

/// No two rows share a key.
pub open spec fn keys_apart(table: Table, rows: Seq<RowV>) -> bool {
    forall|i: int, j: int|
        0 <= i < j < rows.len() ==> stored_key(table, #[trigger] rows[i]) != stored_key(
            table,
            #[trigger] rows[j],
        )
}

pub open spec fn all_shaped(table: Table, rows: Seq<RowV>) -> bool {
    forall|i: int| 0 <= i < rows.len() ==> shaped(table, #[trigger] rows[i])
}

proof fn lemma_row_comes_back(
    table: Table,
    row: RowV,
    seen: Seq<NormalizedRowV>,
    context: ImportContext,
)
    requires
        table != Table::Notes,
        shaped(table, row),
        !key_seen(seen, stored_key(table, row)),
    ensures
        normalized_row(table, JsonV::Obj(mapped_row(row, fields_of(table))), seen, context) == Ok::<
            NormalizedRowV,
            Seq<char>,
        >(returned_row(table, row)),
{
    match table {
        Table::Books => law_book_comes_back(row, seen, context),
        Table::Notes => {},
        Table::CustomIdeas => law_custom_idea_comes_back(row, seen, context),
        Table::NoteLinks => law_note_link_comes_back(row, seen, context),
        Table::Lenses => law_lens_comes_back(row, seen, context),
        Table::Collections => law_collection_comes_back(row, seen, context),
        Table::CollectionMemberships => law_membership_comes_back(row, seen, context),
        Table::NoteSignals => law_signal_comes_back(row, seen, context),
    }
}

/// The rows of a store come back in order, none lost and none added.
pub proof fn law_store_comes_back(table: Table, rows: Seq<RowV>, context: ImportContext)
    requires
        table != Table::Notes,
        all_shaped(table, rows),
        keys_apart(table, rows),
    ensures
        normalized_rows(table, as_items(mapped_rows(rows, table)), context) == Ok::<
            Seq<NormalizedRowV>,
            Seq<char>,
        >(returned_rows(table, rows)),
    decreases rows.len(),
{
    let items = as_items(mapped_rows(rows, table));
    if rows.len() == 0 {
        assert(returned_rows(table, rows) =~= Seq::empty());
    } else {
        let before = rows.drop_last();
        assert forall|i: int| 0 <= i < before.len() implies shaped(table, #[trigger] before[i]) by {
            assert(before[i] == rows[i]);
        }
        assert forall|i: int, j: int| 0 <= i < j < before.len() implies stored_key(
            table,
            #[trigger] before[i],
        ) != stored_key(table, #[trigger] before[j]) by {
            assert(before[i] == rows[i] && before[j] == rows[j]);
        }
        law_store_comes_back(table, before, context);
        let seen = returned_rows(table, before);
        let last = rows.last();
        assert(rows[rows.len() - 1] == last);
        assert(!key_seen(seen, stored_key(table, last))) by {
            assert forall|i: int| 0 <= i < seen.len() implies (#[trigger] seen[i]).primary_key
                != stored_key(table, last) by {
                assert(seen[i] == returned_row(table, rows[i]));
            }
        }
        lemma_row_comes_back(table, last, seen, context);
        assert(items.drop_last() =~= as_items(mapped_rows(before, table)));
        assert(items.last() == JsonV::Obj(mapped_row(last, fields_of(table))));
        assert(returned_rows(table, rows) =~= seen.push(returned_row(table, last)));
    }
}

/// What the notes come back as.
pub open spec fn returned_notes(rows: Seq<RowV>, opened: Seq<Option<Seq<char>>>) -> Seq<
    NormalizedRowV,
> {
    Seq::new(
        rows.len(),
        |i: int|
            NormalizedRowV {
                primary_key: stored_key(Table::Notes, rows[i]),
                row: returned_note(rows[i], note_text(rows[i], opened[i])->Some_0),
                updated_at: json_i64(column_value(rows[i], "updated_at"@))->Some_0,
            },
    )
}

proof fn lemma_mapped_notes(rows: Seq<RowV>, opened: Seq<Option<Seq<char>>>, i: int)
    requires
        mapped_notes(rows, opened) is Some,
        0 <= i < rows.len(),
    ensures
        mapped_notes(rows, opened)->Some_0.len() == rows.len(),
        mapped_note(rows[i], opened[i]) == Some(mapped_notes(rows, opened)->Some_0[i]),
    decreases rows.len(),
{
    if i < rows.len() - 1 {
        lemma_mapped_notes(rows.drop_last(), opened, i);
        assert(rows.drop_last()[i] == rows[i]);
    } else if rows.len() > 1 {
        lemma_mapped_notes(rows.drop_last(), opened, 0);
    }
}

proof fn lemma_notes_come_back(
    rows: Seq<RowV>,
    opened: Seq<Option<Seq<char>>>,
    exported: Seq<RowV>,
    context: ImportContext,
)
    requires
        exported.len() == rows.len(),
        context.schema_version >= 14,
        all_shaped(Table::Notes, rows),
        keys_apart(Table::Notes, rows),
        forall|i: int|
            0 <= i < rows.len() ==> mapped_note(#[trigger] rows[i], opened[i]) is Some && exists|
                margins: Seq<Seq<char>>,
            |
                exported[i] == #[trigger] with_margins(
                    mapped_note(rows[i], opened[i])->Some_0,
                    margins,
                ),
    ensures
        normalized_rows(Table::Notes, as_items(exported), context) == Ok::<
            Seq<NormalizedRowV>,
            Seq<char>,
        >(returned_notes(rows, opened)),
    decreases rows.len(),
{
    let items = as_items(exported);
    if rows.len() == 0 {
        assert(returned_notes(rows, opened) =~= Seq::empty());
    } else {
        let before = rows.drop_last();
        let exported_before = exported.drop_last();
        assert forall|i: int| 0 <= i < before.len() implies shaped(
            Table::Notes,
            #[trigger] before[i],
        ) by {
            assert(before[i] == rows[i]);
        }
        assert forall|i: int, j: int| 0 <= i < j < before.len() implies stored_key(
            Table::Notes,
            #[trigger] before[i],
        ) != stored_key(Table::Notes, #[trigger] before[j]) by {
            assert(before[i] == rows[i] && before[j] == rows[j]);
        }
        assert forall|i: int| 0 <= i < before.len() implies mapped_note(
            #[trigger] before[i],
            opened[i],
        ) is Some && exists|margins: Seq<Seq<char>>|
            exported_before[i] == #[trigger] with_margins(
                mapped_note(before[i], opened[i])->Some_0,
                margins,
            ) by {
            assert(before[i] == rows[i] && exported_before[i] == exported[i]);
        }
        lemma_notes_come_back(before, opened, exported_before, context);
        let seen = returned_notes(before, opened);
        let at = rows.len() - 1;
        let last = rows[at];
        assert(!key_seen(seen, stored_key(Table::Notes, last))) by {
            assert forall|i: int| 0 <= i < seen.len() implies (#[trigger] seen[i]).primary_key
                != stored_key(Table::Notes, last) by {
                assert(before[i] == rows[i]);
            }
        }
        let margins = choose|margins: Seq<Seq<char>>|
            exported[at] == #[trigger] with_margins(mapped_note(last, opened[at])->Some_0, margins);
        law_note_comes_back(last, opened[at], margins, seen, context);
        assert(items.drop_last() =~= as_items(exported_before));
        assert(items.last() == JsonV::Obj(exported[at]));
        assert(returned_notes(rows, opened) =~= seen.push(returned_notes(rows, opened)[at]));
    }
}

/// The notes come back in order, none lost and none added, whatever margins are listed with them.
pub proof fn law_notes_come_back(
    rows: Seq<RowV>,
    opened: Seq<Option<Seq<char>>>,
    links: Seq<RowV>,
    context: ImportContext,
)
    requires
        context.schema_version >= 14,
        all_shaped(Table::Notes, rows),
        keys_apart(Table::Notes, rows),
        mapped_notes(rows, opened) is Some,
    ensures
        normalized_rows(
            Table::Notes,
            as_items(annotated(mapped_notes(rows, opened)->Some_0, links)),
            context,
        ) == Ok::<Seq<NormalizedRowV>, Seq<char>>(returned_notes(rows, opened)),
{
    let notes = mapped_notes(rows, opened)->Some_0;
    let exported = annotated(notes, links);
    if rows.len() > 0 {
        lemma_mapped_notes(rows, opened, 0);
    }
    assert forall|i: int| 0 <= i < rows.len() implies mapped_note(
        #[trigger] rows[i],
        opened[i],
    ) is Some && exists|margins: Seq<Seq<char>>|
        exported[i] == #[trigger] with_margins(
            mapped_note(rows[i], opened[i])->Some_0,
            margins,
        ) by {
        lemma_mapped_notes(rows, opened, i);
        assert(exported[i] == with_margins(
            mapped_note(rows[i], opened[i])->Some_0,
            listed_margins(notes, margin_edges(links), i),
        ));
    }
    lemma_notes_come_back(rows, opened, exported, context);
}

/// The live rows of a library by their contents.
pub struct LibraryV {
    pub books: Seq<RowV>,
    pub notes: Seq<RowV>,
    pub opened: Seq<Option<Seq<char>>>,
    pub custom_ideas: Seq<RowV>,
    pub note_links: Seq<RowV>,
    pub lenses: Seq<RowV>,
    pub collections: Seq<RowV>,
    pub collection_memberships: Seq<RowV>,
    pub note_signals: Seq<RowV>,
}

/// Rows that are in table shape, with a key each.
pub open spec fn sound_rows(table: Table, rows: Seq<RowV>) -> bool {
    all_shaped(table, rows) && keys_apart(table, rows)
}

/// A library whose rows are in table shape, with a key each, and whose notes can be opened.
pub open spec fn sound_library(library: LibraryV) -> bool {
    &&& sound_rows(Table::Notes, library.notes)
    &&& mapped_notes(library.notes, library.opened) is Some
    &&& sound_rows(Table::Books, library.books)
    &&& sound_rows(Table::CustomIdeas, library.custom_ideas)
    &&& sound_rows(Table::NoteLinks, library.note_links)
    &&& sound_rows(Table::Lenses, library.lenses)
    &&& sound_rows(Table::Collections, library.collections)
    &&& sound_rows(Table::CollectionMemberships, library.collection_memberships)
    &&& sound_rows(Table::NoteSignals, library.note_signals)
}

/// The library that live rows make up, with the texts that its notes were opened to.
pub open spec fn library_of(rows: SnapshotRows, opened: Seq<Option<String>>) -> LibraryV {
    LibraryV {
        books: rows_of_fields(rows.books@),
        notes: rows_of_fields(rows.notes@),
        opened: opened_view(opened),
        custom_ideas: rows_of_fields(rows.custom_ideas@),
        note_links: rows_of_fields(rows.note_links@),
        lenses: rows_of_fields(rows.lenses@),
        collections: rows_of_fields(rows.collections@),
        collection_memberships: rows_of_fields(rows.collection_memberships@),
        note_signals: rows_of_fields(rows.note_signals@),
    }
}

/// What is imported of a library: every row of every table, in order, as it was stored, the notes
/// opened, and nothing else.
pub open spec fn returned_library(library: LibraryV) -> NormalizedImportV {
    NormalizedImportV {
        schema_version: SCHEMA_VERSION,
        books: returned_rows(Table::Books, library.books),
        notes: returned_notes(library.notes, library.opened),
        custom_ideas: returned_rows(Table::CustomIdeas, library.custom_ideas),
        note_links: returned_rows(Table::NoteLinks, library.note_links),
        lenses: returned_rows(Table::Lenses, library.lenses),
        collections: returned_rows(Table::Collections, library.collections),
        collection_memberships: returned_rows(
            Table::CollectionMemberships,
            library.collection_memberships,
        ),
        note_signals: returned_rows(Table::NoteSignals, library.note_signals),
    }
}

/// A library that is exported comes back whole when its archive is imported.
pub proof fn law_archive_comes_back(
    rows: SnapshotRows,
    opened: Seq<Option<String>>,
    snapshot: Snapshot,
    exported_ms: i64,
    now: i64,
)
    requires
        sound_library(library_of(rows, opened)),
        snapshot_of(
            snapshot,
            rows,
            mapped_notes(rows_of_fields(rows.notes@), opened_view(opened))->Some_0,
            exported_ms,
        ),
    ensures
        normalized_archive(JsonV::Obj(archive_object(snapshot)), now) == Ok::<
            NormalizedImportV,
            Seq<char>,
        >(returned_library(library_of(rows, opened))),
{
    let library = library_of(rows, opened);
    reveal_strlit("books");
    reveal_strlit("notes");
    reveal_strlit("lenses");
    reveal_strlit("noteLinks");
    reveal_strlit("exportedAt");
    reveal_strlit("_syntopicon");
    reveal_strlit("collections");
    reveal_strlit("customIdeas");
    reveal_strlit("noteSignals");
    reveal_strlit("schemaVersion");
    reveal_strlit("collectionMemberships");
    assert("books"@.len() == 5);
    assert("notes"@.len() == 5);
    assert("lenses"@.len() == 6);
    assert("noteLinks"@.len() == 9);
    assert("exportedAt"@.len() == 10);
    assert("_syntopicon"@.len() == 11);
    assert("collections"@.len() == 11);
    assert("customIdeas"@.len() == 11);
    assert("noteSignals"@.len() == 11);
    assert("schemaVersion"@.len() == 13);
    assert("collectionMemberships"@.len() == 21);
    assert("books"@[0] == 'b');
    assert("notes"@[0] == 'n');
    assert("_syntopicon"@[0] == '_');
    assert("collections"@[0] == 'c');
    assert("customIdeas"@[0] == 'c');
    assert("noteSignals"@[0] == 'n');
    assert("collections"@[1] == 'o');
    assert("customIdeas"@[1] == 'u');
    let root = archive_object(snapshot);
    let context = ImportContext {
        now,
        schema_version: SCHEMA_VERSION,
        raw_notes: raw_notes_of(root),
    };
    law_notes_come_back(library.notes, library.opened, library.note_links, context);
    law_store_comes_back(Table::Books, library.books, context);
    law_store_comes_back(Table::CustomIdeas, library.custom_ideas, context);
    law_store_comes_back(Table::NoteLinks, library.note_links, context);
    law_store_comes_back(Table::Lenses, library.lenses, context);
    law_store_comes_back(Table::Collections, library.collections, context);
    law_store_comes_back(Table::CollectionMemberships, library.collection_memberships, context);
    law_store_comes_back(Table::NoteSignals, library.note_signals, context);
    assert(archive_version(root) == Ok::<u32, Seq<char>>(SCHEMA_VERSION));
}

/// A text that reads as the archive of a library gives the whole library back.
pub proof fn law_archive_text_comes_back(
    text: Seq<char>,
    rows: SnapshotRows,
    opened: Seq<Option<String>>,
    snapshot: Snapshot,
    exported_ms: i64,
    now: i64,
)
    requires
        parsed_json(text) == Some(JsonV::Obj(archive_object(snapshot))),
        sound_library(library_of(rows, opened)),
        snapshot_of(
            snapshot,
            rows,
            mapped_notes(rows_of_fields(rows.notes@), opened_view(opened))->Some_0,
            exported_ms,
        ),
    ensures
        read_archive(text, now) == Ok::<NormalizedImportV, Seq<char>>(
            returned_library(library_of(rows, opened)),
        ),
{
    law_archive_comes_back(rows, opened, snapshot, exported_ms, now);
}

} // verus!
