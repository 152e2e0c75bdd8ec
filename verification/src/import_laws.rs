//! What an archive row becomes in table shape, field by field, and when an archive is refused.

use crate::import::{
    archive_version, normalized_archive, normalized_row, normalized_rows, prior_of, raw_notes_of,
    raw_source, store_rows, store_values, ImportContext, NormalizedImportV, NormalizedRowV,
};
use crate::json::{finite_bits, row_text, JsonV, Number, RowV};
use crate::json_text::json_float;
use crate::names::lemma_column_names;
use crate::tables::{archive_name, Table};
use crate::tags::current_tags;
use crate::write_laws::{holds, holds_integer, lists_texts};
use vstd::prelude::*;

verus! {

/// Whether a value is a whole number that fits into 64 signed bits.
pub open spec fn whole(value: JsonV) -> bool {
    match value {
        JsonV::Num(Number::PosInt(m)) => m <= i64::MAX,
        JsonV::Num(Number::NegInt(_)) => true,
        _ => false,
    }
}

/// The whole number that a value is.
pub open spec fn whole_value(value: JsonV) -> int {
    match value {
        JsonV::Num(Number::PosInt(m)) => m as int,
        JsonV::Num(Number::NegInt(m)) => m as int,
        _ => 0,
    }
}

/// Whether a field is absent or null.
pub open spec fn missing(input: RowV, name: Seq<char>) -> bool {
    !input.contains_key(name) || input[name] == JsonV::Null
}

/// Whether a field may be carried over as a text.
pub open spec fn text_fits(input: RowV, name: Seq<char>, nullable: bool) -> bool {
    !input.contains_key(name) || input[name] is Str || (nullable && input[name] is Null)
}

/// Whether a field may be carried over as a whole number.
pub open spec fn number_fits(input: RowV, name: Seq<char>, nullable: bool) -> bool {
    !input.contains_key(name) || whole(input[name]) || (nullable && input[name] is Null)
}

/// Whether a field may be read as a list of texts.
pub open spec fn texts_fit(input: RowV, name: Seq<char>) -> bool {
    missing(input, name) || (input[name] matches JsonV::Arr(items) && forall|i: int|
        0 <= i < items.len() ==> (#[trigger] items[i]) is Str)
}

/// Whether a field may be read as a finite number.
pub open spec fn float_fits(input: RowV, name: Seq<char>) -> bool {
    missing(input, name) || (input[name] is Num && finite_bits(json_float(input[name])->Some_0))
}

/// Whether a field is carried over into a column as it is: a text, a null, or nothing.
pub open spec fn carried(input: RowV, from: Seq<char>, row: RowV, to: Seq<char>) -> bool {
    if input.contains_key(from) {
        row.contains_key(to) && row[to] == input[from]
    } else {
        !row.contains_key(to)
    }
}

/// Whether a whole number is carried over into a column: the number, a null, or nothing.
pub open spec fn carried_number(input: RowV, from: Seq<char>, row: RowV, to: Seq<char>) -> bool {
    if input.contains_key(from) {
        if input[from] is Null {
            holds(row, to, JsonV::Null)
        } else {
            holds_integer(row, to, whole_value(input[from]))
        }
    } else {
        !row.contains_key(to)
    }
}

/// Whether a column holds the time of a field, and now where the field is absent, null or zero.
pub open spec fn timed(input: RowV, from: Seq<char>, row: RowV, to: Seq<char>, now: i64) -> bool {
    if missing(input, from) || whole_value(input[from]) == 0 {
        holds_integer(row, to, now as int)
    } else {
        holds_integer(row, to, whole_value(input[from]))
    }
}

/// Whether a column holds the text of a field, and a default where the field is absent, null or
/// empty.
pub open spec fn text_or_default(
    input: RowV,
    from: Seq<char>,
    row: RowV,
    to: Seq<char>,
    default: Seq<char>,
) -> bool {
    if missing(input, from) || input[from] == JsonV::Str(Seq::empty()) {
        holds(row, to, JsonV::Str(default))
    } else {
        holds(row, to, input[from])
    }
}

/// Whether a column holds the whole number of a field, and a default where the field is absent or
/// null.
pub open spec fn number_or_default(
    input: RowV,
    from: Seq<char>,
    row: RowV,
    to: Seq<char>,
    default: int,
) -> bool {
    if missing(input, from) {
        holds_integer(row, to, default)
    } else {
        holds_integer(row, to, whole_value(input[from]))
    }
}

/// The texts of a field; none where it is absent or null.
pub open spec fn texts_in(input: RowV, name: Seq<char>) -> Seq<Seq<char>> {
    if missing(input, name) {
        Seq::empty()
    } else {
        input[name]->Arr_0.map_values(|v: JsonV| v->Str_0)
    }
}

/// Whether an archive row is live: its mark of deletion is absent, null, false or a zero.
pub open spec fn is_live(input: RowV) -> bool {
    !input.contains_key("deleted"@) || match input["deleted"@] {
        JsonV::Null => true,
        JsonV::Bool(b) => !b,
        JsonV::Num(Number::PosInt(n)) => n == 0,
        JsonV::Num(Number::NegInt(n)) => n == 0,
        JsonV::Num(Number::Float(bits)) => bits == 0 || bits == 0x8000_0000_0000_0000,
        _ => false,
    }
}

/// Whether an archive row has a key that no row before it has: a text that is not empty.
pub open spec fn has_new_key(input: RowV, name: Seq<char>, seen: Seq<NormalizedRowV>) -> bool {
    &&& input.contains_key(name)
    &&& input[name] is Str
    &&& input[name]->Str_0.len() > 0
    &&& forall|i: int| 0 <= i < seen.len() ==> (#[trigger] seen[i]).primary_key != input[name]->Str_0
}

/// Whether a row in table shape is live, has the archive row's key, in its key column too, and the
/// time of its own column.
pub open spec fn keyed(row: NormalizedRowV, column: Seq<char>, input: RowV, name: Seq<char>) -> bool {
    &&& row.primary_key == input[name]->Str_0
    &&& holds(row.row, column, JsonV::Str(row.primary_key))
    &&& holds(row.row, "deleted"@, JsonV::Bool(false))
    &&& holds_integer(row.row, "updated_at"@, row.updated_at as int)
}

/// A book is carried over field by field: the title, which must be a text, the author, the ISBN and
/// the cover's address and source, which may be null, the times of the cover and of writing, and the
/// time of the last change, which is now where the archive states none.
/// It is refused if and only if it is not live, has no new key, or a field does not fit.
pub proof fn law_book_is_imported(
    input: RowV,
    seen: Seq<NormalizedRowV>,
    context: ImportContext,
)
    ensures
        match normalized_row(Table::Books, JsonV::Obj(input), seen, context) {
            Ok(row) => {
                &&& keyed(row, "id"@, input, "id"@)
                &&& carried(input, "title"@, row.row, "title"@)
                &&& carried(input, "author"@, row.row, "author"@)
                &&& carried(input, "isbn"@, row.row, "isbn"@)
                &&& carried(input, "coverUrl"@, row.row, "cover_url"@)
                &&& carried(input, "coverSource"@, row.row, "cover_source"@)
                &&& carried_number(input, "coverResolvedAt"@, row.row, "cover_resolved_at"@)
                &&& carried_number(input, "createdAt"@, row.row, "created_at"@)
                &&& timed(input, "updatedAt"@, row.row, "updated_at"@, context.now)
                &&& forall|name: Seq<char>| #[trigger]
                    row.row.contains_key(name) ==> name == "title"@ || name == "author"@
                        || name == "isbn"@ || name == "cover_url"@ || name == "cover_source"@
                        || name == "cover_resolved_at"@ || name == "created_at"@
                        || name == "updated_at"@ || name == "id"@ || name == "deleted"@
            },
            Err(_) => true,
        },
        normalized_row(Table::Books, JsonV::Obj(input), seen, context) is Ok <==> {
            &&& is_live(input)
            &&& has_new_key(input, "id"@, seen)
            &&& text_fits(input, "title"@, false)
            &&& text_fits(input, "author"@, true)
            &&& text_fits(input, "isbn"@, true)
            &&& text_fits(input, "coverUrl"@, true)
            &&& text_fits(input, "coverSource"@, true)
            &&& number_fits(input, "coverResolvedAt"@, true)
            &&& number_fits(input, "createdAt"@, false)
            &&& number_fits(input, "updatedAt"@, true)
        },
{
    lemma_column_names();
    lemma_key(input, "id"@, seen);
}

/// A custom idea is carried over field by field: the name, which must be a text, the description, which
/// may be null, and the time of writing; the time of the last change is now where the archive states
/// none.
/// It is refused if and only if it is not live, has no new key, or a field does not fit.
pub proof fn law_custom_idea_is_imported(
    input: RowV,
    seen: Seq<NormalizedRowV>,
    context: ImportContext,
)
    ensures
        match normalized_row(Table::CustomIdeas, JsonV::Obj(input), seen, context) {
            Ok(row) => {
                &&& keyed(row, "id"@, input, "id"@)
                &&& carried(input, "name"@, row.row, "name"@)
                &&& carried(input, "description"@, row.row, "description"@)
                &&& carried_number(input, "createdAt"@, row.row, "created_at"@)
                &&& timed(input, "updatedAt"@, row.row, "updated_at"@, context.now)
                &&& forall|name: Seq<char>| #[trigger]
                    row.row.contains_key(name) ==> name == "name"@ || name == "description"@
                        || name == "created_at"@ || name == "updated_at"@ || name == "id"@
                        || name == "deleted"@
            },
            Err(_) => true,
        },
        normalized_row(Table::CustomIdeas, JsonV::Obj(input), seen, context) is Ok <==> {
            &&& is_live(input)
            &&& has_new_key(input, "id"@, seen)
            &&& text_fits(input, "name"@, false)
            &&& text_fits(input, "description"@, true)
            &&& number_fits(input, "createdAt"@, false)
            &&& number_fits(input, "updatedAt"@, true)
        },
{
    lemma_column_names();
    lemma_key(input, "id"@, seen);
}

/// An edge is carried over field by field: its two ends, which must be texts, and its relation, which is
/// that of margins where the archive states none; both times are now where the archive states none.
/// It is refused if and only if it is not live, has no new key, or a field does not fit.
pub proof fn law_note_link_is_imported(
    input: RowV,
    seen: Seq<NormalizedRowV>,
    context: ImportContext,
)
    ensures
        match normalized_row(Table::NoteLinks, JsonV::Obj(input), seen, context) {
            Ok(row) => {
                &&& keyed(row, "id"@, input, "id"@)
                &&& carried(input, "fromNoteId"@, row.row, "from_note_id"@)
                &&& carried(input, "toNoteId"@, row.row, "to_note_id"@)
                &&& text_or_default(input, "relationType"@, row.row, "relation_type"@, "handwritten_annotation"@)
                &&& timed(input, "createdAt"@, row.row, "created_at"@, context.now)
                &&& timed(input, "updatedAt"@, row.row, "updated_at"@, context.now)
                &&& forall|name: Seq<char>| #[trigger]
                    row.row.contains_key(name) ==> name == "from_note_id"@
                        || name == "to_note_id"@ || name == "relation_type"@
                        || name == "created_at"@ || name == "updated_at"@ || name == "id"@
                        || name == "deleted"@
            },
            Err(_) => true,
        },
        normalized_row(Table::NoteLinks, JsonV::Obj(input), seen, context) is Ok <==> {
            &&& is_live(input)
            &&& has_new_key(input, "id"@, seen)
            &&& text_fits(input, "fromNoteId"@, false)
            &&& text_fits(input, "toNoteId"@, false)
            &&& text_fits(input, "relationType"@, true)
            &&& number_fits(input, "createdAt"@, true)
            &&& number_fits(input, "updatedAt"@, true)
        },
{
    lemma_column_names();
    lemma_key(input, "id"@, seen);
    if let JsonV::Str(s) = input["relationType"@] {
        assert(s.len() == 0 ==> s =~= Seq::<char>::empty());
    }
}

/// A lens is carried over field by field: the name, which must be a text, its leaves, the combinator,
/// which is `AND` where the archive states none, and the threshold, which is one hundred where it
/// states none; both times are now where the archive states none.
/// It is refused if and only if it is not live, has no new key, or a field does not fit.
pub proof fn law_lens_is_imported(
    input: RowV,
    seen: Seq<NormalizedRowV>,
    context: ImportContext,
)
    ensures
        match normalized_row(Table::Lenses, JsonV::Obj(input), seen, context) {
            Ok(row) => {
                &&& keyed(row, "id"@, input, "id"@)
                &&& carried(input, "name"@, row.row, "name"@)
                &&& row.row.contains_key("leaf_ids"@) && lists_texts(row.row["leaf_ids"@], texts_in(input, "leafIds"@))
                &&& text_or_default(input, "combinator"@, row.row, "combinator"@, "AND"@)
                &&& number_or_default(input, "threshold"@, row.row, "threshold"@, 100)
                &&& timed(input, "createdAt"@, row.row, "created_at"@, context.now)
                &&& timed(input, "updatedAt"@, row.row, "updated_at"@, context.now)
                &&& forall|name: Seq<char>| #[trigger]
                    row.row.contains_key(name) ==> name == "name"@ || name == "leaf_ids"@
                        || name == "combinator"@ || name == "threshold"@
                        || name == "created_at"@ || name == "updated_at"@ || name == "id"@
                        || name == "deleted"@
            },
            Err(_) => true,
        },
        normalized_row(Table::Lenses, JsonV::Obj(input), seen, context) is Ok <==> {
            &&& is_live(input)
            &&& has_new_key(input, "id"@, seen)
            &&& text_fits(input, "name"@, false)
            &&& texts_fit(input, "leafIds"@)
            &&& text_fits(input, "combinator"@, true)
            &&& number_fits(input, "threshold"@, true)
            &&& number_fits(input, "createdAt"@, true)
            &&& number_fits(input, "updatedAt"@, true)
        },
{
    lemma_column_names();
    lemma_key(input, "id"@, seen);
    lemma_texts(input, "leafIds"@);
    if let JsonV::Str(s) = input["combinator"@] {
        assert(s.len() == 0 ==> s =~= Seq::<char>::empty());
    }
}

/// A collection is carried over field by field: the name, which must be a text; both times are now where
/// the archive states none.
/// It is refused if and only if it is not live, has no new key, or a field does not fit.
pub proof fn law_collection_is_imported(
    input: RowV,
    seen: Seq<NormalizedRowV>,
    context: ImportContext,
)
    ensures
        match normalized_row(Table::Collections, JsonV::Obj(input), seen, context) {
            Ok(row) => {
                &&& keyed(row, "id"@, input, "id"@)
                &&& carried(input, "name"@, row.row, "name"@)
                &&& timed(input, "createdAt"@, row.row, "created_at"@, context.now)
                &&& timed(input, "updatedAt"@, row.row, "updated_at"@, context.now)
                &&& forall|name: Seq<char>| #[trigger]
                    row.row.contains_key(name) ==> name == "name"@ || name == "created_at"@
                        || name == "updated_at"@ || name == "id"@ || name == "deleted"@
            },
            Err(_) => true,
        },
        normalized_row(Table::Collections, JsonV::Obj(input), seen, context) is Ok <==> {
            &&& is_live(input)
            &&& has_new_key(input, "id"@, seen)
            &&& text_fits(input, "name"@, false)
            &&& number_fits(input, "createdAt"@, true)
            &&& number_fits(input, "updatedAt"@, true)
        },
{
    lemma_column_names();
    lemma_key(input, "id"@, seen);
}

/// A membership is carried over field by field: the note and the collection, which must be texts; both
/// times are now where the archive states none.
/// It is refused if and only if it is not live, has no new key, or a field does not fit.
pub proof fn law_membership_is_imported(
    input: RowV,
    seen: Seq<NormalizedRowV>,
    context: ImportContext,
)
    ensures
        match normalized_row(Table::CollectionMemberships, JsonV::Obj(input), seen, context) {
            Ok(row) => {
                &&& keyed(row, "id"@, input, "id"@)
                &&& carried(input, "noteId"@, row.row, "note_id"@)
                &&& carried(input, "collectionId"@, row.row, "collection_id"@)
                &&& timed(input, "createdAt"@, row.row, "created_at"@, context.now)
                &&& timed(input, "updatedAt"@, row.row, "updated_at"@, context.now)
                &&& forall|name: Seq<char>| #[trigger]
                    row.row.contains_key(name) ==> name == "note_id"@
                        || name == "collection_id"@ || name == "created_at"@
                        || name == "updated_at"@ || name == "id"@ || name == "deleted"@
            },
            Err(_) => true,
        },
        normalized_row(Table::CollectionMemberships, JsonV::Obj(input), seen, context) is Ok <==> {
            &&& is_live(input)
            &&& has_new_key(input, "id"@, seen)
            &&& text_fits(input, "noteId"@, false)
            &&& text_fits(input, "collectionId"@, false)
            &&& number_fits(input, "createdAt"@, true)
            &&& number_fits(input, "updatedAt"@, true)
        },
{
    lemma_column_names();
    lemma_key(input, "id"@, seen);
}

/// A note is carried over field by field: the book, the text, the page and the two pictures, which may
/// be null, the source's key and the chapter, which are null where the archive states none, the source,
/// which is `manual` where it states none, the source's metadata, an object that is empty where it
/// states none, the tags in their current names, the time of writing, and the time of the last change,
/// which is now where the archive states none. The archive's tag of the text is checked and dropped.
/// It is refused if and only if it is not live, has no new key, or a field does not fit.
pub proof fn law_note_is_imported(
    input: RowV,
    seen: Seq<NormalizedRowV>,
    context: ImportContext,
)
    ensures
        match normalized_row(Table::Notes, JsonV::Obj(input), seen, context) {
            Ok(row) => {
                &&& keyed(row, "id"@, input, "id"@)
                &&& carried(input, "bookId"@, row.row, "book_id"@)
                &&& carried(input, "text"@, row.row, "text"@)
                &&& carried(input, "page"@, row.row, "page"@)
                &&& carried(input, "imagePath"@, row.row, "image_path"@)
                &&& carried(input, "inkCropPath"@, row.row, "ink_crop_path"@)
                &&& if missing(input, "sourceId"@) {
                    holds(row.row, "source_id"@, JsonV::Null)
                } else {
                    holds(row.row, "source_id"@, input["sourceId"@])
                }
                &&& carried_number(input, "createdAt"@, row.row, "created_at"@)
                &&& if missing(input, "source"@) {
                    holds(row.row, "source"@, JsonV::Str("manual"@))
                } else {
                    holds(row.row, "source"@, input["source"@])
                }
                &&& if missing(input, "chapter"@) {
                    holds(row.row, "chapter"@, JsonV::Null)
                } else {
                    holds(row.row, "chapter"@, input["chapter"@])
                }
                &&& if missing(input, "sourceMeta"@) {
                    holds(row.row, "source_meta"@, JsonV::Obj(Map::empty()))
                } else {
                    holds(row.row, "source_meta"@, input["sourceMeta"@])
                }
                &&& row.row.contains_key("tags"@) && lists_texts(
                    row.row["tags"@],
                    current_tags(texts_in(input, "tags"@), context.schema_version),
                )
                &&& timed(input, "updatedAt"@, row.row, "updated_at"@, context.now)
                &&& forall|name: Seq<char>| #[trigger]
                    row.row.contains_key(name) ==> name == "book_id"@ || name == "text"@
                        || name == "page"@ || name == "image_path"@ || name == "ink_crop_path"@
                        || name == "source_id"@ || name == "created_at"@ || name == "source"@
                        || name == "chapter"@ || name == "source_meta"@ || name == "tags"@
                        || name == "updated_at"@ || name == "id"@ || name == "deleted"@
            },
            Err(_) => true,
        },
        normalized_row(Table::Notes, JsonV::Obj(input), seen, context) is Ok <==> {
            &&& is_live(input)
            &&& has_new_key(input, "id"@, seen)
            &&& text_fits(input, "bookId"@, true)
            &&& text_fits(input, "text"@, true)
            &&& text_fits(input, "page"@, true)
            &&& text_fits(input, "imagePath"@, true)
            &&& text_fits(input, "inkCropPath"@, true)
            &&& text_fits(input, "sourceId"@, true)
            &&& number_fits(input, "createdAt"@, false)
            &&& text_fits(input, "contentTag"@, true)
            &&& text_fits(input, "source"@, true)
            &&& text_fits(input, "chapter"@, true)
            &&& (missing(input, "sourceMeta"@) || input["sourceMeta"@] is Obj)
            &&& texts_fit(input, "tags"@)
            &&& number_fits(input, "updatedAt"@, true)
        },
{
    lemma_column_names();
    lemma_key(input, "id"@, seen);
    lemma_texts(input, "tags"@);
}

/// A signal row is carried over field by field: the prior, which is that of the note's source where the
/// archive states none, the counters, which are zero, and the mark of annotation, which is false, where
/// it states none; both times are now where the archive states none. An archived score is checked and
/// dropped.
/// It is refused if and only if it is not live, has no new key, or a field does not fit.
pub proof fn law_signal_is_imported(
    input: RowV,
    seen: Seq<NormalizedRowV>,
    context: ImportContext,
)
    ensures
        match normalized_row(Table::NoteSignals, JsonV::Obj(input), seen, context) {
            Ok(row) => {
                &&& keyed(row, "note_id"@, input, "noteId"@)
                &&& holds(
                    row.row,
                    "source_prior"@,
                    JsonV::Num(
                        Number::Float(
                            if missing(input, "sourcePrior"@) {
                                prior_of(raw_source(context.raw_notes, row.primary_key))
                            } else {
                                json_float(input["sourcePrior"@])->Some_0
                            },
                        ),
                    ),
                )
                &&& number_or_default(input, "returnVisits"@, row.row, "return_visits"@, 0)
                &&& number_or_default(input, "stitchSpawns"@, row.row, "stitch_spawns"@, 0)
                &&& if missing(input, "hasAnnotation"@) {
                    holds(row.row, "has_annotation"@, JsonV::Bool(false))
                } else {
                    holds(row.row, "has_annotation"@, input["hasAnnotation"@])
                }
                &&& number_or_default(input, "exposureRecencyAt"@, row.row, "exposure_recency_at"@, 0)
                &&& number_or_default(input, "engagementRecencyAt"@, row.row, "engagement_recency_at"@, 0)
                &&& timed(input, "createdAt"@, row.row, "created_at"@, context.now)
                &&& timed(input, "updatedAt"@, row.row, "updated_at"@, context.now)
                &&& forall|name: Seq<char>| #[trigger]
                    row.row.contains_key(name) ==> name == "source_prior"@
                        || name == "return_visits"@ || name == "stitch_spawns"@
                        || name == "has_annotation"@ || name == "exposure_recency_at"@
                        || name == "engagement_recency_at"@ || name == "created_at"@
                        || name == "updated_at"@ || name == "note_id"@ || name == "deleted"@
            },
            Err(_) => true,
        },
        normalized_row(Table::NoteSignals, JsonV::Obj(input), seen, context) is Ok <==> {
            &&& is_live(input)
            &&& has_new_key(input, "noteId"@, seen)
            &&& float_fits(input, "sourcePrior"@)
            &&& number_fits(input, "returnVisits"@, true)
            &&& number_fits(input, "stitchSpawns"@, true)
            &&& (missing(input, "hasAnnotation"@) || input["hasAnnotation"@] is Bool)
            &&& number_fits(input, "exposureRecencyAt"@, true)
            &&& number_fits(input, "engagementRecencyAt"@, true)
            &&& float_fits(input, "importance"@)
            &&& number_fits(input, "createdAt"@, true)
            &&& number_fits(input, "updatedAt"@, true)
        },
{
    lemma_column_names();
    lemma_key(input, "noteId"@, seen);
    lemma_prior_is_finite(raw_source(context.raw_notes, input["noteId"@]->Str_0));
}

proof fn lemma_key(input: RowV, name: Seq<char>, seen: Seq<NormalizedRowV>)
    ensures
        has_new_key(input, name, seen) <==> row_text(input, name) is Some && row_text(
            input,
            name,
        )->Some_0.len() > 0 && !crate::import::key_seen(seen, row_text(input, name)->Some_0),
{
}

proof fn lemma_texts(input: RowV, name: Seq<char>)
    ensures
        texts_fit(input, name) <==> crate::import::texts_or_none(input, name) is Ok,
        texts_fit(input, name) ==> crate::import::texts_or_none(input, name)->Ok_0 == texts_in(
            input,
            name,
        ),
{
}

proof fn lemma_prior_is_finite(source: Option<Seq<char>>)
    ensures
        finite_bits(prior_of(source)),
{
}

/// Whether rows are those of an archive store: none where the store is absent or null, and otherwise
/// one for each value of its list, in order, each in table shape given the ones before it.
pub open spec fn store_is_read(
    root: RowV,
    name: Seq<char>,
    table: Table,
    context: ImportContext,
    rows: Seq<NormalizedRowV>,
) -> bool {
    if missing(root, name) {
        rows.len() == 0
    } else {
        &&& root[name] is Arr
        &&& rows.len() == root[name]->Arr_0.len()
        &&& forall|i: int|
            #![trigger rows[i]]
            0 <= i < rows.len() ==> normalized_row(
                table,
                root[name]->Arr_0[i],
                rows.take(i),
                context,
            ) == Ok::<NormalizedRowV, Seq<char>>(rows[i])
    }
}

proof fn lemma_rows_are_read(table: Table, values: Seq<JsonV>, context: ImportContext)
    ensures
        normalized_rows(table, values, context) matches Ok(rows) ==> rows.len() == values.len()
            && forall|i: int|
            #![trigger rows[i]]
            0 <= i < rows.len() ==> normalized_row(table, values[i], rows.take(i), context) == Ok::<
                NormalizedRowV,
                Seq<char>,
            >(rows[i]),
    decreases values.len(),
{
    if values.len() > 0 {
        let before = values.drop_last();
        lemma_rows_are_read(table, before, context);
        if let Ok(rows) = normalized_rows(table, values, context) {
            let held = normalized_rows(table, before, context)->Ok_0;
            assert forall|i: int|
                #![trigger rows[i]]
                0 <= i < rows.len() implies normalized_row(
                table,
                values[i],
                rows.take(i),
                context,
            ) == Ok::<NormalizedRowV, Seq<char>>(rows[i]) by {
                if i < held.len() {
                    assert(rows[i] == held[i]);
                    assert(rows.take(i) =~= held.take(i));
                    assert(before[i] == values[i]);
                } else {
                    assert(rows.take(i) =~= held);
                }
            }
        }
    }
}

proof fn lemma_rows_are_refused(
    table: Table,
    values: Seq<JsonV>,
    context: ImportContext,
    rows: Seq<NormalizedRowV>,
)
    requires
        rows.len() == values.len(),
        forall|i: int|
            #![trigger rows[i]]
            0 <= i < rows.len() ==> normalized_row(table, values[i], rows.take(i), context) == Ok::<
                NormalizedRowV,
                Seq<char>,
            >(rows[i]),
    ensures
        normalized_rows(table, values, context) == Ok::<Seq<NormalizedRowV>, Seq<char>>(rows),
    decreases values.len(),
{
    if values.len() > 0 {
        let before = values.drop_last();
        let held = rows.drop_last();
        assert forall|i: int|
            #![trigger held[i]]
            0 <= i < held.len() implies normalized_row(
            table,
            before[i],
            held.take(i),
            context,
        ) == Ok::<NormalizedRowV, Seq<char>>(held[i]) by {
            assert(rows[i] == held[i]);
            assert(rows.take(i) =~= held.take(i));
        }
        lemma_rows_are_refused(table, before, context, held);
        let last = rows.len() - 1;
        assert(rows[last] == rows.last());
        assert(rows.take(last) =~= held);
        assert(held.push(rows.last()) =~= rows);
    } else {
        assert(rows =~= Seq::empty());
    }
}

proof fn lemma_store(root: RowV, table: Table, context: ImportContext, rows: Seq<NormalizedRowV>)
    ensures
        store_rows(root, table, context) == Ok::<Seq<NormalizedRowV>, Seq<char>>(rows)
            <==> store_is_read(root, archive_name(table), table, context, rows),
{
    let name = archive_name(table);
    if let Ok(values) = store_values(root, table) {
        lemma_rows_are_read(table, values, context);
        if store_is_read(root, name, table, context, rows) {
            if missing(root, name) {
                assert(rows =~= Seq::empty());
            } else {
                lemma_rows_are_refused(table, values, context, rows);
            }
        }
        if missing(root, name) {
            assert(values =~= Seq::empty());
        }
    }
}

/// The version of an archive is its whole number from one to nineteen, and one where it states
/// none; any other is refused.
pub proof fn law_archive_version(root: RowV)
    ensures
        match archive_version(root) {
            Ok(version) => if missing(root, "schemaVersion"@) {
                version == 1
            } else {
                &&& root["schemaVersion"@] matches JsonV::Num(Number::PosInt(n)) && n == version
                &&& 1 <= version <= 19
            },
            Err(reason) => {
                &&& !missing(root, "schemaVersion"@)
                &&& !(root["schemaVersion"@] matches JsonV::Num(Number::PosInt(n)) && 1 <= n <= 19)
                &&& reason == "schemaVersion must be an integer from 1 through 19"@
            },
        },
{
}

/// An archive that is accepted is marked as one, and each of its stores is read whole under its own
/// name. A value that is no object, and an object without the mark, are refused.
pub proof fn law_archive_is_read(root: RowV, now: i64, other: JsonV)
    ensures
        normalized_archive(JsonV::Obj(root), now) matches Ok(import) ==> {
            let context = ImportContext {
                now,
                schema_version: import.schema_version,
                raw_notes: raw_notes_of(root),
            };
            &&& holds(root, "_syntopicon"@, JsonV::Bool(true))
            &&& archive_version(root) == Ok::<u32, Seq<char>>(import.schema_version)
            &&& store_is_read(root, "books"@, Table::Books, context, import.books)
            &&& store_is_read(root, "notes"@, Table::Notes, context, import.notes)
            &&& store_is_read(root, "customIdeas"@, Table::CustomIdeas, context, import.custom_ideas)
            &&& store_is_read(root, "noteLinks"@, Table::NoteLinks, context, import.note_links)
            &&& store_is_read(root, "lenses"@, Table::Lenses, context, import.lenses)
            &&& store_is_read(root, "collections"@, Table::Collections, context, import.collections)
            &&& store_is_read(
                root,
                "collectionMemberships"@,
                Table::CollectionMemberships,
                context,
                import.collection_memberships,
            )
            &&& store_is_read(root, "noteSignals"@, Table::NoteSignals, context, import.note_signals)
        },
        !holds(root, "_syntopicon"@, JsonV::Bool(true)) ==> normalized_archive(
            JsonV::Obj(root),
            now,
        ) == Err::<NormalizedImportV, Seq<char>>("archive marker must be literal true"@),
        !(other is Obj) ==> normalized_archive(other, now) == Err::<NormalizedImportV, Seq<char>>(
            "archive root must be an object"@,
        ),
{
    if let Ok(import) = normalized_archive(JsonV::Obj(root), now) {
        let context = ImportContext {
            now,
            schema_version: import.schema_version,
            raw_notes: raw_notes_of(root),
        };
        lemma_store(root, Table::Books, context, import.books);
        lemma_store(root, Table::Notes, context, import.notes);
        lemma_store(root, Table::CustomIdeas, context, import.custom_ideas);
        lemma_store(root, Table::NoteLinks, context, import.note_links);
        lemma_store(root, Table::Lenses, context, import.lenses);
        lemma_store(root, Table::Collections, context, import.collections);
        lemma_store(root, Table::CollectionMemberships, context, import.collection_memberships);
        lemma_store(root, Table::NoteSignals, context, import.note_signals);
    }
}

/// A marked archive of a version that can be read is accepted where each of its stores can be read,
/// with exactly those rows.
pub proof fn law_readable_archive_is_accepted(root: RowV, now: i64, import: NormalizedImportV)
    requires
        holds(root, "_syntopicon"@, JsonV::Bool(true)),
        archive_version(root) == Ok::<u32, Seq<char>>(import.schema_version),
        ({
            let context = ImportContext {
                now,
                schema_version: import.schema_version,
                raw_notes: raw_notes_of(root),
            };
            &&& store_is_read(root, "books"@, Table::Books, context, import.books)
            &&& store_is_read(root, "notes"@, Table::Notes, context, import.notes)
            &&& store_is_read(root, "customIdeas"@, Table::CustomIdeas, context, import.custom_ideas)
            &&& store_is_read(root, "noteLinks"@, Table::NoteLinks, context, import.note_links)
            &&& store_is_read(root, "lenses"@, Table::Lenses, context, import.lenses)
            &&& store_is_read(root, "collections"@, Table::Collections, context, import.collections)
            &&& store_is_read(
                root,
                "collectionMemberships"@,
                Table::CollectionMemberships,
                context,
                import.collection_memberships,
            )
            &&& store_is_read(root, "noteSignals"@, Table::NoteSignals, context, import.note_signals)
        }),
    ensures
        normalized_archive(JsonV::Obj(root), now) == Ok::<NormalizedImportV, Seq<char>>(import),
{
    let context = ImportContext {
        now,
        schema_version: import.schema_version,
        raw_notes: raw_notes_of(root),
    };
    lemma_store(root, Table::Books, context, import.books);
    lemma_store(root, Table::Notes, context, import.notes);
    lemma_store(root, Table::CustomIdeas, context, import.custom_ideas);
    lemma_store(root, Table::NoteLinks, context, import.note_links);
    lemma_store(root, Table::Lenses, context, import.lenses);
    lemma_store(root, Table::Collections, context, import.collections);
    lemma_store(root, Table::CollectionMemberships, context, import.collection_memberships);
    lemma_store(root, Table::NoteSignals, context, import.note_signals);
}

/// The source that a signal row's prior comes from is that of the last archived note with its key,
/// where that is a text; the notes are those of the archive as they stand in it.
pub proof fn law_source_of_a_signal_row(notes: Seq<JsonV>, key: Seq<char>, n: int, root: RowV)
    ensures
        (0 <= n < notes.len() && notes[n] is Obj && holds(notes[n]->Obj_0, "id"@, JsonV::Str(key))
            && forall|m: int|
            n < m < notes.len() ==> !((#[trigger] notes[m]) is Obj && holds(
                notes[m]->Obj_0,
                "id"@,
                JsonV::Str(key),
            ))) ==> match raw_source(notes, key) {
            Some(source) => holds(notes[n]->Obj_0, "source"@, JsonV::Str(source)),
            None => !notes[n]->Obj_0.contains_key("source"@)
                || !(notes[n]->Obj_0["source"@] is Str),
        },
        (forall|m: int|
            0 <= m < notes.len() ==> !((#[trigger] notes[m]) is Obj && holds(
                notes[m]->Obj_0,
                "id"@,
                JsonV::Str(key),
            ))) ==> raw_source(notes, key) is None,
        root.contains_key("notes"@) && root["notes"@] is Arr ==> raw_notes_of(root)
            == root["notes"@]->Arr_0,
    decreases notes.len(),
{
    if notes.len() > 0 {
        let before = notes.drop_last();
        let last = notes.len() - 1;
        assert(notes[last] == notes.last());
        law_source_of_a_signal_row(before, key, n, root);
        assert forall|m: int| 0 <= m < last implies #[trigger] before[m] == notes[m] by {}
        if 0 <= n < last && (forall|m: int|
            n < m < notes.len() ==> !((#[trigger] notes[m]) is Obj && holds(
                notes[m]->Obj_0,
                "id"@,
                JsonV::Str(key),
            ))) {
            assert(!(notes[last] is Obj && holds(notes[last]->Obj_0, "id"@, JsonV::Str(key))));
            assert forall|m: int| n < m < before.len() implies !((#[trigger] before[m]) is Obj
                && holds(before[m]->Obj_0, "id"@, JsonV::Str(key))) by {
                assert(notes[m] == before[m]);
            }
        }
        if forall|m: int|
            0 <= m < notes.len() ==> !((#[trigger] notes[m]) is Obj && holds(
                notes[m]->Obj_0,
                "id"@,
                JsonV::Str(key),
            )) {
            assert(!(notes[last] is Obj && holds(notes[last]->Obj_0, "id"@, JsonV::Str(key))));
            assert forall|m: int| 0 <= m < before.len() implies !((#[trigger] before[m]) is Obj
                && holds(before[m]->Obj_0, "id"@, JsonV::Str(key))) by {
                assert(notes[m] == before[m]);
            }
        }
    }
}

} // verus!
