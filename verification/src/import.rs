//! Archive import: a JSON archive becomes rows in the shape of the synced tables.

use crate::json::{
    field, finite_bits, float_json, int_json, is_finite_bits, is_zero_bits, items_view, json_i64,
    json_u64, json_view, lemma_items_view, row_i64, row_text, texts_json, texts_view,
    zero_bits, Fields, Json, JsonV, Number, RowV,
};
use crate::json_text::{float_bits, json_float, parsed_json, read_json};
use crate::tables::{archive_key, archive_name, key_column, Table};
use crate::tags::{current_tags, remap_tags};
use crate::text::same_text;
use crate::types::{import_error, SyncError};
use vstd::prelude::*;

verus! {

/// The newest archive version that can be read.
pub const MAX_SCHEMA_VERSION: u32 = 19;

/// One archive row in table shape, with its key and time.
#[derive(Debug)]
pub struct NormalizedRow {
    pub primary_key: String,
    pub row: Fields,
    pub updated_at: i64,
}

/// An archive in table shape. Signal rows stand without `importance`, which is derived.
#[derive(Debug)]
pub struct NormalizedImport {
    pub schema_version: u32,
    pub books: Vec<NormalizedRow>,
    pub notes: Vec<NormalizedRow>,
    pub custom_ideas: Vec<NormalizedRow>,
    pub note_links: Vec<NormalizedRow>,
    pub lenses: Vec<NormalizedRow>,
    pub collections: Vec<NormalizedRow>,
    pub collection_memberships: Vec<NormalizedRow>,
    pub note_signals: Vec<NormalizedRow>,
}

pub struct NormalizedRowV {
    pub primary_key: Seq<char>,
    pub row: RowV,
    pub updated_at: i64,
}

impl View for NormalizedRow {
    type V = NormalizedRowV;

    open spec fn view(&self) -> NormalizedRowV {
        NormalizedRowV {
            primary_key: self.primary_key@,
            row: self.row@,
            updated_at: self.updated_at,
        }
    }
}

pub open spec fn rows_view(rows: Seq<NormalizedRow>) -> Seq<NormalizedRowV> {
    rows.map_values(|r: NormalizedRow| r@)
}

pub struct NormalizedImportV {
    pub schema_version: u32,
    pub books: Seq<NormalizedRowV>,
    pub notes: Seq<NormalizedRowV>,
    pub custom_ideas: Seq<NormalizedRowV>,
    pub note_links: Seq<NormalizedRowV>,
    pub lenses: Seq<NormalizedRowV>,
    pub collections: Seq<NormalizedRowV>,
    pub collection_memberships: Seq<NormalizedRowV>,
    pub note_signals: Seq<NormalizedRowV>,
}

impl View for NormalizedImport {
    type V = NormalizedImportV;

    open spec fn view(&self) -> NormalizedImportV {
        NormalizedImportV {
            schema_version: self.schema_version,
            books: rows_view(self.books@),
            notes: rows_view(self.notes@),
            custom_ideas: rows_view(self.custom_ideas@),
            note_links: rows_view(self.note_links@),
            lenses: rows_view(self.lenses@),
            collections: rows_view(self.collections@),
            collection_memberships: rows_view(self.collection_memberships@),
            note_signals: rows_view(self.note_signals@),
        }
    }
}

/// An import error.
pub fn invalid(reason: &str) -> (error: SyncError)
    ensures
        import_error(error, reason@),
{
    SyncError::InvalidImport(reason.to_owned())
}

/// A row under construction, or the reason why the archive is refused.
pub type RowOutcome = Result<RowV, Seq<char>>;

/// Whether a step that extends a row did what `want` says.
pub open spec fn stepped(result: Result<(), SyncError>, after: RowV, want: RowOutcome) -> bool {
    match (result, want) {
        (Ok(_), Ok(row)) => after == row,
        (Err(e), Err(reason)) => import_error(e, reason),
        _ => false,
    }
}

/// Whether a built row is what `want` says.
pub open spec fn built(result: Result<Fields, SyncError>, want: RowOutcome) -> bool {
    match (result, want) {
        (Ok(fields), Ok(row)) => fields@ == row,
        (Err(e), Err(reason)) => import_error(e, reason),
        _ => false,
    }
}

/// A text field carried over; absent stays absent.
pub open spec fn then_string(
    row: RowOutcome,
    input: RowV,
    from: Seq<char>,
    to: Seq<char>,
    nullable: bool,
) -> RowOutcome {
    match row {
        Ok(out) => match field(input, from) {
            None => Ok(out),
            Some(JsonV::Str(s)) => Ok(out.insert(to, JsonV::Str(s))),
            Some(JsonV::Null) => if nullable {
                Ok(out.insert(to, JsonV::Null))
            } else {
                Err("known string field has an invalid type"@)
            },
            Some(_) => Err("known string field has an invalid type"@),
        },
        Err(reason) => Err(reason),
    }
}

fn copy_string(
    input: &Fields,
    output: &mut Fields,
    input_field: &str,
    output_field: &str,
    nullable: bool,
) -> (result: Result<(), SyncError>)
    ensures
        stepped(
            result,
            final(output)@,
            then_string(Ok(old(output)@), input@, input_field@, output_field@, nullable),
        ),
{
    match input.get(input_field) {
        None => Ok(()),
        Some(Json::Str(value)) => {
            output.insert(output_field, Json::Str(value.clone()));
            Ok(())
        },
        Some(Json::Null) => if nullable {
            output.insert(output_field, Json::Null);
            Ok(())
        } else {
            Err(invalid("known string field has an invalid type"))
        },
        Some(_) => Err(invalid("known string field has an invalid type")),
    }
}

/// A text field that may be absent or null.
pub open spec fn nullable_text(input: RowV, name: Seq<char>) -> Result<Option<Seq<char>>, Seq<char>> {
    match field(input, name) {
        None => Ok(None),
        Some(JsonV::Null) => Ok(None),
        Some(JsonV::Str(s)) => Ok(Some(s)),
        Some(_) => Err("known string field has an invalid type"@),
    }
}

fn nullable_string<'a>(input: &'a Fields, name: &str) -> (text: Result<Option<&'a String>, SyncError>)
    ensures
        match (text, nullable_text(input@, name@)) {
            (Ok(Some(s)), Ok(Some(want))) => s@ == want,
            (Ok(None), Ok(None)) => true,
            (Err(e), Err(reason)) => import_error(e, reason),
            _ => false,
        },
{
    match input.get(name) {
        None => Ok(None),
        Some(Json::Null) => Ok(None),
        Some(Json::Str(value)) => Ok(Some(value)),
        Some(_) => Err(invalid("known string field has an invalid type")),
    }
}

/// An integer field carried over; absent stays absent.
pub open spec fn then_integer(
    row: RowOutcome,
    input: RowV,
    from: Seq<char>,
    to: Seq<char>,
    nullable: bool,
) -> RowOutcome {
    match row {
        Ok(out) => match field(input, from) {
            None => Ok(out),
            Some(value) => if nullable && value == JsonV::Null {
                Ok(out.insert(to, JsonV::Null))
            } else {
                match json_i64(value) {
                    Some(n) => Ok(out.insert(to, int_json(n))),
                    None => Err("known timestamp or count must be an integer"@),
                }
            },
        },
        Err(reason) => Err(reason),
    }
}

fn copy_integer(
    input: &Fields,
    output: &mut Fields,
    input_field: &str,
    output_field: &str,
    nullable: bool,
) -> (result: Result<(), SyncError>)
    ensures
        stepped(
            result,
            final(output)@,
            then_integer(Ok(old(output)@), input@, input_field@, output_field@, nullable),
        ),
{
    match input.get(input_field) {
        None => Ok(()),
        Some(value) => if nullable && value.is_null() {
            output.insert(output_field, Json::Null);
            Ok(())
        } else {
            match value.as_i64() {
                Some(n) => {
                    output.insert(output_field, Json::integer(n));
                    Ok(())
                },
                None => Err(invalid("known timestamp or count must be an integer")),
            }
        },
    }
}

/// A time field; absent, null and zero mean now.
pub open spec fn timestamp(input: RowV, name: Seq<char>, now: i64) -> Result<i64, Seq<char>> {
    match field(input, name) {
        None => Ok(now),
        Some(JsonV::Null) => Ok(now),
        Some(value) => match json_i64(value) {
            Some(n) => Ok(
                if n == 0 {
                    now
                } else {
                    n
                },
            ),
            None => Err("known timestamp or count must be an integer"@),
        },
    }
}

pub open spec fn then_timestamp(
    row: RowOutcome,
    input: RowV,
    from: Seq<char>,
    to: Seq<char>,
    now: i64,
) -> RowOutcome {
    match row {
        Ok(out) => match timestamp(input, from, now) {
            Ok(n) => Ok(out.insert(to, int_json(n))),
            Err(reason) => Err(reason),
        },
        Err(reason) => Err(reason),
    }
}

fn copy_timestamp(
    input: &Fields,
    output: &mut Fields,
    input_field: &str,
    output_field: &str,
    now: i64,
) -> (result: Result<(), SyncError>)
    ensures
        stepped(
            result,
            final(output)@,
            then_timestamp(Ok(old(output)@), input@, input_field@, output_field@, now),
        ),
{
    match defaulted_timestamp(input, input_field, now) {
        Ok(n) => {
            output.insert(output_field, Json::integer(n));
            Ok(())
        },
        Err(e) => Err(e),
    }
}

fn defaulted_timestamp(input: &Fields, name: &str, now: i64) -> (n: Result<i64, SyncError>)
    ensures
        match (n, timestamp(input@, name@, now)) {
            (Ok(n), Ok(want)) => n == want,
            (Err(e), Err(reason)) => import_error(e, reason),
            _ => false,
        },
{
    match input.get(name) {
        None => Ok(now),
        Some(Json::Null) => Ok(now),
        Some(value) => match value.as_i64() {
            Some(n) => if n == 0 {
                Ok(now)
            } else {
                Ok(n)
            },
            None => Err(invalid("known timestamp or count must be an integer")),
        },
    }
}

/// An integer field with a default for absent and null.
pub open spec fn integer_or(input: RowV, name: Seq<char>, default: i64) -> Result<i64, Seq<char>> {
    match field(input, name) {
        None => Ok(default),
        Some(JsonV::Null) => Ok(default),
        Some(value) => match json_i64(value) {
            Some(n) => Ok(n),
            None => Err("known timestamp or count must be an integer"@),
        },
    }
}

fn nullish_integer(input: &Fields, name: &str, default: i64) -> (n: Result<i64, SyncError>)
    ensures
        match (n, integer_or(input@, name@, default)) {
            (Ok(n), Ok(want)) => n == want,
            (Err(e), Err(reason)) => import_error(e, reason),
            _ => false,
        },
{
    match input.get(name) {
        None => Ok(default),
        Some(Json::Null) => Ok(default),
        Some(value) => match value.as_i64() {
            Some(n) => Ok(n),
            None => Err(invalid("known timestamp or count must be an integer")),
        },
    }
}

/// The bits of a finite number.
pub open spec fn finite_float(value: JsonV) -> Result<u64, Seq<char>> {
    match json_float(value) {
        Some(bits) => if finite_bits(bits) {
            Ok(bits)
        } else {
            Err("known signal float must be a finite JSON number"@)
        },
        None => Err("known signal float must be a finite JSON number"@),
    }
}

fn finite_number(value: &Json) -> (bits: Result<u64, SyncError>)
    ensures
        match (bits, finite_float(value@)) {
            (Ok(b), Ok(want)) => b == want,
            (Err(e), Err(reason)) => import_error(e, reason),
            _ => false,
        },
{
    match float_bits(value) {
        Some(bits) => if is_finite_bits(bits) {
            Ok(bits)
        } else {
            Err(invalid("known signal float must be a finite JSON number"))
        },
        None => Err(invalid("known signal float must be a finite JSON number")),
    }
}

/// Whether every item is a text.
pub open spec fn all_texts(items: Seq<JsonV>) -> bool {
    forall|i: int| 0 <= i < items.len() ==> (#[trigger] items[i]) is Str
}

/// The texts of an array of texts.
pub open spec fn text_items(value: JsonV) -> Result<Seq<Seq<char>>, Seq<char>> {
    match value {
        JsonV::Arr(items) => if all_texts(items) {
            Ok(items.map_values(|v: JsonV| v->Str_0))
        } else {
            Err("known string-array field contains a non-string"@)
        },
        _ => Err("known string-array field must be an array"@),
    }
}

fn string_array(value: &Json) -> (texts: Result<Vec<String>, SyncError>)
    ensures
        match (texts, text_items(value@)) {
            (Ok(t), Ok(want)) => texts_view(t@) == want,
            (Err(e), Err(reason)) => import_error(e, reason),
            _ => false,
        },
{
    match value.as_array() {
        None => Err(invalid("known string-array field must be an array")),
        Some(items) => {
            let ghost all = items_view(items@);
            proof {
                lemma_items_view(items@);
            }
            let mut out: Vec<String> = Vec::new();
            let mut i: usize = 0;
            while i < items.len()
                invariant
                    i <= items@.len(),
                    out@.len() == i,
                    all == items_view(items@),
                    all.len() == items@.len(),
                    value@ == JsonV::Arr(all),
                    forall|j: int| 0 <= j < all.len() ==> #[trigger] all[j] == json_view(items@[j]),
                    forall|j: int| 0 <= j < i ==> #[trigger] all[j] == JsonV::Str(out@[j]@),
                decreases items.len() - i,
            {
                match items[i].as_str() {
                    Some(s) => {
                        assert(all[i as int] == JsonV::Str(s@));
                        out.push(s.clone());
                    },
                    None => {
                        assert(!(all[i as int] is Str));
                        return Err(invalid("known string-array field contains a non-string"));
                    },
                }
                i = i + 1;
            }
            assert(texts_view(out@) =~= all.map_values(|v: JsonV| v->Str_0));
            Ok(out)
        },
    }
}

/// The binary64 bits of 0.9.
pub const PRIOR_HANDWRITTEN: u64 = 0x3fec_cccc_cccc_cccd;

/// The binary64 bits of 0.75.
pub const PRIOR_SHARE: u64 = 0x3fe8_0000_0000_0000;

/// The binary64 bits of 0.7.
pub const PRIOR_MANUAL: u64 = 0x3fe6_6666_6666_6666;

/// The binary64 bits of 0.6.
pub const PRIOR_IMAGE: u64 = 0x3fe3_3333_3333_3333;

/// The binary64 bits of 0.5.
pub const PRIOR_FALLBACK: u64 = 0x3fe0_0000_0000_0000;

/// How much a note's source alone says for it, as binary64 bits.
pub open spec fn prior_of(source: Option<Seq<char>>) -> u64 {
    match source {
        Some(s) => if s == "handwritten"@ || s == "readwise_annotation"@ {
            PRIOR_HANDWRITTEN
        } else if s == "share"@ {
            PRIOR_SHARE
        } else if s == "manual"@ {
            PRIOR_MANUAL
        } else if s == "image"@ {
            PRIOR_IMAGE
        } else {
            PRIOR_FALLBACK
        },
        None => PRIOR_FALLBACK,
    }
}

pub open spec fn opt_text(text: Option<&String>) -> Option<Seq<char>> {
    match text {
        Some(s) => Some(s@),
        None => None,
    }
}

/// How much a note's source alone says for it, as binary64 bits.
pub fn source_prior(source: Option<&String>) -> (bits: u64)
    ensures
        bits == prior_of(opt_text(source)),
        finite_bits(bits),
{
    match source {
        Some(s) => {
            let s = s.as_str();
            if same_text(s, "handwritten") || same_text(s, "readwise_annotation") {
                PRIOR_HANDWRITTEN
            } else if same_text(s, "share") {
                PRIOR_SHARE
            } else if same_text(s, "manual") {
                PRIOR_MANUAL
            } else if same_text(s, "image") {
                PRIOR_IMAGE
            } else {
                PRIOR_FALLBACK
            }
        },
        None => PRIOR_FALLBACK,
    }
}

/// A book's columns.
pub open spec fn book_columns(input: RowV, now: i64) -> RowOutcome {
    let row = then_string(Ok(Map::empty()), input, "title"@, "title"@, false);
    let row = then_string(row, input, "author"@, "author"@, true);
    let row = then_string(row, input, "isbn"@, "isbn"@, true);
    let row = then_string(row, input, "coverUrl"@, "cover_url"@, true);
    let row = then_string(row, input, "coverSource"@, "cover_source"@, true);
    let row = then_integer(row, input, "coverResolvedAt"@, "cover_resolved_at"@, true);
    let row = then_integer(row, input, "createdAt"@, "created_at"@, false);
    then_timestamp(row, input, "updatedAt"@, "updated_at"@, now)
}

fn normalize_book(input: &Fields, now: i64) -> (row: Result<Fields, SyncError>)
    ensures
        built(row, book_columns(input@, now)),
{
    let mut output = Fields::new();
    if let Err(e) = copy_string(input, &mut output, "title", "title", false) {
        return Err(e);
    }
    if let Err(e) = copy_string(input, &mut output, "author", "author", true) {
        return Err(e);
    }
    if let Err(e) = copy_string(input, &mut output, "isbn", "isbn", true) {
        return Err(e);
    }
    if let Err(e) = copy_string(input, &mut output, "coverUrl", "cover_url", true) {
        return Err(e);
    }
    if let Err(e) = copy_string(input, &mut output, "coverSource", "cover_source", true) {
        return Err(e);
    }
    if let Err(e) = copy_integer(input, &mut output, "coverResolvedAt", "cover_resolved_at", true) {
        return Err(e);
    }
    if let Err(e) = copy_integer(input, &mut output, "createdAt", "created_at", false) {
        return Err(e);
    }
    if let Err(e) = copy_timestamp(input, &mut output, "updatedAt", "updated_at", now) {
        return Err(e);
    }
    Ok(output)
}

/// The columns of a note that are carried over as they are.
pub open spec fn note_carried(input: RowV) -> RowOutcome {
    let row = then_string(Ok(Map::empty()), input, "bookId"@, "book_id"@, true);
    let row = then_string(row, input, "text"@, "text"@, true);
    let row = then_string(row, input, "page"@, "page"@, true);
    let row = then_string(row, input, "imagePath"@, "image_path"@, true);
    let row = then_string(row, input, "inkCropPath"@, "ink_crop_path"@, true);
    let row = then_string(row, input, "sourceId"@, "source_id"@, true);
    then_integer(row, input, "createdAt"@, "created_at"@, false)
}

/// A note's source; one without a source was written by hand in the app.
pub open spec fn note_source(input: RowV) -> Result<Seq<char>, Seq<char>> {
    match nullable_text(input, "contentTag"@) {
        Err(reason) => Err(reason),
        Ok(_) => match nullable_text(input, "source"@) {
            Err(reason) => Err(reason),
            Ok(Some(s)) => Ok(s),
            Ok(None) => Ok("manual"@),
        },
    }
}

/// A note's source metadata; absent and null mean none.
pub open spec fn note_meta(input: RowV) -> Result<RowV, Seq<char>> {
    match field(input, "sourceMeta"@) {
        None => Ok(Map::empty()),
        Some(JsonV::Null) => Ok(Map::empty()),
        Some(JsonV::Obj(meta)) => Ok(meta),
        Some(_) => Err("sourceMeta must be an object"@),
    }
}

/// An array of texts; absent and null mean none.
pub open spec fn texts_or_none(input: RowV, name: Seq<char>) -> Result<Seq<Seq<char>>, Seq<char>> {
    match field(input, name) {
        None => Ok(Seq::empty()),
        Some(JsonV::Null) => Ok(Seq::empty()),
        Some(value) => text_items(value),
    }
}

/// A row with its `source_id` null where the archive has none.
pub open spec fn with_source_id(row: RowV, input: RowV) -> RowV {
    match field(input, "sourceId"@) {
        None => row.insert("source_id"@, JsonV::Null),
        Some(JsonV::Null) => row.insert("source_id"@, JsonV::Null),
        Some(_) => row,
    }
}

pub open spec fn text_or_null(text: Option<Seq<char>>) -> JsonV {
    match text {
        Some(s) => JsonV::Str(s),
        None => JsonV::Null,
    }
}

/// A note's columns.
pub open spec fn note_columns(input: RowV, now: i64, schema_version: u32) -> RowOutcome {
    match note_carried(input) {
        Err(reason) => Err(reason),
        Ok(row) => match note_source(input) {
            Err(reason) => Err(reason),
            Ok(source) => {
                let row = with_source_id(row.insert("source"@, JsonV::Str(source)), input);
                match nullable_text(input, "chapter"@) {
                    Err(reason) => Err(reason),
                    Ok(chapter) => match note_meta(input) {
                        Err(reason) => Err(reason),
                        Ok(meta) => match texts_or_none(input, "tags"@) {
                            Err(reason) => Err(reason),
                            Ok(tags) => {
                                let row = row.insert("chapter"@, text_or_null(chapter)).insert(
                                    "source_meta"@,
                                    JsonV::Obj(meta),
                                ).insert("tags"@, texts_json(current_tags(tags, schema_version)));
                                then_timestamp(Ok(row), input, "updatedAt"@, "updated_at"@, now)
                            },
                        },
                    },
                }
            },
        },
    }
}

fn carry_note(input: &Fields, output: &mut Fields) -> (result: Result<(), SyncError>)
    requires
        old(output)@ == Map::<Seq<char>, JsonV>::empty(),
    ensures
        stepped(result, final(output)@, note_carried(input@)),
{
    if let Err(e) = copy_string(input, output, "bookId", "book_id", true) {
        return Err(e);
    }
    if let Err(e) = copy_string(input, output, "text", "text", true) {
        return Err(e);
    }
    if let Err(e) = copy_string(input, output, "page", "page", true) {
        return Err(e);
    }
    if let Err(e) = copy_string(input, output, "imagePath", "image_path", true) {
        return Err(e);
    }
    if let Err(e) = copy_string(input, output, "inkCropPath", "ink_crop_path", true) {
        return Err(e);
    }
    if let Err(e) = copy_string(input, output, "sourceId", "source_id", true) {
        return Err(e);
    }
    copy_integer(input, output, "createdAt", "created_at", false)
}

fn read_texts(input: &Fields, name: &str) -> (texts: Result<Vec<String>, SyncError>)
    ensures
        match (texts, texts_or_none(input@, name@)) {
            (Ok(t), Ok(want)) => texts_view(t@) == want,
            (Err(e), Err(reason)) => import_error(e, reason),
            _ => false,
        },
{
    match input.get(name) {
        None => {
            let none: Vec<String> = Vec::new();
            assert(texts_view(none@) =~= Seq::empty());
            Ok(none)
        },
        Some(Json::Null) => {
            let none: Vec<String> = Vec::new();
            assert(texts_view(none@) =~= Seq::empty());
            Ok(none)
        },
        Some(value) => string_array(value),
    }
}

fn normalize_note(input: &Fields, now: i64, schema_version: u32) -> (row: Result<
    Fields,
    SyncError,
>)
    ensures
        built(row, note_columns(input@, now, schema_version)),
{
    let mut output = Fields::new();
    if let Err(e) = carry_note(input, &mut output) {
        return Err(e);
    }
    if let Err(e) = nullable_string(input, "contentTag") {
        return Err(e);
    }
    match nullable_string(input, "source") {
        Err(e) => {
            return Err(e);
        },
        Ok(Some(s)) => output.insert("source", Json::Str(s.clone())),
        Ok(None) => output.insert("source", Json::text("manual")),
    }
    let no_source_id = match input.get("sourceId") {
        None => true,
        Some(value) => value.is_null(),
    };
    if no_source_id {
        output.insert("source_id", Json::Null);
    }
    let chapter = match nullable_string(input, "chapter") {
        Err(e) => {
            return Err(e);
        },
        Ok(Some(s)) => Json::Str(s.clone()),
        Ok(None) => Json::Null,
    };
    output.insert("chapter", chapter);
    let meta = match input.get("sourceMeta") {
        None => Fields::new(),
        Some(Json::Null) => Fields::new(),
        Some(Json::Obj(meta)) => meta.copy(),
        Some(_) => {
            return Err(invalid("sourceMeta must be an object"));
        },
    };
    output.insert("source_meta", Json::Obj(meta));
    let tags = match read_texts(input, "tags") {
        Ok(tags) => tags,
        Err(e) => {
            return Err(e);
        },
    };
    let tags = remap_tags(tags, schema_version);
    output.insert("tags", Json::texts(&tags));
    if let Err(e) = copy_timestamp(input, &mut output, "updatedAt", "updated_at", now) {
        return Err(e);
    }
    Ok(output)
}

/// A custom idea's columns.
pub open spec fn custom_idea_columns(input: RowV, now: i64) -> RowOutcome {
    let row = then_string(Ok(Map::empty()), input, "name"@, "name"@, false);
    let row = then_string(row, input, "description"@, "description"@, true);
    let row = then_integer(row, input, "createdAt"@, "created_at"@, false);
    then_timestamp(row, input, "updatedAt"@, "updated_at"@, now)
}

fn normalize_custom_idea(input: &Fields, now: i64) -> (row: Result<Fields, SyncError>)
    ensures
        built(row, custom_idea_columns(input@, now)),
{
    let mut output = Fields::new();
    if let Err(e) = copy_string(input, &mut output, "name", "name", false) {
        return Err(e);
    }
    if let Err(e) = copy_string(input, &mut output, "description", "description", true) {
        return Err(e);
    }
    if let Err(e) = copy_integer(input, &mut output, "createdAt", "created_at", false) {
        return Err(e);
    }
    if let Err(e) = copy_timestamp(input, &mut output, "updatedAt", "updated_at", now) {
        return Err(e);
    }
    Ok(output)
}

/// The relation of an edge that margins hang on.
pub open spec fn handwritten_annotation() -> Seq<char> {
    "handwritten_annotation"@
}

/// A text field where absent, null and empty mean a default.
pub open spec fn then_text_or(
    row: RowOutcome,
    input: RowV,
    from: Seq<char>,
    to: Seq<char>,
    default: Seq<char>,
) -> RowOutcome {
    match row {
        Ok(out) => match nullable_text(input, from) {
            Err(reason) => Err(reason),
            Ok(Some(s)) => Ok(
                out.insert(
                    to,
                    JsonV::Str(
                        if s.len() == 0 {
                            default
                        } else {
                            s
                        },
                    ),
                ),
            ),
            Ok(None) => Ok(out.insert(to, JsonV::Str(default))),
        },
        Err(reason) => Err(reason),
    }
}

fn copy_text_or(
    input: &Fields,
    output: &mut Fields,
    input_field: &str,
    output_field: &str,
    default: &str,
) -> (result: Result<(), SyncError>)
    ensures
        stepped(
            result,
            final(output)@,
            then_text_or(Ok(old(output)@), input@, input_field@, output_field@, default@),
        ),
{
    match nullable_string(input, input_field) {
        Err(e) => Err(e),
        Ok(Some(s)) => {
            if s.as_str().is_empty() {
                output.insert(output_field, Json::text(default));
            } else {
                output.insert(output_field, Json::Str(s.clone()));
            }
            Ok(())
        },
        Ok(None) => {
            output.insert(output_field, Json::text(default));
            Ok(())
        },
    }
}

/// An edge's columns.
pub open spec fn note_link_columns(input: RowV, now: i64) -> RowOutcome {
    let row = then_string(Ok(Map::empty()), input, "fromNoteId"@, "from_note_id"@, false);
    let row = then_string(row, input, "toNoteId"@, "to_note_id"@, false);
    let row = then_text_or(
        row,
        input,
        "relationType"@,
        "relation_type"@,
        handwritten_annotation(),
    );
    let row = then_timestamp(row, input, "createdAt"@, "created_at"@, now);
    then_timestamp(row, input, "updatedAt"@, "updated_at"@, now)
}

fn normalize_note_link(input: &Fields, now: i64) -> (row: Result<Fields, SyncError>)
    ensures
        built(row, note_link_columns(input@, now)),
{
    let mut output = Fields::new();
    if let Err(e) = copy_string(input, &mut output, "fromNoteId", "from_note_id", false) {
        return Err(e);
    }
    if let Err(e) = copy_string(input, &mut output, "toNoteId", "to_note_id", false) {
        return Err(e);
    }
    if let Err(e) = copy_text_or(
        input,
        &mut output,
        "relationType",
        "relation_type",
        "handwritten_annotation",
    ) {
        return Err(e);
    }
    if let Err(e) = copy_timestamp(input, &mut output, "createdAt", "created_at", now) {
        return Err(e);
    }
    if let Err(e) = copy_timestamp(input, &mut output, "updatedAt", "updated_at", now) {
        return Err(e);
    }
    Ok(output)
}

/// A lens's columns.
pub open spec fn lens_columns(input: RowV, now: i64) -> RowOutcome {
    match then_string(Ok(Map::empty()), input, "name"@, "name"@, false) {
        Err(reason) => Err(reason),
        Ok(row) => match texts_or_none(input, "leafIds"@) {
            Err(reason) => Err(reason),
            Ok(leaves) => {
                let row = row.insert("leaf_ids"@, texts_json(leaves));
                match then_text_or(Ok(row), input, "combinator"@, "combinator"@, "AND"@) {
                    Err(reason) => Err(reason),
                    Ok(row) => match integer_or(input, "threshold"@, 100) {
                        Err(reason) => Err(reason),
                        Ok(threshold) => {
                            let row = then_timestamp(
                                Ok(row.insert("threshold"@, int_json(threshold))),
                                input,
                                "createdAt"@,
                                "created_at"@,
                                now,
                            );
                            then_timestamp(row, input, "updatedAt"@, "updated_at"@, now)
                        },
                    },
                }
            },
        },
    }
}

fn normalize_lens(input: &Fields, now: i64) -> (row: Result<Fields, SyncError>)
    ensures
        built(row, lens_columns(input@, now)),
{
    let mut output = Fields::new();
    if let Err(e) = copy_string(input, &mut output, "name", "name", false) {
        return Err(e);
    }
    match read_texts(input, "leafIds") {
        Ok(leaves) => output.insert("leaf_ids", Json::texts(&leaves)),
        Err(e) => {
            return Err(e);
        },
    }
    if let Err(e) = copy_text_or(input, &mut output, "combinator", "combinator", "AND") {
        return Err(e);
    }
    match nullish_integer(input, "threshold", 100) {
        Ok(threshold) => output.insert("threshold", Json::integer(threshold)),
        Err(e) => {
            return Err(e);
        },
    }
    if let Err(e) = copy_timestamp(input, &mut output, "createdAt", "created_at", now) {
        return Err(e);
    }
    if let Err(e) = copy_timestamp(input, &mut output, "updatedAt", "updated_at", now) {
        return Err(e);
    }
    Ok(output)
}

/// A collection's columns.
pub open spec fn collection_columns(input: RowV, now: i64) -> RowOutcome {
    let row = then_string(Ok(Map::empty()), input, "name"@, "name"@, false);
    let row = then_timestamp(row, input, "createdAt"@, "created_at"@, now);
    then_timestamp(row, input, "updatedAt"@, "updated_at"@, now)
}

fn normalize_collection(input: &Fields, now: i64) -> (row: Result<Fields, SyncError>)
    ensures
        built(row, collection_columns(input@, now)),
{
    let mut output = Fields::new();
    if let Err(e) = copy_string(input, &mut output, "name", "name", false) {
        return Err(e);
    }
    if let Err(e) = copy_timestamp(input, &mut output, "createdAt", "created_at", now) {
        return Err(e);
    }
    if let Err(e) = copy_timestamp(input, &mut output, "updatedAt", "updated_at", now) {
        return Err(e);
    }
    Ok(output)
}

/// A membership's columns.
pub open spec fn membership_columns(input: RowV, now: i64) -> RowOutcome {
    let row = then_string(Ok(Map::empty()), input, "noteId"@, "note_id"@, false);
    let row = then_string(row, input, "collectionId"@, "collection_id"@, false);
    let row = then_timestamp(row, input, "createdAt"@, "created_at"@, now);
    then_timestamp(row, input, "updatedAt"@, "updated_at"@, now)
}

fn normalize_membership(input: &Fields, now: i64) -> (row: Result<Fields, SyncError>)
    ensures
        built(row, membership_columns(input@, now)),
{
    let mut output = Fields::new();
    if let Err(e) = copy_string(input, &mut output, "noteId", "note_id", false) {
        return Err(e);
    }
    if let Err(e) = copy_string(input, &mut output, "collectionId", "collection_id", false) {
        return Err(e);
    }
    if let Err(e) = copy_timestamp(input, &mut output, "createdAt", "created_at", now) {
        return Err(e);
    }
    if let Err(e) = copy_timestamp(input, &mut output, "updatedAt", "updated_at", now) {
        return Err(e);
    }
    Ok(output)
}

/// What a note's score is computed from. The prior stands as binary64 bits.
#[derive(Debug, Clone, Copy, PartialEq, Eq, Structural)]
pub struct ScoreInputs {
    pub source_prior: u64,
    pub return_visits: i64,
    pub has_annotation: bool,
    pub stitch_spawns: i64,
}

/// The score inputs and the two recency stamps of a signal row.
pub struct SignalFacts {
    pub inputs: ScoreInputs,
    pub exposure_recency_at: i64,
    pub engagement_recency_at: i64,
}

pub open spec fn signal_flag(input: RowV) -> Result<bool, Seq<char>> {
    match field(input, "hasAnnotation"@) {
        None => Ok(false),
        Some(JsonV::Null) => Ok(false),
        Some(JsonV::Bool(b)) => Ok(b),
        Some(_) => Err("hasAnnotation must be a boolean"@),
    }
}

pub open spec fn signal_prior(input: RowV, raw_source: Option<Seq<char>>) -> Result<u64, Seq<char>> {
    match field(input, "sourcePrior"@) {
        None => Ok(prior_of(raw_source)),
        Some(JsonV::Null) => Ok(prior_of(raw_source)),
        Some(value) => finite_float(value),
    }
}

/// An archived score is checked, never used.
pub open spec fn importance_checked(input: RowV) -> Result<(), Seq<char>> {
    match field(input, "importance"@) {
        None => Ok(()),
        Some(JsonV::Null) => Ok(()),
        Some(value) => match finite_float(value) {
            Ok(_) => Ok(()),
            Err(reason) => Err(reason),
        },
    }
}

/// What an archived signal row says, in the order in which it is checked.
pub open spec fn signal_facts(input: RowV, raw_source: Option<Seq<char>>) -> Result<
    SignalFacts,
    Seq<char>,
> {
    match signal_prior(input, raw_source) {
        Err(reason) => Err(reason),
        Ok(source_prior) => match integer_or(input, "returnVisits"@, 0) {
            Err(reason) => Err(reason),
            Ok(return_visits) => match integer_or(input, "stitchSpawns"@, 0) {
                Err(reason) => Err(reason),
                Ok(stitch_spawns) => match signal_flag(input) {
                    Err(reason) => Err(reason),
                    Ok(has_annotation) => match integer_or(input, "exposureRecencyAt"@, 0) {
                        Err(reason) => Err(reason),
                        Ok(exposure_recency_at) => match integer_or(
                            input,
                            "engagementRecencyAt"@,
                            0,
                        ) {
                            Err(reason) => Err(reason),
                            Ok(engagement_recency_at) => match importance_checked(input) {
                                Err(reason) => Err(reason),
                                Ok(_) => Ok(
                                    SignalFacts {
                                        inputs: ScoreInputs {
                                            source_prior,
                                            return_visits,
                                            has_annotation,
                                            stitch_spawns,
                                        },
                                        exposure_recency_at,
                                        engagement_recency_at,
                                    },
                                ),
                            },
                        },
                    },
                },
            },
        },
    }
}

/// A signal row's columns but for its score.
pub open spec fn note_signal_columns(input: RowV, now: i64, raw_source: Option<Seq<char>>) -> RowOutcome {
    match signal_facts(input, raw_source) {
        Err(reason) => Err(reason),
        Ok(facts) => {
            let row = Map::<Seq<char>, JsonV>::empty().insert(
                "source_prior"@,
                float_json(facts.inputs.source_prior),
            ).insert("return_visits"@, int_json(facts.inputs.return_visits)).insert(
                "has_annotation"@,
                JsonV::Bool(facts.inputs.has_annotation),
            ).insert("stitch_spawns"@, int_json(facts.inputs.stitch_spawns)).insert(
                "exposure_recency_at"@,
                int_json(facts.exposure_recency_at),
            ).insert("engagement_recency_at"@, int_json(facts.engagement_recency_at));
            let row = then_timestamp(Ok(row), input, "createdAt"@, "created_at"@, now);
            then_timestamp(row, input, "updatedAt"@, "updated_at"@, now)
        },
    }
}

fn read_signal(input: &Fields, raw_source: Option<&String>) -> (facts: Result<
    SignalFacts,
    SyncError,
>)
    ensures
        match (facts, signal_facts(input@, opt_text(raw_source))) {
            (Ok(f), Ok(want)) => f == want,
            (Err(e), Err(reason)) => import_error(e, reason),
            _ => false,
        },
{
    let prior = match input.get("sourcePrior") {
        None => source_prior(raw_source),
        Some(Json::Null) => source_prior(raw_source),
        Some(value) => match finite_number(value) {
            Ok(bits) => bits,
            Err(e) => {
                return Err(e);
            },
        },
    };
    let return_visits = match nullish_integer(input, "returnVisits", 0) {
        Ok(n) => n,
        Err(e) => {
            return Err(e);
        },
    };
    let stitch_spawns = match nullish_integer(input, "stitchSpawns", 0) {
        Ok(n) => n,
        Err(e) => {
            return Err(e);
        },
    };
    let has_annotation = match input.get("hasAnnotation") {
        None => false,
        Some(Json::Null) => false,
        Some(Json::Bool(b)) => *b,
        Some(_) => {
            return Err(invalid("hasAnnotation must be a boolean"));
        },
    };
    let exposure_recency_at = match nullish_integer(input, "exposureRecencyAt", 0) {
        Ok(n) => n,
        Err(e) => {
            return Err(e);
        },
    };
    let engagement_recency_at = match nullish_integer(input, "engagementRecencyAt", 0) {
        Ok(n) => n,
        Err(e) => {
            return Err(e);
        },
    };
    if let Some(value) = input.get("importance") {
        if !value.is_null() {
            if let Err(e) = finite_number(value) {
                return Err(e);
            }
        }
    }
    Ok(
        SignalFacts {
            inputs: ScoreInputs {
                source_prior: prior,
                return_visits,
                has_annotation,
                stitch_spawns,
            },
            exposure_recency_at,
            engagement_recency_at,
        },
    )
}

fn normalize_note_signal(input: &Fields, now: i64, raw_note_source: Option<&String>) -> (row: Result<
    Fields,
    SyncError,
>)
    ensures
        built(row, note_signal_columns(input@, now, opt_text(raw_note_source))),
{
    let facts = match read_signal(input, raw_note_source) {
        Ok(facts) => facts,
        Err(e) => {
            return Err(e);
        },
    };
    let mut output = Fields::new();
    output.insert("source_prior", Json::float(facts.inputs.source_prior));
    output.insert("return_visits", Json::integer(facts.inputs.return_visits));
    output.insert("has_annotation", Json::Bool(facts.inputs.has_annotation));
    output.insert("stitch_spawns", Json::integer(facts.inputs.stitch_spawns));
    output.insert("exposure_recency_at", Json::integer(facts.exposure_recency_at));
    output.insert("engagement_recency_at", Json::integer(facts.engagement_recency_at));
    if let Err(e) = copy_timestamp(input, &mut output, "createdAt", "created_at", now) {
        return Err(e);
    }
    if let Err(e) = copy_timestamp(input, &mut output, "updatedAt", "updated_at", now) {
        return Err(e);
    }
    Ok(output)
}

/// Whether an archive row's `deleted` field marks it live: absent, null, false or zero.
pub open spec fn marked_live(input: RowV) -> bool {
    match field(input, "deleted"@) {
        None => true,
        Some(JsonV::Null) => true,
        Some(JsonV::Bool(b)) => !b,
        Some(JsonV::Num(Number::PosInt(n))) => n == 0,
        Some(JsonV::Num(Number::NegInt(n))) => n == 0,
        Some(JsonV::Num(Number::Float(bits))) => zero_bits(bits),
        Some(_) => false,
    }
}

fn validate_deleted(input: &Fields) -> (result: Result<(), SyncError>)
    ensures
        match result {
            Ok(_) => marked_live(input@),
            Err(e) => !marked_live(input@) && import_error(
                e,
                "deleted must identify a live archive row"@,
            ),
        },
{
    let live = match input.get("deleted") {
        None => true,
        Some(Json::Null) => true,
        Some(Json::Bool(b)) => !*b,
        Some(Json::Num(Number::PosInt(n))) => *n == 0,
        Some(Json::Num(Number::NegInt(n))) => *n == 0,
        Some(Json::Num(Number::Float(bits))) => is_zero_bits(*bits),
        Some(_) => false,
    };
    if live {
        Ok(())
    } else {
        Err(invalid("deleted must identify a live archive row"))
    }
}

/// The source that an archive's note rows give for a note.
pub open spec fn raw_source(notes: Seq<JsonV>, note_id: Seq<char>) -> Option<Seq<char>>
    decreases notes.len(),
{
    if notes.len() == 0 {
        None
    } else {
        match notes.last() {
            JsonV::Obj(note) => if row_text(note, "id"@) == Some(note_id) {
                row_text(note, "source"@)
            } else {
                raw_source(notes.drop_last(), note_id)
            },
            _ => raw_source(notes.drop_last(), note_id),
        }
    }
}

fn find_raw_source<'a>(notes: &'a Vec<Json>, note_id: &str) -> (source: Option<&'a String>)
    ensures
        opt_text(source) == raw_source(items_view(notes@), note_id@),
{
    let ghost all = items_view(notes@);
    proof {
        lemma_items_view(notes@);
        assert(all.take(all.len() as int) =~= all);
    }
    let mut i: usize = notes.len();
    while i > 0
        invariant
            i <= notes@.len(),
            all == items_view(notes@),
            all.len() == notes@.len(),
            forall|j: int| 0 <= j < all.len() ==> #[trigger] all[j] == json_view(notes@[j]),
            raw_source(all, note_id@) == raw_source(all.take(i as int), note_id@),
        decreases i,
    {
        proof {
            assert(all.take(i as int).last() == all[i - 1]);
            assert(all.take(i as int).drop_last() =~= all.take(i - 1));
        }
        i = i - 1;
        if let Json::Obj(note) = &notes[i] {
            if let Some(id) = note.get_text("id") {
                if same_text(id.as_str(), note_id) {
                    return note.get_text("source");
                }
            }
        }
    }
    None
}

/// What the rows of an archive are read against.
pub struct ImportContext {
    pub now: i64,
    pub schema_version: u32,
    pub raw_notes: Seq<JsonV>,
}

/// The columns of one archive row.
pub open spec fn table_columns(
    table: Table,
    input: RowV,
    key: Seq<char>,
    context: ImportContext,
) -> RowOutcome {
    match table {
        Table::Books => book_columns(input, context.now),
        Table::Notes => note_columns(input, context.now, context.schema_version),
        Table::CustomIdeas => custom_idea_columns(input, context.now),
        Table::NoteLinks => note_link_columns(input, context.now),
        Table::Lenses => lens_columns(input, context.now),
        Table::Collections => collection_columns(input, context.now),
        Table::CollectionMemberships => membership_columns(input, context.now),
        Table::NoteSignals => note_signal_columns(
            input,
            context.now,
            raw_source(context.raw_notes, key),
        ),
    }
}

pub open spec fn key_seen(rows: Seq<NormalizedRowV>, key: Seq<char>) -> bool {
    exists|i: int| 0 <= i < rows.len() && (#[trigger] rows[i]).primary_key == key
}

/// A finished row: its columns, its key, and live.
pub open spec fn finished_row(table: Table, key: Seq<char>, columns: RowV) -> NormalizedRowV {
    let row = columns.insert(key_column(table), JsonV::Str(key)).insert(
        "deleted"@,
        JsonV::Bool(false),
    );
    NormalizedRowV {
        primary_key: key,
        row,
        updated_at: match row_i64(row, "updated_at"@) {
            Some(n) => n,
            None => 0,
        },
    }
}

/// One archive row in table shape, given the rows before it.
pub open spec fn normalized_row(
    table: Table,
    value: JsonV,
    seen: Seq<NormalizedRowV>,
    context: ImportContext,
) -> Result<NormalizedRowV, Seq<char>> {
    match value {
        JsonV::Obj(input) => if !marked_live(input) {
            Err("deleted must identify a live archive row"@)
        } else {
            match row_text(input, archive_key(table)) {
                Some(key) => if key.len() == 0 {
                    Err("archive row primary key must be a non-empty string"@)
                } else if key_seen(seen, key) {
                    Err("archive store contains a duplicate primary key"@)
                } else {
                    match table_columns(table, input, key, context) {
                        Ok(columns) => Ok(finished_row(table, key, columns)),
                        Err(reason) => Err(reason),
                    }
                },
                None => Err("archive row primary key must be a non-empty string"@),
            }
        },
        _ => Err("archive store row must be an object"@),
    }
}

/// The rows of one archive store in table shape, or the reason of the first that is refused.
pub open spec fn normalized_rows(
    table: Table,
    values: Seq<JsonV>,
    context: ImportContext,
) -> Result<Seq<NormalizedRowV>, Seq<char>>
    decreases values.len(),
{
    if values.len() == 0 {
        Ok(Seq::empty())
    } else {
        match normalized_rows(table, values.drop_last(), context) {
            Err(reason) => Err(reason),
            Ok(rows) => match normalized_row(table, values.last(), rows, context) {
                Err(reason) => Err(reason),
                Ok(row) => Ok(rows.push(row)),
            },
        }
    }
}

fn normalize_columns(
    table: Table,
    input: &Fields,
    key: &str,
    now: i64,
    schema_version: u32,
    raw_notes: &Vec<Json>,
) -> (row: Result<Fields, SyncError>)
    ensures
        built(
            row,
            table_columns(
                table,
                input@,
                key@,
                ImportContext { now, schema_version, raw_notes: items_view(raw_notes@) },
            ),
        ),
{
    match table {
        Table::Books => normalize_book(input, now),
        Table::Notes => normalize_note(input, now, schema_version),
        Table::CustomIdeas => normalize_custom_idea(input, now),
        Table::NoteLinks => normalize_note_link(input, now),
        Table::Lenses => normalize_lens(input, now),
        Table::Collections => normalize_collection(input, now),
        Table::CollectionMemberships => normalize_membership(input, now),
        Table::NoteSignals => normalize_note_signal(input, now, find_raw_source(raw_notes, key)),
    }
}

fn has_key(rows: &Vec<NormalizedRow>, key: &str) -> (yes: bool)
    ensures
        yes == key_seen(rows_view(rows@), key@),
{
    let mut i: usize = 0;
    while i < rows.len()
        invariant
            i <= rows@.len(),
            forall|j: int| 0 <= j < i ==> (#[trigger] rows@[j]).primary_key@ != key@,
        decreases rows.len() - i,
    {
        if same_text(rows[i].primary_key.as_str(), key) {
            assert(rows_view(rows@)[i as int].primary_key == key@);
            return true;
        }
        i = i + 1;
    }
    assert forall|j: int| 0 <= j < rows@.len() implies (
    #[trigger] rows_view(rows@)[j]).primary_key != key@ by {
        assert(rows_view(rows@)[j] == rows@[j]@);
    }
    false
}

/// The columns that every finished row adds have names of their own.
proof fn lemma_added_names(table: Table)
    ensures
        key_column(table) != "updated_at"@,
        "deleted"@ != "updated_at"@,
        key_column(table) != "deleted"@,
{
    reveal_strlit("id");
    reveal_strlit("note_id");
    reveal_strlit("deleted");
    reveal_strlit("updated_at");
    assert("id"@.len() == 2 && "note_id"@.len() == 7 && "deleted"@.len() == 7 && "updated_at"@.len()
        == 10);
    assert("note_id"@[0] == 'n' && "deleted"@[0] == 'd');
}

/// Every imported row is live and carries its key and its time in its own columns.
pub proof fn law_imported_row_complete(
    table: Table,
    value: JsonV,
    seen: Seq<NormalizedRowV>,
    context: ImportContext,
)
    requires
        normalized_row(table, value, seen, context) is Ok,
    ensures
        ({
            let row = normalized_row(table, value, seen, context)->Ok_0;
            &&& row_i64(row.row, "updated_at"@) == Some(row.updated_at)
            &&& row_text(row.row, key_column(table)) == Some(row.primary_key)
            &&& row.primary_key.len() > 0
            &&& crate::json::row_bool(row.row, "deleted"@) == Some(false)
        }),
{
    lemma_added_names(table);
}

/// No two imported rows of a table share a key.
pub proof fn law_imported_keys_distinct(
    table: Table,
    values: Seq<JsonV>,
    context: ImportContext,
    i: int,
    j: int,
)
    requires
        normalized_rows(table, values, context) is Ok,
        0 <= i < j < normalized_rows(table, values, context)->Ok_0.len(),
    ensures
        normalized_rows(table, values, context)->Ok_0[i].primary_key != normalized_rows(
            table,
            values,
            context,
        )->Ok_0[j].primary_key,
    decreases values.len(),
{
    let before = values.drop_last();
    let rows = normalized_rows(table, before, context)->Ok_0;
    if j < rows.len() {
        law_imported_keys_distinct(table, before, context, i, j);
    } else {
        assert(!key_seen(rows, normalized_rows(table, values, context)->Ok_0[j].primary_key));
        assert(rows[i].primary_key == normalized_rows(table, values, context)->Ok_0[i].primary_key);
    }
}

/// An archive is imported whole or not at all: a store has as many rows as its archive array.
pub proof fn law_import_keeps_every_row(
    table: Table,
    values: Seq<JsonV>,
    context: ImportContext,
)
    requires
        normalized_rows(table, values, context) is Ok,
    ensures
        normalized_rows(table, values, context)->Ok_0.len() == values.len(),
    decreases values.len(),
{
    if values.len() > 0 {
        law_import_keeps_every_row(table, values.drop_last(), context);
    }
}

fn normalize_row(
    table: Table,
    value: &Json,
    seen: &Vec<NormalizedRow>,
    now: i64,
    schema_version: u32,
    raw_notes: &Vec<Json>,
) -> (row: Result<NormalizedRow, SyncError>)
    ensures
        match (
            row,
            normalized_row(
                table,
                value@,
                rows_view(seen@),
                ImportContext { now, schema_version, raw_notes: items_view(raw_notes@) },
            ),
        ) {
            (Ok(r), Ok(want)) => r@ == want,
            (Err(e), Err(reason)) => import_error(e, reason),
            _ => false,
        },
{
    let input = match value.as_object() {
        Some(input) => input,
        None => {
            return Err(invalid("archive store row must be an object"));
        },
    };
    if let Err(e) = validate_deleted(input) {
        return Err(e);
    }
    let key = match input.get_text(table.archive_key()) {
        Some(key) => key,
        None => {
            return Err(invalid("archive row primary key must be a non-empty string"));
        },
    };
    if key.as_str().is_empty() {
        return Err(invalid("archive row primary key must be a non-empty string"));
    }
    if has_key(seen, key.as_str()) {
        return Err(invalid("archive store contains a duplicate primary key"));
    }
    let mut row = match normalize_columns(
        table,
        input,
        key.as_str(),
        now,
        schema_version,
        raw_notes,
    ) {
        Ok(row) => row,
        Err(e) => {
            return Err(e);
        },
    };
    row.insert(table.key_column(), Json::Str(key.clone()));
    row.insert("deleted", Json::Bool(false));
    let updated_at = match row.get_i64("updated_at") {
        Some(n) => n,
        None => 0,
    };
    Ok(NormalizedRow { primary_key: key.clone(), row, updated_at })
}

/// Brings the rows of one archive store into table shape.
pub fn normalize_rows(
    table: Table,
    values: &Vec<Json>,
    now: i64,
    schema_version: u32,
    raw_notes: &Vec<Json>,
) -> (rows: Result<Vec<NormalizedRow>, SyncError>)
    ensures
        match (
            rows,
            normalized_rows(
                table,
                items_view(values@),
                ImportContext { now, schema_version, raw_notes: items_view(raw_notes@) },
            ),
        ) {
            (Ok(r), Ok(want)) => rows_view(r@) == want,
            (Err(e), Err(reason)) => import_error(e, reason),
            _ => false,
        },
{
    let ghost context = ImportContext { now, schema_version, raw_notes: items_view(raw_notes@) };
    let ghost all = items_view(values@);
    proof {
        lemma_items_view(values@);
    }
    let mut rows: Vec<NormalizedRow> = Vec::new();
    let mut i: usize = 0;
    assert(rows_view(rows@) =~= Seq::empty());
    while i < values.len()
        invariant
            i <= values@.len(),
            context == (ImportContext { now, schema_version, raw_notes: items_view(raw_notes@) }),
            all == items_view(values@),
            all.len() == values@.len(),
            forall|j: int| 0 <= j < all.len() ==> #[trigger] all[j] == json_view(values@[j]),
            normalized_rows(table, all.take(i as int), context) == Ok::<
                Seq<NormalizedRowV>,
                Seq<char>,
            >(rows_view(rows@)),
        decreases values.len() - i,
    {
        assert(all.take(i + 1).drop_last() =~= all.take(i as int));
        assert(all.take(i + 1).last() == all[i as int]);
        match normalize_row(table, &values[i], &rows, now, schema_version, raw_notes) {
            Ok(row) => {
                let ghost before = rows_view(rows@);
                rows.push(row);
                assert(rows_view(rows@) =~= before.push(row@));
            },
            Err(e) => {
                proof {
                    lemma_refused_prefix(table, all, i as int, context);
                }
                return Err(e);
            },
        }
        i = i + 1;
    }
    assert(all.take(all.len() as int) =~= all);
    Ok(rows)
}

/// A refused row refuses the whole store, for the same reason.
proof fn lemma_refused_prefix(
    table: Table,
    values: Seq<JsonV>,
    i: int,
    context: ImportContext,
)
    requires
        0 <= i < values.len(),
        normalized_rows(table, values.take(i + 1), context) is Err,
    ensures
        normalized_rows(table, values, context) == normalized_rows(
            table,
            values.take(i + 1),
            context,
        ),
    decreases values.len(),
{
    if i == values.len() - 1 {
        assert(values.take(i + 1) =~= values);
    } else {
        assert(values.drop_last().take(i + 1) =~= values.take(i + 1));
        lemma_refused_prefix(table, values.drop_last(), i, context);
    }
}

/// The version of an archive; absent and null mean the first.
pub open spec fn archive_version(root: RowV) -> Result<u32, Seq<char>> {
    match field(root, "schemaVersion"@) {
        None => Ok(1),
        Some(JsonV::Null) => Ok(1),
        Some(value) => match json_u64(value) {
            Some(n) => if 1 <= n <= MAX_SCHEMA_VERSION {
                Ok(n as u32)
            } else {
                Err("schemaVersion must be an integer from 1 through 19"@)
            },
            None => Err("schemaVersion must be an integer from 1 through 19"@),
        },
    }
}

fn schema_version(root: &Fields) -> (version: Result<u32, SyncError>)
    ensures
        match (version, archive_version(root@)) {
            (Ok(v), Ok(want)) => v == want,
            (Err(e), Err(reason)) => import_error(e, reason),
            _ => false,
        },
{
    match root.get("schemaVersion") {
        None => Ok(1),
        Some(Json::Null) => Ok(1),
        Some(value) => match value.as_u64() {
            Some(n) => if 1 <= n && n <= MAX_SCHEMA_VERSION as u64 {
                Ok(n as u32)
            } else {
                Err(invalid("schemaVersion must be an integer from 1 through 19"))
            },
            None => Err(invalid("schemaVersion must be an integer from 1 through 19")),
        },
    }
}

/// The rows of one archive store as the archive has them; absent and null mean none.
pub open spec fn store_values(root: RowV, table: Table) -> Result<Seq<JsonV>, Seq<char>> {
    match field(root, archive_name(table)) {
        None => Ok(Seq::empty()),
        Some(JsonV::Null) => Ok(Seq::empty()),
        Some(JsonV::Arr(items)) => Ok(items),
        Some(_) => Err("archive store must be an array"@),
    }
}

/// The rows of one archive store in table shape.
pub open spec fn store_rows(root: RowV, table: Table, context: ImportContext) -> Result<
    Seq<NormalizedRowV>,
    Seq<char>,
> {
    match store_values(root, table) {
        Ok(values) => normalized_rows(table, values, context),
        Err(reason) => Err(reason),
    }
}

fn archive_array<'a>(root: &'a Fields, table: Table) -> (values: Result<Option<&'a Vec<Json>>, SyncError>)
    ensures
        match (values, store_values(root@, table)) {
            (Ok(Some(v)), Ok(want)) => items_view(v@) == want,
            (Ok(None), Ok(want)) => want == Seq::<JsonV>::empty(),
            (Err(e), Err(reason)) => import_error(e, reason),
            _ => false,
        },
{
    match root.get(table.archive_name()) {
        None => Ok(None),
        Some(Json::Null) => Ok(None),
        Some(Json::Arr(items)) => Ok(Some(items)),
        Some(_) => Err(invalid("archive store must be an array")),
    }
}

fn normalize_store(
    root: &Fields,
    table: Table,
    now: i64,
    schema_version: u32,
    raw_notes: &Vec<Json>,
) -> (rows: Result<Vec<NormalizedRow>, SyncError>)
    ensures
        match (
            rows,
            store_rows(
                root@,
                table,
                ImportContext { now, schema_version, raw_notes: items_view(raw_notes@) },
            ),
        ) {
            (Ok(r), Ok(want)) => rows_view(r@) == want,
            (Err(e), Err(reason)) => import_error(e, reason),
            _ => false,
        },
{
    match archive_array(root, table) {
        Ok(Some(values)) => normalize_rows(table, values, now, schema_version, raw_notes),
        Ok(None) => {
            let none: Vec<NormalizedRow> = Vec::new();
            assert(rows_view(none@) =~= Seq::empty());
            Ok(none)
        },
        Err(e) => Err(e),
    }
}

/// The raw note rows of an archive, as far as they can be read.
pub open spec fn raw_notes_of(root: RowV) -> Seq<JsonV> {
    match field(root, archive_name(Table::Notes)) {
        Some(JsonV::Arr(items)) => items,
        _ => Seq::empty(),
    }
}

/// What an archive holds, in table shape, or the first reason why it is refused: the marker, the
/// version, then each store in turn.
pub open spec fn normalized_archive(root: JsonV, now: i64) -> Result<NormalizedImportV, Seq<char>> {
    match root {
        JsonV::Obj(root) => if field(root, "_syntopicon"@) != Some(JsonV::Bool(true)) {
            Err("archive marker must be literal true"@)
        } else {
            match archive_version(root) {
                Err(reason) => Err(reason),
                Ok(schema_version) => normalized_stores(
                    root,
                    ImportContext { now, schema_version, raw_notes: raw_notes_of(root) },
                ),
            }
        },
        _ => Err("archive root must be an object"@),
    }
}

/// The eight stores of an archive in table shape.
pub open spec fn normalized_stores(root: RowV, context: ImportContext) -> Result<
    NormalizedImportV,
    Seq<char>,
> {
    match store_rows(root, Table::Books, context) {
        Err(reason) => Err(reason),
        Ok(books) => match store_rows(root, Table::Notes, context) {
            Err(reason) => Err(reason),
            Ok(notes) => match store_rows(root, Table::CustomIdeas, context) {
                Err(reason) => Err(reason),
                Ok(custom_ideas) => match store_rows(root, Table::NoteLinks, context) {
                    Err(reason) => Err(reason),
                    Ok(note_links) => match store_rows(root, Table::Lenses, context) {
                        Err(reason) => Err(reason),
                        Ok(lenses) => match store_rows(root, Table::Collections, context) {
                            Err(reason) => Err(reason),
                            Ok(collections) => match store_rows(
                                root,
                                Table::CollectionMemberships,
                                context,
                            ) {
                                Err(reason) => Err(reason),
                                Ok(collection_memberships) => match store_rows(
                                    root,
                                    Table::NoteSignals,
                                    context,
                                ) {
                                    Err(reason) => Err(reason),
                                    Ok(note_signals) => Ok(
                                        NormalizedImportV {
                                            schema_version: context.schema_version,
                                            books,
                                            notes,
                                            custom_ideas,
                                            note_links,
                                            lenses,
                                            collections,
                                            collection_memberships,
                                            note_signals,
                                        },
                                    ),
                                },
                            },
                        },
                    },
                },
            },
        },
    }
}

/// Whether an archive row states its time.
pub open spec fn states_time(value: JsonV) -> bool {
    match value {
        JsonV::Obj(input) => match field(input, "updatedAt"@) {
            Some(time) => json_i64(time) matches Some(n) && n != 0,
            None => false,
        },
        _ => false,
    }
}

/// Whether every row of an archive states its time.
pub open spec fn states_times(root: JsonV) -> bool {
    root matches JsonV::Obj(fields) && forall|table: Table, i: int|
        #![trigger store_values(fields, table)->Ok_0[i]]
        store_values(fields, table) is Ok && 0 <= i < store_values(fields, table)->Ok_0.len()
            ==> states_time(store_values(fields, table)->Ok_0[i])
}

/// Whether rows stand under the same keys with the same times.
pub open spec fn same_times(a: Seq<NormalizedRowV>, b: Seq<NormalizedRowV>) -> bool {
    &&& a.len() == b.len()
    &&& forall|i: int|
        0 <= i < a.len() ==> (#[trigger] a[i]).primary_key == b[i].primary_key && a[i].updated_at
            == b[i].updated_at
}

proof fn lemma_columns_again(
    table: Table,
    input: RowV,
    key: Seq<char>,
    context: ImportContext,
    now: i64,
)
    requires
        states_time(JsonV::Obj(input)),
        table_columns(table, input, key, context) is Ok,
    ensures
        ({
            let again = table_columns(table, input, key, ImportContext { now, ..context });
            &&& again is Ok
            &&& finished_row(table, key, again->Ok_0).updated_at == finished_row(
                table,
                key,
                table_columns(table, input, key, context)->Ok_0,
            ).updated_at
        }),
{
    lemma_added_names(table);
}

proof fn lemma_rows_again(
    table: Table,
    values: Seq<JsonV>,
    context: ImportContext,
    now: i64,
)
    requires
        forall|i: int| 0 <= i < values.len() ==> states_time(#[trigger] values[i]),
        normalized_rows(table, values, context) is Ok,
    ensures
        normalized_rows(table, values, ImportContext { now, ..context }) is Ok,
        same_times(
            normalized_rows(table, values, context)->Ok_0,
            normalized_rows(table, values, ImportContext { now, ..context })->Ok_0,
        ),
    decreases values.len(),
{
    if values.len() > 0 {
        let before = values.drop_last();
        let again = ImportContext { now, ..context };
        assert forall|i: int| 0 <= i < before.len() implies states_time(#[trigger] before[i]) by {
            assert(before[i] == values[i]);
        }
        lemma_rows_again(table, before, context, now);
        let rows = normalized_rows(table, before, context)->Ok_0;
        let rows_again = normalized_rows(table, before, again)->Ok_0;
        let input = values.last()->Obj_0;
        let key = row_text(input, archive_key(table))->Some_0;
        assert(values[values.len() - 1] == values.last());
        assert(key_seen(rows, key) == key_seen(rows_again, key)) by {
            if key_seen(rows_again, key) {
                let i = choose|i: int|
                    0 <= i < rows_again.len() && (#[trigger] rows_again[i]).primary_key == key;
                assert(rows[i].primary_key == key);
            }
            if key_seen(rows, key) {
                let i = choose|i: int|
                    0 <= i < rows.len() && (#[trigger] rows[i]).primary_key == key;
                assert(rows_again[i].primary_key == key);
            }
        }
        lemma_columns_again(table, input, key, context, now);
    }
}

/// An archive whose rows state their times is read the same way at any time: the same rows, under
/// the same keys, with the same times.
pub proof fn law_read_at_any_time(root: JsonV, now: i64, later: i64)
    requires
        states_times(root),
        normalized_archive(root, now) is Ok,
    ensures
        normalized_archive(root, later) is Ok,
        ({
            let a = normalized_archive(root, now)->Ok_0;
            let b = normalized_archive(root, later)->Ok_0;
            &&& same_times(a.books, b.books)
            &&& same_times(a.notes, b.notes)
            &&& same_times(a.custom_ideas, b.custom_ideas)
            &&& same_times(a.note_links, b.note_links)
            &&& same_times(a.lenses, b.lenses)
            &&& same_times(a.collections, b.collections)
            &&& same_times(a.collection_memberships, b.collection_memberships)
            &&& same_times(a.note_signals, b.note_signals)
        }),
{
    let fields = root->Obj_0;
    let context = ImportContext {
        now,
        schema_version: archive_version(fields)->Ok_0,
        raw_notes: raw_notes_of(fields),
    };
    lemma_rows_again(Table::Books, store_values(fields, Table::Books)->Ok_0, context, later);
    lemma_rows_again(Table::Notes, store_values(fields, Table::Notes)->Ok_0, context, later);
    lemma_rows_again(
        Table::CustomIdeas,
        store_values(fields, Table::CustomIdeas)->Ok_0,
        context,
        later,
    );
    lemma_rows_again(
        Table::NoteLinks,
        store_values(fields, Table::NoteLinks)->Ok_0,
        context,
        later,
    );
    lemma_rows_again(Table::Lenses, store_values(fields, Table::Lenses)->Ok_0, context, later);
    lemma_rows_again(
        Table::Collections,
        store_values(fields, Table::Collections)->Ok_0,
        context,
        later,
    );
    lemma_rows_again(
        Table::CollectionMemberships,
        store_values(fields, Table::CollectionMemberships)->Ok_0,
        context,
        later,
    );
    lemma_rows_again(
        Table::NoteSignals,
        store_values(fields, Table::NoteSignals)->Ok_0,
        context,
        later,
    );
}

/// Whether an import result is what `want` says.
pub open spec fn imported(
    result: Result<NormalizedImport, SyncError>,
    want: Result<NormalizedImportV, Seq<char>>,
) -> bool {
    match (result, want) {
        (Ok(import), Ok(view)) => import@ == view,
        (Err(e), Err(reason)) => import_error(e, reason),
        _ => false,
    }
}

fn normalize_stores(root: &Fields, now: i64, schema_version: u32, raw_notes: &Vec<Json>) -> (import: Result<
    NormalizedImport,
    SyncError,
>)
    ensures
        imported(
            import,
            normalized_stores(
                root@,
                ImportContext { now, schema_version, raw_notes: items_view(raw_notes@) },
            ),
        ),
{
    let books = match normalize_store(root, Table::Books, now, schema_version, raw_notes) {
        Ok(rows) => rows,
        Err(e) => {
            return Err(e);
        },
    };
    let notes = match normalize_store(root, Table::Notes, now, schema_version, raw_notes) {
        Ok(rows) => rows,
        Err(e) => {
            return Err(e);
        },
    };
    let custom_ideas = match normalize_store(
        root,
        Table::CustomIdeas,
        now,
        schema_version,
        raw_notes,
    ) {
        Ok(rows) => rows,
        Err(e) => {
            return Err(e);
        },
    };
    let note_links = match normalize_store(root, Table::NoteLinks, now, schema_version, raw_notes) {
        Ok(rows) => rows,
        Err(e) => {
            return Err(e);
        },
    };
    let lenses = match normalize_store(root, Table::Lenses, now, schema_version, raw_notes) {
        Ok(rows) => rows,
        Err(e) => {
            return Err(e);
        },
    };
    let collections = match normalize_store(
        root,
        Table::Collections,
        now,
        schema_version,
        raw_notes,
    ) {
        Ok(rows) => rows,
        Err(e) => {
            return Err(e);
        },
    };
    let collection_memberships = match normalize_store(
        root,
        Table::CollectionMemberships,
        now,
        schema_version,
        raw_notes,
    ) {
        Ok(rows) => rows,
        Err(e) => {
            return Err(e);
        },
    };
    let note_signals = match normalize_store(
        root,
        Table::NoteSignals,
        now,
        schema_version,
        raw_notes,
    ) {
        Ok(rows) => rows,
        Err(e) => {
            return Err(e);
        },
    };
    Ok(
        NormalizedImport {
            schema_version,
            books,
            notes,
            custom_ideas,
            note_links,
            lenses,
            collections,
            collection_memberships,
            note_signals,
        },
    )
}

/// Brings a parsed archive into table shape.
pub fn normalize_archive(root: &Json, now: i64) -> (import: Result<NormalizedImport, SyncError>)
    ensures
        imported(import, normalized_archive(root@, now)),
{
    let root = match root.as_object() {
        Some(root) => root,
        None => {
            return Err(invalid("archive root must be an object"));
        },
    };
    let marked = match root.get("_syntopicon") {
        Some(Json::Bool(b)) => *b,
        _ => false,
    };
    if !marked {
        return Err(invalid("archive marker must be literal true"));
    }
    let version = match schema_version(root) {
        Ok(version) => version,
        Err(e) => {
            return Err(e);
        },
    };
    let none: Vec<Json> = Vec::new();
    proof {
        lemma_items_view(none@);
        assert(items_view(none@) =~= Seq::empty());
    }
    match root.get(Table::Notes.archive_name()) {
        Some(Json::Arr(items)) => normalize_stores(root, now, version, items),
        _ => normalize_stores(root, now, version, &none),
    }
}

/// Reads an archive and brings it into table shape.
pub fn parse_import_at(archive_json: &str, now: i64) -> (import: Result<
    NormalizedImport,
    SyncError,
>)
    ensures
        imported(
            import,
            match parsed_json(archive_json@) {
                Some(root) => normalized_archive(root, now),
                None => Err("malformed JSON archive"@),
            },
        ),
{
    match read_json(archive_json) {
        Some(root) => normalize_archive(&root, now),
        None => Err(invalid("malformed JSON archive")),
    }
}

/// The inputs of a signal row's score.
pub open spec fn row_score_inputs(row: RowV) -> ScoreInputs {
    ScoreInputs {
        source_prior: match field(row, "source_prior"@) {
            Some(value) => match json_float(value) {
                Some(bits) => bits,
                None => PRIOR_FALLBACK,
            },
            None => PRIOR_FALLBACK,
        },
        return_visits: match row_i64(row, "return_visits"@) {
            Some(n) => n,
            None => 0,
        },
        has_annotation: crate::json::row_bool(row, "has_annotation"@) == Some(true),
        stitch_spawns: match row_i64(row, "stitch_spawns"@) {
            Some(n) => n,
            None => 0,
        },
    }
}

/// The inputs of an imported signal row's score.
pub fn score_inputs(row: &NormalizedRow) -> (inputs: ScoreInputs)
    ensures
        inputs == row_score_inputs(row.row@),
{
    let source_prior = match row.row.get("source_prior") {
        Some(value) => match float_bits(value) {
            Some(bits) => bits,
            None => PRIOR_FALLBACK,
        },
        None => PRIOR_FALLBACK,
    };
    let return_visits = match row.row.get_i64("return_visits") {
        Some(n) => n,
        None => 0,
    };
    let has_annotation = match row.row.get_bool("has_annotation") {
        Some(b) => b,
        None => false,
    };
    let stitch_spawns = match row.row.get_i64("stitch_spawns") {
        Some(n) => n,
        None => 0,
    };
    ScoreInputs { source_prior, return_visits, has_annotation, stitch_spawns }
}

/// Fills in an imported signal row's score, given by its bits.
pub fn set_importance(row: &mut NormalizedRow, importance: u64)
    ensures
        final(row)@ == (NormalizedRowV {
            primary_key: old(row).primary_key@,
            row: old(row).row@.insert("importance"@, float_json(importance)),
            updated_at: old(row).updated_at,
        }),
{
    row.row.insert("importance", Json::float(importance));
}

} // verus!
