//! What JSON values, rows and written times stand for.

use crate::calendar::{
    days_before, day_number, epoch_of, month_days, utc_text, valid_parts, UtcParts,
};
use crate::embed::{has_identity, EmbedderDescriptor, MAX_DIMS};
use crate::engine::stamp_of;
use crate::import::{normalized_archive, row_score_inputs, NormalizedImportV};
use crate::json::{
    entries_view, finite_bits, float_json, int_json, json_i64, json_view, row_bool, row_deleted,
    row_i64, row_text, texts_json, zero_bits, Json, JsonV, Number, RowV,
};
use crate::json_text::{json_float, parsed_json};
use crate::merge::read_archive;
use crate::outbox::remap_view;
use crate::signal_laws::{counts_as, is_integer, nearest_hundredths};
use crate::text::{digits_value, law_padded_has_the_value, last_digits};
use crate::types::{
    embed_error, error_text, flush_error, import_error, store_error, SyncError,
};
use crate::write_laws::{holds, lists_texts};
use vstd::prelude::*;

verus! {

/// A whole number is written as the integer that it is, and reads back as itself. Any integer that
/// fits reads as itself, and nothing else reads as one.
pub proof fn law_integers(n: i64, value: JsonV)
    ensures
        match int_json(n) {
            JsonV::Num(Number::PosInt(m)) => n >= 0 && m == n,
            JsonV::Num(Number::NegInt(m)) => n < 0 && m == n,
            _ => false,
        },
        json_i64(int_json(n)) == Some(n),
        json_i64(value) == Some(n) <==> match value {
            JsonV::Num(Number::PosInt(m)) => m == n,
            JsonV::Num(Number::NegInt(m)) => m == n,
            _ => false,
        },
{
}

/// A float is written as the number that it is, and as null where it is none; it reads back as
/// itself. Bits stand for no finite number if and only if they lie from an infinity on, of either
/// sign, and for zero if nothing but the sign is set.
pub proof fn law_floats(bits: u64)
    ensures
        finite_bits(bits) <==> bits < 0x7ff0_0000_0000_0000 || (0x8000_0000_0000_0000 <= bits
            < 0xfff0_0000_0000_0000),
        zero_bits(bits) <==> bits == 0 || bits == 0x8000_0000_0000_0000,
        float_json(bits) == if finite_bits(bits) {
            JsonV::Num(Number::Float(bits))
        } else {
            JsonV::Null
        },
        json_float(JsonV::Num(Number::Float(bits))) == Some(bits),
{
}

/// A list of texts is written as the array of them, in order.
pub proof fn law_text_lists(texts: Seq<Seq<char>>)
    ensures
        lists_texts(texts_json(texts), texts),
{
}

/// A column reads as a text, a whole number or a flag if and only if it holds one, and a row is
/// deleted if and only if its mark is true.
pub proof fn law_columns_read_as_they_are(row: RowV, name: Seq<char>)
    ensures
        match row_text(row, name) {
            Some(s) => holds(row, name, JsonV::Str(s)),
            None => !row.contains_key(name) || !(row[name] is Str),
        },
        match row_bool(row, name) {
            Some(b) => holds(row, name, JsonV::Bool(b)),
            None => !row.contains_key(name) || !(row[name] is Bool),
        },
        match row_i64(row, name) {
            Some(n) => is_integer(row, name, n as int),
            None => forall|n: i64| !#[trigger] is_integer(row, name, n as int),
        },
        row_deleted(row) <==> holds(row, "deleted"@, JsonV::Bool(true)),
{
}

/// The members of an object are its entries; of two with one name the later counts.
pub proof fn law_last_entry_counts(entries: Seq<(String, Json)>, name: Seq<char>, at: int)
    requires
        -1 <= at < entries.len(),
        at >= 0 ==> entries[at].0@ == name,
        forall|j: int| at < j < entries.len() ==> (#[trigger] entries[j]).0@ != name,
    ensures
        entries_view(entries).contains_key(name) <==> at >= 0,
        at >= 0 ==> entries_view(entries)[name] == json_view(entries[at].1),
    decreases entries.len(),
{
    if entries.len() > 0 && at < entries.len() - 1 {
        let before = entries.drop_last();
        assert(entries[entries.len() - 1].0@ != name);
        assert forall|j: int| at < j < before.len() implies (#[trigger] before[j]).0@ != name by {
            assert(entries[j] == before[j]);
        }
        law_last_entry_counts(before, name, at);
    }
}

/// Of two merges of one book the one that was recorded later counts.
pub proof fn law_last_merge_counts(entries: Seq<(String, String)>, id: Seq<char>, at: int)
    requires
        -1 <= at < entries.len(),
        at >= 0 ==> entries[at].0@ == id,
        forall|j: int| at < j < entries.len() ==> (#[trigger] entries[j]).0@ != id,
    ensures
        remap_view(entries).contains_key(id) <==> at >= 0,
        at >= 0 ==> remap_view(entries)[id] == entries[at].1@,
    decreases entries.len(),
{
    if entries.len() > 0 && at < entries.len() - 1 {
        let before = entries.drop_last();
        assert(entries[entries.len() - 1].0@ != id);
        assert forall|j: int| at < j < before.len() implies (#[trigger] before[j]).0@ != id by {
            assert(entries[j] == before[j]);
        }
        law_last_merge_counts(before, id, at);
    }
}

/// The score of an imported signal row is computed from its own columns: a missing counter is zero,
/// a missing mark false, and a missing prior fifty hundredths.
pub proof fn law_imported_score_inputs(row: RowV)
    ensures
        ({
            let inputs = row_score_inputs(row);
            &&& counts_as(Some(row), "return_visits"@, inputs.return_visits)
            &&& counts_as(Some(row), "stitch_spawns"@, inputs.stitch_spawns)
            &&& inputs.has_annotation <==> holds(row, "has_annotation"@, JsonV::Bool(true))
            &&& if row.contains_key("source_prior"@) && row["source_prior"@] is Num {
                row["source_prior"@] matches JsonV::Num(Number::Float(bits)) ==> inputs.source_prior
                    == bits
            } else {
                nearest_hundredths(inputs.source_prior, 50)
            }
        }),
{
    law_columns_read_as_they_are(row, "return_visits"@);
    law_columns_read_as_they_are(row, "stitch_spawns"@);
}

/// A year is a leap year if it is divisible by four, unless it is by one hundred and not by four
/// hundred. February has a day more then; the other months have thirty-one days, but for April,
/// June, September and November, which have thirty.
pub proof fn law_days_of_months(year: int, month: int)
    requires
        1 <= month <= 12,
    ensures
        ({
            let leap = if year % 400 == 0 {
                true
            } else if year % 100 == 0 {
                false
            } else {
                year % 4 == 0
            };
            month_days(year, month) == if month == 2 && leap {
                29int
            } else if month == 2 {
                28
            } else if month == 4 || month == 6 || month == 9 || month == 11 {
                30
            } else {
                31
            }
        }),
{
}

/// Days are counted one after the other, from month to month and from year to year.
pub proof fn law_days_follow_each_other(year: int, month: int, day: int)
    ensures
        day_number(year, month, day + 1) == day_number(year, month, day) + 1,
        1 <= month < 12 ==> day_number(year, month + 1, 1) == day_number(
            year,
            month,
            month_days(year, month),
        ) + 1,
        day_number(year + 1, 1, 1) == day_number(year, 12, 31) + 1,
{
    reveal_with_fuel(days_before, 13);
    lemma_year_length(year);
}

proof fn lemma_year_length(year: int)
    ensures
        days_before(year, 12) == 334 + month_days(year, 2) - 28,
        crate::calendar::year_start(year + 1) == crate::calendar::year_start(year) + 337 + month_days(
            year,
            2,
        ),
{
    reveal_with_fuel(days_before, 13);
    assert(days_before(year, 12) == 334 + month_days(year, 2) - 28);
    let y = year - 1;
    assert(year / 4 - y / 4 == if year % 4 == 0 {
        1int
    } else {
        0
    });
    assert(year / 100 - y / 100 == if year % 100 == 0 {
        1int
    } else {
        0
    });
    assert(year / 400 - y / 400 == if year % 400 == 0 {
        1int
    } else {
        0
    });
}

/// A time of the calendar is so many milliseconds into its day, and the days are counted from the
/// first of January 1970.
pub proof fn law_milliseconds_of_a_time(p: UtcParts)
    requires
        valid_parts(p),
    ensures
        ({
            let day = day_number(p.year as int, p.month as int, p.day as int);
            let within = epoch_of(p) - day * 86_400_000;
            &&& 0 <= within < 86_400_000
            &&& within / 3_600_000 == p.hour
            &&& within / 60_000 % 60 == p.minute
            &&& within / 1000 % 60 == p.second
            &&& within % 1000 == p.millisecond
        }),
        day_number(1970, 1, 1) == 0,
        1 <= p.day <= month_days(p.year as int, p.month as int),
        1 <= p.month <= 12,
{
    reveal_with_fuel(days_before, 2);
}

/// A written time shows the year, the month and the day, and the hour, the minute, the second and the
/// millisecond, each in its own place, parted as `-`, `-`, `T`, `:`, `:`, `.` and closed by `Z`.
pub proof fn law_written_time(p: UtcParts)
    requires
        valid_parts(p),
        0 <= p.year <= 9999,
    ensures
        ({
            let text = utc_text(p);
            &&& text.len() == 24
            &&& digits_value(text.subrange(0, 4)) == p.year
            &&& text[4] == '-'
            &&& digits_value(text.subrange(5, 7)) == p.month
            &&& text[7] == '-'
            &&& digits_value(text.subrange(8, 10)) == p.day
            &&& text[10] == 'T'
            &&& digits_value(text.subrange(11, 13)) == p.hour
            &&& text[13] == ':'
            &&& digits_value(text.subrange(14, 16)) == p.minute
            &&& text[16] == ':'
            &&& digits_value(text.subrange(17, 19)) == p.second
            &&& text[19] == '.'
            &&& digits_value(text.subrange(20, 23)) == p.millisecond
            &&& text[23] == 'Z'
        }),
{
    reveal_strlit("-");
    reveal_strlit("T");
    reveal_strlit(":");
    reveal_strlit(".");
    reveal_strlit("Z");
    assert(vstd::arithmetic::power::pow(10, 2) == 100 && vstd::arithmetic::power::pow(10, 3) == 1000
        && vstd::arithmetic::power::pow(10, 4) == 10000) by {
        reveal(vstd::arithmetic::power::pow);
        reveal_with_fuel(vstd::arithmetic::power::pow, 5);
    }
    law_padded_has_the_value(p.year as nat, 4);
    law_padded_has_the_value(p.month as nat, 2);
    law_padded_has_the_value(p.day as nat, 2);
    law_padded_has_the_value(p.hour as nat, 2);
    law_padded_has_the_value(p.minute as nat, 2);
    law_padded_has_the_value(p.second as nat, 2);
    law_padded_has_the_value(p.millisecond as nat, 3);
    let text = utc_text(p);
    assert(text.subrange(0, 4) =~= last_digits(p.year as nat, 4));
    assert(text.subrange(5, 7) =~= last_digits(p.month as nat, 2));
    assert(text.subrange(8, 10) =~= last_digits(p.day as nat, 2));
    assert(text.subrange(11, 13) =~= last_digits(p.hour as nat, 2));
    assert(text.subrange(14, 16) =~= last_digits(p.minute as nat, 2));
    assert(text.subrange(17, 19) =~= last_digits(p.second as nat, 2));
    assert(text.subrange(20, 23) =~= last_digits(p.millisecond as nat, 3));
}

/// An error reads as its kind, a colon, a blank and its message.
pub proof fn law_errors_read_as_their_kind(error: SyncError)
    ensures
        match error {
            SyncError::Store(m) => error_text(error) == "store error"@ + ": "@ + m@,
            SyncError::Flush(m) => error_text(error) == "flush error"@ + ": "@ + m@,
            SyncError::InvalidImport(m) => error_text(error) == "invalid import"@ + ": "@ + m@,
            SyncError::Embed(m) => error_text(error) == "embed error"@ + ": "@ + m@,
            SyncError::PatchTargetMissing => error_text(error)
                == "note patch requires an existing live row"@,
            SyncError::EmbedderNotRegistered => error_text(error) == "no embedder registered"@,
        },
{
    reveal_strlit(": ");
    reveal_strlit("store error");
    reveal_strlit("flush error");
    reveal_strlit("invalid import");
    reveal_strlit("embed error");
    reveal_strlit("store error: ");
    reveal_strlit("flush error: ");
    reveal_strlit("invalid import: ");
    reveal_strlit("embed error: ");
    assert("store error: "@ =~= "store error"@ + ": "@);
    assert("flush error: "@ =~= "flush error"@ + ": "@);
    assert("invalid import: "@ =~= "invalid import"@ + ": "@);
    assert("embed error: "@ =~= "embed error"@ + ": "@);
}

/// An error is of a kind with a message if and only if it is that variant and holds that message.
pub proof fn law_errors_hold_their_message(error: SyncError, message: Seq<char>)
    ensures
        store_error(error, message) <==> (error matches SyncError::Store(m) && m@ == message),
        flush_error(error, message) <==> (error matches SyncError::Flush(m) && m@ == message),
        import_error(error, message) <==> (error matches SyncError::InvalidImport(m) && m@
            == message),
        embed_error(error, message) <==> (error matches SyncError::Embed(m) && m@ == message),
{
}

/// A clock's milliseconds are the time, and a clock that stands before 1970 gives zero.
pub proof fn law_clock_gives_milliseconds(ms: u128)
    ensures
        ms <= i64::MAX ==> stamp_of(Some(ms)) == ms,
        stamp_of(None) == 0,
{
}

/// An embedder has an identity if and only if its name is not empty and no bar stands in its name or
/// in its quantization; its vectors have at most 4096 places.
pub proof fn law_embedders_with_an_identity(d: EmbedderDescriptor)
    ensures
        has_identity(d) <==> {
            &&& d.model_id@.len() >= 1
            &&& forall|i: int| 0 <= i < d.model_id@.len() ==> #[trigger] d.model_id@[i] != '|'
            &&& forall|i: int|
                0 <= i < d.quantization@.len() ==> #[trigger] d.quantization@[i] != '|'
        },
        MAX_DIMS == 4096,
{
    if has_identity(d) {
        assert forall|i: int| 0 <= i < d.model_id@.len() implies #[trigger] d.model_id@[i]
            != '|' by {
            assert(d.model_id@.contains(d.model_id@[i]));
        }
        assert forall|i: int| 0 <= i < d.quantization@.len() implies #[trigger] d.quantization@[i]
            != '|' by {
            assert(d.quantization@.contains(d.quantization@[i]));
        }
    }
}

/// An archive's text is read as JSON and brought into table shape; a text that is not JSON is
/// refused.
pub proof fn law_archive_text_is_read(text: Seq<char>, now: i64)
    ensures
        match parsed_json(text) {
            Some(root) => read_archive(text, now) == normalized_archive(root, now),
            None => read_archive(text, now) == Err::<NormalizedImportV, Seq<char>>(
                "malformed JSON archive"@,
            ),
        },
{
}

} // verus!
