//! What a pull does with each fetched row, told from the rows themselves.

use crate::json::{JsonV, RowV};
use crate::pull::{
    after_apply, begun, fetched_key, fetched_seq, newest, row_time, seek, wins, with_applied,
    with_cursor, with_local, with_page, ActionV, PullV, StatsV,
};
use crate::signal_laws::{is_integer, reads_as};
use crate::tables::{table_name, Table};
use crate::write_laws::holds;
use vstd::prelude::*;

verus! {

/// Whether a fetched row has this key: it is an object with the text in its table's key column.
pub open spec fn has_key(table: Table, row: JsonV, key: Seq<char>) -> bool {
    match row {
        JsonV::Obj(fields) => holds(
            fields,
            if table == Table::NoteSignals {
                "note_id"@
            } else {
                "id"@
            },
            JsonV::Str(key),
        ),
        _ => false,
    }
}

proof fn lemma_has_key(table: Table, row: JsonV, key: Seq<char>)
    ensures
        has_key(table, row, key) <==> fetched_key(table, row) == Some(key),
{
}

/// A fetched row wins over a stored one if and only if its time is later; a missing time counts as
/// zero. Where nothing is stored it wins unless it is marked deleted.
pub proof fn law_later_row_wins(row: RowV, local: RowV, time: i64, local_time: i64)
    requires
        reads_as(Some(row), "updated_at"@, 0, time),
        reads_as(Some(local), "updated_at"@, 0, local_time),
    ensures
        wins(row, Some(local)) <==> time > local_time,
        wins(row, None) <==> !holds(row, "deleted"@, JsonV::Bool(true)),
        row_time(row) == time,
{
    lemma_time(row, time);
    lemma_time(local, local_time);
}

proof fn lemma_time(row: RowV, time: i64)
    requires
        reads_as(Some(row), "updated_at"@, 0, time),
    ensures
        row_time(row) == time,
{
    match crate::json::row_i64(row, "updated_at"@) {
        Some(n) => {
            assert(is_integer(row, "updated_at"@, n as int));
            assert(n == time);
        },
        None => {
            assert(!is_integer(row, "updated_at"@, time as int));
        },
    }
}

/// Whether a step goes from the row at hand to the next that has a key, or past the last. Rows
/// without a key are passed over and not counted. The next row is counted as pulled, its sequence
/// number, where it has one, raises the page's highest, and its local row is asked for. Past the
/// last row the cursor is stored where a higher number was seen; where none was, a short page ends
/// the table and a full one fails it.
pub open spec fn sought(p: PullV, step: (PullV, ActionV)) -> bool {
    let next = step.0;
    &&& next.table == p.table
    &&& next.page_size == p.page_size
    &&& next.cursor == p.cursor
    &&& next.page == p.page
    &&& next.stats.merged == p.stats.merged
    &&& next.stats.skipped_tombstones == p.stats.skipped_tombstones
    &&& next.stats.superseded == p.stats.superseded
    &&& p.at <= next.at <= p.page.len()
    &&& forall|i: int, key: Seq<char>|
        p.at <= i < next.at ==> !#[trigger] has_key(p.table, p.page[i], key)
    &&& if next.at < p.page.len() {
        &&& step.1 matches ActionV::ReadLocal(key) && has_key(p.table, p.page[next.at], key)
        &&& next.stats.pulled == p.stats.pulled + 1
        &&& next.page_max >= p.page_max
        &&& next.page_max == p.page_max || is_integer(
            p.page[next.at]->Obj_0,
            "change_seq"@,
            next.page_max as int,
        )
        &&& forall|seq: i64| #[trigger]
            is_integer(p.page[next.at]->Obj_0, "change_seq"@, seq as int) ==> next.page_max >= seq
    } else {
        &&& next.stats.pulled == p.stats.pulled
        &&& next.page_max == p.page_max
        &&& if p.page_max > p.cursor {
            step.1 == ActionV::SetCursor(p.page_max)
        } else if p.page.len() < p.page_size {
            step.1 is Done
        } else {
            step.1 is Fail
        }
    }
}

proof fn lemma_sought(p: PullV)
    requires
        0 <= p.at <= p.page.len(),
    ensures
        sought(p, seek(p)),
    decreases p.page.len() - p.at,
{
    if p.at < p.page.len() {
        match fetched_key(p.table, p.page[p.at]) {
            None => {
                let passed = PullV { at: p.at + 1, ..p };
                lemma_sought(passed);
                assert forall|i: int, key: Seq<char>| p.at <= i < seek(p).0.at implies
                    !#[trigger] has_key(p.table, p.page[i], key) by {
                    lemma_has_key(p.table, p.page[i], key);
                    if i > p.at {
                        assert(!has_key(passed.table, passed.page[i], key));
                    }
                }
            },
            Some(key) => {
                lemma_has_key(p.table, p.page[p.at], key);
                let fields = p.page[p.at]->Obj_0;
                match fetched_seq(p.page[p.at]) {
                    Some(seq) => {
                        assert(is_integer(fields, "change_seq"@, seq as int));
                        assert forall|other: i64| #[trigger]
                            is_integer(fields, "change_seq"@, other as int) implies seek(
                            p,
                        ).0.page_max >= other by {}
                    },
                    None => {
                        assert forall|other: i64|
                            !#[trigger] is_integer(fields, "change_seq"@, other as int) by {}
                    },
                }
            },
        }
    }
}

/// A pull begins behind the stored cursor with nothing counted, and a fetched page is worked on from
/// its first row with the cursor as the highest number seen.
pub proof fn law_page_is_begun(
    table: Table,
    page_size: int,
    cursor: i64,
    p: PullV,
    rows: Seq<JsonV>,
)
    ensures
        ({
            let fresh = begun(table, page_size, cursor);
            &&& fresh.table == table
            &&& fresh.page_size == page_size
            &&& fresh.cursor == cursor
            &&& fresh.stats.pulled == 0
            &&& fresh.stats.merged == 0
            &&& fresh.stats.skipped_tombstones == 0
            &&& fresh.stats.superseded.len() == 0
        }),
        sought(PullV { page: rows, at: 0, page_max: p.cursor, ..p }, with_page(p, rows)),
{
    lemma_sought(PullV { page: rows, at: 0, page_max: p.cursor, ..p });
}

/// Given the local row, a row that wins is applied, and nothing else has changed by then. One that
/// does not is passed over, counted as a skipped tombstone if and only if nothing is stored.
pub proof fn law_local_row_decides(p: PullV, local: Option<RowV>)
    requires
        0 <= p.at < p.page.len(),
        p.page[p.at] is Obj,
    ensures
        ({
            let row = p.page[p.at]->Obj_0;
            let skipped: int = if local is None {
                1
            } else {
                0
            };
            if wins(row, local) {
                with_local(p, local) == (p, ActionV::Apply)
            } else {
                sought(
                    PullV {
                        at: p.at + 1,
                        stats: StatsV {
                            skipped_tombstones: p.stats.skipped_tombstones + skipped,
                            ..p.stats
                        },
                        ..p
                    },
                    with_local(p, local),
                )
            }
        }),
{
    lemma_sought(PullV { at: p.at + 1, ..p });
    lemma_sought(
        PullV {
            at: p.at + 1,
            stats: StatsV { skipped_tombstones: p.stats.skipped_tombstones + 1, ..p.stats },
            ..p
        },
    );
}

/// A row that was applied is counted as merged. Where it dropped queued edits, one is reported: the
/// newest of them, with the table, the row's key and the row's time. The rest of the page follows.
pub proof fn law_applied_row_is_counted(p: PullV, dropped: Seq<i64>, key: Seq<char>)
    requires
        0 <= p.at < p.page.len(),
        has_key(p.table, p.page[p.at], key),
    ensures
        ({
            let next = after_apply(p, dropped);
            let before = p.stats.superseded;
            let after = next.stats.superseded;
            &&& next == PullV {
                at: p.at + 1,
                stats: StatsV { merged: p.stats.merged + 1, superseded: after, ..p.stats },
                ..p
            }
            &&& if dropped.len() == 0 {
                after == before
            } else {
                &&& after.len() == before.len() + 1
                &&& after.drop_last() =~= before
                &&& after.last().table == table_name(p.table)
                &&& after.last().record_id == key
                &&& dropped.contains(after.last().discarded_updated_at)
                &&& forall|i: int|
                    0 <= i < dropped.len() ==> #[trigger] dropped[i]
                        <= after.last().discarded_updated_at
                &&& reads_as(
                    Some(p.page[p.at]->Obj_0),
                    "updated_at"@,
                    0,
                    after.last().winning_updated_at,
                )
            }
            &&& sought(next, with_applied(p, dropped))
        }),
{
    lemma_has_key(p.table, p.page[p.at], key);
    lemma_newest(dropped);
    lemma_sought(after_apply(p, dropped));
    let row = p.page[p.at]->Obj_0;
    if crate::json::row_i64(row, "updated_at"@) is None {
        assert forall|m: i64| !#[trigger] is_integer(row, "updated_at"@, m as int) by {}
    }
}

proof fn lemma_newest(stamps: Seq<i64>)
    ensures
        newest(stamps) is None <==> stamps.len() == 0,
        newest(stamps) matches Some(n) ==> stamps.contains(n) && forall|i: int|
            0 <= i < stamps.len() ==> #[trigger] stamps[i] <= n,
    decreases stamps.len(),
{
    if stamps.len() > 0 {
        let before = stamps.drop_last();
        lemma_newest(before);
        let n = newest(stamps)->Some_0;
        assert(stamps[stamps.len() - 1] == stamps.last());
        if n != stamps.last() {
            let i = choose|i: int| 0 <= i < before.len() && before[i] == n;
            assert(stamps[i] == n);
        }
        assert forall|i: int| 0 <= i < stamps.len() implies #[trigger] stamps[i] <= n by {
            if i < before.len() {
                assert(before[i] == stamps[i]);
            }
        }
    }
}

/// Storing the cursor moves it to the highest number seen and changes nothing else: a short page was
/// the last, and a full one is followed by the page behind the new cursor.
pub proof fn law_cursor_is_stored(p: PullV)
    ensures
        with_cursor(p).0 == (PullV { cursor: p.page_max, ..p }),
        p.page.len() < p.page_size ==> with_cursor(p).1 is Done,
        p.page.len() >= p.page_size ==> with_cursor(p).1 == ActionV::FetchPage(p.page_max),
{
}

} // verus!
