//! Which archive rows are merged and at what time, what is asked of the server for them, and what
//! its answers tell, all told from the rows themselves.

use crate::import::{NormalizedImportV, NormalizedRowV};
use crate::json::{json_i64, JsonV, Number, RowV};
use crate::merge::{
    candidates_of, chunked, known_time, law_merged_iff_newer, learned, lemma_accepted_bound,
    merge_time, newer, planned, row_keys, rows_of, selected, server_time, sound_page, table_order,
    told, CandidateV, FetchRequestV, Refusal, SelectionV, ServerRowV,
};
use crate::mirror::{stored, MirrorRow};
use crate::pull_laws::has_key;
use crate::signal_laws::is_integer;
use crate::tables::{Table, TABLES};
use crate::types::ImportCounts;
use crate::write_laws::holds;
use vstd::prelude::*;

verus! {

/// Whether the row at a place is the first of a table with a key.
pub open spec fn is_first(rows: Seq<MirrorRow>, table: Table, id: Seq<char>, i: int) -> bool {
    &&& 0 <= i < rows.len()
    &&& rows[i].table == table && rows[i].id@ == id
    &&& forall|j: int| 0 <= j < i ==> !((#[trigger] rows[j]).table == table && rows[j].id@ == id)
}

/// The stored row of a table with a key is the first that has both, with all its columns; there is
/// none if and only if no row has both.
pub proof fn law_first_row_is_stored(rows: Seq<MirrorRow>, table: Table, id: Seq<char>)
    ensures
        match stored(rows, table, id) {
            Some(row) => exists|i: int| #[trigger] is_first(rows, table, id, i) && rows[i].row@ == row,
            None => forall|j: int|
                0 <= j < rows.len() ==> !((#[trigger] rows[j]).table == table && rows[j].id@ == id),
        },
    decreases rows.len(),
{
    if rows.len() > 0 {
        let rest = rows.drop_first();
        law_first_row_is_stored(rest, table, id);
        if rows[0].table == table && rows[0].id@ == id {
            assert(is_first(rows, table, id, 0));
        } else {
            match stored(rest, table, id) {
                Some(row) => {
                    let i = choose|i: int| #[trigger]
                        is_first(rest, table, id, i) && rest[i].row@ == row;
                    assert(rows[i + 1] == rest[i]);
                    assert(is_first(rows, table, id, i + 1)) by {
                        assert forall|j: int| 0 <= j < i + 1 implies !((
                        #[trigger] rows[j]).table == table && rows[j].id@ == id) by {
                            if j > 0 {
                                assert(rest[j - 1] == rows[j]);
                            }
                        }
                    }
                },
                None => {
                    assert forall|j: int| 0 <= j < rows.len() implies !((#[trigger] rows[j]).table
                        == table && rows[j].id@ == id) by {
                        if j > 0 {
                            assert(rest[j - 1] == rows[j]);
                        }
                    }
                },
            }
        }
    }
}

/// Whether a time is the server's for a row: that of the first that is known of it.
pub open spec fn is_known(rows: Seq<ServerRowV>, table: Table, id: Seq<char>, time: i64) -> bool {
    exists|i: int|
        0 <= i < rows.len() && (#[trigger] rows[i]).table == table && rows[i].id == id
            && rows[i].updated_at == time && forall|j: int|
            0 <= j < i ==> !((#[trigger] rows[j]).table == table && rows[j].id == id)
}

/// The server's time for a row is that of the first that is known of it.
pub proof fn law_first_time_is_known(rows: Seq<ServerRowV>, table: Table, id: Seq<char>)
    ensures
        match server_time(rows, table, id) {
            Some(time) => is_known(rows, table, id, time),
            None => forall|j: int|
                0 <= j < rows.len() ==> !((#[trigger] rows[j]).table == table && rows[j].id == id),
        },
    decreases rows.len(),
{
    if rows.len() > 0 {
        let rest = rows.drop_first();
        law_first_time_is_known(rest, table, id);
        if !(rows[0].table == table && rows[0].id == id) {
            match server_time(rest, table, id) {
                Some(time) => {
                    let i = choose|i: int|
                        0 <= i < rest.len() && (#[trigger] rest[i]).table == table && rest[i].id
                            == id && rest[i].updated_at == time && forall|j: int|
                            0 <= j < i ==> !((#[trigger] rest[j]).table == table && rest[j].id
                                == id);
                    assert(rows[i + 1] == rest[i]);
                    assert forall|j: int| 0 <= j < i + 1 implies !((#[trigger] rows[j]).table
                        == table && rows[j].id == id) by {
                        if j > 0 {
                            assert(rest[j - 1] == rows[j]);
                        }
                    }
                },
                None => {
                    assert forall|j: int| 0 <= j < rows.len() implies !((#[trigger] rows[j]).table
                        == table && rows[j].id == id) by {
                        if j > 0 {
                            assert(rest[j - 1] == rows[j]);
                        }
                    }
                },
            }
        }
    }
}

/// Whether an archive row is newer than what is stored and what the server has under its key.
pub open spec fn is_newer(candidate: CandidateV, locals: Seq<MirrorRow>, server: Seq<ServerRowV>) -> bool {
    let time = candidate.row.updated_at;
    &&& match stored(locals, candidate.table, candidate.row.primary_key) {
        Some(row) => forall|n: i64| #[trigger]
            is_integer(row, "updated_at"@, n as int) ==> time > n,
        None => true,
    }
    &&& match server_time(server, candidate.table, candidate.row.primary_key) {
        Some(n) => time > n,
        None => true,
    }
}

/// Whether a stored row, if there is one, has a time.
pub open spec fn has_time(row: Option<RowV>) -> bool {
    match row {
        Some(r) => r.contains_key("updated_at"@) && match r["updated_at"@] {
            JsonV::Num(Number::PosInt(n)) => n <= i64::MAX,
            JsonV::Num(Number::NegInt(_)) => true,
            _ => false,
        },
        None => true,
    }
}

proof fn lemma_newer(candidate: CandidateV, locals: Seq<MirrorRow>, server: Seq<ServerRowV>)
    requires
        has_time(stored(locals, candidate.table, candidate.row.primary_key)),
    ensures
        is_newer(candidate, locals, server) <==> !crate::merge::stale(
            candidate.row.updated_at,
            known_time(candidate, locals, server),
        ),
{
    if let Some(row) = stored(locals, candidate.table, candidate.row.primary_key) {
        let n = json_i64(row["updated_at"@])->Some_0;
        assert(is_integer(row, "updated_at"@, n as int));
        assert forall|m: i64| #[trigger] is_integer(row, "updated_at"@, m as int) implies m == n by {}
    }
}

proof fn lemma_times(candidates: Seq<CandidateV>, locals: Seq<MirrorRow>, server: Seq<ServerRowV>, i: int)
    requires
        selected(candidates, locals, server) is Ok,
        0 <= i < candidates.len(),
    ensures
        has_time(stored(locals, candidates[i].table, candidates[i].row.primary_key)),
    decreases candidates.len(),
{
    if i < candidates.len() - 1 {
        assert(candidates.drop_last()[i] == candidates[i]);
        lemma_times(candidates.drop_last(), locals, server, i);
    }
}

/// An archive row is merged if and only if it is newer than what is stored and than what the server
/// has, whatever else it holds. The merged rows stand in the archive's order, each once.
pub proof fn law_newer_rows_are_merged(
    candidates: Seq<CandidateV>,
    locals: Seq<MirrorRow>,
    server: Seq<ServerRowV>,
    i: int,
)
    requires
        candidates.len() <= usize::MAX,
        selected(candidates, locals, server) is Ok,
        0 <= i < candidates.len(),
    ensures
        selected(candidates, locals, server)->Ok_0.accepted.contains(i as usize) <==> is_newer(
            candidates[i],
            locals,
            server,
        ),
        forall|j: int, k: int|
            0 <= j < k < selected(candidates, locals, server)->Ok_0.accepted.len()
                ==> #[trigger] selected(candidates, locals, server)->Ok_0.accepted[j]
                < #[trigger] selected(candidates, locals, server)->Ok_0.accepted[k],
{
    law_merged_iff_newer(candidates, locals, server, i);
    lemma_accepted_bound(candidates, locals, server);
    lemma_times(candidates, locals, server, i);
    lemma_newer(candidates[i], locals, server);
}

/// A selection is refused for want of a time only where a stored row under an archive row's key has
/// none, and is made wherever every such row has one and there are not too many rows to count.
pub proof fn law_selection_is_made(
    candidates: Seq<CandidateV>,
    locals: Seq<MirrorRow>,
    server: Seq<ServerRowV>,
)
    ensures
        selected(candidates, locals, server) is Ok ==> forall|i: int|
            #![trigger candidates[i]]
            0 <= i < candidates.len() ==> has_time(
                stored(locals, candidates[i].table, candidates[i].row.primary_key),
            ),
        candidates.len() <= u32::MAX && (forall|i: int|
            #![trigger candidates[i]]
            0 <= i < candidates.len() ==> has_time(
                stored(locals, candidates[i].table, candidates[i].row.primary_key),
            )) ==> selected(candidates, locals, server) is Ok,
        selected(candidates, locals, server) == Err::<SelectionV, Refusal>(Refusal::LocalTime)
            ==> exists|i: int|
            #![trigger candidates[i]]
            0 <= i < candidates.len() && !has_time(
                stored(locals, candidates[i].table, candidates[i].row.primary_key),
            ),
        selected(candidates, locals, server) matches Ok(s) ==> forall|table: Table| #[trigger]
            rows_counted(s.imported, table) + rows_counted(s.skipped_stale, table)
                <= candidates.len(),
    decreases candidates.len(),
{
    if candidates.len() > 0 {
        let before = candidates.drop_last();
        let last = candidates.len() - 1;
        law_selection_is_made(before, locals, server);
        assert forall|i: int| 0 <= i < last implies #[trigger] before[i] == candidates[i] by {}
        assert(candidates[last] == candidates.last());
        if selected(candidates, locals, server) is Ok {
            assert forall|i: int|
                #![trigger candidates[i]]
                0 <= i < candidates.len() implies has_time(
                stored(locals, candidates[i].table, candidates[i].row.primary_key),
            ) by {
                lemma_times(candidates, locals, server, i);
            }
        }
        if selected(candidates, locals, server) == Err::<SelectionV, Refusal>(Refusal::LocalTime) {
            if selected(before, locals, server) is Err {
                let i = choose|i: int|
                    #![trigger before[i]]
                    0 <= i < before.len() && !has_time(
                        stored(locals, before[i].table, before[i].row.primary_key),
                    );
                assert(candidates[i] == before[i]);
            }
        }
        if forall|i: int|
            #![trigger candidates[i]]
            0 <= i < candidates.len() ==> has_time(
                stored(locals, candidates[i].table, candidates[i].row.primary_key),
            ) {
            assert forall|i: int|
                #![trigger before[i]]
                0 <= i < before.len() implies has_time(
                stored(locals, before[i].table, before[i].row.primary_key),
            ) by {
                assert(candidates[i] == before[i]);
            }
            assert(has_time(stored(locals, candidates[last].table, candidates[last].row.primary_key)));
            if let Ok(s) = selected(before, locals, server) {
                assert(rows_counted(s.imported, candidates[last].table) + rows_counted(
                    s.skipped_stale,
                    candidates[last].table,
                ) <= before.len());
            }
        }
        if let Ok(s) = selected(candidates, locals, server) {
            let held = selected(before, locals, server)->Ok_0;
            assert forall|table: Table| #[trigger]
                rows_counted(s.imported, table) + rows_counted(s.skipped_stale, table)
                    <= candidates.len() by {
                assert(rows_counted(held.imported, table) + rows_counted(held.skipped_stale, table)
                    <= before.len());
            }
        }
    }
}

/// The count of a table among the counts of an import.
pub open spec fn rows_counted(counts: ImportCounts, table: Table) -> int {
    match table {
        Table::Books => counts.books as int,
        Table::Notes => counts.notes as int,
        Table::CustomIdeas => counts.custom_ideas as int,
        Table::NoteLinks => counts.note_links as int,
        Table::Lenses => counts.lenses as int,
        Table::Collections => counts.collections as int,
        Table::CollectionMemberships => counts.collection_memberships as int,
        Table::NoteSignals => counts.note_signals as int,
    }
}

/// The places of the archive rows of a table that are newer, or that are not.
pub open spec fn places(
    candidates: Seq<CandidateV>,
    locals: Seq<MirrorRow>,
    server: Seq<ServerRowV>,
    table: Table,
    newer_ones: bool,
) -> Set<int> {
    Set::new(
        |i: int|
            0 <= i < candidates.len() && candidates[i].table == table && is_newer(
                candidates[i],
                locals,
                server,
            ) == newer_ones,
    )
}

/// The rows that are merged and those that are passed over are counted for their own table, each
/// once.
pub proof fn law_rows_are_counted_by_table(
    candidates: Seq<CandidateV>,
    locals: Seq<MirrorRow>,
    server: Seq<ServerRowV>,
    table: Table,
)
    requires
        selected(candidates, locals, server) is Ok,
    ensures
        ({
            let s = selected(candidates, locals, server)->Ok_0;
            &&& places(candidates, locals, server, table, true).finite()
            &&& places(candidates, locals, server, table, false).finite()
            &&& rows_counted(s.imported, table) == places(
                candidates,
                locals,
                server,
                table,
                true,
            ).len()
            &&& rows_counted(s.skipped_stale, table) == places(
                candidates,
                locals,
                server,
                table,
                false,
            ).len()
        }),
    decreases candidates.len(),
{
    let merged = places(candidates, locals, server, table, true);
    let passed = places(candidates, locals, server, table, false);
    if candidates.len() == 0 {
        assert(merged =~= Set::empty());
        assert(passed =~= Set::empty());
    } else {
        let before = candidates.drop_last();
        let last = candidates.len() - 1;
        law_rows_are_counted_by_table(before, locals, server, table);
        lemma_times(candidates, locals, server, last);
        lemma_newer(candidates[last], locals, server);
        let held = places(before, locals, server, table, true);
        let left = places(before, locals, server, table, false);
        assert forall|i: int| 0 <= i < last implies #[trigger] before[i] == candidates[i] by {}
        assert(candidates[last] == candidates.last());
        if candidates[last].table == table {
            if is_newer(candidates[last], locals, server) {
                assert(merged =~= held.insert(last));
                assert(passed =~= left);
            } else {
                assert(merged =~= held);
                assert(passed =~= left.insert(last));
            }
        } else {
            assert(merged =~= held);
            assert(passed =~= left);
        }
    }
}

/// Whether a time is one that an archive row was held against: its own, the stored row's or the
/// server's.
pub open spec fn is_held_against(
    candidate: CandidateV,
    locals: Seq<MirrorRow>,
    server: Seq<ServerRowV>,
    time: int,
) -> bool {
    ||| time == candidate.row.updated_at
    ||| stored(locals, candidate.table, candidate.row.primary_key) matches Some(row) && is_integer(
        row,
        "updated_at"@,
        time,
    )
    ||| server_time(server, candidate.table, candidate.row.primary_key) matches Some(n) && time == n
}

proof fn lemma_newest_is_one(
    candidates: Seq<CandidateV>,
    locals: Seq<MirrorRow>,
    server: Seq<ServerRowV>,
)
    requires
        selected(candidates, locals, server) is Ok,
    ensures
        selected(candidates, locals, server)->Ok_0.newest matches Some(n) ==> exists|i: int|
            0 <= i < candidates.len() && #[trigger] is_newer(candidates[i], locals, server)
                && is_held_against(candidates[i], locals, server, n as int),
        selected(candidates, locals, server)->Ok_0.newest is Some <==> selected(
            candidates,
            locals,
            server,
        )->Ok_0.accepted.len() > 0,
        forall|i: int, t: i64|
            0 <= i < candidates.len() && is_newer(#[trigger] candidates[i], locals, server)
                && #[trigger] is_held_against(candidates[i], locals, server, t as int) ==> (selected(
                candidates,
                locals,
                server,
            )->Ok_0.newest matches Some(n) && t <= n),
    decreases candidates.len(),
{
    if candidates.len() > 0 {
        let before = candidates.drop_last();
        let last = candidates.len() - 1;
        lemma_newest_is_one(before, locals, server);
        lemma_times(candidates, locals, server, last);
        lemma_newer(candidates[last], locals, server);
        let held = selected(before, locals, server)->Ok_0;
        let s = selected(candidates, locals, server)->Ok_0;
        assert forall|i: int| 0 <= i < last implies #[trigger] before[i] == candidates[i] by {}
        assert(candidates[last] == candidates.last());
        if let Some(n) = s.newest {
            if held.newest == Some(n) {
                let i = choose|i: int|
                    0 <= i < before.len() && #[trigger] is_newer(before[i], locals, server)
                        && is_held_against(before[i], locals, server, n as int);
                assert(is_newer(candidates[i], locals, server));
            } else {
                assert(is_newer(candidates[last], locals, server));
                assert(is_held_against(candidates[last], locals, server, n as int));
            }
        }
        assert forall|i: int, t: i64|
            0 <= i < candidates.len() && is_newer(#[trigger] candidates[i], locals, server)
                && #[trigger] is_held_against(candidates[i], locals, server, t as int) implies (
        s.newest matches Some(n) && t <= n) by {
            if i < last {
                assert(before[i] == candidates[i]);
                assert(is_held_against(before[i], locals, server, t as int));
            }
        }
    }
}

/// The common time of the merged rows is now, or just after the newest time that a merged row was
/// held against, whichever is later. There is none where no row is merged, and none can be given
/// where the newest is the last there is.
pub proof fn law_common_time(
    candidates: Seq<CandidateV>,
    locals: Seq<MirrorRow>,
    server: Seq<ServerRowV>,
    now: i64,
)
    requires
        selected(candidates, locals, server) is Ok,
    ensures
        match merge_time(selected(candidates, locals, server)->Ok_0, now) {
            Ok(Some(time)) => {
                &&& time >= now
                &&& forall|i: int, t: i64|
                    0 <= i < candidates.len() && is_newer(#[trigger] candidates[i], locals, server)
                        && #[trigger] is_held_against(candidates[i], locals, server, t as int)
                        ==> t < time
                &&& time == now || exists|i: int|
                    0 <= i < candidates.len() && #[trigger] is_newer(candidates[i], locals, server)
                        && is_held_against(candidates[i], locals, server, time - 1)
            },
            Ok(None) => selected(candidates, locals, server)->Ok_0.accepted.len() == 0,
            Err(_) => exists|i: int|
                0 <= i < candidates.len() && #[trigger] is_newer(candidates[i], locals, server)
                    && is_held_against(candidates[i], locals, server, i64::MAX as int),
        },
{
    lemma_newest_is_one(candidates, locals, server);
}

/// A page on which an import may rest is one whose rows are all objects with a key that is not
/// empty, a whole time, a mark of deletion that is true or false, and a sequence number that is not
/// negative, lies beyond the one asked for, and rises from row to row.
pub proof fn law_sound_page(table: Table, after: i64, rows: Seq<JsonV>, seqs: Seq<i64>)
    requires
        seqs.len() == rows.len(),
    ensures
        (forall|i: int|
            #![trigger rows[i]]
            0 <= i < rows.len() ==> {
                &&& rows[i] is Obj
                &&& exists|key: Seq<char>| #[trigger] has_key(table, rows[i], key) && key.len() > 0
                &&& exists|time: i64| #[trigger]
                    is_integer(rows[i]->Obj_0, "updated_at"@, time as int)
                &&& rows[i]->Obj_0.contains_key("deleted"@) && rows[i]->Obj_0["deleted"@] is Bool
                &&& is_integer(rows[i]->Obj_0, "change_seq"@, seqs[i] as int)
                &&& seqs[i] >= 0 && seqs[i] > after
            }) && (forall|i: int, j: int| 0 <= i < j < rows.len() ==> seqs[i] < seqs[j])
            ==> sound_page(table, after, rows),
        sound_page(table, after, rows) ==> forall|i: int|
            #![trigger rows[i]]
            0 <= i < rows.len() ==> {
                &&& rows[i] is Obj
                &&& exists|key: Seq<char>| #[trigger] has_key(table, rows[i], key) && key.len() > 0
                &&& exists|time: i64| #[trigger]
                    is_integer(rows[i]->Obj_0, "updated_at"@, time as int)
                &&& rows[i]->Obj_0.contains_key("deleted"@) && rows[i]->Obj_0["deleted"@] is Bool
                &&& exists|seq: i64| #[trigger]
                    is_integer(rows[i]->Obj_0, "change_seq"@, seq as int) && seq >= 0 && seq > after
            },
        sound_page(table, after, rows) ==> forall|i: int, j: int, a: i64, b: i64|
            0 <= i < j < rows.len() && #[trigger] is_integer(
                rows[i]->Obj_0,
                "change_seq"@,
                a as int,
            ) && #[trigger] is_integer(rows[j]->Obj_0, "change_seq"@, b as int) ==> a < b,
{
    if sound_page(table, after, rows) {
        assert forall|i: int|
            #![trigger rows[i]]
            0 <= i < rows.len() implies {
            &&& rows[i] is Obj
            &&& exists|key: Seq<char>| #[trigger] has_key(table, rows[i], key) && key.len() > 0
            &&& exists|time: i64| #[trigger] is_integer(rows[i]->Obj_0, "updated_at"@, time as int)
            &&& rows[i]->Obj_0.contains_key("deleted"@) && rows[i]->Obj_0["deleted"@] is Bool
            &&& exists|seq: i64| #[trigger]
                is_integer(rows[i]->Obj_0, "change_seq"@, seq as int) && seq >= 0 && seq > after
        } by {
            let fields = rows[i]->Obj_0;
            let key = crate::json::row_text(fields, crate::tables::key_column(table))->Some_0;
            assert(has_key(table, rows[i], key));
            let time = crate::json::row_i64(fields, "updated_at"@)->Some_0;
            assert(is_integer(fields, "updated_at"@, time as int));
            let seq = crate::merge::page_seq(rows[i])->Some_0;
            assert(is_integer(fields, "change_seq"@, seq as int));
        }
        assert forall|i: int, j: int, a: i64, b: i64|
            0 <= i < j < rows.len() && #[trigger] is_integer(
                rows[i]->Obj_0,
                "change_seq"@,
                a as int,
            ) && #[trigger] is_integer(rows[j]->Obj_0, "change_seq"@, b as int) implies a < b by {
            assert(crate::merge::page_seq(rows[i]) == Some(a));
            assert(crate::merge::page_seq(rows[j]) == Some(b));
        }
    }
    if (forall|i: int|
        #![trigger rows[i]]
        0 <= i < rows.len() ==> {
            &&& rows[i] is Obj
            &&& exists|key: Seq<char>| #[trigger] has_key(table, rows[i], key) && key.len() > 0
            &&& exists|time: i64| #[trigger] is_integer(rows[i]->Obj_0, "updated_at"@, time as int)
            &&& rows[i]->Obj_0.contains_key("deleted"@) && rows[i]->Obj_0["deleted"@] is Bool
            &&& is_integer(rows[i]->Obj_0, "change_seq"@, seqs[i] as int)
            &&& seqs[i] >= 0 && seqs[i] > after
        }) && (forall|i: int, j: int| 0 <= i < j < rows.len() ==> seqs[i] < seqs[j]) {
        assert forall|i: int| 0 <= i < rows.len() implies crate::merge::whole_row(
            table,
            #[trigger] rows[i],
        ) && crate::merge::page_seq(rows[i]) == Some(seqs[i]) by {
            let key = choose|key: Seq<char>| #[trigger]
                has_key(table, rows[i], key) && key.len() > 0;
            assert(has_key(table, rows[i], key));
            let time = choose|time: i64| #[trigger]
                is_integer(rows[i]->Obj_0, "updated_at"@, time as int);
            assert(is_integer(rows[i]->Obj_0, "updated_at"@, time as int));
        }
    }
}

/// Whether a returned row tells the time of a row that was asked for: an object with its key, its
/// whole time and a mark of deletion that is true or false.
pub open spec fn tells(
    table: Table,
    requested: Seq<Seq<char>>,
    row: JsonV,
    known: ServerRowV,
) -> bool {
    &&& row is Obj
    &&& known.table == table
    &&& has_key(table, row, known.id)
    &&& requested.contains(known.id)
    &&& is_integer(row->Obj_0, "updated_at"@, known.updated_at as int)
    &&& row->Obj_0.contains_key("deleted"@) && row->Obj_0["deleted"@] is Bool
}

proof fn lemma_told(
    table: Table,
    requested: Seq<Seq<char>>,
    row: JsonV,
    known: Seq<ServerRowV>,
    next: ServerRowV,
)
    ensures
        told(table, requested, row, known) == Some(next) <==> tells(table, requested, row, next)
            && forall|j: int|
            0 <= j < known.len() ==> !((#[trigger] known[j]).table == table && known[j].id
                == next.id),
{
    law_first_time_is_known(known, table, next.id);
    if server_time(known, table, next.id) is Some {
        let time = server_time(known, table, next.id)->Some_0;
        assert(is_known(known, table, next.id, time));
        let i = choose|i: int|
            0 <= i < known.len() && (#[trigger] known[i]).table == table && known[i].id == next.id
                && known[i].updated_at == time && forall|j: int|
                0 <= j < i ==> !((#[trigger] known[j]).table == table && known[j].id == next.id);
        assert(known[i].table == table && known[i].id == next.id);
    }
}

/// An answer is taken if and only if each of its rows tells the time of a row that was asked for and
/// that nothing was known of yet. What is known then is what was known before and what the rows
/// tell, in order.
pub proof fn law_answers_are_taken_whole(
    table: Table,
    requested: Seq<Seq<char>>,
    returned: Seq<JsonV>,
    known: Seq<ServerRowV>,
    after: Seq<ServerRowV>,
)
    ensures
        learned(table, requested, returned, known) == Some(after) <==> {
            &&& after.len() == known.len() + returned.len()
            &&& after.take(known.len() as int) =~= known
            &&& forall|i: int|
                #![trigger after[i]]
                known.len() <= i < after.len() ==> tells(
                    table,
                    requested,
                    returned[i - known.len()],
                    after[i],
                ) && forall|j: int|
                    0 <= j < i ==> !((#[trigger] after[j]).table == table && after[j].id
                        == after[i].id)
        },
    decreases returned.len(),
{
    if returned.len() == 0 {
        if after.len() == known.len() {
            assert(after.take(known.len() as int) =~= after);
        }
    } else {
        let rest = returned.drop_last();
        let n = known.len() as int;
        let last = after.len() - 1;
        if after.len() == known.len() + returned.len() {
            let held = after.drop_last();
            law_answers_are_taken_whole(table, requested, rest, known, held);
            lemma_told(table, requested, returned.last(), held, after.last());
            assert(after[last] == after.last());
            assert(returned[last - n] == returned.last());
            assert(held.take(n) =~= after.take(n));
            assert(held.push(after.last()) =~= after);
            assert forall|j: int| 0 <= j < last implies #[trigger] held[j] == after[j] by {}
            if learned(table, requested, returned, known) == Some(after) {
                let before = learned(table, requested, rest, known)->Some_0;
                assert(before =~= held);
                assert forall|i: int|
                    #![trigger after[i]]
                    n <= i < after.len() implies tells(
                    table,
                    requested,
                    returned[i - n],
                    after[i],
                ) && forall|j: int|
                    0 <= j < i ==> !((#[trigger] after[j]).table == table && after[j].id
                        == after[i].id) by {
                    if i < last {
                        assert(held[i] == after[i]);
                        assert(rest[i - n] == returned[i - n]);
                        assert forall|j: int| 0 <= j < i implies !((#[trigger] after[j]).table
                            == table && after[j].id == after[i].id) by {
                            assert(held[j] == after[j]);
                        }
                    } else {
                        assert forall|j: int| 0 <= j < i implies !((#[trigger] after[j]).table
                            == table && after[j].id == after[i].id) by {
                            assert(held[j] == after[j]);
                        }
                    }
                }
            } else if after.take(n) =~= known && forall|i: int|
                #![trigger after[i]]
                n <= i < after.len() ==> tells(table, requested, returned[i - n], after[i])
                    && forall|j: int|
                    0 <= j < i ==> !((#[trigger] after[j]).table == table && after[j].id
                        == after[i].id) {
                assert forall|i: int|
                    #![trigger held[i]]
                    n <= i < held.len() implies tells(table, requested, rest[i - n], held[i])
                    && forall|j: int|
                    0 <= j < i ==> !((#[trigger] held[j]).table == table && held[j].id
                        == held[i].id) by {
                    assert(held[i] == after[i]);
                    assert(rest[i - n] == returned[i - n]);
                    assert forall|j: int| 0 <= j < i implies !((#[trigger] held[j]).table == table
                        && held[j].id == held[i].id) by {
                        assert(held[j] == after[j]);
                    }
                }
                assert(learned(table, requested, rest, known) == Some(held));
                assert(tells(table, requested, returned[last - n], after[last]));
                assert forall|j: int| 0 <= j < held.len() implies !((#[trigger] held[j]).table
                    == table && held[j].id == after.last().id) by {
                    assert(held[j] == after[j]);
                }
                assert(learned(table, requested, returned, known) == Some(after));
            }
        } else if learned(table, requested, returned, known) == Some(after) {
            let before = learned(table, requested, rest, known)->Some_0;
            law_answers_are_taken_whole(table, requested, rest, known, before);
            assert(after.len() == before.len() + 1);
        }
    }
}

/// Requests for the keys of a table are full, of one hundred keys each, but for the last.
pub proof fn law_requests_are_full(table: Table, ids: Seq<Seq<char>>, i: int)
    requires
        0 <= i < chunked(table, ids).len(),
    ensures
        chunked(table, ids)[i].table == table,
        100 * (chunked(table, ids).len() - 1) < ids.len() <= 100 * chunked(table, ids).len(),
        chunked(table, ids)[i].ids =~= ids.subrange(
            100 * i,
            if 100 * (i + 1) <= ids.len() {
                100 * (i + 1)
            } else {
                ids.len() as int
            },
        ),
    decreases ids.len(),
{
    let all = chunked(table, ids);
    if ids.len() <= 100 {
        assert(ids.subrange(0, ids.len() as int) =~= ids);
    } else {
        let rest = ids.skip(100);
        let more = chunked(table, rest);
        assert(more.len() > 0);
        assert(all.len() == more.len() + 1);
        law_requests_are_full(table, rest, if i > 0 { i - 1 } else { 0 });
        if i == 0 {
            assert(all[0].ids =~= ids.subrange(0, 100));
        } else {
            assert(all[i] == more[i - 1]);
        }
    }
}

proof fn lemma_tables(table: Table)
    ensures
        exists|t: int| 0 <= t < 8 && #[trigger] TABLES@[t] == table,
{
    let t: int = match table {
        Table::Books => 0,
        Table::Notes => 1,
        Table::CustomIdeas => 2,
        Table::NoteLinks => 3,
        Table::Lenses => 4,
        Table::Collections => 5,
        Table::CollectionMemberships => 6,
        Table::NoteSignals => 7,
    };
    assert(TABLES@[t] == table);
}

proof fn lemma_candidate_is_there(
    import: NormalizedImportV,
    tables: Seq<Table>,
    t: int,
    i: int,
)
    requires
        0 <= t < tables.len(),
        0 <= i < rows_of(import, tables[t]).len(),
    ensures
        candidates_of(import, tables).contains(
            CandidateV { table: tables[t], row: rows_of(import, tables[t])[i] },
        ),
    decreases tables.len(),
{
    let before = tables.drop_last();
    let held = candidates_of(import, before);
    let all = candidates_of(import, tables);
    let want = CandidateV { table: tables[t], row: rows_of(import, tables[t])[i] };
    if t < before.len() {
        assert(before[t] == tables[t]);
        lemma_candidate_is_there(import, before, t, i);
        let k = choose|k: int| 0 <= k < held.len() && held[k] == want;
        assert(all[k] == want);
    } else {
        assert(all[held.len() + i] == want);
    }
}

proof fn lemma_candidate_is_archived(import: NormalizedImportV, tables: Seq<Table>, k: int)
    requires
        0 <= k < candidates_of(import, tables).len(),
    ensures
        rows_of(import, candidates_of(import, tables)[k].table).contains(
            candidates_of(import, tables)[k].row,
        ),
    decreases tables.len(),
{
    let before = tables.drop_last();
    let held = candidates_of(import, before);
    let all = candidates_of(import, tables);
    if k < held.len() {
        lemma_candidate_is_archived(import, before, k);
        assert(all[k] == held[k]);
    } else {
        let rows = rows_of(import, tables.last());
        assert(all[k].row == rows[k - held.len()]);
    }
}

/// The rows of a table of an archive.
pub open spec fn archived(import: NormalizedImportV, table: Table) -> Seq<NormalizedRowV> {
    match table {
        Table::Books => import.books,
        Table::Notes => import.notes,
        Table::CustomIdeas => import.custom_ideas,
        Table::NoteLinks => import.note_links,
        Table::Lenses => import.lenses,
        Table::Collections => import.collections,
        Table::CollectionMemberships => import.collection_memberships,
        Table::NoteSignals => import.note_signals,
    }
}

/// Every row of an archive is a candidate for its own table, and there are no other candidates.
pub proof fn law_every_archive_row_is_a_candidate(
    import: NormalizedImportV,
    table: Table,
    row: NormalizedRowV,
)
    ensures
        candidates_of(import, table_order()).contains(CandidateV { table, row }) <==> archived(
            import,
            table,
        ).contains(row),
{
    let all = candidates_of(import, table_order());
    assert(rows_of(import, table) == archived(import, table));
    if archived(import, table).contains(row) {
        let i = choose|i: int|
            0 <= i < archived(import, table).len() && archived(import, table)[i] == row;
        lemma_tables(table);
        let t = choose|t: int| 0 <= t < 8 && #[trigger] TABLES@[t] == table;
        lemma_candidate_is_there(import, table_order(), t, i);
    }
    if all.contains(CandidateV { table, row }) {
        let k = choose|k: int| 0 <= k < all.len() && all[k] == CandidateV { table, row };
        lemma_candidate_is_archived(import, table_order(), k);
    }
}

proof fn lemma_asked(import: NormalizedImportV, tables: Seq<Table>, request: FetchRequestV)
    ensures
        planned(import, tables).contains(request) <==> exists|t: int|
            0 <= t < tables.len() && chunked(
                #[trigger] tables[t],
                row_keys(rows_of(import, tables[t])),
            ).contains(request),
    decreases tables.len(),
{
    if tables.len() > 0 {
        let before = tables.drop_last();
        let last = tables.len() - 1;
        let held = planned(import, before);
        let own = chunked(tables.last(), row_keys(rows_of(import, tables.last())));
        let all = planned(import, tables);
        lemma_asked(import, before, request);
        assert(tables[last] == tables.last());
        if all.contains(request) {
            let k = choose|k: int| 0 <= k < all.len() && all[k] == request;
            if k < held.len() {
                assert(held[k] == request);
                let t = choose|t: int|
                    0 <= t < before.len() && chunked(
                        #[trigger] before[t],
                        row_keys(rows_of(import, before[t])),
                    ).contains(request);
                assert(tables[t] == before[t]);
            } else {
                assert(own[k - held.len()] == request);
            }
        }
        if exists|t: int|
            0 <= t < tables.len() && chunked(
                #[trigger] tables[t],
                row_keys(rows_of(import, tables[t])),
            ).contains(request) {
            let t = choose|t: int|
                0 <= t < tables.len() && chunked(
                    #[trigger] tables[t],
                    row_keys(rows_of(import, tables[t])),
                ).contains(request);
            if t < last {
                assert(before[t] == tables[t]);
                let k = choose|k: int| 0 <= k < held.len() && held[k] == request;
                assert(all[k] == request);
            } else {
                let k = choose|k: int| 0 <= k < own.len() && own[k] == request;
                assert(all[held.len() + k] == request);
            }
        }
    }
}

/// The server is asked for the key of every archive row, in a request for the row's own table.
pub proof fn law_every_archive_row_is_asked_for(import: NormalizedImportV, table: Table, i: int)
    requires
        0 <= i < archived(import, table).len(),
    ensures
        exists|r: int|
            0 <= r < planned(import, table_order()).len() && (#[trigger] planned(
                import,
                table_order(),
            )[r]).table == table && planned(import, table_order())[r].ids.contains(
                archived(import, table)[i].primary_key,
            ),
{
    let rows = rows_of(import, table);
    let keys = row_keys(rows);
    let chunks = chunked(table, keys);
    let at = i / 100;
    lemma_chunks(table, keys);
    law_requests_are_full(table, keys, at);
    let request = chunks[at];
    assert(request.ids[i - 100 * at] == keys[i]);
    assert(request.ids.contains(keys[i]));
    assert(chunks.contains(request));
    lemma_tables(table);
    let t = choose|t: int| 0 <= t < 8 && #[trigger] TABLES@[t] == table;
    assert(table_order()[t] == table);
    lemma_asked(import, table_order(), request);
    let all = planned(import, table_order());
    let r = choose|r: int| 0 <= r < all.len() && all[r] == request;
    assert(all[r].table == table);
}

proof fn lemma_chunks(table: Table, ids: Seq<Seq<char>>)
    ensures
        ids.len() <= 100 * chunked(table, ids).len(),
    decreases ids.len(),
{
    if ids.len() > 100 {
        lemma_chunks(table, ids.skip(100));
    }
}

/// The candidates of a table, one for each of its rows.
pub open spec fn offered(table: Table, rows: Seq<NormalizedRowV>) -> Seq<CandidateV> {
    Seq::new(rows.len(), |i: int| CandidateV { table, row: rows[i] })
}

/// The candidates stand in the order in which the tables are synced, and in the archive's order
/// within each.
pub proof fn law_candidates_stand_in_order(import: NormalizedImportV)
    ensures
        candidates_of(import, table_order()) =~= offered(Table::Books, import.books) + offered(
            Table::Notes,
            import.notes,
        ) + offered(Table::CustomIdeas, import.custom_ideas) + offered(
            Table::NoteLinks,
            import.note_links,
        ) + offered(Table::Lenses, import.lenses) + offered(Table::Collections, import.collections)
            + offered(Table::CollectionMemberships, import.collection_memberships) + offered(
            Table::NoteSignals,
            import.note_signals,
        ),
{
    let tables = table_order();
    lemma_candidates_upto(import, 1);
    lemma_candidates_upto(import, 2);
    lemma_candidates_upto(import, 3);
    lemma_candidates_upto(import, 4);
    lemma_candidates_upto(import, 5);
    lemma_candidates_upto(import, 6);
    lemma_candidates_upto(import, 7);
    lemma_candidates_upto(import, 8);
    assert(candidates_of(import, tables.take(0)) =~= Seq::empty());
    assert(tables.take(8) =~= tables);
    assert(tables[0] == Table::Books && tables[1] == Table::Notes && tables[2]
        == Table::CustomIdeas && tables[3] == Table::NoteLinks && tables[4] == Table::Lenses
        && tables[5] == Table::Collections && tables[6] == Table::CollectionMemberships
        && tables[7] == Table::NoteSignals);
}

proof fn lemma_candidates_upto(import: NormalizedImportV, n: int)
    requires
        1 <= n <= 8,
    ensures
        candidates_of(import, table_order().take(n)) == candidates_of(
            import,
            table_order().take(n - 1),
        ) + offered(table_order()[n - 1], rows_of(import, table_order()[n - 1])),
{
    let tables = table_order();
    let table = tables[n - 1];
    assert(tables.take(n).drop_last() =~= tables.take(n - 1));
    assert(tables.take(n).last() == table);
    assert(offered(table, rows_of(import, table)) =~= crate::merge::tagged(
        table,
        rows_of(import, table),
    ));
}

} // verus!
