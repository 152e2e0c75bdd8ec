//! Merging an archive into the local rows: what is asked of the server first, which archive rows
//! are newer than what is known, and the rows that are staged.

use crate::annotations::{SealV, SealedText};
use crate::columns::{complete_row, completed_row, fields_of, has_column, law_completed_row};
use crate::import::{
    invalid, normalized_archive, parse_import_at, rows_view, NormalizedImport, NormalizedImportV, NormalizedRow,
    NormalizedRowV,
};
use crate::json::{
    field, holds_text, int_json, items_view, json_view, lemma_items_view, row_bool, row_i64, row_text,
    texts_view, Fields, Json, JsonV, RowV,
};
use crate::json_text::parsed_json;
use crate::mirror::{stored, Mirror, MirrorRow};
use crate::pull::{max_i64, PullResult};
use crate::tables::{key_column, table_name, Table};
use crate::text::same_text;
use crate::types::{
    flush_error, import_error, store_error, ImportCounts, ImportSummary, SyncError, Write, WriteV,
};
use vstd::prelude::*;

verus! {

/// How many rows are asked for at once.
pub const FETCH_CHUNK_SIZE: usize = 100;

/// What is said of any failure on the server's side.
pub open spec fn preflight_failed() -> Seq<char> {
    "snapshot import server preflight failed"@
}

/// What is said of any failure on the server's side, in place of what the server said.
pub fn preflight_refusal() -> (message: String)
    ensures
        message@ == preflight_failed(),
{
    "snapshot import server preflight failed".to_owned()
}

/// What is said of any failure on the store's side.
pub open spec fn persistence_failed() -> Seq<char> {
    "snapshot import persistence failed"@
}

/// The error for a failure on the server's side.
pub fn preflight_error() -> (error: SyncError)
    ensures
        flush_error(error, preflight_failed()),
{
    SyncError::Flush(preflight_refusal())
}

/// The error for a failure on the store's side.
pub fn persistence_error() -> (error: SyncError)
    ensures
        store_error(error, persistence_failed()),
{
    SyncError::store("snapshot import persistence failed")
}

/// Lets an import go on behind a pull that went through for every table.
pub fn require_clean_pull(result: &PullResult) -> (allowed: Result<(), SyncError>)
    ensures
        match allowed {
            Ok(_) => result.failed_tables@.len() == 0,
            Err(e) => result.failed_tables@.len() > 0 && flush_error(e, preflight_failed()),
        },
{
    if result.failed_tables.len() == 0 {
        Ok(())
    } else {
        Err(preflight_error())
    }
}

/// A row of a page is whole: an object with a key, a time and a mark of deletion.
pub open spec fn whole_row(table: Table, row: JsonV) -> bool {
    match row {
        JsonV::Obj(fields) => {
            &&& match row_text(fields, key_column(table)) {
                Some(key) => key.len() > 0,
                None => false,
            }
            &&& row_i64(fields, "updated_at"@) is Some
            &&& row_bool(fields, "deleted"@) is Some
        },
        _ => false,
    }
}

/// The server sequence number of a row.
pub open spec fn page_seq(row: JsonV) -> Option<i64> {
    match row {
        JsonV::Obj(fields) => row_i64(fields, "change_seq"@),
        _ => None,
    }
}

/// A page on which an import may rest: every row whole, the sequence numbers not negative, beyond
/// the one asked for, and ascending.
pub open spec fn sound_page(table: Table, after_seq: i64, rows: Seq<JsonV>) -> bool {
    &&& forall|i: int|
        0 <= i < rows.len() ==> {
            &&& whole_row(table, #[trigger] rows[i])
            &&& page_seq(rows[i]) is Some
            &&& page_seq(rows[i])->Some_0 >= 0
            &&& page_seq(rows[i])->Some_0 > after_seq
        }
    &&& forall|i: int, j: int|
        0 <= i < j < rows.len() ==> page_seq(#[trigger] rows[i])->Some_0 < page_seq(
            #[trigger] rows[j],
        )->Some_0
}

fn is_whole_row(table: Table, row: &Fields) -> (yes: bool)
    ensures
        yes == whole_row(table, JsonV::Obj(row@)),
{
    let keyed = match row.get_text(table.key_column()) {
        Some(key) => !is_empty_text(key.as_str()),
        None => false,
    };
    keyed && row.get_i64("updated_at").is_some() && row.get_bool("deleted").is_some()
}

fn is_empty_text(s: &str) -> (yes: bool)
    ensures
        yes == (s@.len() == 0),
{
    proof {
        reveal_strlit("");
    }
    assert(s@.len() == 0 ==> s@ =~= ""@);
    same_text(s, "")
}

/// Refuses a page on which an import may not rest.
pub fn validate_pull_page(table: Table, after_seq: i64, rows: &Vec<Json>) -> (result: Result<
    (),
    String,
>)
    ensures
        result is Ok <==> sound_page(table, after_seq, items_view(rows@)),
        match result {
            Ok(_) => true,
            Err(message) => message@ == preflight_failed(),
        },
{
    let ghost all = items_view(rows@);
    proof {
        lemma_items_view(rows@);
    }
    let mut prior = after_seq;
    let mut i: usize = 0;
    while i < rows.len()
        invariant
            i <= rows@.len(),
            all == items_view(rows@),
            all.len() == rows@.len(),
            forall|j: int| 0 <= j < all.len() ==> #[trigger] all[j] == json_view(rows@[j]),
            sound_page(table, after_seq, all.take(i as int)),
            prior >= after_seq,
            i == 0 ==> prior == after_seq,
            i > 0 ==> page_seq(all[i - 1]) == Some(prior),
        decreases rows.len() - i,
    {
        assert(all[i as int] == json_view(rows@[i as int]));
        let next = match rows[i].as_object() {
            Some(row) => match row.get_i64("change_seq") {
                Some(seq) => if seq >= 0 && is_whole_row(table, row) && seq > prior {
                    Some(seq)
                } else {
                    None
                },
                None => None,
            },
            None => None,
        };
        match next {
            Some(seq) => {
                proof {
                    let before = all.take(i as int);
                    let after = all.take(i + 1);
                    assert forall|k: int| 0 <= k < after.len() implies {
                        &&& whole_row(table, #[trigger] after[k])
                        &&& page_seq(after[k]) is Some
                        &&& page_seq(after[k])->Some_0 >= 0
                        &&& page_seq(after[k])->Some_0 > after_seq
                    } by {
                        if k < i {
                            assert(before[k] == after[k]);
                        }
                    }
                    assert forall|k: int, l: int| 0 <= k < l < after.len() implies page_seq(
                        #[trigger] after[k],
                    )->Some_0 < page_seq(#[trigger] after[l])->Some_0 by {
                        assert(before[k] == after[k]);
                        if l < i {
                            assert(before[l] == after[l]);
                        } else if k < i - 1 {
                            assert(before[i - 1] == all[i - 1]);
                        }
                    }
                }
                prior = seq;
            },
            None => {
                proof {
                    if sound_page(table, after_seq, all) {
                        assert(whole_row(table, all[i as int]));
                        if i > 0 {
                            assert(page_seq(all[i - 1])->Some_0 < page_seq(all[i as int])->Some_0);
                        }
                    }
                }
                return Err(preflight_refusal());
            },
        }
        i = i + 1;
    }
    assert(all.take(all.len() as int) =~= all);
    Ok(())
}

/// A request for the server's rows with some keys.
#[derive(Debug)]
pub struct FetchRequest {
    pub table: Table,
    pub ids: Vec<String>,
}

pub struct FetchRequestV {
    pub table: Table,
    pub ids: Seq<Seq<char>>,
}

impl View for FetchRequest {
    type V = FetchRequestV;

    open spec fn view(&self) -> FetchRequestV {
        FetchRequestV { table: self.table, ids: texts_view(self.ids@) }
    }
}

pub open spec fn requests_view(requests: Seq<FetchRequest>) -> Seq<FetchRequestV> {
    requests.map_values(|r: FetchRequest| r@)
}

/// The keys of archive rows.
pub open spec fn row_keys(rows: Seq<NormalizedRowV>) -> Seq<Seq<char>> {
    rows.map_values(|r: NormalizedRowV| r.primary_key)
}

/// Keys in requests of at most so many, in order.
pub open spec fn chunked(table: Table, ids: Seq<Seq<char>>) -> Seq<FetchRequestV>
    decreases ids.len(),
{
    if ids.len() == 0 {
        Seq::empty()
    } else if ids.len() <= FETCH_CHUNK_SIZE {
        seq![FetchRequestV { table, ids }]
    } else {
        seq![FetchRequestV { table, ids: ids.take(FETCH_CHUNK_SIZE as int) }] + chunked(
            table,
            ids.skip(FETCH_CHUNK_SIZE as int),
        )
    }
}

/// The rows of an archive for a table.
pub open spec fn rows_of(import: NormalizedImportV, table: Table) -> Seq<NormalizedRowV> {
    match table {
        Table::Books => import.books,
        Table::Notes => import.notes,
        Table::CustomIdeas => import.custom_ideas,
        Table::NoteLinks => import.note_links,
        Table::Lenses => import.lenses,
        Table::Collections => import.collections,
        Table::CollectionMemberships => import.collection_memberships,
        Table::NoteSignals => import.note_signals,
    }
}

/// The tables in the order in which they are synced.
pub open spec fn table_order() -> Seq<Table> {
    crate::tables::TABLES@
}

/// What is asked of the server for some tables of an archive.
pub open spec fn planned(import: NormalizedImportV, tables: Seq<Table>) -> Seq<FetchRequestV>
    decreases tables.len(),
{
    if tables.len() == 0 {
        Seq::empty()
    } else {
        planned(import, tables.drop_last()) + chunked(
            tables.last(),
            row_keys(rows_of(import, tables.last())),
        )
    }
}

impl NormalizedImport {
    /// The rows of an archive for a table.
    pub fn rows(&self, table: Table) -> (rows: &Vec<NormalizedRow>)
        ensures
            rows_view(rows@) == rows_of(self@, table),
    {
        match table {
            Table::Books => &self.books,
            Table::Notes => &self.notes,
            Table::CustomIdeas => &self.custom_ideas,
            Table::NoteLinks => &self.note_links,
            Table::Lenses => &self.lenses,
            Table::Collections => &self.collections,
            Table::CollectionMemberships => &self.collection_memberships,
            Table::NoteSignals => &self.note_signals,
        }
    }
}

fn push_chunks(table: Table, rows: &Vec<NormalizedRow>, requests: &mut Vec<FetchRequest>)
    ensures
        requests_view(final(requests)@) == requests_view(old(requests)@) + chunked(
            table,
            row_keys(rows_view(rows@)),
        ),
{
    let ghost ids = row_keys(rows_view(rows@));
    let ghost before = requests_view(requests@);
    let mut i: usize = 0;
    assert(ids.skip(0) =~= ids);
    assert(requests_view(requests@) + chunked(table, ids) =~= before + chunked(table, ids));
    while i < rows.len()
        invariant
            i <= rows@.len(),
            ids == row_keys(rows_view(rows@)),
            requests_view(requests@) + chunked(table, ids.skip(i as int)) == before + chunked(
                table,
                ids,
            ),
        decreases rows.len() - i,
    {
        let ghost start: int = i as int;
        let ghost rest = ids.skip(start);
        let ghost held = requests_view(requests@);
        let mut chunk: Vec<String> = Vec::new();
        assert(texts_view(chunk@) =~= Seq::empty());
        assert(rest.take(0) =~= Seq::empty());
        while i < rows.len() && chunk.len() < FETCH_CHUNK_SIZE
            invariant
                0 <= start <= i <= rows@.len(),
                chunk@.len() == i - start,
                chunk@.len() <= FETCH_CHUNK_SIZE,
                ids == row_keys(rows_view(rows@)),
                rest == ids.skip(start),
                texts_view(chunk@) == rest.take(i - start),
            decreases rows.len() - i,
        {
            let key = rows[i].primary_key.clone();
            assert(rest[i - start] == key@);
            let ghost held_chunk = texts_view(chunk@);
            chunk.push(key);
            assert(texts_view(chunk@) =~= held_chunk.push(key@));
            assert(rest.take(i - start).push(rest[i - start]) =~= rest.take(i + 1 - start));
            i = i + 1;
        }
        let request = FetchRequest { table, ids: chunk };
        requests.push(request);
        proof {
            assert(requests_view(requests@) =~= held.push(request@));
            assert(rest.len() == rows@.len() - start);
            let head = rest.take(i - start);
            if i == rows@.len() {
                assert(head =~= rest);
                assert(ids.skip(i as int) =~= Seq::empty());
                assert(held.push(request@) + chunked(table, ids.skip(i as int)) =~= held + chunked(
                    table,
                    rest,
                ));
            } else {
                assert(rest.skip(FETCH_CHUNK_SIZE as int) =~= ids.skip(i as int));
                assert(held.push(request@) + chunked(table, ids.skip(i as int)) =~= held + chunked(
                    table,
                    rest,
                ));
            }
        }
    }
    assert(ids.skip(rows@.len() as int) =~= Seq::empty());
    assert(requests_view(requests@) + chunked(table, Seq::empty()) =~= requests_view(requests@));
}

/// What is asked of the server for an archive: its rows by key, table after table.
pub fn fetch_plan(import: &NormalizedImport) -> (requests: Vec<FetchRequest>)
    ensures
        requests_view(requests@) == planned(import@, table_order()),
{
    let tables = crate::tables::TABLES;
    let ghost all = tables@;
    let mut requests: Vec<FetchRequest> = Vec::new();
    let mut i: usize = 0;
    assert(all.take(0) =~= Seq::empty());
    assert(requests_view(requests@) =~= Seq::empty());
    while i < tables.len()
        invariant
            i <= tables@.len(),
            all == tables@,
            requests_view(requests@) == planned(import@, all.take(i as int)),
        decreases tables@.len() - i,
    {
        assert(all.take(i + 1).drop_last() =~= all.take(i as int));
        let table = tables[i];
        push_chunks(table, import.rows(table), &mut requests);
        i = i + 1;
    }
    assert(all.take(all.len() as int) =~= all);
    requests
}

/// The time of a row that the server holds.
#[derive(Debug)]
pub struct ServerRow {
    pub table: Table,
    pub id: String,
    pub updated_at: i64,
}

pub struct ServerRowV {
    pub table: Table,
    pub id: Seq<char>,
    pub updated_at: i64,
}

impl View for ServerRow {
    type V = ServerRowV;

    open spec fn view(&self) -> ServerRowV {
        ServerRowV { table: self.table, id: self.id@, updated_at: self.updated_at }
    }
}

pub open spec fn server_view(rows: Seq<ServerRow>) -> Seq<ServerRowV> {
    rows.map_values(|r: ServerRow| r@)
}

/// The server's time for a row.
pub open spec fn server_time(rows: Seq<ServerRowV>, table: Table, id: Seq<char>) -> Option<i64>
    decreases rows.len(),
{
    if rows.len() == 0 {
        None
    } else if rows[0].table == table && rows[0].id == id {
        Some(rows[0].updated_at)
    } else {
        server_time(rows.drop_first(), table, id)
    }
}

/// What a returned row tells, given what is known: nothing if it was not asked for, lacks its time
/// or its mark of deletion, or came before.
pub open spec fn told(
    table: Table,
    requested: Seq<Seq<char>>,
    row: JsonV,
    known: Seq<ServerRowV>,
) -> Option<ServerRowV> {
    match row {
        JsonV::Obj(fields) => match row_text(fields, key_column(table)) {
            Some(id) => match row_i64(fields, "updated_at"@) {
                Some(updated_at) => if requested.contains(id) && row_bool(
                    fields,
                    "deleted"@,
                ) is Some && server_time(known, table, id) is None {
                    Some(ServerRowV { table, id, updated_at })
                } else {
                    None
                },
                None => None,
            },
            None => None,
        },
        _ => None,
    }
}

/// What is known after an answer; nothing if any row of it tells nothing.
pub open spec fn learned(
    table: Table,
    requested: Seq<Seq<char>>,
    returned: Seq<JsonV>,
    known: Seq<ServerRowV>,
) -> Option<Seq<ServerRowV>>
    decreases returned.len(),
{
    if returned.len() == 0 {
        Some(known)
    } else {
        match learned(table, requested, returned.drop_last(), known) {
            Some(before) => match told(table, requested, returned.last(), before) {
                Some(row) => Some(before.push(row)),
                None => None,
            },
            None => None,
        }
    }
}

/// The server's time for a row.
pub fn known_server_time(rows: &Vec<ServerRow>, table: Table, id: &str) -> (time: Option<i64>)
    ensures
        time == server_time(server_view(rows@), table, id@),
{
    let ghost all = server_view(rows@);
    let mut i: usize = 0;
    assert(all.skip(0) =~= all);
    while i < rows.len()
        invariant
            i <= rows@.len(),
            all == server_view(rows@),
            server_time(all, table, id@) == server_time(all.skip(i as int), table, id@),
        decreases rows.len() - i,
    {
        assert(all.skip(i as int)[0] == rows@[i as int]@);
        assert(all.skip(i as int).drop_first() =~= all.skip(i + 1));
        if rows[i].table == table && same_text(rows[i].id.as_str(), id) {
            return Some(rows[i].updated_at);
        }
        i = i + 1;
    }
    None
}

fn tell(request: &FetchRequest, value: &Json, known: &Vec<ServerRow>) -> (row: Option<ServerRow>)
    ensures
        match row {
            Some(r) => Some(r@),
            None => None,
        } == told(
            request.table,
            request@.ids,
            json_view(*value),
            server_view(known@),
        ),
{
    match value.as_object() {
        Some(fields) => match fields.get_text(request.table.key_column()) {
            Some(id) => match fields.get_i64("updated_at") {
                Some(updated_at) => if holds_text(&request.ids, id.as_str()) && fields.get_bool(
                    "deleted",
                ).is_some() && known_server_time(known, request.table, id.as_str()).is_none() {
                    Some(ServerRow { table: request.table, id: id.clone(), updated_at })
                } else {
                    None
                },
                None => None,
            },
            None => None,
        },
        None => None,
    }
}

proof fn lemma_nothing_learned(
    table: Table,
    requested: Seq<Seq<char>>,
    returned: Seq<JsonV>,
    known: Seq<ServerRowV>,
    i: int,
)
    requires
        0 <= i <= returned.len(),
        learned(table, requested, returned.take(i), known) is None,
    ensures
        learned(table, requested, returned, known) is None,
    decreases returned.len(),
{
    if i < returned.len() {
        assert(returned.drop_last().take(i) =~= returned.take(i));
        lemma_nothing_learned(table, requested, returned.drop_last(), known, i);
    } else {
        assert(returned.take(i) =~= returned);
    }
}

/// Takes the server's answer to a request.
pub fn take_returned(
    request: &FetchRequest,
    returned: &Vec<Json>,
    known: Vec<ServerRow>,
) -> (result: Result<Vec<ServerRow>, SyncError>)
    ensures
        match result {
            Ok(rows) => learned(
                request.table,
                request@.ids,
                items_view(returned@),
                server_view(known@),
            ) == Some(server_view(rows@)),
            Err(e) => flush_error(e, preflight_failed()) && learned(
                request.table,
                request@.ids,
                items_view(returned@),
                server_view(known@),
            ) is None,
        },
{
    let ghost all = items_view(returned@);
    let ghost first = server_view(known@);
    proof {
        lemma_items_view(returned@);
        assert(all.take(0) =~= Seq::empty());
    }
    let mut rows = known;
    let mut i: usize = 0;
    while i < returned.len()
        invariant
            i <= returned@.len(),
            first == server_view(known@),
            all == items_view(returned@),
            all.len() == returned@.len(),
            forall|j: int| 0 <= j < all.len() ==> #[trigger] all[j] == json_view(returned@[j]),
            learned(request.table, request@.ids, all.take(i as int), first) == Some(
                server_view(rows@),
            ),
        decreases returned.len() - i,
    {
        assert(all.take(i + 1).drop_last() =~= all.take(i as int));
        assert(all[i as int] == json_view(returned@[i as int]));
        let ghost held = server_view(rows@);
        match tell(request, &returned[i], &rows) {
            Some(row) => {
                rows.push(row);
                assert(server_view(rows@) =~= held.push(row@));
            },
            None => {
                proof {
                    lemma_nothing_learned(request.table, request@.ids, all, first, i + 1);
                }
                return Err(preflight_error());
            },
        }
        i = i + 1;
    }
    assert(all.take(all.len() as int) =~= all);
    Ok(rows)
}

/// An archive row that may be merged.
#[derive(Debug)]
pub struct Candidate<'a> {
    pub table: Table,
    pub row: &'a NormalizedRow,
}

pub struct CandidateV {
    pub table: Table,
    pub row: NormalizedRowV,
}

impl<'a> View for Candidate<'a> {
    type V = CandidateV;

    open spec fn view(&self) -> CandidateV {
        CandidateV { table: self.table, row: self.row@ }
    }
}

pub open spec fn candidates_view(candidates: Seq<Candidate<'_>>) -> Seq<CandidateV> {
    candidates.map_values(|c: Candidate<'_>| c@)
}

/// The rows of a table as candidates.
pub open spec fn tagged(table: Table, rows: Seq<NormalizedRowV>) -> Seq<CandidateV> {
    rows.map_values(|r: NormalizedRowV| CandidateV { table, row: r })
}

/// The candidates of some tables of an archive.
pub open spec fn candidates_of(import: NormalizedImportV, tables: Seq<Table>) -> Seq<CandidateV>
    decreases tables.len(),
{
    if tables.len() == 0 {
        Seq::empty()
    } else {
        candidates_of(import, tables.drop_last()) + tagged(
            tables.last(),
            rows_of(import, tables.last()),
        )
    }
}

fn push_candidates<'a>(
    table: Table,
    rows: &'a Vec<NormalizedRow>,
    candidates: &mut Vec<Candidate<'a>>,
)
    ensures
        candidates_view(final(candidates)@) == candidates_view(old(candidates)@) + tagged(
            table,
            rows_view(rows@),
        ),
{
    let ghost before = candidates_view(candidates@);
    let ghost all = tagged(table, rows_view(rows@));
    let mut i: usize = 0;
    assert(before + all.take(0) =~= before);
    while i < rows.len()
        invariant
            i <= rows@.len(),
            all == tagged(table, rows_view(rows@)),
            candidates_view(candidates@) == before + all.take(i as int),
        decreases rows.len() - i,
    {
        let ghost held = candidates_view(candidates@);
        let candidate = Candidate { table, row: &rows[i] };
        candidates.push(candidate);
        assert(candidates_view(candidates@) =~= held.push(candidate@));
        assert(all[i as int] == candidate@);
        assert(held.push(candidate@) =~= before + all.take(i + 1));
        i = i + 1;
    }
    assert(all.take(all.len() as int) =~= all);
}

/// The rows of an archive, table after table.
pub fn import_candidates<'a>(import: &'a NormalizedImport) -> (candidates: Vec<Candidate<'a>>)
    ensures
        candidates_view(candidates@) == candidates_of(import@, table_order()),
{
    let tables = crate::tables::TABLES;
    let ghost all = tables@;
    let mut candidates: Vec<Candidate<'a>> = Vec::new();
    let mut i: usize = 0;
    assert(all.take(0) =~= Seq::empty());
    assert(candidates_view(candidates@) =~= Seq::empty());
    while i < tables.len()
        invariant
            i <= tables@.len(),
            all == tables@,
            candidates_view(candidates@) == candidates_of(import@, all.take(i as int)),
        decreases tables@.len() - i,
    {
        assert(all.take(i + 1).drop_last() =~= all.take(i as int));
        let table = tables[i];
        push_candidates(table, import.rows(table), &mut candidates);
        i = i + 1;
    }
    assert(all.take(all.len() as int) =~= all);
    candidates
}

/// The rows of a table so far.
pub open spec fn count_of(counts: ImportCounts, table: Table) -> u32 {
    match table {
        Table::Books => counts.books,
        Table::Notes => counts.notes,
        Table::CustomIdeas => counts.custom_ideas,
        Table::NoteLinks => counts.note_links,
        Table::Lenses => counts.lenses,
        Table::Collections => counts.collections,
        Table::CollectionMemberships => counts.collection_memberships,
        Table::NoteSignals => counts.note_signals,
    }
}

pub open spec fn with_count(counts: ImportCounts, table: Table, n: u32) -> ImportCounts {
    match table {
        Table::Books => ImportCounts { books: n, ..counts },
        Table::Notes => ImportCounts { notes: n, ..counts },
        Table::CustomIdeas => ImportCounts { custom_ideas: n, ..counts },
        Table::NoteLinks => ImportCounts { note_links: n, ..counts },
        Table::Lenses => ImportCounts { lenses: n, ..counts },
        Table::Collections => ImportCounts { collections: n, ..counts },
        Table::CollectionMemberships => ImportCounts { collection_memberships: n, ..counts },
        Table::NoteSignals => ImportCounts { note_signals: n, ..counts },
    }
}

/// One more row of a table; nothing if the count is full.
pub open spec fn incremented(counts: ImportCounts, table: Table) -> Option<ImportCounts> {
    if count_of(counts, table) == u32::MAX {
        None
    } else {
        Some(with_count(counts, table, (count_of(counts, table) + 1) as u32))
    }
}

pub open spec fn no_counts() -> ImportCounts {
    ImportCounts {
        books: 0,
        notes: 0,
        custom_ideas: 0,
        note_links: 0,
        lenses: 0,
        collections: 0,
        collection_memberships: 0,
        note_signals: 0,
    }
}

impl Default for ImportCounts {
    /// No rows.
    fn default() -> (counts: ImportCounts)
        ensures
            counts == no_counts(),
    {
        ImportCounts {
            books: 0,
            notes: 0,
            custom_ideas: 0,
            note_links: 0,
            lenses: 0,
            collections: 0,
            collection_memberships: 0,
            note_signals: 0,
        }
    }
}

/// Counts one more row of a table.
pub fn increment(counts: &mut ImportCounts, table: Table) -> (result: Result<(), SyncError>)
    ensures
        match result {
            Ok(_) => incremented(*old(counts), table) == Some(*final(counts)),
            Err(e) => {
                &&& incremented(*old(counts), table) is None
                &&& *final(counts) == *old(counts)
                &&& import_error(e, "snapshot import row count is too large"@)
            },
        },
{
    let count = match table {
        Table::Books => counts.books,
        Table::Notes => counts.notes,
        Table::CustomIdeas => counts.custom_ideas,
        Table::NoteLinks => counts.note_links,
        Table::Lenses => counts.lenses,
        Table::Collections => counts.collections,
        Table::CollectionMemberships => counts.collection_memberships,
        Table::NoteSignals => counts.note_signals,
    };
    if count == u32::MAX {
        return Err(invalid("snapshot import row count is too large"));
    }
    let more = count + 1;
    match table {
        Table::Books => counts.books = more,
        Table::Notes => counts.notes = more,
        Table::CustomIdeas => counts.custom_ideas = more,
        Table::NoteLinks => counts.note_links = more,
        Table::Lenses => counts.lenses = more,
        Table::Collections => counts.collections = more,
        Table::CollectionMemberships => counts.collection_memberships = more,
        Table::NoteSignals => counts.note_signals = more,
    }
    Ok(())
}

/// Which archive rows are merged, by their positions; how many rows are merged and passed over;
/// and the newest time that a merged row was held against, its own among them.
#[derive(Debug)]
pub struct Selection {
    pub imported: ImportCounts,
    pub skipped_stale: ImportCounts,
    pub accepted: Vec<usize>,
    pub newest: Option<i64>,
}

pub struct SelectionV {
    pub imported: ImportCounts,
    pub skipped_stale: ImportCounts,
    pub accepted: Seq<usize>,
    pub newest: Option<i64>,
}

impl View for Selection {
    type V = SelectionV;

    open spec fn view(&self) -> SelectionV {
        SelectionV {
            imported: self.imported,
            skipped_stale: self.skipped_stale,
            accepted: self.accepted@,
            newest: self.newest,
        }
    }
}

/// Why no selection can be made.
pub enum Refusal {
    /// A local row has no time.
    LocalTime,
    /// A count is full.
    Count,
}

pub open spec fn refused_as(error: SyncError, refusal: Refusal) -> bool {
    match refusal {
        Refusal::LocalTime => store_error(error, persistence_failed()),
        Refusal::Count => import_error(error, "snapshot import row count is too large"@),
    }
}

/// The newer of two times that may be missing.
pub open spec fn newer(a: Option<i64>, b: Option<i64>) -> Option<i64> {
    match (a, b) {
        (Some(x), Some(y)) => Some(max_i64(x, y)),
        (Some(x), None) => Some(x),
        (None, _) => b,
    }
}

/// The time of a local row; an error if it has none.
pub open spec fn local_time(row: Option<RowV>) -> Result<Option<i64>, Refusal> {
    match row {
        Some(r) => match row_i64(r, "updated_at"@) {
            Some(n) => Ok(Some(n)),
            None => Err(Refusal::LocalTime),
        },
        None => Ok(None),
    }
}

/// Whether an archive row is no newer than what is known.
pub open spec fn stale(updated_at: i64, known: Option<i64>) -> bool {
    match known {
        Some(n) => updated_at <= n,
        None => false,
    }
}

/// A selection with one more candidate, the one at `index`.
pub open spec fn selected_one(
    before: SelectionV,
    candidate: CandidateV,
    index: usize,
    local: Option<i64>,
    server: Option<i64>,
) -> Result<SelectionV, Refusal> {
    let known = newer(local, server);
    if stale(candidate.row.updated_at, known) {
        match incremented(before.skipped_stale, candidate.table) {
            Some(skipped_stale) => Ok(SelectionV { skipped_stale, ..before }),
            None => Err(Refusal::Count),
        }
    } else {
        match incremented(before.imported, candidate.table) {
            Some(imported) => Ok(
                SelectionV {
                    imported,
                    accepted: before.accepted.push(index),
                    newest: newer(before.newest, newer(Some(candidate.row.updated_at), known)),
                    ..before
                },
            ),
            None => Err(Refusal::Count),
        }
    }
}

/// The selection among candidates: a row is merged if it is newer than the local row and the
/// server's.
pub open spec fn selected(
    candidates: Seq<CandidateV>,
    locals: Seq<MirrorRow>,
    server: Seq<ServerRowV>,
) -> Result<SelectionV, Refusal>
    decreases candidates.len(),
{
    if candidates.len() == 0 {
        Ok(
            SelectionV {
                imported: no_counts(),
                skipped_stale: no_counts(),
                accepted: Seq::empty(),
                newest: None,
            },
        )
    } else {
        let last = candidates.last();
        match selected(candidates.drop_last(), locals, server) {
            Ok(before) => match local_time(stored(locals, last.table, last.row.primary_key)) {
                Ok(local) => selected_one(
                    before,
                    last,
                    (candidates.len() - 1) as usize,
                    local,
                    server_time(server, last.table, last.row.primary_key),
                ),
                Err(refusal) => Err(refusal),
            },
            Err(refusal) => Err(refusal),
        }
    }
}

fn newer_time(a: Option<i64>, b: Option<i64>) -> (time: Option<i64>)
    ensures
        time == newer(a, b),
{
    match (a, b) {
        (Some(x), Some(y)) => if x >= y {
            Some(x)
        } else {
            Some(y)
        },
        (Some(x), None) => Some(x),
        (None, _) => b,
    }
}

/// The time of a local row.
pub fn state_timestamp(row: Option<&Fields>) -> (time: Result<Option<i64>, SyncError>)
    ensures
        match time {
            Ok(t) => local_time(crate::mirror::row_view(row)) == Ok::<Option<i64>, Refusal>(t),
            Err(e) => {
                &&& local_time(crate::mirror::row_view(row)) is Err
                &&& store_error(e, persistence_failed())
            },
        },
{
    match row {
        Some(r) => match r.get_i64("updated_at") {
            Some(n) => Ok(Some(n)),
            None => Err(persistence_error()),
        },
        None => Ok(None),
    }
}

proof fn lemma_selection_refused(
    candidates: Seq<CandidateV>,
    locals: Seq<MirrorRow>,
    server: Seq<ServerRowV>,
    i: int,
)
    requires
        0 <= i <= candidates.len(),
        selected(candidates.take(i), locals, server) is Err,
    ensures
        selected(candidates, locals, server) == selected(candidates.take(i), locals, server),
    decreases candidates.len(),
{
    if i < candidates.len() {
        assert(candidates.drop_last().take(i) =~= candidates.take(i));
        lemma_selection_refused(candidates.drop_last(), locals, server, i);
    } else {
        assert(candidates.take(i) =~= candidates);
    }
}

/// Selects the archive rows that are newer than what is known.
pub fn select_candidates(
    candidates: &Vec<Candidate<'_>>,
    local: &Mirror,
    server: &Vec<ServerRow>,
) -> (result: Result<Selection, SyncError>)
    ensures
        match (
            result,
            selected(candidates_view(candidates@), local.rows@, server_view(server@)),
        ) {
            (Ok(s), Ok(want)) => s@ == want,
            (Err(e), Err(refusal)) => refused_as(e, refusal),
            _ => false,
        },
{
    let ghost all = candidates_view(candidates@);
    let ghost known = server_view(server@);
    let mut selection = Selection {
        imported: ImportCounts::default(),
        skipped_stale: ImportCounts::default(),
        accepted: Vec::new(),
        newest: None,
    };
    let mut i: usize = 0;
    assert(all.take(0) =~= Seq::empty());
    while i < candidates.len()
        invariant
            i <= candidates@.len(),
            all == candidates_view(candidates@),
            known == server_view(server@),
            selected(all.take(i as int), local.rows@, known) == Ok::<SelectionV, Refusal>(
                selection@,
            ),
        decreases candidates.len() - i,
    {
        assert(all.take(i + 1).drop_last() =~= all.take(i as int));
        assert(all[i as int] == candidates@[i as int]@);
        let candidate = &candidates[i];
        let id = candidate.row.primary_key.as_str();
        let local_updated = match state_timestamp(local.get_row(candidate.table, id)) {
            Ok(t) => t,
            Err(e) => {
                proof {
                    lemma_selection_refused(all, local.rows@, known, i + 1);
                }
                return Err(e);
            },
        };
        let server_updated = known_server_time(server, candidate.table, id);
        let existing = newer_time(local_updated, server_updated);
        let passed_over = match existing {
            Some(n) => candidate.row.updated_at <= n,
            None => false,
        };
        if passed_over {
            if let Err(e) = increment(&mut selection.skipped_stale, candidate.table) {
                proof {
                    lemma_selection_refused(all, local.rows@, known, i + 1);
                }
                return Err(e);
            }
        } else {
            if let Err(e) = increment(&mut selection.imported, candidate.table) {
                proof {
                    lemma_selection_refused(all, local.rows@, known, i + 1);
                }
                return Err(e);
            }
            selection.accepted.push(i);
            selection.newest = newer_time(
                selection.newest,
                newer_time(Some(candidate.row.updated_at), existing),
            );
        }
        i = i + 1;
    }
    assert(all.take(all.len() as int) =~= all);
    Ok(selection)
}

/// The time that all merged rows get: now, but later than everything they were held against.
pub fn batch_timestamp(import_now: i64, newest: i64) -> (result: Result<i64, SyncError>)
    ensures
        match result {
            Ok(time) => newest < i64::MAX && time == max_i64(import_now, (newest + 1) as i64),
            Err(e) => newest == i64::MAX && import_error(
                e,
                "snapshot import timestamp cannot advance safely"@,
            ),
        },
{
    if newest == i64::MAX {
        return Err(invalid("snapshot import timestamp cannot advance safely"));
    }
    let advanced = newest + 1;
    if import_now >= advanced {
        Ok(import_now)
    } else {
        Ok(advanced)
    }
}

/// A text to be sealed before its note is staged: the note's key, the plaintext, its book.
#[derive(Debug)]
pub struct SealRequest {
    pub note_id: String,
    pub plaintext: String,
    pub book_id: Option<String>,
}

pub struct SealRequestV {
    pub note_id: Seq<char>,
    pub plaintext: Seq<char>,
    pub book_id: Option<Seq<char>>,
}

impl View for SealRequest {
    type V = SealRequestV;

    open spec fn view(&self) -> SealRequestV {
        SealRequestV {
            note_id: self.note_id@,
            plaintext: self.plaintext@,
            book_id: match self.book_id {
                Some(s) => Some(s@),
                None => None,
            },
        }
    }
}

/// The text of an archive row that has to be sealed; an error if the note is not in table shape.
pub open spec fn seal_wanted(candidate: CandidateV) -> Result<Option<SealRequestV>, ()> {
    if candidate.table != Table::Notes {
        Ok(None)
    } else {
        match field(candidate.row.row, "text"@) {
            None | Some(JsonV::Null) => Ok(None),
            Some(JsonV::Str(plaintext)) => match field(candidate.row.row, "book_id"@) {
                None | Some(JsonV::Null) => Ok(
                    Some(
                        SealRequestV {
                            note_id: candidate.row.primary_key,
                            plaintext,
                            book_id: None,
                        },
                    ),
                ),
                Some(JsonV::Str(book_id)) => Ok(
                    Some(
                        SealRequestV {
                            note_id: candidate.row.primary_key,
                            plaintext,
                            book_id: Some(book_id),
                        },
                    ),
                ),
                Some(_) => Err(()),
            },
            Some(_) => Err(()),
        }
    }
}

/// The text of an archive row that has to be sealed.
pub fn seal_request(candidate: &Candidate<'_>) -> (result: Result<Option<SealRequest>, SyncError>)
    ensures
        match (result, seal_wanted(candidate@)) {
            (Ok(None), Ok(None)) => true,
            (Ok(Some(r)), Ok(Some(want))) => r@ == want,
            (Err(e), Err(_)) => import_error(e, "invalid normalized note"@),
            _ => false,
        },
{
    match candidate.table {
        Table::Notes => {},
        _ => {
            return Ok(None);
        },
    }
    let row = &candidate.row.row;
    match row.get("text") {
        None => Ok(None),
        Some(Json::Null) => Ok(None),
        Some(Json::Str(plaintext)) => {
            let book_id = match row.get("book_id") {
                None => None,
                Some(Json::Null) => None,
                Some(Json::Str(book_id)) => Some(book_id.clone()),
                Some(_) => {
                    return Err(invalid("invalid normalized note"));
                },
            };
            Ok(
                Some(
                    SealRequest {
                        note_id: candidate.row.primary_key.clone(),
                        plaintext: plaintext.clone(),
                        book_id,
                    },
                ),
            )
        },
        Some(_) => Err(invalid("invalid normalized note")),
    }
}

/// The row that is staged for a candidate: whole, live, at the common time; a note's text sealed.
pub open spec fn staged_row(candidate: CandidateV, time: i64, seal: Option<SealV>) -> RowV {
    let row = candidate.row.row;
    let sealed = if candidate.table == Table::Notes {
        match seal {
            Some(s) => row.insert("text"@, JsonV::Str(s.ciphertext)).insert(
                "content_tag"@,
                JsonV::Str(s.content_tag),
            ),
            None => row.insert("text"@, JsonV::Null).insert("content_tag"@, JsonV::Null),
        }
    } else {
        row
    };
    completed_row(
        sealed.insert("updated_at"@, int_json(time)).insert("deleted"@, JsonV::Bool(false)),
        fields_of(candidate.table),
    )
}

/// The seal by its contents.
pub open spec fn opt_seal(seal: Option<&SealedText>) -> Option<SealV> {
    match seal {
        Some(s) => Some(s@),
        None => None,
    }
}

/// The write that stages a candidate. A note's text, where it has one, comes sealed.
pub fn prepare_write(
    candidate: &Candidate<'_>,
    batch_timestamp: i64,
    seal: Option<&SealedText>,
) -> (write: Write)
    requires
        seal_wanted(candidate@) is Ok,
        seal_wanted(candidate@)->Ok_0 is Some <==> seal is Some,
    ensures
        write@ == (WriteV {
            table: table_name(candidate.table),
            record_id: candidate.row.primary_key@,
            row: staged_row(candidate@, batch_timestamp, opt_seal(seal)),
        }),
{
    let mut row = candidate.row.row.copy();
    match candidate.table {
        Table::Notes => match seal {
            Some(s) => {
                row.insert("text", Json::text(s.ciphertext.as_str()));
                row.insert("content_tag", Json::text(s.content_tag.as_str()));
            },
            None => {
                row.insert("text", Json::Null);
                row.insert("content_tag", Json::Null);
            },
        },
        _ => {},
    }
    row.insert("updated_at", Json::integer(batch_timestamp));
    row.insert("deleted", Json::Bool(false));
    Write {
        table: candidate.table.name().to_owned(),
        record_id: candidate.row.primary_key.clone(),
        row: complete_row(&row, candidate.table),
    }
}

/// What an import reports.
pub fn import_summary(schema_version: u32, selection: Selection) -> (summary: ImportSummary)
    ensures
        summary.schema_version == schema_version,
        summary.imported == selection.imported,
        summary.skipped_stale == selection.skipped_stale,
{
    ImportSummary {
        schema_version,
        imported: selection.imported,
        skipped_stale: selection.skipped_stale,
    }
}

/// Parses an archive and hands it on; a malformed one is refused before anything else happens.
pub fn with_parsed_import_at<T, F: FnOnce(NormalizedImport) -> Result<T, SyncError>>(
    archive_json: &str,
    import_now: i64,
    execute: F,
) -> (result: Result<T, SyncError>)
    requires
        forall|parsed: NormalizedImport| #[trigger] execute.requires((parsed,)),
    ensures
        match read_archive(archive_json@, import_now) {
            Ok(want) => exists|parsed: NormalizedImport|
                parsed@ == want && #[trigger] execute.ensures((parsed,), result),
            Err(reason) => match result {
                Ok(_) => false,
                Err(e) => import_error(e, reason),
            },
        },
{
    match parse_import_at(archive_json, import_now) {
        Ok(parsed) => execute(parsed),
        Err(e) => Err(e),
    }
}

/// An archive's text in table shape, or the reason why it is refused.
pub open spec fn read_archive(archive_json: Seq<char>, now: i64) -> Result<
    NormalizedImportV,
    Seq<char>,
> {
    match parsed_json(archive_json) {
        Some(root) => normalized_archive(root, now),
        None => Err("malformed JSON archive"@),
    }
}

/// The common time of the rows that are merged, if there are any.
pub open spec fn merge_time(selection: SelectionV, import_now: i64) -> Result<Option<i64>, ()> {
    if selection.accepted.len() == 0 {
        Ok(None)
    } else if selection.newest == Some(i64::MAX) {
        Err(())
    } else {
        Ok(Some(max_i64(import_now, (selection.newest->Some_0 + 1) as i64)))
    }
}

/// Selects the archive rows that are newer than what is known, and the time that they get. Without
/// a time there is nothing to stage.
pub fn plan_import(
    candidates: &Vec<Candidate<'_>>,
    local: &Mirror,
    server: &Vec<ServerRow>,
    import_now: i64,
) -> (result: Result<(Selection, Option<i64>), SyncError>)
    ensures
        match selected(candidates_view(candidates@), local.rows@, server_view(server@)) {
            Err(refusal) => match result {
                Ok(_) => false,
                Err(e) => refused_as(e, refusal),
            },
            Ok(want) => match (result, merge_time(want, import_now)) {
                (Ok((selection, time)), Ok(when)) => selection@ == want && time == when,
                (Err(e), Err(_)) => import_error(
                    e,
                    "snapshot import timestamp cannot advance safely"@,
                ),
                _ => false,
            },
        },
{
    let selection = match select_candidates(candidates, local, server) {
        Ok(s) => s,
        Err(e) => {
            return Err(e);
        },
    };
    if selection.accepted.len() == 0 {
        return Ok((selection, None));
    }
    proof {
        lemma_newest_known(candidates_view(candidates@), local.rows@, server_view(server@));
    }
    match selection.newest {
        Some(newest) => match batch_timestamp(import_now, newest) {
            Ok(time) => Ok((selection, Some(time))),
            Err(e) => Err(e),
        },
        None => Ok((selection, None)),
    }
}

proof fn lemma_newest_known(
    candidates: Seq<CandidateV>,
    locals: Seq<MirrorRow>,
    server: Seq<ServerRowV>,
)
    requires
        selected(candidates, locals, server) is Ok,
    ensures
        selected(candidates, locals, server)->Ok_0.newest is Some <==> selected(
            candidates,
            locals,
            server,
        )->Ok_0.accepted.len() > 0,
    decreases candidates.len(),
{
    if candidates.len() > 0 {
        lemma_newest_known(candidates.drop_last(), locals, server);
    }
}

/// The writes of the merged rows, in order.
pub open spec fn staged_writes(
    candidates: Seq<CandidateV>,
    accepted: Seq<usize>,
    time: i64,
    seals: Seq<Option<SealV>>,
) -> Seq<WriteV> {
    Seq::new(
        accepted.len(),
        |i: int| WriteV {
            table: table_name(candidates[accepted[i] as int].table),
            record_id: candidates[accepted[i] as int].row.primary_key,
            row: staged_row(candidates[accepted[i] as int], time, seals[i]),
        },
    )
}

pub open spec fn seals_view(seals: Seq<Option<SealedText>>) -> Seq<Option<SealV>> {
    seals.map_values(
        |s: Option<SealedText>|
            match s {
                Some(seal) => Some(seal@),
                None => None,
            },
    )
}

/// The writes of the merged rows, in order, one seal for each.
pub fn prepare_writes(
    candidates: &Vec<Candidate<'_>>,
    accepted: &Vec<usize>,
    time: i64,
    seals: &Vec<Option<SealedText>>,
) -> (writes: Vec<Write>)
    requires
        seals@.len() == accepted@.len(),
        forall|i: int|
            0 <= i < accepted@.len() ==> {
                &&& (#[trigger] accepted@[i]) < candidates@.len()
                &&& seal_wanted(candidates@[accepted@[i] as int]@) is Ok
                &&& seal_wanted(candidates@[accepted@[i] as int]@)->Ok_0 is Some
                    <==> seals@[i] is Some
            },
    ensures
        crate::types::writes_view(writes@) == staged_writes(
            candidates_view(candidates@),
            accepted@,
            time,
            seals_view(seals@),
        ),
{
    let ghost all = candidates_view(candidates@);
    let ghost want = staged_writes(all, accepted@, time, seals_view(seals@));
    let mut writes: Vec<Write> = Vec::new();
    let mut i: usize = 0;
    assert(crate::types::writes_view(writes@) =~= want.take(0));
    while i < accepted.len()
        invariant
            i <= accepted@.len(),
            all == candidates_view(candidates@),
            want == staged_writes(all, accepted@, time, seals_view(seals@)),
            seals@.len() == accepted@.len(),
            forall|i: int|
                0 <= i < accepted@.len() ==> {
                    &&& (#[trigger] accepted@[i]) < candidates@.len()
                    &&& seal_wanted(candidates@[accepted@[i] as int]@) is Ok
                    &&& seal_wanted(candidates@[accepted@[i] as int]@)->Ok_0 is Some
                        <==> seals@[i] is Some
                },
            crate::types::writes_view(writes@) == want.take(i as int),
        decreases accepted.len() - i,
    {
        let at = accepted[i];
        let seal = match &seals[i] {
            Some(s) => Some(s),
            None => None,
        };
        let ghost held = crate::types::writes_view(writes@);
        let write = prepare_write(&candidates[at], time, seal);
        assert(seals_view(seals@)[i as int] == opt_seal(seal));
        assert(all[at as int] == candidates@[at as int]@);
        assert(want[i as int] == write@);
        writes.push(write);
        assert(crate::types::writes_view(writes@) =~= held.push(write@));
        assert(held.push(write@) =~= want.take(i + 1));
        i = i + 1;
    }
    assert(want.take(want.len() as int) =~= want);
    writes
}

/// What is known of the row that a candidate would replace.
pub open spec fn known_time(
    candidate: CandidateV,
    locals: Seq<MirrorRow>,
    server: Seq<ServerRowV>,
) -> Option<i64> {
    newer(
        local_time(stored(locals, candidate.table, candidate.row.primary_key))->Ok_0,
        server_time(server, candidate.table, candidate.row.primary_key),
    )
}

/// An archive row is merged exactly if it is newer than the local row and the server's, and the
/// merged rows stand in the archive's order.
pub proof fn law_merged_iff_newer(
    candidates: Seq<CandidateV>,
    locals: Seq<MirrorRow>,
    server: Seq<ServerRowV>,
    i: int,
)
    requires
        candidates.len() <= usize::MAX,
        selected(candidates, locals, server) is Ok,
        0 <= i < candidates.len(),
    ensures
        selected(candidates, locals, server)->Ok_0.accepted.contains(i as usize) <==> !stale(
            candidates[i].row.updated_at,
            known_time(candidates[i], locals, server),
        ),
        forall|j: int|
            0 <= j < selected(candidates, locals, server)->Ok_0.accepted.len()
                ==> #[trigger] selected(candidates, locals, server)->Ok_0.accepted[j]
                < candidates.len(),
    decreases candidates.len(),
{
    lemma_accepted_bound(candidates, locals, server);
    let before = candidates.drop_last();
    lemma_accepted_bound(before, locals, server);
    let held = selected(before, locals, server)->Ok_0.accepted;
    let all = selected(candidates, locals, server)->Ok_0.accepted;
    let last = (candidates.len() - 1) as usize;
    if i < before.len() {
        law_merged_iff_newer(before, locals, server, i);
        assert(before[i] == candidates[i]);
        if held.contains(i as usize) {
            let j = choose|j: int| 0 <= j < held.len() && held[j] == i as usize;
            assert(all[j] == i as usize);
        }
        if all.contains(i as usize) {
            let j = choose|j: int| 0 <= j < all.len() && all[j] == i as usize;
            assert(i as usize != last);
            assert(j < held.len());
            assert(held[j] == i as usize);
        }
    } else {
        if all.len() == held.len() {
            if all.contains(last) {
                let j = choose|j: int| 0 <= j < all.len() && all[j] == last;
                assert(held[j] < before.len());
            }
        } else {
            assert(all[held.len() as int] == last);
        }
    }
}

/// The merged rows are named by positions of the archive, in order.
pub proof fn lemma_accepted_bound(
    candidates: Seq<CandidateV>,
    locals: Seq<MirrorRow>,
    server: Seq<ServerRowV>,
)
    requires
        candidates.len() <= usize::MAX,
        selected(candidates, locals, server) is Ok,
    ensures
        forall|j: int|
            0 <= j < selected(candidates, locals, server)->Ok_0.accepted.len()
                ==> #[trigger] selected(candidates, locals, server)->Ok_0.accepted[j]
                < candidates.len(),
        forall|j: int, k: int|
            0 <= j < k < selected(candidates, locals, server)->Ok_0.accepted.len()
                ==> #[trigger] selected(candidates, locals, server)->Ok_0.accepted[j]
                < #[trigger] selected(candidates, locals, server)->Ok_0.accepted[k],
    decreases candidates.len(),
{
    if candidates.len() > 0 {
        lemma_accepted_bound(candidates.drop_last(), locals, server);
    }
}

/// The common time is later than a merged row's own and than everything that it was held against:
/// it wins wherever the merged rows go next.
pub proof fn law_merge_time_beats_all(
    candidates: Seq<CandidateV>,
    locals: Seq<MirrorRow>,
    server: Seq<ServerRowV>,
    import_now: i64,
    i: int,
)
    requires
        candidates.len() <= usize::MAX,
        selected(candidates, locals, server) is Ok,
        0 <= i < candidates.len(),
        !stale(candidates[i].row.updated_at, known_time(candidates[i], locals, server)),
        merge_time(selected(candidates, locals, server)->Ok_0, import_now) is Ok,
    ensures
        ({
            let time = merge_time(
                selected(candidates, locals, server)->Ok_0,
                import_now,
            )->Ok_0->Some_0;
            &&& merge_time(selected(candidates, locals, server)->Ok_0, import_now)->Ok_0 is Some
            &&& time >= import_now
            &&& time > candidates[i].row.updated_at
            &&& stale(candidates[i].row.updated_at, Some(time))
            &&& known_time(candidates[i], locals, server) matches Some(known) ==> time > known
        }),
{
    lemma_newest_covers(candidates, locals, server, i);
    law_merged_iff_newer(candidates, locals, server, i);
    lemma_newest_known(candidates, locals, server);
}

proof fn lemma_newest_covers(
    candidates: Seq<CandidateV>,
    locals: Seq<MirrorRow>,
    server: Seq<ServerRowV>,
    i: int,
)
    requires
        selected(candidates, locals, server) is Ok,
        0 <= i < candidates.len(),
        !stale(candidates[i].row.updated_at, known_time(candidates[i], locals, server)),
    ensures
        selected(candidates, locals, server)->Ok_0.newest matches Some(n) && n
            >= candidates[i].row.updated_at && (known_time(
            candidates[i],
            locals,
            server,
        ) matches Some(known) ==> n >= known),
    decreases candidates.len(),
{
    if i < candidates.len() - 1 {
        assert(candidates.drop_last()[i] == candidates[i]);
        lemma_newest_covers(candidates.drop_last(), locals, server, i);
    }
}

pub open spec fn rows_in(candidates: Seq<CandidateV>, table: Table) -> nat
    decreases candidates.len(),
{
    if candidates.len() == 0 {
        0
    } else {
        rows_in(candidates.drop_last(), table) + if candidates.last().table == table {
            1nat
        } else {
            0nat
        }
    }
}

proof fn lemma_incremented(counts: ImportCounts, counted: Table, table: Table)
    requires
        incremented(counts, counted) is Some,
    ensures
        count_of(incremented(counts, counted)->Some_0, table) == count_of(counts, table) + if table
            == counted {
            1int
        } else {
            0int
        },
{
}

/// Every archive row is counted once, as merged or as passed over.
pub proof fn law_every_row_is_counted(
    candidates: Seq<CandidateV>,
    locals: Seq<MirrorRow>,
    server: Seq<ServerRowV>,
    table: Table,
)
    requires
        selected(candidates, locals, server) is Ok,
    ensures
        count_of(selected(candidates, locals, server)->Ok_0.imported, table) + count_of(
            selected(candidates, locals, server)->Ok_0.skipped_stale,
            table,
        ) == rows_in(candidates, table),
    decreases candidates.len(),
{
    if candidates.len() > 0 {
        law_every_row_is_counted(candidates.drop_last(), locals, server, table);
        let before = selected(candidates.drop_last(), locals, server)->Ok_0;
        let last = candidates.last();
        if stale(last.row.updated_at, known_time(last, locals, server)) {
            lemma_incremented(before.skipped_stale, last.table, table);
        } else {
            lemma_incremented(before.imported, last.table, table);
        }
    }
}

proof fn lemma_common_columns(table: Table)
    ensures
        has_column(fields_of(table), "updated_at"@),
        has_column(fields_of(table), "deleted"@),
{
    let fields = fields_of(table);
    let last = fields.len() - 1;
    assert(fields[last].0 == "deleted"@);
    assert(fields[last - 1].0 == "updated_at"@);
}

/// A staged row is whole: it has every column of its table and no other, is live, and carries the
/// common time.
pub proof fn law_staged_row_is_whole(
    candidate: CandidateV,
    time: i64,
    seal: Option<SealV>,
    column: Seq<char>,
)
    ensures
        staged_row(candidate, time, seal).contains_key(column) <==> has_column(
            fields_of(candidate.table),
            column,
        ),
        row_i64(staged_row(candidate, time, seal), "updated_at"@) == Some(time),
        row_bool(staged_row(candidate, time, seal), "deleted"@) == Some(false),
{
    reveal_strlit("updated_at");
    reveal_strlit("deleted");
    assert("updated_at"@.len() != "deleted"@.len());
    let row = candidate.row.row;
    let sealed = if candidate.table == Table::Notes {
        match seal {
            Some(s) => row.insert("text"@, JsonV::Str(s.ciphertext)).insert(
                "content_tag"@,
                JsonV::Str(s.content_tag),
            ),
            None => row.insert("text"@, JsonV::Null).insert("content_tag"@, JsonV::Null),
        }
    } else {
        row
    };
    let marked = sealed.insert("updated_at"@, int_json(time)).insert(
        "deleted"@,
        JsonV::Bool(false),
    );
    let fields = fields_of(candidate.table);
    lemma_common_columns(candidate.table);
    law_completed_row(marked, fields, column);
    law_completed_row(marked, fields, "updated_at"@);
    law_completed_row(marked, fields, "deleted"@);
    crate::json::lemma_int_json_round_trip(time);
}

/// Importing the same archive again passes over a row that was merged: the staged row is newer
/// than the archive's.
pub proof fn law_second_import_passes_over(
    candidates: Seq<CandidateV>,
    locals: Seq<MirrorRow>,
    server: Seq<ServerRowV>,
    import_now: i64,
    i: int,
    seal: Option<SealV>,
    later: Seq<MirrorRow>,
    later_server: Seq<ServerRowV>,
)
    requires
        candidates.len() <= usize::MAX,
        selected(candidates, locals, server) is Ok,
        0 <= i < candidates.len(),
        !stale(candidates[i].row.updated_at, known_time(candidates[i], locals, server)),
        merge_time(selected(candidates, locals, server)->Ok_0, import_now) is Ok,
        stored(later, candidates[i].table, candidates[i].row.primary_key) == Some(
            staged_row(
                candidates[i],
                merge_time(
                    selected(candidates, locals, server)->Ok_0,
                    import_now,
                )->Ok_0->Some_0,
                seal,
            ),
        ),
    ensures
        stale(candidates[i].row.updated_at, known_time(candidates[i], later, later_server)),
{
    law_merge_time_beats_all(candidates, locals, server, import_now, i);
    let time = merge_time(selected(candidates, locals, server)->Ok_0, import_now)->Ok_0->Some_0;
    law_staged_row_is_whole(candidates[i], time, seal, ""@);
}

/// Whether candidates stand for the same rows with the same times.
pub open spec fn same_candidates(a: Seq<CandidateV>, b: Seq<CandidateV>) -> bool {
    &&& a.len() == b.len()
    &&& forall|i: int|
        0 <= i < a.len() ==> {
            &&& (#[trigger] a[i]).table == b[i].table
            &&& a[i].row.primary_key == b[i].row.primary_key
            &&& a[i].row.updated_at == b[i].row.updated_at
        }
}

/// The writes that an import stages; none where there is no common time.
pub open spec fn import_writes(
    candidates: Seq<CandidateV>,
    selection: SelectionV,
    import_now: i64,
    seals: Seq<Option<SealV>>,
) -> Seq<WriteV> {
    match merge_time(selection, import_now) {
        Ok(Some(time)) => staged_writes(candidates, selection.accepted, time, seals),
        _ => Seq::empty(),
    }
}

/// Whether a write is to the row of a table with a key.
pub open spec fn writes_row(write: WriteV, table: Table, id: Seq<char>) -> bool {
    write.table == table_name(table) && write.record_id == id
}

/// Whether staged writes made these local rows of those: a written row is replaced whole, any
/// other is as it was.
pub open spec fn staged_into(
    locals: Seq<MirrorRow>,
    writes: Seq<WriteV>,
    after: Seq<MirrorRow>,
) -> bool {
    forall|table: Table, id: Seq<char>| #[trigger]
        stored(after, table, id) == stored(locals, table, id) && (forall|w: int|
            0 <= w < writes.len() ==> !writes_row(#[trigger] writes[w], table, id)) || exists|w: int|
            0 <= w < writes.len() && writes_row(#[trigger] writes[w], table, id) && stored(
                after,
                table,
                id,
            ) == Some(writes[w].row)
}

/// Whether a server has forgotten none of these rows and taken none back.
pub open spec fn server_kept(
    candidates: Seq<CandidateV>,
    server: Seq<ServerRowV>,
    later: Seq<ServerRowV>,
) -> bool {
    forall|i: int|
        0 <= i < candidates.len() ==> match server_time(
            server,
            (#[trigger] candidates[i]).table,
            candidates[i].row.primary_key,
        ) {
            Some(n) => server_time(
                later,
                candidates[i].table,
                candidates[i].row.primary_key,
            ) matches Some(m) && m >= n,
            None => true,
        }
}

proof fn lemma_table_names_apart(a: Table, b: Table)
    ensures
        table_name(a) == table_name(b) ==> a == b,
{
    reveal_strlit("books");
    reveal_strlit("notes");
    reveal_strlit("custom_ideas");
    reveal_strlit("note_links");
    reveal_strlit("lenses");
    reveal_strlit("collections");
    reveal_strlit("collection_memberships");
    reveal_strlit("note_signals");
    assert("books"@.len() == 5 && "notes"@.len() == 5 && "custom_ideas"@.len() == 12);
    assert("note_links"@.len() == 10 && "lenses"@.len() == 6 && "collections"@.len() == 11);
    assert("collection_memberships"@.len() == 22 && "note_signals"@.len() == 12);
    assert("books"@[0] == 'b' && "notes"@[0] == 'n');
    assert("custom_ideas"@[0] == 'c' && "note_signals"@[0] == 'n');
}

proof fn lemma_locals_timed(
    candidates: Seq<CandidateV>,
    locals: Seq<MirrorRow>,
    server: Seq<ServerRowV>,
    i: int,
)
    requires
        selected(candidates, locals, server) is Ok,
        0 <= i < candidates.len(),
    ensures
        local_time(stored(locals, candidates[i].table, candidates[i].row.primary_key)) is Ok,
    decreases candidates.len(),
{
    if i < candidates.len() - 1 {
        assert(candidates.drop_last()[i] == candidates[i]);
        lemma_locals_timed(candidates.drop_last(), locals, server, i);
    }
}

/// Where no candidate is newer than what is known, all are passed over.
proof fn lemma_all_stale(
    candidates: Seq<CandidateV>,
    locals: Seq<MirrorRow>,
    server: Seq<ServerRowV>,
)
    requires
        forall|table: Table| #[trigger] rows_in(candidates, table) <= u32::MAX,
        forall|i: int|
            0 <= i < candidates.len() ==> {
                &&& local_time(
                    stored(locals, (#[trigger] candidates[i]).table, candidates[i].row.primary_key),
                ) is Ok
                &&& stale(
                    candidates[i].row.updated_at,
                    known_time(candidates[i], locals, server),
                )
            },
    ensures
        selected(candidates, locals, server) matches Ok(s) && s.imported == no_counts()
            && s.accepted.len() == 0 && s.newest is None && forall|table: Table| #[trigger]
            count_of(s.skipped_stale, table) == rows_in(candidates, table),
    decreases candidates.len(),
{
    if candidates.len() > 0 {
        let before = candidates.drop_last();
        let last = candidates.last();
        assert forall|table: Table| #[trigger] rows_in(before, table) <= u32::MAX by {
            assert(rows_in(candidates, table) <= u32::MAX);
        }
        assert forall|i: int| 0 <= i < before.len() implies {
            &&& local_time(
                stored(locals, (#[trigger] before[i]).table, before[i].row.primary_key),
            ) is Ok
            &&& stale(before[i].row.updated_at, known_time(before[i], locals, server))
        } by {
            assert(before[i] == candidates[i]);
        }
        lemma_all_stale(before, locals, server);
        assert(candidates[candidates.len() - 1] == last);
        let held = selected(before, locals, server)->Ok_0;
        assert(rows_in(candidates, last.table) <= u32::MAX);
        assert(count_of(held.skipped_stale, last.table) == rows_in(before, last.table));
        assert forall|table: Table| #[trigger]
            count_of(
                selected(candidates, locals, server)->Ok_0.skipped_stale,
                table,
            ) == rows_in(candidates, table) by {
            lemma_incremented(held.skipped_stale, last.table, table);
            assert(count_of(held.skipped_stale, table) == rows_in(before, table));
        }
    }
}

proof fn lemma_same_rows_in(a: Seq<CandidateV>, b: Seq<CandidateV>, table: Table)
    requires
        same_candidates(a, b),
    ensures
        rows_in(a, table) == rows_in(b, table),
    decreases a.len(),
{
    if a.len() > 0 {
        assert(a[a.len() - 1].table == b[a.len() - 1].table);
        assert forall|i: int| 0 <= i < a.len() - 1 implies {
            &&& (#[trigger] a.drop_last()[i]).table == b.drop_last()[i].table
            &&& a.drop_last()[i].row.primary_key == b.drop_last()[i].row.primary_key
            &&& a.drop_last()[i].row.updated_at == b.drop_last()[i].row.updated_at
        } by {
            assert(a.drop_last()[i] == a[i] && b.drop_last()[i] == b[i]);
        }
        lemma_same_rows_in(a.drop_last(), b.drop_last(), table);
    }
}

/// Importing the same rows again imports none of them and passes over every one: the second time
/// as many rows are passed over as the first time were merged and passed over together, and nothing
/// is staged.
pub proof fn law_second_import_imports_nothing(
    candidates: Seq<CandidateV>,
    again: Seq<CandidateV>,
    locals: Seq<MirrorRow>,
    server: Seq<ServerRowV>,
    import_now: i64,
    seals: Seq<Option<SealV>>,
    after: Seq<MirrorRow>,
    later_server: Seq<ServerRowV>,
    later: i64,
)
    requires
        candidates.len() <= usize::MAX,
        forall|table: Table| #[trigger] rows_in(candidates, table) <= u32::MAX,
        selected(candidates, locals, server) is Ok,
        merge_time(selected(candidates, locals, server)->Ok_0, import_now) is Ok,
        staged_into(
            locals,
            import_writes(
                candidates,
                selected(candidates, locals, server)->Ok_0,
                import_now,
                seals,
            ),
            after,
        ),
        server_kept(candidates, server, later_server),
        same_candidates(candidates, again),
    ensures
        ({
            let first = selected(candidates, locals, server)->Ok_0;
            &&& selected(again, after, later_server) is Ok
            &&& {
                let second = selected(again, after, later_server)->Ok_0;
                &&& second.imported == no_counts()
                &&& second.accepted.len() == 0
                &&& merge_time(second, later) == Ok::<Option<i64>, ()>(None)
                &&& forall|table: Table| #[trigger]
                    count_of(second.skipped_stale, table) == count_of(first.imported, table)
                        + count_of(first.skipped_stale, table)
            }
        }),
{
    let first = selected(candidates, locals, server)->Ok_0;
    let writes = import_writes(candidates, first, import_now, seals);
    assert forall|i: int| 0 <= i < again.len() implies {
        &&& local_time(
            stored(after, (#[trigger] again[i]).table, again[i].row.primary_key),
        ) is Ok
        &&& stale(again[i].row.updated_at, known_time(again[i], after, later_server))
    } by {
        let table = candidates[i].table;
        let key = candidates[i].row.primary_key;
        assert(candidates[i].table == again[i].table);
        lemma_locals_timed(candidates, locals, server, i);
        law_merged_iff_newer(candidates, locals, server, i);
        let now_stored = stored(after, table, key);
        if exists|w: int| 0 <= w < writes.len() && writes_row(#[trigger] writes[w], table, key)
            && now_stored == Some(writes[w].row) {
            let w = choose|w: int|
                0 <= w < writes.len() && writes_row(#[trigger] writes[w], table, key)
                    && now_stored == Some(writes[w].row);
            let k = first.accepted[w] as int;
            let time = merge_time(first, import_now)->Ok_0->Some_0;
            assert(first.accepted.contains(first.accepted[w]));
            lemma_accepted_bound(candidates, locals, server);
            law_merged_iff_newer(candidates, locals, server, k);
            law_merge_time_beats_all(candidates, locals, server, import_now, k);
            law_staged_row_is_whole(candidates[k], time, seals[w], ""@);
            lemma_table_names_apart(candidates[k].table, table);
            assert(local_time(now_stored) == Ok::<Option<i64>, Refusal>(Some(time)));
            assert(candidates[k].table == table && candidates[k].row.primary_key == key);
            if first.accepted.contains(i as usize) {
                law_merge_time_beats_all(candidates, locals, server, import_now, i);
            }
        } else {
            assert(now_stored == stored(locals, table, key));
            if first.accepted.contains(i as usize) {
                let w = choose|w: int| 0 <= w < first.accepted.len() && first.accepted[w] == i as usize;
                law_merge_time_beats_all(candidates, locals, server, import_now, i);
                assert(writes_row(writes[w], table, key));
            }
        }
    }
    assert forall|table: Table| #[trigger] rows_in(again, table) <= u32::MAX by {
        lemma_same_rows_in(candidates, again, table);
        assert(rows_in(candidates, table) <= u32::MAX);
    }
    lemma_all_stale(again, after, later_server);
    let second = selected(again, after, later_server)->Ok_0;
    assert forall|table: Table| #[trigger]
        count_of(second.skipped_stale, table) == count_of(first.imported, table) + count_of(
            first.skipped_stale,
            table,
        ) by {
        lemma_same_rows_in(candidates, again, table);
        law_every_row_is_counted(candidates, locals, server, table);
    }
}

/// The keys that some requests ask for.
pub open spec fn asked_for(requests: Seq<FetchRequestV>) -> Seq<Seq<char>>
    decreases requests.len(),
{
    if requests.len() == 0 {
        Seq::empty()
    } else {
        requests[0].ids + asked_for(requests.drop_first())
    }
}

/// Requests ask for every key once and in order, and none for too many or for nothing.
pub proof fn law_requests_cover_all_keys(table: Table, ids: Seq<Seq<char>>)
    ensures
        asked_for(chunked(table, ids)) == ids,
        forall|i: int|
            0 <= i < chunked(table, ids).len() ==> {
                &&& (#[trigger] chunked(table, ids)[i]).table == table
                &&& 0 < chunked(table, ids)[i].ids.len() <= FETCH_CHUNK_SIZE
            },
    decreases ids.len(),
{
    if ids.len() == 0 {
        assert(asked_for(chunked(table, ids)) =~= ids);
    } else if ids.len() <= FETCH_CHUNK_SIZE {
        let all = chunked(table, ids);
        assert(all.drop_first() =~= Seq::empty());
        assert(asked_for(all.drop_first()) =~= Seq::empty());
        assert(asked_for(all) =~= ids);
    } else {
        let rest = ids.skip(FETCH_CHUNK_SIZE as int);
        law_requests_cover_all_keys(table, rest);
        let all = chunked(table, ids);
        assert(all.drop_first() =~= chunked(table, rest));
        assert(ids.take(FETCH_CHUNK_SIZE as int) + rest =~= ids);
        assert forall|i: int| 0 <= i < all.len() implies {
            &&& (#[trigger] all[i]).table == table
            &&& 0 < all[i].ids.len() <= FETCH_CHUNK_SIZE
        } by {
            if i > 0 {
                assert(all[i] == chunked(table, rest)[i - 1]);
            }
        }
    }
}

} // verus!
