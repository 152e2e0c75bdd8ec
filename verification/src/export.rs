//! The archive of a library: its live rows under their archive names, note texts opened, margins
//! listed with the notes they belong to.

use crate::calendar::{
    epoch_of, format_utc_iso8601, timestamp_failed, utc_text, valid_parts, UtcParts, END_MS,
    FIRST_MS,
};
use crate::columns::{fields_of, map_fields, mapped_row};
use crate::import::handwritten_annotation;
use crate::json::{
    field, items_view, json_view, lemma_items_view, reversed, row_i64, row_text, texts_json,
    texts_view, Fields, Json, JsonV, Number, RowV,
};
use crate::tables::Table;
use crate::text::{begins_with, has_prefix, lemma_text_order, same_text, text_before, text_less};
use crate::types::{store_error, SyncError};
use vstd::prelude::*;

verus! {

/// The version of the archives that are written.
pub const SCHEMA_VERSION: u32 = 19;

pub open spec fn rows_of_fields(rows: Seq<Fields>) -> Seq<RowV> {
    rows.map_values(|r: Fields| r@)
}

/// The live rows of every synced table.
#[derive(Debug)]
pub struct SnapshotRows {
    pub books: Vec<Fields>,
    pub notes: Vec<Fields>,
    pub custom_ideas: Vec<Fields>,
    pub note_links: Vec<Fields>,
    pub lenses: Vec<Fields>,
    pub collections: Vec<Fields>,
    pub collection_memberships: Vec<Fields>,
    pub note_signals: Vec<Fields>,
}

/// An archive: the time it was made and the rows of every store.
#[derive(Debug)]
pub struct Snapshot {
    pub exported_at: String,
    pub books: Vec<Fields>,
    pub notes: Vec<Fields>,
    pub custom_ideas: Vec<Fields>,
    pub note_links: Vec<Fields>,
    pub lenses: Vec<Fields>,
    pub collections: Vec<Fields>,
    pub collection_memberships: Vec<Fields>,
    pub note_signals: Vec<Fields>,
}

/// Rows under their archive names.
pub open spec fn mapped_rows(rows: Seq<RowV>, table: Table) -> Seq<RowV> {
    rows.map_values(|r: RowV| mapped_row(r, fields_of(table)))
}

/// Rows under their archive names.
pub fn map_rows(rows: &Vec<Fields>, table: Table) -> (mapped: Vec<Fields>)
    ensures
        rows_of_fields(mapped@) == mapped_rows(rows_of_fields(rows@), table),
{
    let ghost want = mapped_rows(rows_of_fields(rows@), table);
    let mut mapped: Vec<Fields> = Vec::new();
    let mut i: usize = 0;
    assert(rows_of_fields(mapped@) =~= want.take(0));
    while i < rows.len()
        invariant
            i <= rows@.len(),
            want == mapped_rows(rows_of_fields(rows@), table),
            rows_of_fields(mapped@) == want.take(i as int),
        decreases rows.len() - i,
    {
        let ghost held = rows_of_fields(mapped@);
        let row = map_fields(&rows[i], table);
        mapped.push(row);
        assert(rows_of_fields(mapped@) =~= held.push(row@));
        assert(want[i as int] == row@);
        assert(held.push(row@) =~= want.take(i + 1));
        i = i + 1;
    }
    assert(want.take(want.len() as int) =~= want);
    mapped
}

/// Whether a stored text is sealed.
pub open spec fn sealed(text: Seq<char>) -> bool {
    begins_with(text, "enc:"@)
}

/// The stored text of a note where it has to be opened.
pub open spec fn sealed_text(row: RowV) -> Option<Seq<char>> {
    match row_text(row, "text"@) {
        Some(text) => if sealed(text) {
            Some(text)
        } else {
            None
        },
        None => None,
    }
}

/// The stored text of a note where it has to be opened.
pub fn text_to_open(row: &Fields) -> (text: Option<&String>)
    ensures
        match text {
            Some(t) => sealed_text(row@) == Some(t@),
            None => sealed_text(row@) is None,
        },
{
    match row.get_text("text") {
        Some(text) => if has_prefix(text.as_str(), "enc:") {
            Some(text)
        } else {
            None
        },
        None => None,
    }
}

/// The text of a note as it is exported: a sealed one opened, any other as it stands, none as
/// null. A sealed text that could not be opened fails.
pub open spec fn note_text(row: RowV, opened: Option<Seq<char>>) -> Option<JsonV> {
    match row_text(row, "text"@) {
        Some(text) => if sealed(text) {
            match opened {
                Some(plain) => Some(JsonV::Str(plain)),
                None => None,
            }
        } else {
            Some(JsonV::Str(text))
        },
        None => Some(JsonV::Null),
    }
}

/// A note under its archive names, its text opened.
pub open spec fn mapped_note(row: RowV, opened: Option<Seq<char>>) -> Option<RowV> {
    match note_text(row, opened) {
        Some(text) => Some(mapped_row(row, fields_of(Table::Notes)).insert("text"@, text)),
        None => None,
    }
}

pub open spec fn opt_view(text: Option<&String>) -> Option<Seq<char>> {
    match text {
        Some(s) => Some(s@),
        None => None,
    }
}

/// What is said of a note that cannot be opened.
pub open spec fn decryption_failed() -> Seq<char> {
    "snapshot export note decryption failed"@
}

/// A note under its archive names. `opened` is its text opened, or nothing where that failed.
pub fn map_note(row: &Fields, opened: Option<&String>) -> (result: Result<Fields, SyncError>)
    ensures
        match result {
            Ok(mapped) => mapped_note(row@, opt_view(opened)) == Some(mapped@),
            Err(e) => {
                &&& mapped_note(row@, opt_view(opened)) is None
                &&& store_error(e, decryption_failed())
            },
        },
{
    let text = match row.get_text("text") {
        Some(text) => if has_prefix(text.as_str(), "enc:") {
            match opened {
                Some(plain) => Json::text(plain.as_str()),
                None => {
                    return Err(SyncError::store("snapshot export note decryption failed"));
                },
            }
        } else {
            Json::text(text.as_str())
        },
        None => Json::Null,
    };
    let mut mapped = map_fields(row, Table::Notes);
    mapped.insert("text", text);
    Ok(mapped)
}

pub open spec fn opened_view(opened: Seq<Option<String>>) -> Seq<Option<Seq<char>>> {
    opened.map_values(
        |o: Option<String>|
            match o {
                Some(s) => Some(s@),
                None => None,
            },
    )
}

/// The notes under their archive names; nothing if any of them cannot be opened.
pub open spec fn mapped_notes(rows: Seq<RowV>, opened: Seq<Option<Seq<char>>>) -> Option<Seq<RowV>>
    decreases rows.len(),
{
    if rows.len() == 0 {
        Some(Seq::empty())
    } else {
        match mapped_notes(rows.drop_last(), opened) {
            Some(before) => match mapped_note(rows.last(), opened[rows.len() - 1]) {
                Some(note) => Some(before.push(note)),
                None => None,
            },
            None => None,
        }
    }
}

proof fn lemma_notes_prefix(rows: Seq<RowV>, opened: Seq<Option<Seq<char>>>, i: int)
    requires
        0 <= i <= rows.len(),
        mapped_notes(rows.take(i), opened) is None,
    ensures
        mapped_notes(rows, opened) is None,
    decreases rows.len(),
{
    if i < rows.len() {
        assert(rows.drop_last().take(i) =~= rows.take(i));
        lemma_notes_prefix(rows.drop_last(), opened, i);
    } else {
        assert(rows.take(i) =~= rows);
    }
}

/// The notes under their archive names.
pub fn map_notes(rows: &Vec<Fields>, opened: &Vec<Option<String>>) -> (result: Result<
    Vec<Fields>,
    SyncError,
>)
    requires
        opened@.len() == rows@.len(),
    ensures
        match result {
            Ok(notes) => mapped_notes(rows_of_fields(rows@), opened_view(opened@)) == Some(
                rows_of_fields(notes@),
            ),
            Err(e) => {
                &&& mapped_notes(rows_of_fields(rows@), opened_view(opened@)) is None
                &&& store_error(e, decryption_failed())
            },
        },
{
    let ghost all = rows_of_fields(rows@);
    let ghost texts = opened_view(opened@);
    let mut notes: Vec<Fields> = Vec::new();
    let mut i: usize = 0;
    assert(all.take(0) =~= Seq::empty());
    assert(rows_of_fields(notes@) =~= Seq::empty());
    while i < rows.len()
        invariant
            i <= rows@.len(),
            opened@.len() == rows@.len(),
            all == rows_of_fields(rows@),
            texts == opened_view(opened@),
            mapped_notes(all.take(i as int), texts) == Some(rows_of_fields(notes@)),
        decreases rows.len() - i,
    {
        assert(all.take(i + 1).drop_last() =~= all.take(i as int));
        let text = match &opened[i] {
            Some(s) => Some(s),
            None => None,
        };
        assert(texts[i as int] == opt_view(text));
        let ghost held = rows_of_fields(notes@);
        match map_note(&rows[i], text) {
            Ok(note) => {
                notes.push(note);
                assert(rows_of_fields(notes@) =~= held.push(note@));
            },
            Err(e) => {
                proof {
                    lemma_notes_prefix(all, texts, i + 1);
                }
                return Err(e);
            },
        }
        i = i + 1;
    }
    assert(all.take(all.len() as int) =~= all);
    Ok(notes)
}

/// The text of the note with a key, among exported notes.
pub open spec fn child_text(notes: Seq<RowV>, id: Seq<char>) -> Option<Seq<char>>
    decreases notes.len(),
{
    if notes.len() == 0 {
        None
    } else if row_text(notes.last(), "id"@) == Some(id) && row_text(
        notes.last(),
        "text"@,
    ) is Some {
        row_text(notes.last(), "text"@)
    } else {
        child_text(notes.drop_last(), id)
    }
}

/// When an edge was made.
pub open spec fn edge_time(edge: RowV) -> i64 {
    match row_i64(edge, "created_at"@) {
        Some(n) => n,
        None => 0,
    }
}

/// An edge's key.
pub open spec fn edge_key(edge: RowV) -> Seq<char> {
    match row_text(edge, "id"@) {
        Some(id) => id,
        None => Seq::empty(),
    }
}

/// Whether an edge comes before another: it is older, or as old with a lesser key.
pub open spec fn edge_before(a: RowV, b: RowV) -> bool {
    edge_time(a) < edge_time(b) || (edge_time(a) == edge_time(b) && text_less(
        edge_key(a),
        edge_key(b),
    ))
}

/// Puts an edge behind all that do not come after it.
pub open spec fn insert_edge(sorted: Seq<RowV>, edge: RowV) -> Seq<RowV>
    decreases sorted.len(),
{
    if sorted.len() > 0 && edge_before(edge, sorted.last()) {
        insert_edge(sorted.drop_last(), edge).push(sorted.last())
    } else {
        sorted.push(edge)
    }
}

/// The edges to margins, in order.
pub open spec fn margin_edges(links: Seq<RowV>) -> Seq<RowV>
    decreases links.len(),
{
    if links.len() == 0 {
        Seq::empty()
    } else if row_text(links.last(), "relation_type"@) == Some(handwritten_annotation()) {
        insert_edge(margin_edges(links.drop_last()), links.last())
    } else {
        margin_edges(links.drop_last())
    }
}

/// The text that an edge gives to a parent.
pub open spec fn margin_text(edge: RowV, notes: Seq<RowV>, parent: Seq<char>) -> Option<Seq<char>> {
    if row_text(edge, "from_note_id"@) == Some(parent) {
        match row_text(edge, "to_note_id"@) {
            Some(child) => child_text(notes, child),
            None => None,
        }
    } else {
        None
    }
}

/// The texts that edges give to a parent, in order.
pub open spec fn margin_texts(edges: Seq<RowV>, notes: Seq<RowV>, parent: Seq<char>) -> Seq<
    Seq<char>,
>
    decreases edges.len(),
{
    if edges.len() == 0 {
        Seq::empty()
    } else {
        let before = margin_texts(edges.drop_last(), notes, parent);
        match margin_text(edges.last(), notes, parent) {
            Some(text) => before.push(text),
            None => before,
        }
    }
}

/// The margins that the note at a position lists: those of its key, unless a note before it has
/// the same key.
pub open spec fn listed_margins(notes: Seq<RowV>, edges: Seq<RowV>, at: int) -> Seq<Seq<char>> {
    match row_text(notes[at], "id"@) {
        Some(id) => if exists|j: int|
            0 <= j < at && row_text(#[trigger] notes[j], "id"@) == Some(id) {
            Seq::empty()
        } else {
            margin_texts(edges, notes, id)
        },
        None => Seq::empty(),
    }
}

/// A note with its margins listed; nothing is added where there are none.
pub open spec fn with_margins(note: RowV, margins: Seq<Seq<char>>) -> RowV {
    if margins.len() == 0 {
        note
    } else {
        note.insert(
            "user_metadata"@,
            JsonV::Obj(Map::empty().insert("user_annotation"@, texts_json(margins))),
        )
    }
}

/// The notes with their margins listed.
pub open spec fn annotated(notes: Seq<RowV>, links: Seq<RowV>) -> Seq<RowV> {
    Seq::new(
        notes.len(),
        |i: int| with_margins(notes[i], listed_margins(notes, margin_edges(links), i)),
    )
}

fn find_child_text<'a>(notes: &'a Vec<Fields>, id: &str) -> (text: Option<&'a String>)
    ensures
        opt_view(text) == child_text(rows_of_fields(notes@), id@),
{
    let ghost all = rows_of_fields(notes@);
    let mut i: usize = notes.len();
    assert(all.take(all.len() as int) =~= all);
    while i > 0
        invariant
            i <= notes@.len(),
            all == rows_of_fields(notes@),
            child_text(all, id@) == child_text(all.take(i as int), id@),
        decreases i,
    {
        i = i - 1;
        assert(all.take(i + 1).drop_last() =~= all.take(i as int));
        assert(all.take(i + 1).last() == notes@[i as int]@);
        if let Some(own) = notes[i].get_text("id") {
            if same_text(own.as_str(), id) {
                if let Some(text) = notes[i].get_text("text") {
                    return Some(text);
                }
            }
        }
    }
    assert(all.take(0) =~= Seq::empty());
    None
}

fn edge_created_at(edge: &Fields) -> (time: i64)
    ensures
        time == edge_time(edge@),
{
    match edge.get_i64("created_at") {
        Some(n) => n,
        None => 0,
    }
}

fn edge_id<'a>(edge: &'a Fields) -> (id: &'a str)
    ensures
        id@ == edge_key(edge@),
{
    proof {
        reveal_strlit("");
        assert(""@ =~= Seq::empty());
    }
    match edge.get_text("id") {
        Some(id) => id.as_str(),
        None => "",
    }
}

fn comes_before(a: &Fields, b: &Fields) -> (yes: bool)
    ensures
        yes == edge_before(a@, b@),
{
    let x = edge_created_at(a);
    let y = edge_created_at(b);
    x < y || (x == y && text_before(edge_id(a), edge_id(b)))
}

pub open spec fn edge_refs_view(edges: Seq<&Fields>) -> Seq<RowV> {
    edges.map_values(|e: &Fields| e@)
}

proof fn lemma_insert_edge(sorted: Seq<RowV>, edge: RowV, at: int)
    requires
        0 <= at <= sorted.len(),
        at == 0 || !edge_before(edge, sorted[at - 1]),
        forall|j: int| at <= j < sorted.len() ==> edge_before(edge, #[trigger] sorted[j]),
    ensures
        insert_edge(sorted, edge) == sorted.insert(at, edge),
    decreases sorted.len(),
{
    if at < sorted.len() {
        assert(edge_before(edge, sorted[sorted.len() - 1]));
        assert forall|j: int| at <= j < sorted.drop_last().len() implies edge_before(
            edge,
            #[trigger] sorted.drop_last()[j],
        ) by {
            assert(sorted.drop_last()[j] == sorted[j]);
        }
        lemma_insert_edge(sorted.drop_last(), edge, at);
        assert(sorted.drop_last().insert(at, edge).push(sorted.last()) =~= sorted.insert(at, edge));
    } else {
        assert(sorted.insert(at, edge) =~= sorted.push(edge));
    }
}

fn sort_margin_edges<'a>(links: &'a Vec<Fields>) -> (sorted: Vec<&'a Fields>)
    ensures
        edge_refs_view(sorted@) == margin_edges(rows_of_fields(links@)),
{
    let ghost all = rows_of_fields(links@);
    let mut sorted: Vec<&'a Fields> = Vec::new();
    let mut n: usize = 0;
    assert(all.take(0) =~= Seq::empty());
    assert(edge_refs_view(sorted@) =~= Seq::empty());
    while n < links.len()
        invariant
            n <= links@.len(),
            all == rows_of_fields(links@),
            edge_refs_view(sorted@) == margin_edges(all.take(n as int)),
        decreases links.len() - n,
    {
        assert(all.take(n + 1).drop_last() =~= all.take(n as int));
        assert(all.take(n + 1).last() == links@[n as int]@);
        let edge = &links[n];
        let margin = match edge.get_text("relation_type") {
            Some(relation) => same_text(relation.as_str(), "handwritten_annotation"),
            None => false,
        };
        if margin {
            let mut at: usize = sorted.len();
            while at > 0 && comes_before(edge, sorted[at - 1])
                invariant
                    at <= sorted@.len(),
                    forall|j: int|
                        at <= j < sorted@.len() ==> edge_before(
                            edge@,
                            (#[trigger] sorted@[j])@,
                        ),
                decreases at,
            {
                at = at - 1;
            }
            let ghost before = edge_refs_view(sorted@);
            proof {
                assert forall|j: int| at <= j < before.len() implies edge_before(
                    edge@,
                    #[trigger] before[j],
                ) by {
                    assert(before[j] == sorted@[j]@);
                }
                lemma_insert_edge(before, edge@, at as int);
            }
            sorted.insert(at, edge);
            assert(edge_refs_view(sorted@) =~= before.insert(at as int, edge@));
        }
        n = n + 1;
    }
    assert(all.take(all.len() as int) =~= all);
    sorted
}

fn collect_margins(edges: &Vec<&Fields>, notes: &Vec<Fields>, parent: &str) -> (texts: Vec<String>)
    ensures
        texts_view(texts@) == margin_texts(
            edge_refs_view(edges@),
            rows_of_fields(notes@),
            parent@,
        ),
{
    let ghost all = edge_refs_view(edges@);
    let mut texts: Vec<String> = Vec::new();
    let mut i: usize = 0;
    assert(all.take(0) =~= Seq::empty());
    assert(texts_view(texts@) =~= Seq::empty());
    while i < edges.len()
        invariant
            i <= edges@.len(),
            all == edge_refs_view(edges@),
            texts_view(texts@) == margin_texts(
                all.take(i as int),
                rows_of_fields(notes@),
                parent@,
            ),
        decreases edges.len() - i,
    {
        assert(all.take(i + 1).drop_last() =~= all.take(i as int));
        assert(all.take(i + 1).last() == edges@[i as int]@);
        let ghost held = texts_view(texts@);
        let edge = edges[i];
        if let Some(from) = edge.get_text("from_note_id") {
            if same_text(from.as_str(), parent) {
                if let Some(child) = edge.get_text("to_note_id") {
                    if let Some(text) = find_child_text(notes, child.as_str()) {
                        let copy = text.clone();
                        texts.push(copy);
                        assert(texts_view(texts@) =~= held.push(copy@));
                    }
                }
            }
        }
        i = i + 1;
    }
    assert(all.take(all.len() as int) =~= all);
    texts
}

fn list_margins(notes: &Vec<Fields>, edges: &Vec<&Fields>, at: usize) -> (texts: Vec<String>)
    requires
        at < notes@.len(),
    ensures
        texts_view(texts@) == listed_margins(
            rows_of_fields(notes@),
            edge_refs_view(edges@),
            at as int,
        ),
{
    let ghost all = rows_of_fields(notes@);
    assert(all[at as int] == notes@[at as int]@);
    let id = match notes[at].get_text("id") {
        Some(id) => id,
        None => {
            let none: Vec<String> = Vec::new();
            assert(texts_view(none@) =~= Seq::empty());
            return none;
        },
    };
    let mut j: usize = 0;
    while j < at
        invariant
            j <= at < notes@.len(),
            all == rows_of_fields(notes@),
            forall|k: int| 0 <= k < j ==> row_text(#[trigger] all[k], "id"@) != Some(id@),
            row_text(all[at as int], "id"@) == Some(id@),
        decreases at - j,
    {
        assert(all[j as int] == notes@[j as int]@);
        if let Some(other) = notes[j].get_text("id") {
            if same_text(other.as_str(), id.as_str()) {
                let none: Vec<String> = Vec::new();
                assert(texts_view(none@) =~= Seq::empty());
                assert(row_text(all[j as int], "id"@) == Some(id@));
                return none;
            }
        }
        j = j + 1;
    }
    collect_margins(edges, notes, id.as_str())
}

fn add_margins(note: &Fields, margins: &Vec<String>) -> (out: Fields)
    ensures
        out@ == with_margins(note@, texts_view(margins@)),
{
    let mut out = note.copy();
    if margins.len() > 0 {
        let mut metadata = Fields::new();
        metadata.insert("user_annotation", Json::texts(margins));
        out.insert("user_metadata", Json::Obj(metadata));
    }
    out
}

/// Lists with each note the texts of its margins, in the order of their edges.
pub fn attach_user_annotations(notes: &Vec<Fields>, note_links: &Vec<Fields>) -> (out: Vec<Fields>)
    ensures
        rows_of_fields(out@) == annotated(rows_of_fields(notes@), rows_of_fields(note_links@)),
{
    let ghost all = rows_of_fields(notes@);
    let ghost want = annotated(all, rows_of_fields(note_links@));
    let edges = sort_margin_edges(note_links);
    let mut out: Vec<Fields> = Vec::new();
    let mut i: usize = 0;
    assert(rows_of_fields(out@) =~= want.take(0));
    while i < notes.len()
        invariant
            i <= notes@.len(),
            all == rows_of_fields(notes@),
            edge_refs_view(edges@) == margin_edges(rows_of_fields(note_links@)),
            want == annotated(all, rows_of_fields(note_links@)),
            rows_of_fields(out@) == want.take(i as int),
        decreases notes.len() - i,
    {
        let ghost held = rows_of_fields(out@);
        let margins = list_margins(notes, &edges, i);
        let note = add_margins(&notes[i], &margins);
        assert(all[i as int] == notes@[i as int]@);
        assert(want[i as int] == note@);
        out.push(note);
        assert(rows_of_fields(out@) =~= held.push(note@));
        assert(held.push(note@) =~= want.take(i + 1));
        i = i + 1;
    }
    assert(want.take(want.len() as int) =~= want);
    out
}

/// Whether an archive is that of some rows at some time.
pub open spec fn snapshot_of(
    snapshot: Snapshot,
    rows: SnapshotRows,
    notes: Seq<RowV>,
    now_ms: i64,
) -> bool {
    &&& exists|p: UtcParts| #[trigger]
        valid_parts(p) && p.year >= 0 && epoch_of(p) == now_ms && snapshot.exported_at@
            == utc_text(p)
    &&& rows_of_fields(snapshot.books@) == mapped_rows(rows_of_fields(rows.books@), Table::Books)
    &&& rows_of_fields(snapshot.notes@) == annotated(notes, rows_of_fields(rows.note_links@))
    &&& rows_of_fields(snapshot.custom_ideas@) == mapped_rows(
        rows_of_fields(rows.custom_ideas@),
        Table::CustomIdeas,
    )
    &&& rows_of_fields(snapshot.note_links@) == mapped_rows(
        rows_of_fields(rows.note_links@),
        Table::NoteLinks,
    )
    &&& rows_of_fields(snapshot.lenses@) == mapped_rows(rows_of_fields(rows.lenses@), Table::Lenses)
    &&& rows_of_fields(snapshot.collections@) == mapped_rows(
        rows_of_fields(rows.collections@),
        Table::Collections,
    )
    &&& rows_of_fields(snapshot.collection_memberships@) == mapped_rows(
        rows_of_fields(rows.collection_memberships@),
        Table::CollectionMemberships,
    )
    &&& rows_of_fields(snapshot.note_signals@) == mapped_rows(
        rows_of_fields(rows.note_signals@),
        Table::NoteSignals,
    )
}

/// Makes the archive of live rows. `opened` holds for each note its text opened, or nothing where
/// that failed; one note that cannot be opened fails the whole archive.
pub fn build_snapshot_at(
    rows: &SnapshotRows,
    opened: &Vec<Option<String>>,
    now_ms: i64,
) -> (result: Result<Snapshot, SyncError>)
    requires
        opened@.len() == rows.notes@.len(),
    ensures
        match mapped_notes(rows_of_fields(rows.notes@), opened_view(opened@)) {
            None => match result {
                Ok(_) => false,
                Err(e) => store_error(e, decryption_failed()),
            },
            Some(notes) => match result {
                Ok(snapshot) => FIRST_MS <= now_ms < END_MS && snapshot_of(
                    snapshot,
                    *rows,
                    notes,
                    now_ms,
                ),
                Err(e) => !(FIRST_MS <= now_ms < END_MS) && store_error(e, timestamp_failed()),
            },
        },
{
    let plain = match map_notes(&rows.notes, opened) {
        Ok(notes) => notes,
        Err(e) => {
            return Err(e);
        },
    };
    let exported_at = match format_utc_iso8601(now_ms) {
        Ok(text) => text,
        Err(e) => {
            return Err(e);
        },
    };
    Ok(
        Snapshot {
            exported_at,
            books: map_rows(&rows.books, Table::Books),
            notes: attach_user_annotations(&plain, &rows.note_links),
            custom_ideas: map_rows(&rows.custom_ideas, Table::CustomIdeas),
            note_links: map_rows(&rows.note_links, Table::NoteLinks),
            lenses: map_rows(&rows.lenses, Table::Lenses),
            collections: map_rows(&rows.collections, Table::Collections),
            collection_memberships: map_rows(
                &rows.collection_memberships,
                Table::CollectionMemberships,
            ),
            note_signals: map_rows(&rows.note_signals, Table::NoteSignals),
        },
    )
}

/// Rows as the items of an archive store.
pub open spec fn as_items(rows: Seq<RowV>) -> Seq<JsonV> {
    rows.map_values(|r: RowV| JsonV::Obj(r))
}

/// A store of an archive as a JSON array.
pub open spec fn store_json(rows: Seq<RowV>) -> JsonV {
    JsonV::Arr(as_items(rows))
}

/// An archive as a JSON object: the envelope and its stores.
pub open spec fn archive_object(snapshot: Snapshot) -> RowV {
    Map::empty().insert("_syntopicon"@, JsonV::Bool(true)).insert(
        "schemaVersion"@,
        JsonV::Num(Number::PosInt(SCHEMA_VERSION as u64)),
    ).insert("exportedAt"@, JsonV::Str(snapshot.exported_at@)).insert(
        "books"@,
        store_json(rows_of_fields(snapshot.books@)),
    ).insert("notes"@, store_json(rows_of_fields(snapshot.notes@))).insert(
        "customIdeas"@,
        store_json(rows_of_fields(snapshot.custom_ideas@)),
    ).insert("noteLinks"@, store_json(rows_of_fields(snapshot.note_links@))).insert(
        "lenses"@,
        store_json(rows_of_fields(snapshot.lenses@)),
    ).insert("collections"@, store_json(rows_of_fields(snapshot.collections@))).insert(
        "collectionMemberships"@,
        store_json(rows_of_fields(snapshot.collection_memberships@)),
    ).insert("noteSignals"@, store_json(rows_of_fields(snapshot.note_signals@)))
}

/// The names in an archive, in the order in which they are written.
pub open spec fn archive_names() -> Seq<Seq<char>> {
    seq![
        "_syntopicon"@,
        "schemaVersion"@,
        "exportedAt"@,
        "books"@,
        "notes"@,
        "customIdeas"@,
        "noteLinks"@,
        "lenses"@,
        "collections"@,
        "collectionMemberships"@,
        "noteSignals"@,
    ]
}

pub open spec fn member_names(entries: Seq<(String, Json)>) -> Seq<Seq<char>> {
    entries.map_values(|e: (String, Json)| e.0@)
}

fn push_member(fields: &mut Fields, name: &str, value: Json)
    ensures
        final(fields)@ == old(fields)@.insert(name@, value@),
        member_names(final(fields).entries@) == member_names(old(fields).entries@).push(name@),
{
    let ghost before = fields.entries@;
    let entry = (name.to_owned(), value);
    fields.entries.push(entry);
    proof {
        assert(fields.entries@.drop_last() =~= before);
        assert(member_names(fields.entries@) =~= member_names(before).push(name@));
    }
}

fn store_items(rows: Vec<Fields>) -> (value: Json)
    ensures
        value@ == store_json(rows_of_fields(rows@)),
{
    let ghost all = rows@;
    let mut rest = reversed(rows);
    let mut items: Vec<Json> = Vec::new();
    while rest.len() > 0
        invariant
            items@.len() + rest@.len() == all.len(),
            forall|j: int| 0 <= j < rest@.len() ==> #[trigger] rest@[j] == all[all.len() - 1 - j],
            forall|j: int|
                0 <= j < items@.len() ==> json_view(#[trigger] items@[j]) == JsonV::Obj(all[j]@),
        decreases rest.len(),
    {
        if let Some(row) = rest.pop() {
            items.push(Json::Obj(row));
        }
    }
    proof {
        lemma_items_view(items@);
        assert(items_view(items@) =~= as_items(rows_of_fields(all)));
    }
    Json::Arr(items)
}

/// Writes an archive as a JSON object, its members in order.
pub fn write_archive(snapshot: Snapshot) -> (archive: Fields)
    ensures
        archive@ == archive_object(snapshot),
        member_names(archive.entries@) == archive_names(),
{
    let mut archive = Fields { entries: Vec::new() };
    assert(member_names(archive.entries@) =~= Seq::empty());
    push_member(&mut archive, "_syntopicon", Json::Bool(true));
    push_member(&mut archive, "schemaVersion", Json::Num(Number::PosInt(SCHEMA_VERSION as u64)));
    push_member(&mut archive, "exportedAt", Json::Str(snapshot.exported_at));
    push_member(&mut archive, "books", store_items(snapshot.books));
    push_member(&mut archive, "notes", store_items(snapshot.notes));
    push_member(&mut archive, "customIdeas", store_items(snapshot.custom_ideas));
    push_member(&mut archive, "noteLinks", store_items(snapshot.note_links));
    push_member(&mut archive, "lenses", store_items(snapshot.lenses));
    push_member(&mut archive, "collections", store_items(snapshot.collections));
    push_member(
        &mut archive,
        "collectionMemberships",
        store_items(snapshot.collection_memberships),
    );
    push_member(&mut archive, "noteSignals", store_items(snapshot.note_signals));
    assert(member_names(archive.entries@) =~= archive_names());
    archive
}

/// Edges none of which comes before one that stands in front of it.
pub open spec fn in_edge_order(edges: Seq<RowV>) -> bool {
    forall|i: int, j: int|
        0 <= i < j < edges.len() ==> !edge_before(#[trigger] edges[j], #[trigger] edges[i])
}

proof fn lemma_edge_order(a: RowV, b: RowV, c: RowV)
    ensures
        !edge_before(a, a),
        edge_before(a, b) && edge_before(b, c) ==> edge_before(a, c),
        edge_before(a, b) ==> !edge_before(b, a),
        edge_before(a, b) && !edge_before(c, b) ==> !edge_before(c, a),
{
    lemma_text_order(edge_key(a), edge_key(b), edge_key(c));
    lemma_text_order(edge_key(c), edge_key(a), edge_key(b));
    lemma_text_order(edge_key(b), edge_key(a), edge_key(b));
    lemma_text_order(edge_key(a), edge_key(b), edge_key(a));
}

proof fn lemma_insert_edge_order(sorted: Seq<RowV>, edge: RowV)
    requires
        in_edge_order(sorted),
    ensures
        in_edge_order(insert_edge(sorted, edge)),
        insert_edge(sorted, edge).to_multiset() == sorted.to_multiset().insert(edge),
    decreases sorted.len(),
{
    broadcast use vstd::seq_lib::group_to_multiset_ensures;

    let out = insert_edge(sorted, edge);
    if sorted.len() > 0 && edge_before(edge, sorted.last()) {
        let before = sorted.drop_last();
        let last = sorted.last();
        assert(sorted[sorted.len() - 1] == last);
        assert forall|i: int, j: int| 0 <= i < j < before.len() implies !edge_before(
            #[trigger] before[j],
            #[trigger] before[i],
        ) by {
            assert(before[i] == sorted[i] && before[j] == sorted[j]);
        }
        lemma_insert_edge_order(before, edge);
        let inner = insert_edge(before, edge);
        assert(sorted =~= before.push(last));
        assert(out.to_multiset() =~= sorted.to_multiset().insert(edge));
        assert forall|i: int, j: int| 0 <= i < j < out.len() implies !edge_before(
            #[trigger] out[j],
            #[trigger] out[i],
        ) by {
            if j == out.len() - 1 {
                assert(inner.to_multiset().contains(inner[i]));
                assert(before.to_multiset().contains(inner[i]) || inner[i] == edge);
                if inner[i] == edge {
                    lemma_edge_order(edge, last, edge);
                } else {
                    assert(before.contains(inner[i]));
                    let k = choose|k: int| 0 <= k < before.len() && before[k] == inner[i];
                    assert(before[k] == sorted[k]);
                }
            } else {
                assert(out[i] == inner[i] && out[j] == inner[j]);
            }
        }
    } else {
        assert forall|i: int, j: int| 0 <= i < j < out.len() implies !edge_before(
            #[trigger] out[j],
            #[trigger] out[i],
        ) by {
            if j == out.len() - 1 {
                let last = sorted.last();
                assert(sorted[sorted.len() - 1] == last);
                if i < sorted.len() - 1 {
                    assert(!edge_before(last, sorted[i]));
                    lemma_edge_not_before(sorted[i], last, edge);
                }
            } else {
                assert(out[i] == sorted[i] && out[j] == sorted[j]);
            }
        }
    }
}

proof fn lemma_edge_not_before(a: RowV, b: RowV, c: RowV)
    requires
        !edge_before(b, a),
        !edge_before(c, b),
    ensures
        !edge_before(c, a),
{
    lemma_text_order(edge_key(a), edge_key(b), edge_key(c));
    lemma_text_order(edge_key(b), edge_key(a), edge_key(c));
    lemma_text_order(edge_key(c), edge_key(a), edge_key(b));
    lemma_text_order(edge_key(c), edge_key(b), edge_key(a));
    lemma_text_order(edge_key(b), edge_key(c), edge_key(a));
    lemma_text_order(edge_key(a), edge_key(c), edge_key(b));
}

/// Whether an edge hangs a margin on a note.
pub open spec fn hangs_margin(edge: RowV) -> bool {
    row_text(edge, "relation_type"@) == Some(handwritten_annotation())
}

/// Margins stand in the order of their edges: by time, then by key; every margin edge is among
/// them as often as it is there, and no other edge.
pub proof fn law_margins_in_edge_order(links: Seq<RowV>)
    ensures
        in_edge_order(margin_edges(links)),
        margin_edges(links).to_multiset() == links.filter(
            |edge: RowV| hangs_margin(edge),
        ).to_multiset(),
    decreases links.len(),
{
    broadcast use vstd::seq_lib::group_to_multiset_ensures;

    let hangs = |edge: RowV| hangs_margin(edge);
    reveal(Seq::filter);
    if links.len() == 0 {
        assert(margin_edges(links) =~= links.filter(hangs));
    } else {
        let before = links.drop_last();
        law_margins_in_edge_order(before);
        if hangs_margin(links.last()) {
            lemma_insert_edge_order(margin_edges(before), links.last());
            assert(links.filter(hangs) =~= before.filter(hangs).push(links.last()));
        } else {
            assert(links.filter(hangs) =~= before.filter(hangs));
        }
    }
}

/// Every note is exported, and listing margins changes nothing else of it.
pub proof fn law_margins_change_nothing_else(
    notes: Seq<RowV>,
    links: Seq<RowV>,
    i: int,
    name: Seq<char>,
)
    requires
        0 <= i < notes.len(),
        name != "user_metadata"@,
    ensures
        annotated(notes, links).len() == notes.len(),
        field(annotated(notes, links)[i], name) == field(notes[i], name),
{
}

/// A note without margins lists none.
pub proof fn law_no_margins_no_metadata(notes: Seq<RowV>, links: Seq<RowV>, i: int)
    requires
        0 <= i < notes.len(),
        !notes[i].contains_key("user_metadata"@),
    ensures
        annotated(notes, links)[i].contains_key("user_metadata"@) <==> listed_margins(
            notes,
            margin_edges(links),
            i,
        ).len() > 0,
{
}

/// One note that cannot be opened fails the whole archive.
pub proof fn law_export_is_all_or_nothing(
    rows: Seq<RowV>,
    opened: Seq<Option<Seq<char>>>,
    i: int,
)
    requires
        0 <= i < rows.len(),
        sealed_text(rows[i]) is Some,
        opened[i] is None,
    ensures
        mapped_notes(rows, opened) is None,
    decreases rows.len(),
{
    if i < rows.len() - 1 {
        assert(rows.drop_last()[i] == rows[i]);
        law_export_is_all_or_nothing(rows.drop_last(), opened, i);
    }
}

/// A text that is not sealed needs no opening.
pub proof fn law_unsealed_notes_export(row: RowV, opened: Option<Seq<char>>)
    requires
        sealed_text(row) is None,
    ensures
        mapped_note(row, opened) is Some,
        mapped_note(row, opened) == mapped_note(row, None),
{
}

} // verus!
