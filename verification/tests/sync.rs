use braird_sync::annotations::SealedText;
use braird_sync::columns::{archive_fields, complete_row};
use braird_sync::import::{
    parse_import_at, score_inputs, set_importance, NormalizedImport, ScoreInputs,
};
use braird_sync::importing::{ImportRun, ImportStep};
use braird_sync::json::{Fields, Json, Number};
use braird_sync::merge::{
    batch_timestamp, fetch_plan, increment, persistence_error, require_clean_pull, state_timestamp,
    validate_pull_page, with_parsed_import_at, SealRequest,
};
use braird_sync::mirror::{Mirror, MirrorRow};
use braird_sync::pull::{
    pull_target, PullAction, PullResult, TablePull, TableStats, PULL_PAGE_LIMIT,
};
use braird_sync::tables::{Table, TABLES};
use braird_sync::types::{
    ImportCounts, ImportSummary, NoteLinkRecord, SupersededEdit, SyncError,
};
use serde_json::Value;
use std::cell::{Cell, RefCell};
use std::collections::{HashMap, VecDeque};
use std::hash::{BuildHasher, Hasher};
use std::rc::Rc;

/// A JSON object.
fn obj(members: Vec<(&str, Value)>) -> Value {
    Value::Object(members.into_iter().map(|(name, value)| (name.to_string(), value)).collect())
}

/// A JSON array.
fn arr(items: Vec<Value>) -> Value {
    Value::Array(items)
}

/// A JSON value as the library holds it.
fn to_json(value: &Value) -> Json {
    match value {
        Value::Null => Json::Null,
        Value::Bool(b) => Json::Bool(*b),
        Value::Number(n) => Json::Num(match (n.as_u64(), n.as_i64()) {
            (Some(n), _) => Number::PosInt(n),
            (None, Some(n)) => Number::NegInt(n),
            (None, None) => Number::Float(n.as_f64().unwrap().to_bits()),
        }),
        Value::String(s) => Json::Str(s.clone()),
        Value::Array(items) => Json::Arr(items.iter().map(to_json).collect()),
        Value::Object(members) => Json::Obj(to_fields(members)),
    }
}

/// An object's members as the library holds them.
fn to_fields(members: &serde_json::Map<String, Value>) -> Fields {
    Fields {
        entries: members.iter().map(|(name, value)| (name.clone(), to_json(value))).collect(),
    }
}

/// A JSON value of the library.
fn from_json(value: &Json) -> Value {
    match value {
        Json::Null => Value::Null,
        Json::Bool(b) => Value::from(*b),
        Json::Num(Number::PosInt(n)) => Value::from(*n),
        Json::Num(Number::NegInt(n)) => Value::from(*n),
        Json::Num(Number::Float(bits)) => Value::from(f64::from_bits(*bits)),
        Json::Str(s) => Value::from(s.clone()),
        Json::Arr(items) => Value::Array(items.iter().map(from_json).collect()),
        Json::Obj(fields) => Value::Object(from_fields(fields)),
    }
}

/// An object's members.
fn from_fields(fields: &Fields) -> serde_json::Map<String, Value> {
    fields.entries.iter().map(|(name, value)| (name.clone(), from_json(value))).collect()
}

type Row = serde_json::Map<String, Value>;

/// A queued write: its number, table, key, payload and time.
type OutboxRow = (i64, String, Option<String>, String, i64);

/// What a device keeps.
#[derive(Default)]
struct Tables {
    rows: Vec<(Table, String, Row)>,
    queue: Vec<OutboxRow>,
    queued: i64,
    cursors: Vec<(Table, i64)>,
    vectors: Vec<Vector>,
}

/// A note's stored vector, or the mark that it has none.
#[derive(Clone)]
struct Vector {
    note_id: String,
    corpus: String,
    token: String,
    sealed: Option<Vec<u8>>,
}

/// A database that several handles may hold open.
#[derive(Clone)]
struct Db(Rc<RefCell<Tables>>);

impl Db {
    fn new() -> Db {
        Db(Rc::new(RefCell::new(Tables::default())))
    }
}

struct Store {
    db: Db,
}

fn is_tombstone(row: &Row) -> bool {
    row.get("deleted") == Some(&Value::from(true))
}

#[allow(dead_code)]
impl Store {
    fn open(db: &Db) -> Result<Store, String> {
        Ok(Store { db: db.clone() })
    }

    fn open_in_memory() -> Result<Store, String> {
        Store::open(&Db::new())
    }

    /// Replaces a row: the columns of its table, null where the row has none.
    fn apply_row(&self, table: &str, row: &Row) -> Result<(), String> {
        let known = Table::named(table).ok_or("unknown table")?;
        let id = row.get(known.key_column()).and_then(Value::as_str).ok_or("row has no key")?;
        let columns = from_fields(&complete_row(&to_fields(row), known));
        let mut tables = self.db.0.borrow_mut();
        if known == Table::Notes && is_tombstone(&columns) {
            tables.vectors.retain(|vector| vector.note_id != id);
        }
        match tables.rows.iter_mut().find(|(t, key, _)| *t == known && key == id) {
            Some(stored) => stored.2 = columns,
            None => tables.rows.push((known, id.to_string(), columns)),
        }
        Ok(())
    }

    fn get_row(&self, table: &str, id: &str) -> Result<Option<Row>, String> {
        let known = Table::named(table).ok_or("unknown table")?;
        let tables = self.db.0.borrow();
        Ok(tables.rows.iter().find(|(t, key, _)| *t == known && key == id).map(|(_, _, row)| row.clone()))
    }

    fn get_seq_cursor(&self, table: &str) -> Result<Option<i64>, String> {
        let known = Table::named(table).ok_or("unknown table")?;
        Ok(self.db.0.borrow().cursors.iter().find(|(t, _)| *t == known).map(|(_, cursor)| *cursor))
    }

    fn set_seq_cursor(&self, table: &str, cursor: i64) -> Result<(), String> {
        let known = Table::named(table).ok_or("unknown table")?;
        let mut tables = self.db.0.borrow_mut();
        tables.cursors.retain(|(t, _)| *t != known);
        tables.cursors.push((known, cursor));
        Ok(())
    }

    fn enqueue(&self, table: &str, id: &str, payload: &str, now: i64) -> Result<i64, String> {
        let mut tables = self.db.0.borrow_mut();
        tables.queued += 1;
        let number = tables.queued;
        tables.queue.push((number, table.into(), Some(id.into()), payload.into(), now));
        Ok(number)
    }

    fn outbox_items(&self) -> Result<Vec<OutboxRow>, String> {
        Ok(self.db.0.borrow().queue.clone())
    }

    fn clear_outbox(&self, ids: &[i64]) -> Result<(), String> {
        self.db.0.borrow_mut().queue.retain(|item| !ids.contains(&item.0));
        Ok(())
    }

    fn drop_queued(&self, table: &str, id: &str, drop: impl Fn(&Row) -> bool) -> Vec<Row> {
        let mut dropped = Vec::new();
        self.db.0.borrow_mut().queue.retain(|item| {
            if item.1 != table || item.2.as_deref() != Some(id) {
                return true;
            }
            match serde_json::from_str::<Row>(&item.3) {
                Ok(payload) if drop(&payload) => {
                    dropped.push(payload);
                    false
                }
                _ => true,
            }
        });
        dropped
    }

    /// Replaces a row and drops the queued edits of it that are older; their times come back.
    fn apply_row_rebasing_outbox(&self, table: Table, row: &Row, winning: i64) -> Result<Vec<i64>, String> {
        let id = row.get(table.key_column()).and_then(Value::as_str).ok_or("row has no key")?;
        let time = |payload: &Row| payload.get("updated_at").and_then(Value::as_i64);
        self.apply_row(table.name(), row)?;
        let dropped =
            self.drop_queued(table.name(), id, |payload| time(payload).is_some_and(|t| t < winning));
        Ok(dropped.iter().filter_map(time).collect())
    }

    /// Lays a write over the stored row and queues the write itself.
    fn stage_local_write(&self, table: &str, id: &str, row: Row, now: i64) -> Result<(), String> {
        let mut merged = self.get_row(table, id)?.unwrap_or_default();
        merged.extend(row.clone());
        self.apply_row(table, &merged)?;
        self.enqueue(table, id, &Value::Object(row).to_string(), now)?;
        Ok(())
    }

    /// As above; a live write takes the queued deletes of its record off the queue first.
    fn stage_local_write_resurrecting(&self, table: &str, id: &str, row: Row, now: i64) -> Result<(), String> {
        if !is_tombstone(&row) {
            self.drop_queued(table, id, is_tombstone);
        }
        self.stage_local_write(table, id, row, now)
    }

    fn stage_local_writes(&self, writes: Vec<(&str, String, Row)>, now: i64) -> Result<(), String> {
        for (table, id, row) in writes {
            self.stage_local_write_resurrecting(table, &id, row, now)?;
        }
        Ok(())
    }

    /// All rows and the live edges, as the rules read them.
    fn mirror(&self) -> Mirror {
        let tables = self.db.0.borrow();
        let rows = tables
            .rows
            .iter()
            .map(|(table, id, row)| MirrorRow { table: *table, id: id.clone(), row: to_fields(row) })
            .collect();
        let text = |row: &Row, name: &str| row.get(name).and_then(Value::as_str).map(str::to_string);
        let time = |row: &Row, name: &str| row.get(name).and_then(Value::as_i64).unwrap_or(0);
        let links = tables
            .rows
            .iter()
            .filter(|(table, _, row)| *table == Table::NoteLinks && !is_tombstone(row))
            .map(|(_, id, row)| NoteLinkRecord {
                id: id.clone(),
                from_note_id: text(row, "from_note_id").unwrap_or_default(),
                to_note_id: text(row, "to_note_id").unwrap_or_default(),
                relation_type: text(row, "relation_type"),
                created_at: time(row, "created_at"),
                updated_at: time(row, "updated_at"),
            })
            .collect();
        Mirror { rows, links }
    }
}

/// Seals texts so that only the same vault opens them, and only for the same note.
#[derive(Clone)]
struct Vault {
    key: u64,
}

fn hex(text: &str) -> String {
    text.bytes().map(|byte| format!("{byte:02x}")).collect()
}

fn unhex(text: &str) -> Option<String> {
    let bytes: Option<Vec<u8>> = (0..text.len() / 2)
        .map(|at| u8::from_str_radix(text.get(2 * at..2 * at + 2)?, 16).ok())
        .collect();
    String::from_utf8(bytes?).ok()
}

impl Vault {
    fn generate() -> Vault {
        Vault { key: std::collections::hash_map::RandomState::new().build_hasher().finish() }
    }

    fn encrypt_note(&self, id: &str, text: &str) -> String {
        format!("enc:v2:{:016x}:{}:{}", self.key, hex(id), hex(text))
    }

    fn decrypt_note(&self, id: Option<String>, sealed: String) -> Option<String> {
        let id = id.unwrap_or_default();
        unhex(sealed.strip_prefix(&format!("enc:v2:{:016x}:{}:", self.key, hex(&id)))?)
    }

    fn content_tag(&self, text: String, book_id: Option<String>) -> String {
        format!("tag:{:016x}:{}:{}", self.key, hex(&text), hex(&book_id.unwrap_or_default()))
    }

    fn seal(&self, id: &str, text: &str, book_id: Option<&String>) -> SealedText {
        SealedText {
            ciphertext: self.encrypt_note(id, text),
            content_tag: self.content_tag(text.to_string(), book_id.cloned()),
        }
    }
}

/// A note's score: evidence wears the prior down and adds itself on top.
fn compute_importance(prior: f64, visits: i64, annotated: bool, spawns: i64) -> f64 {
    let evidence =
        visits as f64 * 0.1 + if annotated { 0.3 } else { 0.0 } + spawns as f64 * 0.5;
    prior * (-std::f64::consts::LN_2 * evidence.max(0.0) / 1.5).exp() + evidence
}

fn score_of(inputs: ScoreInputs) -> f64 {
    compute_importance(
        f64::from_bits(inputs.source_prior),
        inputs.return_visits,
        inputs.has_annotation,
        inputs.stitch_spawns,
    )
}

/// The server, as a pull and an import see it.
trait Sink {
    /// Neither of the two writes to the server.
    #[allow(dead_code)]
    fn upsert(&self, _table: &str) -> Result<(), String> {
        Ok(())
    }

    fn fetch_page(&self, table: &str, after_seq: i64, limit: i64) -> Result<Vec<Value>, String>;

    fn fetch_by_ids(&self, _table: &str, _primary_key: &str, _ids: &[String]) -> Result<Vec<Value>, String> {
        Ok(Vec::new())
    }
}

fn pull(store: &Store, sink: &dyn Sink, tables: &[&str]) -> Result<PullResult, String> {
    let mut result = PullResult::default();
    for &name in tables {
        match pull_table(store, sink, name, PULL_PAGE_LIMIT) {
            Ok(stats) => result.add_table(stats),
            Err(_) => result.add_failure(name),
        }
    }
    Ok(result)
}

fn pull_table(store: &Store, sink: &dyn Sink, name: &str, page_size: usize) -> Result<TableStats, String> {
    let table = pull_target(name)?;
    let mut pull = TablePull::start(table, store.get_seq_cursor(name)?, page_size);
    let mut action = PullAction::FetchPage(pull.cursor);
    loop {
        action = match action {
            PullAction::FetchPage(after) => {
                let page = sink.fetch_page(name, after, page_size as i64)?;
                pull.take_page(page.iter().map(to_json).collect())
            }
            PullAction::ReadLocal(id) => {
                let local = store.get_row(name, &id)?.as_ref().map(to_fields);
                pull.take_local(local.as_ref())
            }
            PullAction::Apply => {
                let row = from_fields(pull.row().unwrap());
                let dropped = store.apply_row_rebasing_outbox(table, &row, pull.row_updated_at())?;
                pull.take_applied(&dropped)
            }
            PullAction::SetCursor(cursor) => {
                store.set_seq_cursor(name, cursor)?;
                pull.take_cursor_set()
            }
            PullAction::Done => return Ok(pull.stats),
            PullAction::Fail(message) => return Err(message),
        };
    }
}

fn synced_table_names() -> Vec<&'static str> {
    TABLES.iter().map(|table| table.name()).collect()
}

/// A server with canned rows: one page per table, whatever the cursor.
struct MapSink {
    rows: HashMap<String, Vec<Value>>,
    fail: Option<String>,
}

impl MapSink {
    fn new() -> Self {
        Self { rows: HashMap::new(), fail: None }
    }

    /// Rows of a table; one without a sequence number gets its place in the list.
    fn with(mut self, table: &str, rows: Vec<Value>) -> Self {
        let stamped = rows
            .into_iter()
            .enumerate()
            .map(|(i, mut row)| {
                if row.get("change_seq").is_none() {
                    row["change_seq"] = Value::from(i as i64 + 1);
                }
                row
            })
            .collect();
        self.rows.insert(table.to_string(), stamped);
        self
    }

    fn failing(mut self, table: &str) -> Self {
        self.fail = Some(table.to_string());
        self
    }
}

impl Sink for MapSink {
    fn fetch_page(&self, table: &str, _after_seq: i64, limit: i64) -> Result<Vec<Value>, String> {
        if self.fail.as_deref() == Some(table) {
            return Err(format!("{table} fetch failed"));
        }
        let mut rows = self.rows.get(table).cloned().unwrap_or_default();
        rows.truncate(limit as usize);
        Ok(rows)
    }
}

/// A server that pages one table by sequence number; a row without one is in every page.
struct PagingSink {
    rows: Vec<Value>,
    calls: Cell<u32>,
    fail_after: Option<u32>,
}

impl PagingSink {
    fn new(rows: Vec<Value>) -> Self {
        Self { rows, calls: Cell::new(0), fail_after: None }
    }

    fn failing_after(mut self, n: u32) -> Self {
        self.fail_after = Some(n);
        self
    }
}

impl Sink for PagingSink {
    fn fetch_page(&self, _table: &str, after_seq: i64, limit: i64) -> Result<Vec<Value>, String> {
        let n = self.calls.get();
        self.calls.set(n + 1);
        if self.fail_after == Some(n) {
            return Err("simulated mid-pagination fetch failure".into());
        }
        let mut page: Vec<Value> = self
            .rows
            .iter()
            .filter(|row| match row["change_seq"].as_i64() {
                Some(seq) => seq > after_seq,
                None => true,
            })
            .cloned()
            .collect();
        page.sort_by_key(|row| row["change_seq"].as_i64().unwrap_or(0));
        page.truncate(limit as usize);
        Ok(page)
    }
}

fn note(id: &str, updated_at: i64, deleted: bool, text: &str) -> Value {
    obj(vec![
        ("id", Value::from(id)),
        ("text", Value::from(text)),
        ("content_tag", Value::from("tag")),
        ("updated_at", Value::from(updated_at)),
        ("deleted", Value::from(deleted)),
    ])
}

fn apply_local(store: &Store, table: &str, row: Value) {
    store.apply_row(table, row.as_object().unwrap()).unwrap();
}

/// Queues an edit of a note, as a local write leaves it.
fn enqueue_pending(store: &Store, id: &str, ts: i64) -> i64 {
    let payload = obj(vec![("id", Value::from(id)), ("updated_at", Value::from(ts))]);
    store.enqueue("notes", id, &payload.to_string(), ts).unwrap()
}

#[derive(Debug, Clone, PartialEq, Eq)]
enum Call {
    Pull(String),
    Fetch { table: String, primary_key: String, ids: Vec<String> },
    Upsert(String),
}

type CannedResults = RefCell<HashMap<String, VecDeque<Result<Vec<Value>, String>>>>;

/// A server that records what it is asked, and answers from two lists.
#[derive(Default)]
struct RecordingSink {
    calls: RefCell<Vec<Call>>,
    pull_results: CannedResults,
    fetch_results: CannedResults,
}

impl RecordingSink {
    fn pull_result(&self, table: &str, result: Result<Vec<Value>, &str>) {
        self.pull_results
            .borrow_mut()
            .entry(table.into())
            .or_default()
            .push_back(result.map_err(str::to_string));
    }

    fn fetch_result(&self, table: &str, result: Result<Vec<Value>, &str>) {
        self.fetch_results
            .borrow_mut()
            .entry(table.into())
            .or_default()
            .push_back(result.map_err(str::to_string));
    }

    fn calls(&self) -> Vec<Call> {
        self.calls.borrow().clone()
    }

    fn next(configured: &CannedResults, table: &str) -> Result<Vec<Value>, String> {
        configured
            .borrow_mut()
            .get_mut(table)
            .and_then(VecDeque::pop_front)
            .unwrap_or_else(|| Ok(Vec::new()))
    }
}

impl Sink for RecordingSink {
    fn upsert(&self, table: &str) -> Result<(), String> {
        self.calls.borrow_mut().push(Call::Upsert(table.into()));
        Err("snapshot import must not auto-flush".into())
    }

    fn fetch_page(&self, table: &str, _after_seq: i64, _limit: i64) -> Result<Vec<Value>, String> {
        self.calls.borrow_mut().push(Call::Pull(table.into()));
        Self::next(&self.pull_results, table)
    }

    fn fetch_by_ids(&self, table: &str, primary_key: &str, ids: &[String]) -> Result<Vec<Value>, String> {
        self.calls.borrow_mut().push(Call::Fetch {
            table: table.into(),
            primary_key: primary_key.into(),
            ids: ids.to_vec(),
        });
        Self::next(&self.fetch_results, table)
    }
}

/// A server whose malformed pages and failures an import refuses alike.
struct StrictSink<'a>(&'a dyn Sink);

impl Sink for StrictSink<'_> {
    fn fetch_page(&self, table: &str, after_seq: i64, limit: i64) -> Result<Vec<Value>, String> {
        let rows = self.0.fetch_page(table, after_seq, limit)?;
        let page: Vec<Json> = rows.iter().map(to_json).collect();
        validate_pull_page(pull_target(table)?, after_seq, &page)?;
        Ok(rows)
    }

    fn fetch_by_ids(&self, table: &str, primary_key: &str, ids: &[String]) -> Result<Vec<Value>, String> {
        self.0.fetch_by_ids(table, primary_key, ids)
    }
}

/// The whole import of a parsed archive: pull, look the candidates up, select, seal and stage.
fn merge_parsed_with_sink(
    store: &Store,
    sink: &dyn Sink,
    vault: &Vault,
    mut parsed: NormalizedImport,
    import_now: i64,
) -> Result<ImportSummary, SyncError> {
    for signal in &mut parsed.note_signals {
        let score = score_of(score_inputs(signal));
        set_importance(signal, score.to_bits());
    }
    let sink = StrictSink(sink);
    let (mut run, mut step) = ImportRun::start(parsed, import_now);
    loop {
        (run, step) = match step {
            ImportStep::Pull => run.take_pulled(pull(store, &sink, &synced_table_names()).ok()),
            ImportStep::Fetch(request) => {
                let table = request.table;
                let returned = sink.fetch_by_ids(table.name(), table.key_column(), &request.ids);
                run.take_fetched(returned.ok().map(|rows| rows.iter().map(to_json).collect()))
            }
            ImportStep::Read(_) => run.take_read(Some(store.mirror())),
            ImportStep::Seal(wants) => {
                let seal = |want: SealRequest| {
                    vault.seal(&want.note_id, &want.plaintext, want.book_id.as_ref())
                };
                run.take_sealed(wants.into_iter().map(|want| want.map(seal)).collect())
            }
            ImportStep::Stage(writes, time) => {
                let staged = writes.into_iter().all(|write| {
                    let row = from_fields(&write.row);
                    store
                        .stage_local_write_resurrecting(&write.table, &write.record_id, row, time)
                        .is_ok()
                });
                run.take_staged(staged)
            }
            ImportStep::Done(summary) => return Ok(summary),
            ImportStep::Failed(e) => return Err(e),
        };
    }
}

fn archive_with(field: &str, rows: Vec<Value>) -> String {
    let mut root = obj(vec![
        ("_syntopicon", Value::from(true)),
        ("schemaVersion", Value::from(19)),
        ("books", arr(vec![])),
        ("notes", arr(vec![])),
        ("customIdeas", arr(vec![])),
        ("noteLinks", arr(vec![])),
        ("lenses", arr(vec![])),
        ("collections", arr(vec![])),
        ("collectionMemberships", arr(vec![])),
        ("noteSignals", arr(vec![])),
    ]);
    root[field] = Value::Array(rows);
    root.to_string()
}

fn parsed(field: &str, rows: Vec<Value>, now: i64) -> NormalizedImport {
    parse_import_at(&archive_with(field, rows), now).unwrap()
}

fn server_row(id: &str, updated_at: i64, deleted: bool) -> Value {
    obj(vec![
        ("id", Value::from(id)),
        ("updated_at", Value::from(updated_at)),
        ("deleted", Value::from(deleted)),
    ])
}

fn stage_local(store: &Store, id: &str, updated_at: i64, deleted: bool) {
    let row = obj(vec![
        ("id", Value::from(id)),
        ("title", Value::from("local")),
        ("created_at", Value::from(1)),
        ("updated_at", Value::from(updated_at)),
        ("deleted", Value::from(deleted)),
    ]);
    store.apply_row("books", row.as_object().unwrap()).unwrap();
}

#[test]
fn merges_new_rows_and_advances_each_cursor() {
    let store = Store::open_in_memory().unwrap();
    let sink = MapSink::new()
        .with(
            "books",
            vec![
                obj(vec![
                    ("id", Value::from("b1")),
                    ("title", Value::from("T")),
                    ("updated_at", Value::from(1000i64)),
                    ("deleted", Value::from(false)),
                ]),
            ],
        )
        .with("notes", vec![note("n1", 1000, false, "enc:v2:x")]);

    let res = pull(&store, &sink, &["books", "notes"]).unwrap();

    assert_eq!(res.pulled, 2);
    assert_eq!(res.merged, 2);
    assert!(store.get_row("books", "b1").unwrap().is_some());
    assert!(store.get_row("notes", "n1").unwrap().is_some());
    // Cursor = the max change_seq merged (one row per table → change_seq 1).
    assert_eq!(store.get_seq_cursor("books").unwrap(), Some(1));
    assert_eq!(store.get_seq_cursor("notes").unwrap(), Some(1));
}

#[test]
fn ciphertext_is_stored_verbatim_not_decrypted() {
    let store = Store::open_in_memory().unwrap();
    let sink = MapSink::new().with("notes", vec![note("n1", 1000, false, "enc:v2:abcDEF")]);
    pull(&store, &sink, &["notes"]).unwrap();
    assert_eq!(
        store.get_row("notes", "n1").unwrap().unwrap()["text"],
        Value::from("enc:v2:abcDEF"),
        "pull must store the ciphertext verbatim (no decrypt at rest)"
    );
}

#[test]
fn lww_keeps_local_when_incoming_is_older() {
    let store = Store::open_in_memory().unwrap();
    apply_local(&store, "notes", note("n1", 2000, false, "local"));
    let sink = MapSink::new().with("notes", vec![note("n1", 1000, false, "remote-old")]);
    let res = pull(&store, &sink, &["notes"]).unwrap();
    assert_eq!(res.merged, 0);
    assert_eq!(
        store.get_row("notes", "n1").unwrap().unwrap()["text"],
        Value::from("local")
    );
}

#[test]
fn lww_overwrites_when_incoming_is_newer() {
    let store = Store::open_in_memory().unwrap();
    apply_local(&store, "notes", note("n1", 1000, false, "local"));
    let sink = MapSink::new().with("notes", vec![note("n1", 2000, false, "remote-new")]);
    let res = pull(&store, &sink, &["notes"]).unwrap();
    assert_eq!(res.merged, 1);
    assert_eq!(
        store.get_row("notes", "n1").unwrap().unwrap()["text"],
        Value::from("remote-new")
    );
}

#[test]
fn lww_tie_keeps_local() {
    let store = Store::open_in_memory().unwrap();
    apply_local(&store, "notes", note("n1", 1000, false, "local"));
    let sink = MapSink::new().with("notes", vec![note("n1", 1000, false, "remote-tie")]);
    let res = pull(&store, &sink, &["notes"]).unwrap();
    assert_eq!(res.merged, 0, "a tie keeps local (strict >)");
    assert_eq!(
        store.get_row("notes", "n1").unwrap().unwrap()["text"],
        Value::from("local")
    );
}

#[test]
fn tombstone_is_not_resurrected_when_no_local_row() {
    let store = Store::open_in_memory().unwrap();
    let sink = MapSink::new().with("notes", vec![note("n1", 2000, true, "")]);
    let res = pull(&store, &sink, &["notes"]).unwrap();
    assert_eq!(res.skipped_tombstones, 1);
    assert_eq!(res.merged, 0);
    assert!(
        store.get_row("notes", "n1").unwrap().is_none(),
        "a delete for a row we never had must not be inserted"
    );
    // A skipped tombstone still advances the cursor — we've seen it, no need to re-pull it.
    assert_eq!(store.get_seq_cursor("notes").unwrap(), Some(1));
}

#[test]
fn tombstone_is_applied_over_an_older_local_row() {
    let store = Store::open_in_memory().unwrap();
    apply_local(&store, "notes", note("n1", 1000, false, "live"));
    let sink = MapSink::new().with("notes", vec![note("n1", 2000, true, "")]);
    let res = pull(&store, &sink, &["notes"]).unwrap();
    assert_eq!(res.merged, 1);
    assert_eq!(
        store.get_row("notes", "n1").unwrap().unwrap()["deleted"],
        Value::from(true),
        "a newer delete flips the local row to a tombstone"
    );
}

#[test]
fn stale_tombstone_does_not_revive_a_newer_local_row() {
    let store = Store::open_in_memory().unwrap();
    apply_local(&store, "notes", note("n1", 3000, false, "fresh-local-edit"));
    // A delete older than the local edit must lose LWW — the local edit stays live.
    let sink = MapSink::new().with("notes", vec![note("n1", 2000, true, "")]);
    let res = pull(&store, &sink, &["notes"]).unwrap();
    assert_eq!(res.merged, 0);
    let row = store.get_row("notes", "n1").unwrap().unwrap();
    assert_eq!(row["deleted"], Value::from(false));
    assert_eq!(row["text"], Value::from("fresh-local-edit"));
}

#[test]
fn per_table_failure_isolates_the_cursor() {
    let store = Store::open_in_memory().unwrap();
    let sink = MapSink::new()
        .with(
            "books",
            vec![
                obj(vec![
                    ("id", Value::from("b1")),
                    ("title", Value::from("T")),
                    ("updated_at", Value::from(1000i64)),
                    ("deleted", Value::from(false)),
                ]),
            ],
        )
        .failing("notes");
    let res = pull(&store, &sink, &["books", "notes"]).unwrap();

    assert_eq!(res.merged, 1, "books still merged");
    assert_eq!(res.failed_tables, vec!["notes".to_string()]);
    assert_eq!(store.get_seq_cursor("books").unwrap(), Some(1));
    assert_eq!(
        store.get_seq_cursor("notes").unwrap(),
        None,
        "failed table's cursor stays put so its window re-pulls"
    );
}

#[test]
fn empty_pull_leaves_cursor_unadvanced() {
    // With a keyset-by-change_seq cursor, an empty pull is a cheap indexed no-op — there is
    // nothing to advance to (unlike the retired epoch-ms cursor, which advanced to `now` to
    // avoid re-scanning from 0). Re-pulling `change_seq > 0` stays cheap.
    let store = Store::open_in_memory().unwrap();
    let sink = MapSink::new().with("notes", vec![]);
    pull(&store, &sink, &["notes"]).unwrap();
    assert_eq!(store.get_seq_cursor("notes").unwrap(), None);
}

#[test]
fn paged_pull_crosses_page_boundaries() {
    // Five rows, page size 2 → pages [1,2] [3,4] [5]: three fetches, every row merged, cursor at
    // the last change_seq. Exercises the pagination loop a single unpaged GET would miss.
    let store = Store::open_in_memory().unwrap();
    let rows: Vec<Value> = (1..=5)
        .map(|i| {
            obj(vec![
                ("id", Value::from(format!("n{i}"))),
                ("text", Value::from(format!("enc:v2:{i}"))),
                ("content_tag", Value::from("t")),
                ("updated_at", Value::from(1000 + i)),
                ("deleted", Value::from(false)),
                ("change_seq", Value::from(i)),
            ])
        })
        .collect();
    let sink = PagingSink::new(rows);

    let stats = pull_table(&store, &sink, "notes", 2).unwrap();

    assert_eq!(stats.merged, 5, "every row across all pages merged");
    assert_eq!(stats.pulled, 5);
    assert_eq!(sink.calls.get(), 3, "two full pages + one short page");
    assert_eq!(
        store.get_seq_cursor("notes").unwrap(),
        Some(5),
        "cursor at the last change_seq seen"
    );
    for i in 1..=5 {
        assert!(store.get_row("notes", &format!("n{i}")).unwrap().is_some());
    }
}

#[test]
fn cursor_advances_only_through_the_last_merged_page_on_mid_pull_failure() {
    // Page 1 [1,2] merges and advances the cursor to 2; the page-2 fetch then fails. The cursor
    // must sit at 2 (the last fully-merged page) — the failed + remaining pages re-pull next
    // time, with no partial page committed past the failure and no re-pull of pages 1's rows.
    let store = Store::open_in_memory().unwrap();
    let rows: Vec<Value> = (1..=4)
        .map(|i| {
            obj(vec![
                ("id", Value::from(format!("n{i}"))),
                ("text", Value::from("enc:v2:x")),
                ("content_tag", Value::from("t")),
                ("updated_at", Value::from(1000 + i)),
                ("deleted", Value::from(false)),
                ("change_seq", Value::from(i)),
            ])
        })
        .collect();
    let sink = PagingSink::new(rows).failing_after(1); // 0-based: 2nd fetch errors

    let outcome = pull_table(&store, &sink, "notes", 2);

    assert!(
        outcome.is_err(),
        "the mid-pagination fetch failure surfaces"
    );
    assert_eq!(
        store.get_seq_cursor("notes").unwrap(),
        Some(2),
        "cursor sits at the last fully-merged page"
    );
    assert!(store.get_row("notes", "n1").unwrap().is_some());
    assert!(store.get_row("notes", "n2").unwrap().is_some());
    assert!(
        store.get_row("notes", "n3").unwrap().is_none(),
        "page 2 never merged"
    );
}

#[test]
fn a_full_page_missing_change_seq_errors_rather_than_looping() {
    let store = Store::open_in_memory().unwrap();
    // Two rows, NO change_seq, page size 2 → a full page that can't advance.
    let rows = vec![
        obj(vec![
            ("id", Value::from("n1")),
            ("text", Value::from("enc:v2:x")),
            ("content_tag", Value::from("t")),
            ("updated_at", Value::from(1i64)),
            ("deleted", Value::from(false)),
        ]),
        obj(vec![
            ("id", Value::from("n2")),
            ("text", Value::from("enc:v2:y")),
            ("content_tag", Value::from("t")),
            ("updated_at", Value::from(2i64)),
            ("deleted", Value::from(false)),
        ]),
    ];
    let sink = PagingSink::new(rows);
    let outcome = pull_table(&store, &sink, "notes", 2);
    assert!(
        outcome.is_err(),
        "a full non-advancing page must error, not loop forever"
    );
    assert_eq!(store.get_seq_cursor("notes").unwrap(), None);
}

#[test]
fn rebase_drops_stale_pending_edit_and_surfaces_conflict() {
    // (1) pending T1, incoming T2 > T1 → row = remote, outbox drained, one conflict surfaced.
    let store = Store::open_in_memory().unwrap();
    apply_local(&store, "notes", note("n1", 1000, false, "local"));
    enqueue_pending(&store, "n1", 1000);
    let sink = MapSink::new().with("notes", vec![note("n1", 2000, false, "remote")]);

    let res = pull(&store, &sink, &["notes"]).unwrap();

    assert_eq!(res.merged, 1);
    assert_eq!(
        res.superseded,
        vec![SupersededEdit {
            table: "notes".into(),
            record_id: "n1".into(),
            discarded_updated_at: 1000,
            winning_updated_at: 2000,
        }]
    );
    assert!(
        store.outbox_items().unwrap().is_empty(),
        "the stale queued edit is rebased away — the next flush can't re-push it"
    );
    assert_eq!(
        store.get_row("notes", "n1").unwrap().unwrap()["text"],
        Value::from("remote")
    );
}

#[test]
fn newer_local_edit_blocks_rebase_and_keeps_pending() {
    // (2) pending T3, incoming T2 < T3 → no apply, outbox intact, no conflict.
    let store = Store::open_in_memory().unwrap();
    apply_local(&store, "notes", note("n1", 3000, false, "local-newer"));
    enqueue_pending(&store, "n1", 3000);
    let sink = MapSink::new().with("notes", vec![note("n1", 2000, false, "remote-older")]);

    let res = pull(&store, &sink, &["notes"]).unwrap();

    assert_eq!(res.merged, 0);
    assert!(res.superseded.is_empty());
    assert_eq!(
        store.outbox_items().unwrap().len(),
        1,
        "pending edit survives"
    );
    assert_eq!(
        store.get_row("notes", "n1").unwrap().unwrap()["text"],
        Value::from("local-newer")
    );
}

#[test]
fn tie_keeps_local_and_does_not_rebase() {
    // (3) incoming == local row ts → keep local, outbox intact (rebase never runs).
    let store = Store::open_in_memory().unwrap();
    apply_local(&store, "notes", note("n1", 2000, false, "local"));
    enqueue_pending(&store, "n1", 2000);
    let sink = MapSink::new().with("notes", vec![note("n1", 2000, false, "remote-tie")]);

    let res = pull(&store, &sink, &["notes"]).unwrap();

    assert_eq!(res.merged, 0);
    assert!(res.superseded.is_empty());
    assert_eq!(store.outbox_items().unwrap().len(), 1);
}

#[test]
fn incoming_tombstone_rebases_a_pending_edit() {
    // (4) incoming tombstone T2 over pending edit T1 → tombstone applied, entry dropped.
    let store = Store::open_in_memory().unwrap();
    apply_local(&store, "notes", note("n1", 1000, false, "local-live"));
    enqueue_pending(&store, "n1", 1000);
    let sink = MapSink::new().with("notes", vec![note("n1", 2000, true, "")]);

    let res = pull(&store, &sink, &["notes"]).unwrap();

    assert_eq!(res.merged, 1);
    assert_eq!(res.superseded.len(), 1);
    assert_eq!(
        store.get_row("notes", "n1").unwrap().unwrap()["deleted"],
        Value::from(true)
    );
    assert!(
        store.outbox_items().unwrap().is_empty(),
        "the pending edit is dropped by the newer delete"
    );
}

#[test]
fn incoming_live_edit_rebases_a_pending_delete() {
    // (5) pending delete T1 vs incoming live edit T2 → live row applied, delete dropped.
    // Symmetric with `stale_tombstone_does_not_revive_a_newer_local_row` — a newer edit beats
    // an older delete; this is LWW, not a resurrection violation (resurrection is a delete for a
    // row this device never had, guarded separately).
    let store = Store::open_in_memory().unwrap();
    apply_local(&store, "notes", note("n1", 1000, true, ""));
    enqueue_pending(&store, "n1", 1000);
    let sink = MapSink::new().with("notes", vec![note("n1", 2000, false, "remote-live")]);

    let res = pull(&store, &sink, &["notes"]).unwrap();

    assert_eq!(res.merged, 1);
    assert_eq!(res.superseded.len(), 1);
    let row = store.get_row("notes", "n1").unwrap().unwrap();
    assert_eq!(
        row["deleted"],
        Value::from(false),
        "newer live edit beats older delete"
    );
    assert_eq!(row["text"], Value::from("remote-live"));
    assert!(
        store.outbox_items().unwrap().is_empty(),
        "pending delete dropped"
    );
}

#[test]
fn multiple_pending_entries_survive_when_incoming_loses_lww() {
    // (6) pending T1 + T3, incoming T2 → no apply (T2 < local T3), both entries survive.
    let store = Store::open_in_memory().unwrap();
    apply_local(&store, "notes", note("n1", 3000, false, "local-latest"));
    enqueue_pending(&store, "n1", 1000);
    enqueue_pending(&store, "n1", 3000);
    let sink = MapSink::new().with("notes", vec![note("n1", 2000, false, "remote-middle")]);

    let res = pull(&store, &sink, &["notes"]).unwrap();

    assert_eq!(res.merged, 0, "incoming T2 < local T3 → no apply");
    assert!(res.superseded.is_empty());
    assert_eq!(
        store.outbox_items().unwrap().len(),
        2,
        "both pending entries survive"
    );
}

#[test]
fn pull_does_not_panic_on_a_malformed_pending_payload() {
    // (7) malformed pending payload → left queued, pull succeeds, no conflict, no panic.
    let store = Store::open_in_memory().unwrap();
    apply_local(&store, "notes", note("n1", 1000, false, "local"));
    store.enqueue("notes", "n1", "not json", 1000).unwrap();
    let sink = MapSink::new().with("notes", vec![note("n1", 2000, false, "remote")]);

    let res = pull(&store, &sink, &["notes"]).unwrap();

    assert_eq!(res.merged, 1);
    assert!(
        res.superseded.is_empty(),
        "an unparseable entry can't be proven stale → not surfaced"
    );
    assert_eq!(
        store.outbox_items().unwrap().len(),
        1,
        "the malformed entry is left queued"
    );
    assert_eq!(
        store.get_row("notes", "n1").unwrap().unwrap()["text"],
        Value::from("remote")
    );
}

// pull_table is table-agnostic, so these pin the whole-row-LWW convergence of the composite
// and row-per-pair tables. If a future change tries element-level merge (a `tags` union, a
// `leaf_ids` union), these fail — the convergence contract on `store::synced_schema` is the
// decision they enforce.

#[test]
fn sur737_tags_converge_whole_array_not_union() {
    // A tag set is whole-row LWW: the newer note's `tags` REPLACE the local ones, never union
    // (a union couldn't express a tag deletion). Both directions.
    let store = Store::open_in_memory().unwrap();

    // Local newer → an older remote loses; the local array is kept intact.
    apply_local(
        &store,
        "notes",
        obj(vec![
            ("id", Value::from("n1")),
            ("tags", arr(vec![Value::from("a"), Value::from("b")])),
            ("updated_at", Value::from(2000i64)),
            ("deleted", Value::from(false)),
        ]),
    );
    let sink = MapSink::new().with(
        "notes",
        vec![
            obj(vec![
                ("id", Value::from("n1")),
                ("tags", arr(vec![Value::from("c")])),
                ("updated_at", Value::from(1000i64)),
                ("deleted", Value::from(false)),
            ]),
        ],
    );
    pull(&store, &sink, &["notes"]).unwrap();
    assert_eq!(
        store.get_row("notes", "n1").unwrap().unwrap()["tags"],
        arr(vec![Value::from("a"), Value::from("b")]),
        "older remote loses LWW; the local tag array is untouched"
    );

    // Remote newer → replaces the whole array; NOT the union ["a","b","c"].
    let sink = MapSink::new().with(
        "notes",
        vec![
            obj(vec![
                ("id", Value::from("n1")),
                ("tags", arr(vec![Value::from("c")])),
                ("updated_at", Value::from(3000i64)),
                ("deleted", Value::from(false)),
            ]),
        ],
    );
    pull(&store, &sink, &["notes"]).unwrap();
    assert_eq!(
        store.get_row("notes", "n1").unwrap().unwrap()["tags"],
        arr(vec![Value::from("c")]),
        "newer remote replaces the whole tag array (no element union)"
    );
}

#[test]
fn sur737_lens_leaf_ids_converge_whole_array_not_union() {
    // A lens is ONE authored query — its leaf_ids move whole-row LWW with the combinator +
    // threshold. Unioning leaves would fabricate a query nobody wrote.
    let store = Store::open_in_memory().unwrap();
    apply_local(
        &store,
        "lenses",
        obj(vec![
            ("id", Value::from("l1")),
            ("name", Value::from("L")),
            ("leaf_ids", arr(vec![Value::from("a"), Value::from("b")])),
            ("combinator", Value::from("and")),
            ("threshold", Value::from(1i64)),
            ("updated_at", Value::from(1000i64)),
            ("deleted", Value::from(false)),
        ]),
    );
    let sink = MapSink::new().with(
        "lenses",
        vec![
            obj(vec![
                ("id", Value::from("l1")),
                ("name", Value::from("L")),
                ("leaf_ids", arr(vec![Value::from("c")])),
                ("combinator", Value::from("or")),
                ("threshold", Value::from(2i64)),
                ("updated_at", Value::from(2000i64)),
                ("deleted", Value::from(false)),
            ]),
        ],
    );
    pull(&store, &sink, &["lenses"]).unwrap();
    let row = store.get_row("lenses", "l1").unwrap().unwrap();
    assert_eq!(
        row["leaf_ids"],
        arr(vec![Value::from("c")]),
        "newer lens replaces leaf_ids wholesale (no union)"
    );
    assert_eq!(
        row["combinator"],
        Value::from("or"),
        "the rest of the authored query moves with it"
    );
}

#[test]
fn sur737_collection_membership_concurrent_adds_converge_then_tombstone() {
    // Memberships are row-per-pair with a DETERMINISTIC pk (membershipId(collection, note)), so
    // two devices adding the same pair share the same id → one row (OR-set add); a remove is a
    // tombstone on that row. (The shared pk + INSERT OR REPLACE is what collapses concurrent
    // adds — no duplicate row can exist.)
    let store = Store::open_in_memory().unwrap();
    let mid = "col1:note1"; // deterministic membershipId(collection, note)

    apply_local(
        &store,
        "collection_memberships",
        obj(vec![
            ("id", Value::from(mid)),
            ("collection_id", Value::from("col1")),
            ("note_id", Value::from("note1")),
            ("updated_at", Value::from(1000i64)),
            ("deleted", Value::from(false)),
        ]),
    );
    // Remote add of the SAME pair (same id) — merges onto the one row, not a second row.
    let sink = MapSink::new().with(
        "collection_memberships",
        vec![
            obj(vec![
                ("id", Value::from(mid)),
                ("collection_id", Value::from("col1")),
                ("note_id", Value::from("note1")),
                ("updated_at", Value::from(2000i64)),
                ("deleted", Value::from(false)),
            ]),
        ],
    );
    pull(&store, &sink, &["collection_memberships"]).unwrap();
    let row = store
        .get_row("collection_memberships", mid)
        .unwrap()
        .unwrap();
    assert_eq!(
        row["updated_at"],
        Value::from(2000_i64),
        "the newer add won the one row"
    );
    assert_eq!(row["deleted"], Value::from(false), "still a live membership");

    // A newer remove tombstones that row (OR-set remove).
    let sink = MapSink::new().with(
        "collection_memberships",
        vec![
            obj(vec![
                ("id", Value::from(mid)),
                ("collection_id", Value::from("col1")),
                ("note_id", Value::from("note1")),
                ("updated_at", Value::from(3000i64)),
                ("deleted", Value::from(true)),
            ]),
        ],
    );
    pull(&store, &sink, &["collection_memberships"]).unwrap();
    assert_eq!(
        store
            .get_row("collection_memberships", mid)
            .unwrap()
            .unwrap()["deleted"],
        Value::from(true),
        "a newer remove tombstones the membership"
    );
}

#[test]
fn sur737_exact_ms_tie_keeps_local_so_replicas_can_diverge() {
    let dev_a = Store::open_in_memory().unwrap();
    let dev_b = Store::open_in_memory().unwrap();
    apply_local(&dev_a, "notes", note("n1", 5000, false, "value-A"));
    apply_local(&dev_b, "notes", note("n1", 5000, false, "value-B"));

    // A pulls B's row (same ts) → keeps A; B pulls A's row (same ts) → keeps B.
    let a_sees_b = MapSink::new().with("notes", vec![note("n1", 5000, false, "value-B")]);
    let b_sees_a = MapSink::new().with("notes", vec![note("n1", 5000, false, "value-A")]);
    pull(&dev_a, &a_sees_b, &["notes"]).unwrap();
    pull(&dev_b, &b_sees_a, &["notes"]).unwrap();

    assert_eq!(
        dev_a.get_row("notes", "n1").unwrap().unwrap()["text"],
        Value::from("value-A"),
        "device A keeps its own value on the tie"
    );
    assert_eq!(
        dev_b.get_row("notes", "n1").unwrap().unwrap()["text"],
        Value::from("value-B"),
        "device B keeps its own — ms-identical concurrent edit did NOT reconcile (accepted)"
    );
}

#[test]
fn sur726_all_eight_tables_pull_and_advance_cursors() {
    // Acceptance: every synced store incremental-pulls with its own cursor. One row per table
    // through a single `pull()` over the whole `synced_table_names()` scope.
    let store = Store::open_in_memory().unwrap();
    let sink = MapSink::new()
        .with("books", vec![
            obj(vec![
                ("id", Value::from("b1")),
                ("updated_at", Value::from(1000i64)),
                ("deleted", Value::from(false)),
            ]),
        ])
        .with("notes", vec![note("n1", 1000, false, "enc:v2:x")])
        .with(
            "custom_ideas",
            vec![
                obj(vec![
                    ("id", Value::from("ci1")),
                    ("name", Value::from("I")),
                    ("updated_at", Value::from(1000i64)),
                    ("deleted", Value::from(false)),
                ]),
            ],
        )
        .with(
            "note_links",
            vec![
                obj(vec![
                    ("id", Value::from("nl1")),
                    ("from_note_id", Value::from("n1")),
                    ("to_note_id", Value::from("n1")),
                    ("updated_at", Value::from(1000i64)),
                    ("deleted", Value::from(false)),
                ]),
            ],
        )
        .with(
            "lenses",
            vec![
                obj(vec![
                    ("id", Value::from("l1")),
                    ("name", Value::from("L")),
                    ("leaf_ids", arr(vec![Value::from("a")])),
                    ("updated_at", Value::from(1000i64)),
                    ("deleted", Value::from(false)),
                ]),
            ],
        )
        .with(
            "collections",
            vec![
                obj(vec![
                    ("id", Value::from("c1")),
                    ("name", Value::from("C")),
                    ("updated_at", Value::from(1000i64)),
                    ("deleted", Value::from(false)),
                ]),
            ],
        )
        .with(
            "collection_memberships",
            vec![
                obj(vec![
                    ("id", Value::from("c1:n1")),
                    ("note_id", Value::from("n1")),
                    ("collection_id", Value::from("c1")),
                    ("updated_at", Value::from(1000i64)),
                    ("deleted", Value::from(false)),
                ]),
            ],
        )
        .with(
            "note_signals",
            vec![
                obj(vec![
                    ("note_id", Value::from("n1")),
                    ("updated_at", Value::from(1000i64)),
                    ("deleted", Value::from(false)),
                ]),
            ],
        );

    let tables = synced_table_names();
    let res = pull(&store, &sink, &tables).unwrap();

    assert_eq!(res.pulled, 8);
    assert_eq!(res.merged, 8);
    for (table, pk) in [
        ("books", "b1"),
        ("notes", "n1"),
        ("custom_ideas", "ci1"),
        ("note_links", "nl1"),
        ("lenses", "l1"),
        ("collections", "c1"),
        ("collection_memberships", "c1:n1"),
        ("note_signals", "n1"),
    ] {
        assert!(
            store.get_row(table, pk).unwrap().is_some(),
            "{table} row merged"
        );
        assert_eq!(
            store.get_seq_cursor(table).unwrap(),
            Some(1),
            "{table} cursor advanced to its one row's change_seq"
        );
    }
}

#[test]
fn sur726_note_signals_pull_lww_keyed_by_note_id() {
    // note_signals is the one table whose pk is `note_id`, not `id`. Prove the full pull + LWW
    // path works keyed on it (the descriptor-driven pk[0] carries through end to end).
    let store = Store::open_in_memory().unwrap();
    apply_local(
        &store,
        "note_signals",
        obj(vec![
            ("note_id", Value::from("n1")),
            ("return_visits", Value::from(1i64)),
            ("updated_at", Value::from(1000i64)),
            ("deleted", Value::from(false)),
        ]),
    );
    let sink = MapSink::new().with(
        "note_signals",
        vec![
            obj(vec![
                ("note_id", Value::from("n1")),
                ("return_visits", Value::from(5i64)),
                ("updated_at", Value::from(2000i64)),
                ("deleted", Value::from(false)),
            ]),
        ],
    );
    let res = pull(&store, &sink, &["note_signals"]).unwrap();
    assert_eq!(res.merged, 1);
    assert_eq!(
        store.get_row("note_signals", "n1").unwrap().unwrap()["return_visits"],
        Value::from(5i64),
        "newer counters won whole-row LWW, keyed by note_id"
    );
}

#[test]
fn sur726_note_signals_rebase_surfaces_superseded_by_note_id() {
    let store = Store::open_in_memory().unwrap();
    apply_local(
        &store,
        "note_signals",
        obj(vec![
            ("note_id", Value::from("n1")),
            ("return_visits", Value::from(1i64)),
            ("updated_at", Value::from(1000i64)),
            ("deleted", Value::from(false)),
        ]),
    );
    store
        .enqueue(
            "note_signals",
            "n1",
            &obj(vec![
                ("note_id", Value::from("n1")),
                ("return_visits", Value::from(1i64)),
                ("updated_at", Value::from(1000i64)),
            ]).to_string(),
            1000,
        )
        .unwrap();
    let sink = MapSink::new().with(
        "note_signals",
        vec![
            obj(vec![
                ("note_id", Value::from("n1")),
                ("return_visits", Value::from(9i64)),
                ("updated_at", Value::from(2000i64)),
                ("deleted", Value::from(false)),
            ]),
        ],
    );

    let res = pull(&store, &sink, &["note_signals"]).unwrap();

    assert_eq!(res.merged, 1);
    assert_eq!(
        res.superseded,
        vec![SupersededEdit {
            table: "note_signals".into(),
            record_id: "n1".into(),
            discarded_updated_at: 1000,
            winning_updated_at: 2000,
        }]
    );
    assert!(
        store.outbox_items().unwrap().is_empty(),
        "the stale note_signals edit is rebased away"
    );
}

#[test]
fn sur726_note_link_add_then_tombstone_and_bag_coexistence() {
    // note_links is row-per-edge (convergence contract): an add is an insert, a remove is a
    // tombstone (row-level LWW), and two DIFFERENT ids coexist (a "bag" — no dedup, unlike
    // memberships' deterministic pk).
    let store = Store::open_in_memory().unwrap();
    let sink = MapSink::new().with(
        "note_links",
        vec![
            obj(vec![
                ("id", Value::from("nl1")),
                ("from_note_id", Value::from("a")),
                ("to_note_id", Value::from("b")),
                ("updated_at", Value::from(1000i64)),
                ("deleted", Value::from(false)),
            ]),
            obj(vec![
                ("id", Value::from("nl2")),
                ("from_note_id", Value::from("a")),
                ("to_note_id", Value::from("b")),
                ("updated_at", Value::from(1000i64)),
                ("deleted", Value::from(false)),
            ]),
        ],
    );
    pull(&store, &sink, &["note_links"]).unwrap();
    assert!(store.get_row("note_links", "nl1").unwrap().is_some());
    assert!(
        store.get_row("note_links", "nl2").unwrap().is_some(),
        "same logical edge under a different id is a separate row (bag, no dedup)"
    );

    // A newer remove tombstones nl1 (row-level LWW remove).
    let sink = MapSink::new().with(
        "note_links",
        vec![
            obj(vec![
                ("id", Value::from("nl1")),
                ("from_note_id", Value::from("a")),
                ("to_note_id", Value::from("b")),
                ("updated_at", Value::from(2000i64)),
                ("deleted", Value::from(true)),
            ]),
        ],
    );
    pull(&store, &sink, &["note_links"]).unwrap();
    assert_eq!(
        store.get_row("note_links", "nl1").unwrap().unwrap()["deleted"],
        Value::from(true),
        "a newer remove tombstones the edge"
    );
}

#[test]
fn clean_pull_precedes_targeted_fetch_and_partial_or_total_failure_stages_nothing() {
    let archive = parsed(
        "books",
        vec![
            obj(vec![
                ("id", Value::from("import-b")),
                ("title", Value::from("archive")),
                ("updatedAt", Value::from(50i64)),
            ]),
        ],
        10,
    );
    let store = Store::open_in_memory().unwrap();
    let sink = RecordingSink::default();
    sink.pull_result(
        "books",
        Ok(vec![
            obj(vec![
                ("id", Value::from("remote-b")),
                ("title", Value::from("pulled")),
                ("updated_at", Value::from(20i64)),
                ("deleted", Value::from(false)),
                ("change_seq", Value::from(1i64)),
            ]),
        ]),
    );
    sink.pull_result("notes", Err("SERVER_BODY_SECRET"));

    let error = merge_parsed_with_sink(
        &store,
        &sink,
        &Vault::generate(),
        archive,
        10,
    )
    .unwrap_err();

    assert!(!error.message().contains("SERVER_BODY_SECRET"));
    assert!(store.get_row("books", "remote-b").unwrap().is_some());
    assert!(store.get_row("books", "import-b").unwrap().is_none());
    assert!(store.outbox_items().unwrap().is_empty());
    assert!(!sink
        .calls()
        .iter()
        .any(|call| matches!(call, Call::Fetch { .. })));

    let archive = parsed(
        "books",
        vec![
            obj(vec![
                ("id", Value::from("import-b")),
                ("title", Value::from("archive")),
                ("updatedAt", Value::from(50i64)),
            ]),
        ],
        10,
    );
    let store = Store::open_in_memory().unwrap();
    let sink = RecordingSink::default();
    for table in synced_table_names() {
        sink.pull_result(table, Err("TOTAL_FAILURE_BODY"));
    }
    let error = merge_parsed_with_sink(
        &store,
        &sink,
        &Vault::generate(),
        archive,
        10,
    )
    .unwrap_err();
    assert!(!error.message().contains("TOTAL_FAILURE_BODY"));
    assert!(store.outbox_items().unwrap().is_empty());
    assert!(!sink
        .calls()
        .iter()
        .any(|call| matches!(call, Call::Fetch { .. })));
}

#[test]
fn malformed_short_pull_rows_fail_preflight_before_fetch_or_import_staging() {
    let scenarios = [
        ("non-object", Value::from("not an object")),
        (
            "missing primary key",
            obj(vec![
                ("updated_at", Value::from(20i64)),
                ("deleted", Value::from(false)),
                ("change_seq", Value::from(1i64)),
            ]),
        ),
        (
            "empty primary key",
            obj(vec![
                ("id", Value::from("")),
                ("updated_at", Value::from(20i64)),
                ("deleted", Value::from(false)),
                ("change_seq", Value::from(1i64)),
            ]),
        ),
        (
            "missing change_seq",
            obj(vec![
                ("id", Value::from("remote-b")),
                ("updated_at", Value::from(20i64)),
                ("deleted", Value::from(false)),
            ]),
        ),
        (
            "negative change_seq",
            obj(vec![
                ("id", Value::from("remote-b")),
                ("updated_at", Value::from(20i64)),
                ("deleted", Value::from(false)),
                ("change_seq", Value::from(-1i64)),
            ]),
        ),
        (
            "non-integer change_seq",
            obj(vec![
                ("id", Value::from("remote-b")),
                ("updated_at", Value::from(20i64)),
                ("deleted", Value::from(false)),
                ("change_seq", Value::from("bad")),
            ]),
        ),
        (
            "missing updated_at",
            obj(vec![
                ("id", Value::from("remote-b")),
                ("deleted", Value::from(false)),
                ("change_seq", Value::from(1i64)),
            ]),
        ),
        (
            "non-integer updated_at",
            obj(vec![
                ("id", Value::from("remote-b")),
                ("updated_at", Value::from("bad")),
                ("deleted", Value::from(false)),
                ("change_seq", Value::from(1i64)),
            ]),
        ),
        (
            "missing deleted",
            obj(vec![
                ("id", Value::from("remote-b")),
                ("updated_at", Value::from(20i64)),
                ("change_seq", Value::from(1i64)),
            ]),
        ),
        (
            "invalid deleted",
            obj(vec![
                ("id", Value::from("remote-b")),
                ("updated_at", Value::from(20i64)),
                ("deleted", Value::from(0i64)),
                ("change_seq", Value::from(1i64)),
            ]),
        ),
    ];
    let mut accepted = Vec::new();

    for (name, malformed) in scenarios {
        let archive = parsed(
            "books",
            vec![
                obj(vec![
                    ("id", Value::from("import-b")),
                    ("title", Value::from("archive")),
                    ("updatedAt", Value::from(50i64)),
                ]),
            ],
            10,
        );
        let store = Store::open_in_memory().unwrap();
        let sink = RecordingSink::default();
        sink.pull_result("books", Ok(vec![malformed]));

        let outcome = merge_parsed_with_sink(
            &store,
            &sink,
            &Vault::generate(),
            archive,
            10,
        );
        let fetched = sink
            .calls()
            .iter()
            .any(|call| matches!(call, Call::Fetch { .. }));
        let staged = store.get_row("books", "import-b").unwrap().is_some()
            || !store.outbox_items().unwrap().is_empty();
        match outcome {
            Ok(_) => accepted.push(name),
            Err(_) if fetched || staged => accepted.push(name),
            Err(error) => assert!(!error.message().contains("remote-b")),
        }
    }

    assert!(
        accepted.is_empty(),
        "malformed pull rows passed import preflight: {accepted:?}"
    );
}

#[test]
fn replayed_or_non_monotonic_pull_pages_fail_before_fetch_or_import_staging() {
    let scenarios = [
        (
            "sequence equal to cursor",
            10,
            vec![
                obj(vec![
                    ("id", Value::from("remote-a")),
                    ("updated_at", Value::from(20i64)),
                    ("deleted", Value::from(false)),
                    ("change_seq", Value::from(10i64)),
                ]),
            ],
        ),
        (
            "sequence below cursor",
            10,
            vec![
                obj(vec![
                    ("id", Value::from("remote-a")),
                    ("updated_at", Value::from(20i64)),
                    ("deleted", Value::from(false)),
                    ("change_seq", Value::from(9i64)),
                ]),
            ],
        ),
        (
            "out-of-order sequence",
            0,
            vec![
                obj(vec![
                    ("id", Value::from("remote-a")),
                    ("updated_at", Value::from(20i64)),
                    ("deleted", Value::from(false)),
                    ("change_seq", Value::from(2i64)),
                ]),
                obj(vec![
                    ("id", Value::from("remote-b")),
                    ("updated_at", Value::from(20i64)),
                    ("deleted", Value::from(false)),
                    ("change_seq", Value::from(1i64)),
                ]),
            ],
        ),
        (
            "duplicate sequence",
            0,
            vec![
                obj(vec![
                    ("id", Value::from("remote-a")),
                    ("updated_at", Value::from(20i64)),
                    ("deleted", Value::from(false)),
                    ("change_seq", Value::from(1i64)),
                ]),
                obj(vec![
                    ("id", Value::from("remote-b")),
                    ("updated_at", Value::from(20i64)),
                    ("deleted", Value::from(false)),
                    ("change_seq", Value::from(1i64)),
                ]),
            ],
        ),
    ];
    let mut accepted = Vec::new();

    for (name, cursor, page) in scenarios {
        let archive = parsed(
            "books",
            vec![
                obj(vec![
                    ("id", Value::from("import-b")),
                    ("title", Value::from("archive")),
                    ("updatedAt", Value::from(50i64)),
                ]),
            ],
            10,
        );
        let store = Store::open_in_memory().unwrap();
        store.set_seq_cursor("books", cursor).unwrap();
        let sink = RecordingSink::default();
        sink.pull_result("books", Ok(page));

        let outcome = merge_parsed_with_sink(
            &store,
            &sink,
            &Vault::generate(),
            archive,
            10,
        );
        let fetched = sink
            .calls()
            .iter()
            .any(|call| matches!(call, Call::Fetch { .. }));
        let staged = store.get_row("books", "import-b").unwrap().is_some()
            || !store.outbox_items().unwrap().is_empty();
        match outcome {
            Ok(_) => accepted.push(name),
            Err(_) if fetched || staged => accepted.push(name),
            Err(error) => {
                let message = error.message();
                assert!(!message.contains("remote-a"));
                assert!(!message.contains("remote-b"));
            }
        }
    }

    assert!(
        accepted.is_empty(),
        "invalid pull pagination passed import preflight: {accepted:?}"
    );
}

#[test]
fn public_success_operation_seam_parses_then_executes_with_a_test_sink() {
    let store = Store::open_in_memory().unwrap();
    let sink = RecordingSink::default();
    let archive = archive_with(
        "books",
        vec![
            obj(vec![
                ("id", Value::from("b1")),
                ("title", Value::from("Imported")),
                ("updatedAt", Value::from(50i64)),
            ]),
        ],
    );
    let summary = with_parsed_import_at(&archive, 10, |parsed| {
        merge_parsed_with_sink(
            &store,
            &sink,
            &Vault::generate(),
            parsed,
            10,
        )
    })
    .unwrap();

    assert_eq!(summary.schema_version, 19);
    assert_eq!(summary.imported.books, 1);
    assert!(store.get_row("books", "b1").unwrap().is_some());
    assert!(!sink
        .calls()
        .iter()
        .any(|call| matches!(call, Call::Upsert(_))));
}

#[test]
fn targeted_fetch_chunks_all_candidates_and_uses_descriptor_primary_key() {
    let mut root: Value = serde_json::from_str(&archive_with("books", Vec::new())).unwrap();
    root["books"] = Value::Array(
        (0..201)
            .map(
                |i| obj(vec![
                    ("id", Value::from(format!("b{i}"))),
                    ("title", Value::from("B")),
                    ("updatedAt", Value::from(50i64)),
                ]),
            )
            .collect(),
    );
    root["noteSignals"] = arr(vec![obj(vec![
        ("noteId", Value::from("n-signal")),
        ("updatedAt", Value::from(50i64)),
    ])]);
    let parsed = parse_import_at(&root.to_string(), 10).unwrap();
    let store = Store::open_in_memory().unwrap();
    let sink = RecordingSink::default();

    let summary = merge_parsed_with_sink(
        &store,
        &sink,
        &Vault::generate(),
        parsed,
        10,
    )
    .unwrap();

    assert_eq!(summary.imported.books, 201);
    assert_eq!(summary.imported.note_signals, 1);
    let fetches: Vec<_> = sink
        .calls()
        .into_iter()
        .filter_map(|call| match call {
            Call::Fetch {
                table,
                primary_key,
                ids,
            } => Some((table, primary_key, ids)),
            _ => None,
        })
        .collect();
    assert_eq!(
        fetches
            .iter()
            .filter(|(table, _, _)| table == "books")
            .map(|(_, _, ids)| ids.len())
            .collect::<Vec<_>>(),
        vec![100, 100, 1]
    );
    assert!(fetches.iter().any(|(table, pk, ids)| {
        table == "note_signals" && pk == "note_id" && ids == &["n-signal"]
    }));
    let calls = sink.calls();
    let first_fetch = calls
        .iter()
        .position(|call| matches!(call, Call::Fetch { .. }))
        .unwrap();
    assert_eq!(first_fetch, 8, "all eight pull calls must precede fetches");
    assert!(!calls.iter().any(|call| matches!(call, Call::Upsert(_))));
}

#[test]
fn targeted_fetch_fails_closed_on_error_or_malformed_duplicate_unrequested_rows() {
    let scenarios = vec![
        Err("FETCH_BODY_SECRET"),
        Ok(vec![Value::from("not an object")]),
        Ok(vec![obj(vec![("updated_at", Value::from(1i64)), ("deleted", Value::from(false))])]),
        Ok(vec![
            obj(vec![
                ("id", Value::from("b1")),
                ("updated_at", Value::from("bad")),
                ("deleted", Value::from(false)),
            ]),
        ]),
        Ok(vec![
            obj(vec![
                ("id", Value::from("b1")),
                ("updated_at", Value::from(1i64)),
                ("deleted", Value::from("bad")),
            ]),
        ]),
        Ok(vec![server_row("b1", 1, false), server_row("b1", 1, false)]),
        Ok(vec![server_row("unrequested-secret-id", 1, false)]),
    ];

    for result in scenarios {
        let store = Store::open_in_memory().unwrap();
        let sink = RecordingSink::default();
        sink.fetch_result("books", result);
        let archive = parsed(
            "books",
            vec![
                obj(vec![
                    ("id", Value::from("b1")),
                    ("title", Value::from("archive")),
                    ("updatedAt", Value::from(50i64)),
                ]),
            ],
            10,
        );

        let error = merge_parsed_with_sink(
            &store,
            &sink,
            &Vault::generate(),
            archive,
            10,
        )
        .unwrap_err();

        let message = error.message();
        assert!(!message.contains("FETCH_BODY_SECRET"));
        assert!(!message.contains("unrequested-secret-id"));
        assert!(store.get_row("books", "b1").unwrap().is_none());
        assert!(store.outbox_items().unwrap().is_empty());
    }
}

#[test]
fn strict_local_and_server_lww_includes_tombstones_and_clock_skew() {
    let rows = [
        "missing",
        "local-older",
        "local-equal",
        "local-newer",
        "server-older",
        "server-equal",
        "server-newer",
        "tombstone-newer",
        "tombstone-older",
    ]
    .into_iter()
    .map(
        |id| obj(vec![
            ("id", Value::from(id)),
            ("title", Value::from("archive")),
            ("updatedAt", Value::from(50i64)),
        ]),
    )
    .collect();
    let archive = parsed("books", rows, 10);
    let store = Store::open_in_memory().unwrap();
    stage_local(&store, "local-older", 49, false);
    stage_local(&store, "local-equal", 50, false);
    stage_local(&store, "local-newer", 51, false);
    let sink = RecordingSink::default();
    sink.fetch_result(
        "books",
        Ok(vec![
            server_row("server-older", 49, false),
            server_row("server-equal", 50, false),
            server_row("server-newer", 51, false),
            server_row("tombstone-newer", 51, true),
            server_row("tombstone-older", 49, true),
        ]),
    );

    let summary = merge_parsed_with_sink(
        &store,
        &sink,
        &Vault::generate(),
        archive,
        10,
    )
    .unwrap();

    assert_eq!(summary.imported.books, 4);
    assert_eq!(summary.skipped_stale.books, 5);
    for id in ["missing", "local-older", "server-older", "tombstone-older"] {
        let row = store.get_row("books", id).unwrap().unwrap();
        assert_eq!(row["updated_at"], Value::from(51i64), "clock-skew stamp for {id}");
        assert_eq!(row["deleted"], Value::from(false));
    }
    assert_eq!(
        store.get_row("books", "local-equal").unwrap().unwrap()["title"],
        Value::from("local")
    );
    assert!(store.get_row("books", "server-equal").unwrap().is_none());

    let store = Store::open_in_memory().unwrap();
    let summary = merge_parsed_with_sink(
        &store,
        &RecordingSink::default(),
        &Vault::generate(),
        parsed(
            "books",
            vec![
                obj(vec![
                    ("id", Value::from("clock-ahead")),
                    ("title", Value::from("A")),
                    ("updatedAt", Value::from(50i64)),
                ]),
            ],
            100,
        ),
        100,
    )
    .unwrap();
    assert_eq!(summary.imported.books, 1);
    assert_eq!(
        store.get_row("books", "clock-ahead").unwrap().unwrap()["updated_at"],
        Value::from(100i64)
    );
}

#[test]
fn timestamp_overflow_fails_before_encryption_or_writes() {
    let store = Store::open_in_memory().unwrap();
    let marker = "overflow-plaintext-secret";
    let error = merge_parsed_with_sink(
        &store,
        &RecordingSink::default(),
        &Vault::generate(),
        parsed(
            "notes",
            vec![
                obj(vec![
                    ("id", Value::from("n1")),
                    ("text", Value::from(marker)),
                    ("updatedAt", Value::from(i64::MAX)),
                ]),
            ],
            10,
        ),
        10,
    )
    .unwrap_err();

    assert!(matches!(error, SyncError::InvalidImport(_)));
    assert!(!error.message().contains(marker));
    assert!(store.get_row("notes", "n1").unwrap().is_none());
    assert!(store.outbox_items().unwrap().is_empty());
}

/// `n-legacy` omits its text, `n-null-text` sets it to null, as an archive written here does. Both
/// come in as a note without a text and without an invented tag.
#[test]
fn imported_notes_are_sealed_and_retagged_while_omitted_or_null_legacy_text_stays_null() {
    let marker = "snapshot plaintext must never persist";
    let vault = Vault::generate();
    let db = Db::new();
    let mut root: Value = serde_json::from_str(&archive_with("notes", Vec::new())).unwrap();
    root["notes"] = arr(vec![
        obj(vec![
            ("id", Value::from("n-secret")),
            ("bookId", Value::from("b1")),
            ("text", Value::from(marker)),
            ("contentTag", Value::from("foreign")),
            ("updatedAt", Value::from(50i64)),
        ]),
        obj(vec![
            ("id", Value::from("n-legacy")),
            ("bookId", Value::Null),
            ("updatedAt", Value::from(50i64)),
        ]),
        obj(vec![
            ("id", Value::from("n-null-text")),
            ("bookId", Value::Null),
            ("text", Value::Null),
            ("updatedAt", Value::from(50i64)),
        ]),
    ]);
    let parsed = parse_import_at(&root.to_string(), 10).unwrap();
    let store = Store::open(&db).unwrap();

    let summary = merge_parsed_with_sink(
        &store,
        &RecordingSink::default(),
        &vault,
        parsed,
        10,
    )
    .unwrap();

    assert_eq!(summary.imported.notes, 3);
    let secret = store.get_row("notes", "n-secret").unwrap().unwrap();
    let ciphertext = secret["text"].as_str().unwrap();
    assert!(ciphertext.starts_with("enc:v2:"));
    assert!(!ciphertext.contains(marker));
    let decrypted = vault
        .decrypt_note(Some("n-secret".into()), ciphertext.into())
        .unwrap();
    assert!(
        decrypted == marker,
        "imported note did not decrypt to its original text"
    );
    assert_eq!(
        secret["content_tag"],
        Value::from(vault.content_tag(marker.into(), Some("b1".into())))
    );
    assert_ne!(secret["content_tag"], Value::from("foreign"));
    // Both text-less shapes — omitted key and explicit null — land as a null body with no invented tag.
    for id in ["n-legacy", "n-null-text"] {
        let legacy = store.get_row("notes", id).unwrap().unwrap();
        assert!(legacy["text"].is_null(), "{id} kept a null body");
        assert!(
            legacy["content_tag"].is_null(),
            "{id} was not given an invented tag"
        );
    }

    for (_, table, _, payload, _) in store.outbox_items().unwrap() {
        assert_eq!(table, "notes");
        assert!(!payload.contains(marker));
        let payload: Value = serde_json::from_str(&payload).unwrap();
        let local = store
            .get_row("notes", payload["id"].as_str().unwrap())
            .unwrap()
            .unwrap();
        assert_eq!(payload, Value::Object(local));
    }
    drop(store);
    let tables = db.0.borrow();
    assert!(
        tables.rows.iter().all(|(_, _, row)| !Value::Object(row.clone()).to_string().contains(marker)),
        "plaintext marker reached the store"
    );
}

#[test]
fn all_eight_stores_stage_complete_rows_in_dependency_order_and_reimport_skips() {
    let archive = obj(vec![
        ("_syntopicon", Value::from(true)),
        ("schemaVersion", Value::from(19i64)),
        (
            "books",
            arr(vec![
                obj(vec![
                    ("id", Value::from("b1")),
                    ("title", Value::from("Book")),
                    ("updatedAt", Value::from(50i64)),
                ]),
            ]),
        ),
        (
            "notes",
            arr(vec![
                obj(vec![
                    ("id", Value::from("n1")),
                    ("bookId", Value::from("b1")),
                    ("text", Value::from("secret")),
                    ("updatedAt", Value::from(50i64)),
                ]),
            ]),
        ),
        (
            "customIdeas",
            arr(vec![
                obj(vec![
                    ("id", Value::from("i1")),
                    ("name", Value::from("Idea")),
                    ("updatedAt", Value::from(50i64)),
                ]),
            ]),
        ),
        (
            "noteLinks",
            arr(vec![
                obj(vec![
                    ("id", Value::from("l1")),
                    ("fromNoteId", Value::from("n1")),
                    ("toNoteId", Value::from("n1")),
                    ("updatedAt", Value::from(50i64)),
                ]),
            ]),
        ),
        (
            "lenses",
            arr(vec![
                obj(vec![
                    ("id", Value::from("lens1")),
                    ("name", Value::from("Lens")),
                    ("updatedAt", Value::from(50i64)),
                ]),
            ]),
        ),
        (
            "collections",
            arr(vec![
                obj(vec![
                    ("id", Value::from("c1")),
                    ("name", Value::from("Collection")),
                    ("updatedAt", Value::from(50i64)),
                ]),
            ]),
        ),
        (
            "collectionMemberships",
            arr(vec![
                obj(vec![
                    ("id", Value::from("m1")),
                    ("noteId", Value::from("n1")),
                    ("collectionId", Value::from("c1")),
                    ("updatedAt", Value::from(50i64)),
                ]),
            ]),
        ),
        (
            "noteSignals",
            arr(vec![obj(vec![("noteId", Value::from("n1")), ("updatedAt", Value::from(50i64))])]),
        ),
    ])
    .to_string();
    let vault = Vault::generate();
    let store = Store::open_in_memory().unwrap();
    let sink = RecordingSink::default();
    let summary = merge_parsed_with_sink(
        &store,
        &sink,
        &vault,
        parse_import_at(&archive, 10).unwrap(),
        10,
    )
    .unwrap();

    let ones = ImportCounts {
        books: 1,
        notes: 1,
        custom_ideas: 1,
        note_links: 1,
        lenses: 1,
        collections: 1,
        collection_memberships: 1,
        note_signals: 1,
    };
    assert_eq!(summary.schema_version, 19);
    assert_eq!(summary.imported, ones);
    assert_eq!(summary.skipped_stale, ImportCounts::default());
    let queued = store.outbox_items().unwrap();
    assert_eq!(
        queued
            .iter()
            .map(|item| item.1.as_str())
            .collect::<Vec<_>>(),
        synced_table_names()
    );
    for table in TABLES {
        let id = if table.name() == "note_signals" {
            "n1"
        } else {
            match table.name() {
                "books" => "b1",
                "notes" => "n1",
                "custom_ideas" => "i1",
                "note_links" => "l1",
                "lenses" => "lens1",
                "collections" => "c1",
                "collection_memberships" => "m1",
                _ => unreachable!(),
            }
        };
        let row = store.get_row(table.name(), id).unwrap().unwrap();
        assert_eq!(
            row.keys()
                .map(String::as_str)
                .collect::<std::collections::BTreeSet<_>>(),
            archive_fields(table).iter().map(|(name, _)| *name).collect(),
            "complete descriptor row for {}",
            table.name()
        );
    }
    assert!(!sink
        .calls()
        .iter()
        .any(|call| matches!(call, Call::Upsert(_))));

    let before = store.outbox_items().unwrap().len();
    let second = merge_parsed_with_sink(
        &store,
        &RecordingSink::default(),
        &vault,
        parse_import_at(&archive, 20).unwrap(),
        20,
    )
    .unwrap();
    assert_eq!(second.imported, ImportCounts::default());
    assert_eq!(second.skipped_stale, ones);
    assert_eq!(store.outbox_items().unwrap().len(), before);
}

#[test]
fn accepted_resurrection_drops_only_matching_tombstone_and_stale_import_changes_nothing() {
    let store = Store::open_in_memory().unwrap();
    stage_local(&store, "accepted", 40, true);
    stage_local(&store, "stale", 60, true);
    store
        .enqueue(
            "books",
            "accepted",
            r#"{"id":"accepted","updated_at":40,"deleted":true}"#,
            40,
        )
        .unwrap();
    store
        .enqueue(
            "books",
            "stale",
            r#"{"id":"stale","updated_at":60,"deleted":true}"#,
            60,
        )
        .unwrap();
    let archive = parsed(
        "books",
        vec![
            obj(vec![
                ("id", Value::from("accepted")),
                ("title", Value::from("live")),
                ("updatedAt", Value::from(50i64)),
            ]),
            obj(vec![
                ("id", Value::from("stale")),
                ("title", Value::from("must not win")),
                ("updatedAt", Value::from(50i64)),
            ]),
        ],
        10,
    );

    let summary = merge_parsed_with_sink(
        &store,
        &RecordingSink::default(),
        &Vault::generate(),
        archive,
        10,
    )
    .unwrap();

    assert_eq!(summary.imported.books, 1);
    assert_eq!(summary.skipped_stale.books, 1);
    let queued = store.outbox_items().unwrap();
    assert_eq!(queued.len(), 2);
    assert!(queued.iter().any(|item| {
        item.2.as_deref() == Some("stale")
            && serde_json::from_str::<Value>(&item.3).unwrap()["deleted"] == Value::from(true)
    }));
    assert!(queued.iter().any(|item| {
        item.2.as_deref() == Some("accepted")
            && serde_json::from_str::<Value>(&item.3).unwrap()["deleted"] == Value::from(false)
    }));
    assert_eq!(
        store.get_row("books", "stale").unwrap().unwrap()["deleted"],
        Value::from(true)
    );
}

fn page(rows: Vec<Value>) -> Vec<Json> {
    rows.iter().map(to_json).collect()
}

#[test]
fn only_a_synced_table_can_be_pulled() {
    assert_eq!(pull_target("lenses"), Ok(Table::Lenses));
    assert_eq!(pull_target("outbox").unwrap_err(), "unknown synced table: outbox");
}

#[test]
fn a_full_page_that_stands_still_names_its_table() {
    let mut pull = TablePull::start(Table::Notes, Some(7), 1);
    assert_eq!(pull.cursor, 7);
    let action = pull.take_page(page(vec![Value::from("no object")]));
    assert!(matches!(
        action,
        PullAction::Fail(message) if message == "pull notes: a full page did not advance the change_seq cursor — every row is missing change_seq (server must stamp it NOT NULL, migration 0051)"
    ));
}

#[test]
fn a_row_without_its_key_is_passed_over_and_moves_no_cursor() {
    let store = Store::open_in_memory().unwrap();
    let keyless = obj(vec![("change_seq", Value::from(9)), ("updated_at", Value::from(1))]);
    let sink = PagingSink::new(vec![Value::from(3), keyless]);
    let res = pull(&store, &sink, &["notes"]).unwrap();
    assert_eq!((res.pulled, res.merged), (0, 0));
    assert_eq!(store.get_seq_cursor("notes").unwrap(), None);
}

#[test]
fn every_pulled_row_is_merged_skipped_or_beaten() {
    let store = Store::open_in_memory().unwrap();
    apply_local(&store, "notes", note("beaten", 500, false, "local"));
    let sink = MapSink::new().with(
        "notes",
        vec![
            note("new", 100, false, "a"),
            note("gone", 100, true, ""),
            note("beaten", 100, false, "b"),
        ],
    );
    let res = pull(&store, &sink, &["notes"]).unwrap();
    assert_eq!((res.pulled, res.merged, res.skipped_tombstones), (3, 1, 1));
    assert_eq!(store.get_seq_cursor("notes").unwrap(), Some(3));
}

#[test]
fn pulling_a_page_again_merges_nothing() {
    let store = Store::open_in_memory().unwrap();
    let sink = MapSink::new().with("notes", vec![note("n1", 100, false, "a"), note("n2", 200, false, "b")]);
    assert_eq!(pull(&store, &sink, &["notes"]).unwrap().merged, 2);
    let before = store.get_row("notes", "n1").unwrap();
    assert_eq!(pull(&store, &sink, &["notes"]).unwrap().merged, 0);
    assert_eq!(store.get_row("notes", "n1").unwrap(), before);
}

#[test]
fn the_order_of_two_versions_does_not_decide() {
    let versions = [note("n1", 100, false, "old"), note("n1", 200, false, "new")];
    for order in [[0, 1], [1, 0]] {
        let store = Store::open_in_memory().unwrap();
        let rows = order.iter().map(|at| versions[*at].clone()).collect();
        pull(&store, &MapSink::new().with("notes", rows), &["notes"]).unwrap();
        assert_eq!(store.get_row("notes", "n1").unwrap().unwrap()["text"], Value::from("new"));
    }
}

#[test]
fn the_newest_dropped_edit_is_reported() {
    let store = Store::open_in_memory().unwrap();
    apply_local(&store, "notes", note("n1", 300, false, "local"));
    enqueue_pending(&store, "n1", 100);
    enqueue_pending(&store, "n1", 300);
    let sink = MapSink::new().with("notes", vec![note("n1", 900, false, "remote")]);
    let res = pull(&store, &sink, &["notes"]).unwrap();
    assert_eq!(res.superseded.len(), 1);
    assert_eq!(res.superseded[0].discarded_updated_at, 300);
    assert_eq!(res.superseded[0].winning_updated_at, 900);
}

#[test]
fn a_page_that_starts_at_the_cursor_is_refused_by_an_import() {
    let row = |seq: i64| {
        obj(vec![
            ("id", Value::from("b")),
            ("updated_at", Value::from(1)),
            ("deleted", Value::from(false)),
            ("change_seq", Value::from(seq)),
        ])
    };
    assert!(validate_pull_page(Table::Books, 4, &page(vec![row(5), row(9)])).is_ok());
    assert!(validate_pull_page(Table::Books, -1, &page(vec![row(0)])).is_ok());
    assert_eq!(
        validate_pull_page(Table::Books, 5, &page(vec![row(5)])).unwrap_err(),
        "snapshot import server preflight failed"
    );
    assert!(validate_pull_page(Table::NoteSignals, 4, &page(vec![row(5)])).is_err());
}

#[test]
fn a_failed_table_stops_an_import_with_a_plain_message() {
    let mut result = PullResult::default();
    assert!(require_clean_pull(&result).is_ok());
    result.add_failure("lenses");
    assert_eq!(result.failed_tables, vec!["lenses".to_string()]);
    assert_eq!(
        require_clean_pull(&result).unwrap_err().message(),
        "flush error: snapshot import server preflight failed"
    );
    assert_eq!(persistence_error().message(), "store error: snapshot import persistence failed");
}

#[test]
fn the_batch_time_beats_the_clock_and_every_compared_time() {
    assert_eq!(batch_timestamp(100, 50).unwrap(), 100);
    assert_eq!(batch_timestamp(100, 100).unwrap(), 101);
    assert_eq!(batch_timestamp(0, i64::MAX - 1).unwrap(), i64::MAX);
    assert_eq!(
        batch_timestamp(0, i64::MAX).unwrap_err().message(),
        "invalid import: snapshot import timestamp cannot advance safely"
    );
}

#[test]
fn a_stored_row_without_a_time_stops_the_import() {
    assert!(matches!(state_timestamp(None), Ok(None)));
    let timed = obj(vec![("updated_at", Value::from(7))]);
    assert!(matches!(state_timestamp(Some(&to_fields(timed.as_object().unwrap()))), Ok(Some(7))));
    let untimed = to_fields(&Row::new());
    assert_eq!(
        state_timestamp(Some(&untimed)).unwrap_err().message(),
        "store error: snapshot import persistence failed"
    );
}

#[test]
fn a_full_counter_refuses_one_more_row() {
    let mut counts = ImportCounts { books: u32::MAX, ..ImportCounts::default() };
    assert_eq!(
        increment(&mut counts, Table::Books).unwrap_err().message(),
        "invalid import: snapshot import row count is too large"
    );
    assert_eq!(counts.books, u32::MAX);
    increment(&mut counts, Table::NoteSignals).unwrap();
    assert_eq!(counts.note_signals, 1);
}

#[test]
fn the_requests_cover_every_key_once_in_table_order() {
    let rows = (0..101).map(|i| obj(vec![("id", Value::from(format!("c{i}")))])).collect();
    let requests = fetch_plan(&parsed("collections", rows, 5));
    assert_eq!(requests.len(), 2);
    assert!(requests.iter().all(|request| request.table == Table::Collections));
    let keys: Vec<String> = requests.into_iter().flat_map(|request| request.ids).collect();
    assert_eq!(keys, (0..101).map(|i| format!("c{i}")).collect::<Vec<_>>());
    assert!(fetch_plan(&parsed("collections", vec![], 5)).is_empty());
}

#[test]
fn a_second_import_of_the_same_archive_passes_over_every_row() {
    let store = Store::open_in_memory().unwrap();
    let vault = Vault::generate();
    let rows = || vec![obj(vec![("id", Value::from("b1")), ("updatedAt", Value::from(50))])];
    let first =
        merge_parsed_with_sink(&store, &RecordingSink::default(), &vault, parsed("books", rows(), 60), 60)
            .unwrap();
    assert_eq!((first.imported.books, first.skipped_stale.books), (1, 0));
    let second =
        merge_parsed_with_sink(&store, &RecordingSink::default(), &vault, parsed("books", rows(), 99), 99)
            .unwrap();
    assert_eq!((second.imported.books, second.skipped_stale.books), (0, 1));
    assert_eq!(store.get_row("books", "b1").unwrap().unwrap()["updated_at"], Value::from(60));
}

#[test]
fn a_refused_archive_never_reaches_what_would_run_on_it() {
    let ran = Cell::new(false);
    let result = with_parsed_import_at("not json", 1, |_| {
        ran.set(true);
        Ok(())
    });
    assert!(matches!(result, Err(SyncError::InvalidImport(_))));
    assert!(!ran.get());
}

fn failed_pull(tables: &[&str]) -> PullResult {
    let mut result = PullResult::default();
    result.failed_tables = tables.iter().map(|name| name.to_string()).collect();
    result
}

fn message(step: ImportStep) -> String {
    match step {
        ImportStep::Failed(e) => e.message(),
        step => panic!("{step:?}"),
    }
}

/// An import of two notes and a collection whose pull went through.
fn pulled_import() -> (ImportRun, ImportStep) {
    let mut import = parsed(
        "notes",
        vec![
            obj(vec![("id", "n1".into()), ("text", "one".into()), ("updatedAt", Value::from(50))]),
            obj(vec![("id", "n2".into()), ("updatedAt", Value::from(60))]),
        ],
        10,
    );
    let row = vec![obj(vec![("id", "c".into()), ("name", "C".into()), ("updatedAt", Value::from(70))])];
    import.collections = parsed("collections", row, 10).collections;
    let (run, step) = ImportRun::start(import, 10);
    assert!(matches!(step, ImportStep::Pull));
    run.take_pulled(Some(PullResult::default()))
}

#[test]
fn an_import_asks_for_every_table_before_it_reads_seals_and_stages() {
    let (run, step) = pulled_import();
    match step {
        ImportStep::Fetch(request) => {
            assert_eq!(request.table.name(), "notes");
            assert_eq!(request.ids, vec!["n1", "n2"]);
        }
        step => panic!("{step:?}"),
    }
    let (run, step) = run.take_fetched(Some(vec![to_json(&server_row("n2", 60, false))]));
    match step {
        ImportStep::Fetch(request) => assert_eq!(request.ids, vec!["c"]),
        step => panic!("{step:?}"),
    }
    let (run, step) = run.take_fetched(Some(vec![to_json(&server_row("c", 69, true))]));
    match step {
        ImportStep::Read(keys) => {
            let ids: Vec<&str> = keys.iter().map(|key| key.id.as_str()).collect();
            assert_eq!(ids, vec!["n1", "n2", "c"]);
        }
        step => panic!("{step:?}"),
    }
    let (run, step) = run.take_read(Some(Mirror { rows: vec![], links: vec![] }));
    match step {
        ImportStep::Seal(wants) => {
            assert_eq!(wants.len(), 2);
            assert_eq!(wants[0].as_ref().unwrap().plaintext, "one");
            assert!(wants[1].is_none());
        }
        step => panic!("{step:?}"),
    }
    let seal = SealedText { ciphertext: "sealed".into(), content_tag: "tag".into() };
    let (run, step) = run.take_sealed(vec![Some(seal), None]);
    match step {
        ImportStep::Stage(writes, time) => {
            assert_eq!(time, 71);
            let staged: Vec<(&str, &str)> =
                writes.iter().map(|w| (w.table.as_str(), w.record_id.as_str())).collect();
            assert_eq!(staged, vec![("notes", "n1"), ("collections", "c")]);
            assert_eq!(writes[0].row.get_text("text").map(String::as_str), Some("sealed"));
        }
        step => panic!("{step:?}"),
    }
    match run.take_staged(true) {
        (ImportRun::Over, ImportStep::Done(summary)) => {
            assert_eq!(summary.imported.notes, 1);
            assert_eq!(summary.imported.collections, 1);
            assert_eq!(summary.skipped_stale.notes, 1);
        }
        (_, step) => panic!("{step:?}"),
    }
}

#[test]
fn an_import_fails_at_each_step_with_the_error_of_its_side() {
    let preflight = "flush error: snapshot import server preflight failed";
    let persistence = "store error: snapshot import persistence failed";
    let none = || parsed("books", vec![], 10);

    assert_eq!(message(ImportRun::start(none(), 10).0.take_pulled(None).1), preflight);
    let partial = Some(failed_pull(&["books"]));
    assert_eq!(message(ImportRun::start(none(), 10).0.take_pulled(partial).1), preflight);
    assert_eq!(message(pulled_import().0.take_fetched(None).1), preflight);
    let unasked = Some(vec![to_json(&server_row("other", 1, false))]);
    assert_eq!(message(pulled_import().0.take_fetched(unasked).1), preflight);

    let reading = || pulled_import().0.take_fetched(Some(vec![])).0.take_fetched(Some(vec![])).0;
    assert_eq!(message(reading().take_read(None).1), persistence);
    let timeless = MirrorRow { table: Table::Collections, id: "c".into(), row: Fields::new() };
    let local = Mirror { rows: vec![timeless], links: vec![] };
    assert_eq!(message(reading().take_read(Some(local)).1), persistence);

    let (run, _) = reading().take_read(Some(Mirror { rows: vec![], links: vec![] }));
    let seal = SealedText { ciphertext: "sealed".into(), content_tag: "tag".into() };
    let (run, _) = run.take_sealed(vec![Some(seal), None, None]);
    assert_eq!(message(run.take_staged(false).1), persistence);
}

#[test]
fn an_import_of_nothing_new_is_done_without_sealing_or_staging() {
    let (run, step) =
        ImportRun::start(parsed("books", vec![], 10), 10).0.take_pulled(Some(PullResult::default()));
    assert!(matches!(step, ImportStep::Read(keys) if keys.is_empty()));
    match run.take_read(Some(Mirror { rows: vec![], links: vec![] })) {
        (ImportRun::Over, ImportStep::Done(summary)) => {
            assert_eq!(summary.imported, ImportCounts::default());
        }
        (_, step) => panic!("{step:?}"),
    }
}

#[test]
fn an_import_refuses_a_time_that_cannot_advance_and_a_note_out_of_shape() {
    let time = parsed("books", vec![obj(vec![("id", "b".into()), ("updatedAt", Value::from(i64::MAX))])], 10);
    let (run, _) = ImportRun::start(time, 10).0.take_pulled(Some(PullResult::default()));
    let (run, _) = run.take_fetched(Some(vec![]));
    assert_eq!(
        message(run.take_read(Some(Mirror { rows: vec![], links: vec![] })).1),
        "invalid import: snapshot import timestamp cannot advance safely"
    );

    let mut note = parsed("notes", vec![obj(vec![("id", "n".into()), ("updatedAt", Value::from(5))])], 10);
    note.notes[0].row.insert("text", Json::Bool(true));
    let (run, _) = ImportRun::start(note, 10).0.take_pulled(Some(PullResult::default()));
    let (run, _) = run.take_fetched(Some(vec![]));
    assert_eq!(
        message(run.take_read(Some(Mirror { rows: vec![], links: vec![] })).1),
        "invalid import: invalid normalized note"
    );
}

#[test]
fn a_short_page_pulled_again_applies_nothing_and_counts_the_same_rows() {
    let store = Store::open_in_memory().unwrap();
    let rows = vec![
        note("gone", 90, true, ""),
        note("n1", 100, false, "one"),
        note("n1", 200, false, "two"),
        note("n2", 50, true, ""),
        note("n2", 60, false, "back"),
    ];
    let sink = MapSink::new().with("notes", rows);
    let first = pull_table(&store, &sink, "notes", PULL_PAGE_LIMIT).unwrap();
    assert_eq!((first.pulled, first.merged, first.skipped_tombstones), (5, 3, 2));
    let stored = (store.get_row("notes", "n1").unwrap(), store.get_row("notes", "n2").unwrap());
    let cursor = store.get_seq_cursor("notes").unwrap();

    let again = pull_table(&store, &sink, "notes", PULL_PAGE_LIMIT).unwrap();
    assert_eq!((again.pulled, again.merged), (5, 0));
    assert!(again.superseded.is_empty());
    assert_eq!(stored, (store.get_row("notes", "n1").unwrap(), store.get_row("notes", "n2").unwrap()));
    assert_eq!(store.get_seq_cursor("notes").unwrap(), cursor);
}

#[test]
fn a_table_that_is_not_known_fails_under_the_name_it_was_asked_for() {
    let store = Store::open_in_memory().unwrap();
    let result = pull(&store, &MapSink::new(), &["nonsense", "books"]).unwrap();
    assert_eq!(result.failed_tables, vec!["nonsense"]);
}
