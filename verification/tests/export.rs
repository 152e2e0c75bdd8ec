use braird_sync::calendar::format_utc_iso8601;
use braird_sync::columns::{archive_fields, complete_row};
use braird_sync::engine::epoch_ms;
use braird_sync::export::{
    build_snapshot_at, map_note, text_to_open, write_archive, SnapshotRows, SCHEMA_VERSION,
};
use braird_sync::import::{normalize_archive, parse_import_at};
use braird_sync::json::{Fields, Json, Number};
use braird_sync::tables::Table;
use braird_sync::types::SyncError;
use serde_json::Value;
use std::cell::RefCell;
use std::hash::{BuildHasher, Hasher};

/// A JSON object.
fn obj(members: Vec<(&str, Value)>) -> Value {
    Value::Object(members.into_iter().map(|(name, value)| (name.to_string(), value)).collect())
}

/// A JSON array.
fn arr(items: Vec<Value>) -> Value {
    Value::Array(items)
}

/// A JSON value as the library holds it.
fn to_json(value: &Value) -> Json {
    match value {
        Value::Null => Json::Null,
        Value::Bool(b) => Json::Bool(*b),
        Value::Number(n) => Json::Num(match (n.as_u64(), n.as_i64()) {
            (Some(n), _) => Number::PosInt(n),
            (None, Some(n)) => Number::NegInt(n),
            (None, None) => Number::Float(n.as_f64().unwrap().to_bits()),
        }),
        Value::String(s) => Json::Str(s.clone()),
        Value::Array(items) => Json::Arr(items.iter().map(to_json).collect()),
        Value::Object(members) => Json::Obj(to_fields(members)),
    }
}

/// An object's members as the library holds them.
fn to_fields(members: &serde_json::Map<String, Value>) -> Fields {
    Fields {
        entries: members.iter().map(|(name, value)| (name.clone(), to_json(value))).collect(),
    }
}

/// A JSON value of the library.
fn from_json(value: &Json) -> Value {
    match value {
        Json::Null => Value::Null,
        Json::Bool(b) => Value::from(*b),
        Json::Num(Number::PosInt(n)) => Value::from(*n),
        Json::Num(Number::NegInt(n)) => Value::from(*n),
        Json::Num(Number::Float(bits)) => Value::from(f64::from_bits(*bits)),
        Json::Str(s) => Value::from(s.clone()),
        Json::Arr(items) => Value::Array(items.iter().map(from_json).collect()),
        Json::Obj(fields) => Value::Object(from_fields(fields)),
    }
}

/// An object's members.
fn from_fields(fields: &Fields) -> serde_json::Map<String, Value> {
    fields.entries.iter().map(|(name, value)| (name.clone(), from_json(value))).collect()
}

/// Rows of the synced tables, local state and the outbox, in memory.
struct Store {
    rows: RefCell<Vec<(String, serde_json::Map<String, Value>)>>,
    meta: RefCell<Vec<(String, String)>>,
    queue: RefCell<Vec<(String, String, String, i64)>>,
}

impl Store {
    fn open_in_memory() -> Store {
        Store {
            rows: RefCell::new(Vec::new()),
            meta: RefCell::new(Vec::new()),
            queue: RefCell::new(Vec::new()),
        }
    }

    /// Stores the columns of a row that its table has; the others are dropped.
    fn apply_row(&self, table: &str, row: &serde_json::Map<String, Value>) {
        let known = Table::named(table).unwrap();
        let columns = from_fields(&complete_row(&to_fields(row), known));
        self.rows.borrow_mut().push((table.to_string(), columns));
    }

    fn meta_set(&self, key: &str, value: &str) {
        self.meta.borrow_mut().push((key.to_string(), value.to_string()));
    }

    fn enqueue(&self, table: &str, id: &str, payload: &str, created_at: i64) {
        self.queue.borrow_mut().push((table.to_string(), id.to_string(), payload.to_string(), created_at));
    }

    fn list_live(&self, table: &str) -> Vec<Fields> {
        self.rows
            .borrow()
            .iter()
            .filter(|(name, row)| name == table && row.get("deleted") != Some(&Value::from(true)))
            .map(|(_, row)| to_fields(row))
            .collect()
    }
}

/// Seals texts so that only the same vault opens them, and only for the same note.
struct Vault {
    key: u64,
}

fn hex(text: &str) -> String {
    text.bytes().map(|byte| format!("{byte:02x}")).collect()
}

fn unhex(text: &str) -> Option<String> {
    let bytes: Option<Vec<u8>> = (0..text.len() / 2)
        .map(|at| u8::from_str_radix(text.get(2 * at..2 * at + 2)?, 16).ok())
        .collect();
    String::from_utf8(bytes?).ok()
}

impl Vault {
    fn generate() -> Vault {
        Vault { key: std::collections::hash_map::RandomState::new().build_hasher().finish() }
    }

    fn encrypt_note(&self, id: Option<String>, text: String) -> String {
        format!("enc:v2:{:016x}:{}:{}", self.key, hex(&id.unwrap_or_default()), hex(&text))
    }

    fn decrypt_note(&self, id: &str, sealed: &str) -> Option<String> {
        unhex(sealed.strip_prefix(&format!("enc:v2:{:016x}:{}:", self.key, hex(id)))?)
    }
}

fn put(store: &Store, table: &str, value: Value) {
    store.apply_row(table, value.as_object().expect("test row is an object"));
}

/// An archive as it is serialised: its members in order.
struct Archive(Fields);

impl serde::Serialize for Archive {
    fn serialize<S: serde::Serializer>(&self, serializer: S) -> Result<S::Ok, S::Error> {
        serializer.collect_map(self.0.entries.iter().map(|(name, value)| (name, from_json(value))))
    }
}

/// The archive of a store, as text.
fn build_snapshot_text(store: &Store, vault: &Vault, now_ms: i64) -> Result<String, SyncError> {
    let rows = SnapshotRows {
        books: store.list_live("books"),
        notes: store.list_live("notes"),
        custom_ideas: store.list_live("custom_ideas"),
        note_links: store.list_live("note_links"),
        lenses: store.list_live("lenses"),
        collections: store.list_live("collections"),
        collection_memberships: store.list_live("collection_memberships"),
        note_signals: store.list_live("note_signals"),
    };
    let opened: Vec<Option<String>> = rows
        .notes
        .iter()
        .map(|row| {
            let id = row.get_text("id").map(String::as_str).unwrap_or_default();
            text_to_open(row).and_then(|text| vault.decrypt_note(id, text))
        })
        .collect();
    let snapshot = build_snapshot_at(&rows, &opened, now_ms)?;
    Ok(serde_json::to_string(&Archive(write_archive(snapshot))).unwrap())
}

fn note_row(vault: &Vault, id: &str, plaintext: &str, created_at: i64, deleted: bool) -> Value {
    obj(vec![
        ("id", Value::from(id)),
        ("book_id", Value::Null),
        ("text", Value::from(vault.encrypt_note(Some(id.into()), plaintext.into()))),
        ("page", Value::from("")),
        ("tags", arr(vec![])),
        ("image_path", Value::Null),
        ("ink_crop_path", Value::Null),
        ("source", Value::from("manual")),
        ("source_id", Value::Null),
        ("source_meta", obj(vec![])),
        ("chapter", Value::Null),
        ("content_tag", Value::Null),
        ("created_at", Value::from(created_at)),
        ("updated_at", Value::from(created_at + 1)),
        ("deleted", Value::from(deleted)),
    ])
}

fn snapshot_at(store: &Store, vault: &Vault, now_ms: i64) -> String {
    build_snapshot_text(store, vault, now_ms).unwrap()
}

/// A note row whose text is whatever the caller says, sealed or not.
fn raw_note_row(id: &str, text: Value, created_at: i64) -> Value {
    obj(vec![
        ("id", Value::from(id)),
        ("book_id", Value::Null),
        ("text", Value::from(text)),
        ("page", Value::from("")),
        ("tags", arr(vec![])),
        ("image_path", Value::Null),
        ("ink_crop_path", Value::Null),
        ("source", Value::from("manual")),
        ("source_id", Value::Null),
        ("source_meta", obj(vec![])),
        ("chapter", Value::Null),
        ("content_tag", Value::Null),
        ("created_at", Value::from(created_at)),
        ("updated_at", Value::from(created_at)),
        ("deleted", Value::from(false)),
    ])
}

/// A text that is null, empty or simply not sealed has nothing to open, so none of the three may
/// fail the archive.
#[test]
fn exports_notes_whose_text_is_null_empty_or_unsealed() {
    for (case, text) in [
        ("null", Value::Null),
        ("empty", Value::from("")),
        ("unsealed", Value::from("a legacy note stored as plaintext")),
    ] {
        let store = Store::open_in_memory();
        let vault = Vault::generate();
        put(&store, "notes", raw_note_row("n1", text, 1));

        let snapshot = build_snapshot_text(&store, &vault, 0);

        assert!(
            snapshot.is_ok(),
            "a {case} note must not fail the export: {:?}",
            snapshot.err(),
        );
    }
}

/// The sealed note must still survive an export that also contains an unsealed one — a partial
/// archive is never acceptable, so the fix must skip decryption for the unsealed row, not the export.
#[test]
fn an_unsealed_note_does_not_take_a_sealed_note_down_with_it() {
    let store = Store::open_in_memory();
    let vault = Vault::generate();
    put(
        &store,
        "notes",
        note_row(&vault, "sealed", "the sealed body", 1, false),
    );
    put(
        &store,
        "notes",
        raw_note_row("unsealed", Value::from("a plaintext body"), 2),
    );

    let snapshot = build_snapshot_text(&store, &vault, 0).expect("export must survive");
    let root: Value = serde_json::from_str(&snapshot).unwrap();
    let notes = root["notes"].as_array().unwrap();

    assert_eq!(notes.len(), 2, "both notes are exported");
    let by_id = |id: &str| notes.iter().find(|n| n["id"] == id).unwrap().clone();
    assert_eq!(
        by_id("sealed")["text"],
        "the sealed body",
        "sealed text decrypts"
    );
    assert_eq!(
        by_id("unsealed")["text"],
        "a plaintext body",
        "unsealed text passes through verbatim"
    );
}

#[test]
fn envelope_has_pwa_key_order_schema_and_javascript_timestamp() {
    let store = Store::open_in_memory();
    let vault = Vault::generate();

    let snapshot = snapshot_at(&store, &vault, 1_704_164_645_123);

    assert_eq!(
        snapshot,
        [
            "{\"_syntopicon\":true,\"schemaVersion\":19,",
            "\"exportedAt\":\"2024-01-02T03:04:05.123Z\",",
            "\"books\":[],\"notes\":[],\"customIdeas\":[],\"noteLinks\":[],",
            "\"lenses\":[],\"collections\":[],\"collectionMemberships\":[],",
            "\"noteSignals\":[]}"
        ]
        .concat()
    );
}

#[test]
fn utc_formatter_matches_javascript_at_epoch_and_calendar_edges() {
    for (epoch_ms, expected) in [
        (-2_208_988_800_000, "1900-01-01T00:00:00.000Z"),
        (-1, "1969-12-31T23:59:59.999Z"),
        (0, "1970-01-01T00:00:00.000Z"),
        (951_782_400_000, "2000-02-29T00:00:00.000Z"),
        (1_704_164_645_123, "2024-01-02T03:04:05.123Z"),
        (4_107_542_400_999, "2100-03-01T00:00:00.999Z"),
    ] {
        assert_eq!(format_utc_iso8601(epoch_ms).unwrap(), expected);
    }
}

#[test]
fn utc_formatter_fails_closed_for_out_of_range_test_clocks() {
    let store = Store::open_in_memory();
    let vault = Vault::generate();

    for epoch_ms in [i64::MIN, i64::MAX] {
        let error = build_snapshot_text(&store, &vault, epoch_ms).unwrap_err();

        assert_eq!(
            error.message(),
            "store error: snapshot export timestamp formatting failed"
        );
    }
}

#[test]
fn utc_formatter_fails_closed_for_javascript_incompatible_bce_years() {
    let store = Store::open_in_memory();
    let vault = Vault::generate();

    let error = build_snapshot_text(&store, &vault, -62_198_755_200_000).unwrap_err();

    assert_eq!(
        error.message(),
        "store error: snapshot export timestamp formatting failed"
    );
}

#[test]
fn maps_all_eight_synced_stores_to_the_pwa_shape() {
    let store = Store::open_in_memory();
    let vault = Vault::generate();
    put(
        &store,
        "books",
        obj(vec![
            ("id", Value::from("b1")),
            ("title", Value::from("The Republic")),
            ("author", Value::from("Plato")),
            ("isbn", Value::from("9781")),
            ("cover_url", Value::from("https://covers/b1")),
            ("cover_source", Value::from("openlibrary")),
            ("cover_resolved_at", Value::from(101i64)),
            ("created_at", Value::from(100i64)),
            ("updated_at", Value::from(102i64)),
            ("deleted", Value::from(false)),
        ]),
    );
    put(
        &store,
        "notes",
        obj(vec![
            ("id", Value::from("n1")),
            ("book_id", Value::from("b1")),
            ("text", Value::from(vault.encrypt_note(Some("n1".into()), "Justice is harmony".into()))),
            ("page", Value::from("42")),
            ("tags", arr(vec![Value::from("Justice"), Value::from("Virtue")])),
            ("image_path", Value::from("user/n1.jpg")),
            ("ink_crop_path", Value::from("user/n1-crop.jpg")),
            ("source", Value::from("image")),
            ("source_id", Value::from("scan:1")),
            ("source_meta", obj(vec![("case", Value::from(2i64))])),
            ("chapter", Value::from("IV")),
            ("content_tag", Value::from("tag-opaque")),
            ("created_at", Value::from(200i64)),
            ("updated_at", Value::from(201i64)),
            ("deleted", Value::from(false)),
        ]),
    );
    put(
        &store,
        "custom_ideas",
        obj(vec![
            ("id", Value::from("ci1")),
            ("name", Value::from("Attention")),
            ("description", Value::from("Reader-defined")),
            ("created_at", Value::from(300i64)),
            ("updated_at", Value::from(301i64)),
            ("deleted", Value::from(false)),
        ]),
    );
    put(
        &store,
        "note_links",
        obj(vec![
            ("id", Value::from("link1")),
            ("from_note_id", Value::from("n1")),
            ("to_note_id", Value::from("n2")),
            ("relation_type", Value::from("related")),
            ("created_at", Value::from(400i64)),
            ("updated_at", Value::from(401i64)),
            ("deleted", Value::from(false)),
        ]),
    );
    put(
        &store,
        "lenses",
        obj(vec![
            ("id", Value::from("lens1")),
            ("name", Value::from("Justice and Virtue")),
            ("leaf_ids", arr(vec![Value::from("Justice"), Value::from("Virtue")])),
            ("combinator", Value::from("COOCCUR")),
            ("threshold", Value::from(60i64)),
            ("created_at", Value::from(500i64)),
            ("updated_at", Value::from(501i64)),
            ("deleted", Value::from(false)),
        ]),
    );
    put(
        &store,
        "collections",
        obj(vec![
            ("id", Value::from("col1")),
            ("name", Value::from("Study")),
            ("created_at", Value::from(600i64)),
            ("updated_at", Value::from(601i64)),
            ("deleted", Value::from(false)),
        ]),
    );
    put(
        &store,
        "collection_memberships",
        obj(vec![
            ("id", Value::from("col1:n1")),
            ("note_id", Value::from("n1")),
            ("collection_id", Value::from("col1")),
            ("created_at", Value::from(700i64)),
            ("updated_at", Value::from(701i64)),
            ("deleted", Value::from(false)),
        ]),
    );
    put(
        &store,
        "note_signals",
        obj(vec![
            ("note_id", Value::from("n1")),
            ("source_prior", Value::from(0.75)),
            ("return_visits", Value::from(3i64)),
            ("has_annotation", Value::from(true)),
            ("stitch_spawns", Value::from(2i64)),
            ("exposure_recency_at", Value::from(800i64)),
            ("engagement_recency_at", Value::from(801i64)),
            ("importance", Value::from(0.9)),
            ("created_at", Value::from(802i64)),
            ("updated_at", Value::from(803i64)),
            ("deleted", Value::from(false)),
        ]),
    );

    let root: Value = serde_json::from_str(&snapshot_at(&store, &vault, 0)).unwrap();

    for store_name in [
        "books",
        "notes",
        "customIdeas",
        "noteLinks",
        "lenses",
        "collections",
        "collectionMemberships",
        "noteSignals",
    ] {
        assert_eq!(
            root[store_name][0]["deleted"],
            Value::from(0i64),
            "{store_name} must match the archive's numeric live-row flag"
        );
    }

    assert_eq!(
        root["books"][0],
        obj(vec![
            ("id", Value::from("b1")),
            ("title", Value::from("The Republic")),
            ("author", Value::from("Plato")),
            ("isbn", Value::from("9781")),
            ("coverUrl", Value::from("https://covers/b1")),
            ("coverSource", Value::from("openlibrary")),
            ("coverResolvedAt", Value::from(101i64)),
            ("createdAt", Value::from(100i64)),
            ("updatedAt", Value::from(102i64)),
            ("deleted", Value::from(0i64)),
        ])
    );
    assert_eq!(
        root["notes"][0],
        obj(vec![
            ("id", Value::from("n1")),
            ("bookId", Value::from("b1")),
            ("text", Value::from("Justice is harmony")),
            ("page", Value::from("42")),
            ("tags", arr(vec![Value::from("Justice"), Value::from("Virtue")])),
            ("imagePath", Value::from("user/n1.jpg")),
            ("inkCropPath", Value::from("user/n1-crop.jpg")),
            ("source", Value::from("image")),
            ("sourceId", Value::from("scan:1")),
            ("sourceMeta", obj(vec![("case", Value::from(2i64))])),
            ("chapter", Value::from("IV")),
            ("contentTag", Value::from("tag-opaque")),
            ("createdAt", Value::from(200i64)),
            ("updatedAt", Value::from(201i64)),
            ("deleted", Value::from(0i64)),
        ])
    );
    assert_eq!(
        root["customIdeas"][0],
        obj(vec![
            ("id", Value::from("ci1")),
            ("name", Value::from("Attention")),
            ("description", Value::from("Reader-defined")),
            ("createdAt", Value::from(300i64)),
            ("updatedAt", Value::from(301i64)),
            ("deleted", Value::from(0i64)),
        ])
    );
    assert_eq!(
        root["noteLinks"][0],
        obj(vec![
            ("id", Value::from("link1")),
            ("fromNoteId", Value::from("n1")),
            ("toNoteId", Value::from("n2")),
            ("relationType", Value::from("related")),
            ("createdAt", Value::from(400i64)),
            ("updatedAt", Value::from(401i64)),
            ("deleted", Value::from(0i64)),
        ])
    );
    assert_eq!(
        root["lenses"][0],
        obj(vec![
            ("id", Value::from("lens1")),
            ("name", Value::from("Justice and Virtue")),
            ("leafIds", arr(vec![Value::from("Justice"), Value::from("Virtue")])),
            ("combinator", Value::from("COOCCUR")),
            ("threshold", Value::from(60i64)),
            ("createdAt", Value::from(500i64)),
            ("updatedAt", Value::from(501i64)),
            ("deleted", Value::from(0i64)),
        ])
    );
    assert_eq!(
        root["collections"][0],
        obj(vec![
            ("id", Value::from("col1")),
            ("name", Value::from("Study")),
            ("createdAt", Value::from(600i64)),
            ("updatedAt", Value::from(601i64)),
            ("deleted", Value::from(0i64)),
        ])
    );
    assert_eq!(
        root["collectionMemberships"][0],
        obj(vec![
            ("id", Value::from("col1:n1")),
            ("noteId", Value::from("n1")),
            ("collectionId", Value::from("col1")),
            ("createdAt", Value::from(700i64)),
            ("updatedAt", Value::from(701i64)),
            ("deleted", Value::from(0i64)),
        ])
    );
    assert_eq!(
        root["noteSignals"][0],
        obj(vec![
            ("noteId", Value::from("n1")),
            ("sourcePrior", Value::from(0.75)),
            ("returnVisits", Value::from(3i64)),
            ("hasAnnotation", Value::from(true)),
            ("stitchSpawns", Value::from(2i64)),
            ("exposureRecencyAt", Value::from(800i64)),
            ("engagementRecencyAt", Value::from(801i64)),
            ("importance", Value::from(0.9)),
            ("createdAt", Value::from(802i64)),
            ("updatedAt", Value::from(803i64)),
            ("deleted", Value::from(0i64)),
        ])
    );
}

#[test]
fn exports_live_rows_only_and_never_local_tables_or_outbox() {
    let store = Store::open_in_memory();
    let vault = Vault::generate();
    put(
        &store,
        "books",
        obj(vec![
            ("id", Value::from("live")),
            ("title", Value::from("Live")),
            ("created_at", Value::from(1i64)),
            ("updated_at", Value::from(1i64)),
            ("deleted", Value::from(false)),
        ]),
    );
    put(
        &store,
        "books",
        obj(vec![
            ("id", Value::from("gone")),
            ("title", Value::from("Gone")),
            ("created_at", Value::from(2i64)),
            ("updated_at", Value::from(2i64)),
            ("deleted", Value::from(true)),
        ]),
    );
    store.meta_set("private-local-state", "must-not-export");
    store.enqueue("books", "queued", "{\"title\":\"queued-local\"}", 3);

    let root: Value = serde_json::from_str(&snapshot_at(&store, &vault, 0)).unwrap();

    assert_eq!(root["books"].as_array().unwrap().len(), 1);
    assert_eq!(root["books"][0]["id"], "live");
    let envelope = root.as_object().unwrap();
    assert_eq!(envelope.len(), 11);
    assert!(!envelope.contains_key("meta"));
    assert!(!envelope.contains_key("outbox"));
    assert!(!envelope.contains_key("embeddings"));
    assert!(!envelope.contains_key("discoveryJobs"));
    assert!(!snapshot_at(&store, &vault, 0).contains("must-not-export"));
    assert!(!snapshot_at(&store, &vault, 0).contains("queued-local"));
}

#[test]
fn reconstructs_annotations_in_edge_order_and_omits_empty_metadata() {
    let store = Store::open_in_memory();
    let vault = Vault::generate();
    for row in [
        note_row(&vault, "parent", "printed passage", 1, false),
        note_row(&vault, "early", "first margin", 2, false),
        note_row(&vault, "late", "second margin", 3, false),
        note_row(&vault, "plain", "no margins", 4, false),
        note_row(&vault, "deleted-child", "must not appear", 5, true),
    ] {
        put(&store, "notes", row);
    }
    for edge in [
        obj(vec![
            ("id", Value::from("late-edge")),
            ("from_note_id", Value::from("parent")),
            ("to_note_id", Value::from("late")),
            ("relation_type", Value::from("handwritten_annotation")),
            ("created_at", Value::from(20i64)),
            ("updated_at", Value::from(20i64)),
            ("deleted", Value::from(false)),
        ]),
        obj(vec![
            ("id", Value::from("early-edge")),
            ("from_note_id", Value::from("parent")),
            ("to_note_id", Value::from("early")),
            ("relation_type", Value::from("handwritten_annotation")),
            ("created_at", Value::from(10i64)),
            ("updated_at", Value::from(10i64)),
            ("deleted", Value::from(false)),
        ]),
        obj(vec![
            ("id", Value::from("deleted-edge")),
            ("from_note_id", Value::from("parent")),
            ("to_note_id", Value::from("early")),
            ("relation_type", Value::from("handwritten_annotation")),
            ("created_at", Value::from(5i64)),
            ("updated_at", Value::from(5i64)),
            ("deleted", Value::from(true)),
        ]),
        obj(vec![
            ("id", Value::from("wrong-kind")),
            ("from_note_id", Value::from("parent")),
            ("to_note_id", Value::from("early")),
            ("relation_type", Value::from("related")),
            ("created_at", Value::from(1i64)),
            ("updated_at", Value::from(1i64)),
            ("deleted", Value::from(false)),
        ]),
        obj(vec![
            ("id", Value::from("gone-child")),
            ("from_note_id", Value::from("parent")),
            ("to_note_id", Value::from("deleted-child")),
            ("relation_type", Value::from("handwritten_annotation")),
            ("created_at", Value::from(2i64)),
            ("updated_at", Value::from(2i64)),
            ("deleted", Value::from(false)),
        ]),
    ] {
        put(&store, "note_links", edge);
    }

    let root: Value = serde_json::from_str(&snapshot_at(&store, &vault, 0)).unwrap();
    let notes = root["notes"].as_array().unwrap();
    let parent = notes.iter().find(|n| n["id"] == "parent").unwrap();
    let plain = notes.iter().find(|n| n["id"] == "plain").unwrap();

    assert_eq!(
        parent["user_metadata"]["user_annotation"],
        arr(vec![Value::from("first margin"), Value::from("second margin")])
    );
    assert!(plain.get("user_metadata").is_none());
}

#[test]
fn equal_time_annotations_follow_edge_id_not_insertion_order() {
    let store = Store::open_in_memory();
    let vault = Vault::generate();
    for row in [
        note_row(&vault, "parent", "printed passage", 1, false),
        note_row(&vault, "a-child", "A margin", 2, false),
        note_row(&vault, "m-child", "M margin", 3, false),
        note_row(&vault, "z-child", "Z margin", 4, false),
    ] {
        put(&store, "notes", row);
    }
    for edge in [
        obj(vec![
            ("id", Value::from("z-edge")),
            ("from_note_id", Value::from("parent")),
            ("to_note_id", Value::from("z-child")),
            ("relation_type", Value::from("handwritten_annotation")),
            ("created_at", Value::from(10i64)),
            ("updated_at", Value::from(10i64)),
            ("deleted", Value::from(false)),
        ]),
        obj(vec![
            ("id", Value::from("m-edge")),
            ("from_note_id", Value::from("parent")),
            ("to_note_id", Value::from("m-child")),
            ("relation_type", Value::from("handwritten_annotation")),
            ("created_at", Value::from(10i64)),
            ("updated_at", Value::from(10i64)),
            ("deleted", Value::from(false)),
        ]),
        obj(vec![
            ("id", Value::from("a-edge")),
            ("from_note_id", Value::from("parent")),
            ("to_note_id", Value::from("a-child")),
            ("relation_type", Value::from("handwritten_annotation")),
            ("created_at", Value::from(10i64)),
            ("updated_at", Value::from(10i64)),
            ("deleted", Value::from(false)),
        ]),
    ] {
        put(&store, "note_links", edge);
    }

    let root: Value = serde_json::from_str(&snapshot_at(&store, &vault, 0)).unwrap();
    let parent = root["notes"]
        .as_array()
        .unwrap()
        .iter()
        .find(|note| note["id"] == "parent")
        .unwrap();

    assert_eq!(
        parent["user_metadata"]["user_annotation"],
        arr(vec![Value::from("A margin"), Value::from("M margin"), Value::from("Z margin")])
    );
}

#[test]
fn omits_device_local_previews_but_retains_synced_paths_and_content_tag() {
    let store = Store::open_in_memory();
    let vault = Vault::generate();
    let mut row = note_row(&vault, "n1", "passage", 1, false);
    let row = row.as_object_mut().unwrap();
    row.insert("image_path".into(), Value::from("user/source.jpg"));
    row.insert("ink_crop_path".into(), Value::from("user/crop.jpg"));
    row.insert("content_tag".into(), Value::from("opaque-tag"));
    row.insert(
        "imageDataUrl".into(),
        Value::from("data:image/jpeg;base64,SOURCE"),
    );
    row.insert(
        "inkCropDataUrl".into(),
        Value::from("data:image/jpeg;base64,CROP"),
    );
    store.apply_row("notes", row);

    let root: Value = serde_json::from_str(&snapshot_at(&store, &vault, 0)).unwrap();
    let note = root["notes"][0].as_object().unwrap();

    assert_eq!(note["imagePath"], "user/source.jpg");
    assert_eq!(note["inkCropPath"], "user/crop.jpg");
    assert_eq!(note["contentTag"], "opaque-tag");
    assert!(!note.contains_key("imageDataUrl"));
    assert!(!note.contains_key("inkCropDataUrl"));
}

#[test]
fn decryption_failure_is_fail_closed_and_error_contains_no_note_material() {
    let store = Store::open_in_memory();
    let mine = Vault::generate();
    let foreign = Vault::generate();
    put(
        &store,
        "notes",
        note_row(&mine, "good", "good plaintext", 1, false),
    );
    let ciphertext = foreign.encrypt_note(Some("bad".into()), "foreign secret".into());
    let mut bad = note_row(&foreign, "bad", "unused", 2, false);
    bad.as_object_mut()
        .unwrap()
        .insert("text".into(), Value::from(ciphertext));
    put(&store, "notes", bad);

    let error = build_snapshot_text(&store, &mine, 0).unwrap_err();
    let message = error.message();

    assert!(!message.contains("enc:v2"));
    assert!(!message.contains("good plaintext"));
    assert!(!message.contains("foreign secret"));
}

#[test]
fn public_engine_export_uses_the_private_clocked_builder() {
    let store = Store::open_in_memory();
    let vault = Vault::generate();

    let snapshot = snapshot_at(&store, &vault, epoch_ms());
    let root: Value = serde_json::from_str(&snapshot).unwrap();
    let timestamp = root["exportedAt"].as_str().unwrap();

    assert_eq!(timestamp.len(), 24);
    assert_eq!(&timestamp[4..5], "-");
    assert_eq!(&timestamp[10..11], "T");
    assert_eq!(&timestamp[19..20], ".");
    assert!(timestamp.ends_with('Z'));
}

#[test]
fn the_calendar_ends_with_the_last_millisecond_of_9999() {
    assert_eq!(format_utc_iso8601(253_402_300_799_999).unwrap(), "9999-12-31T23:59:59.999Z");
    assert_eq!(
        format_utc_iso8601(253_402_300_800_000).unwrap_err().message(),
        "store error: snapshot export timestamp formatting failed"
    );
    assert_eq!(format_utc_iso8601(-62_167_219_200_000).unwrap(), "0000-01-01T00:00:00.000Z");
    assert_eq!(
        format_utc_iso8601(-62_167_219_200_001).unwrap_err().message(),
        "store error: snapshot export timestamp formatting failed"
    );
}

#[test]
fn two_milliseconds_never_share_a_written_time() {
    let first = format_utc_iso8601(1_709_251_199_999).unwrap();
    let next = format_utc_iso8601(1_709_251_200_000).unwrap();
    assert_eq!(first, "2024-02-29T23:59:59.999Z");
    assert_eq!(next, "2024-03-01T00:00:00.000Z");
}

#[test]
fn a_sealed_note_that_does_not_open_has_its_own_error() {
    let vault = Vault::generate();
    let row = note_row(&vault, "n1", "body", 1, false);
    let fields = to_fields(row.as_object().unwrap());
    assert!(text_to_open(&fields).is_some());
    assert_eq!(
        map_note(&fields, None).unwrap_err().message(),
        "store error: snapshot export note decryption failed"
    );
    let opened = "body".to_string();
    let mapped = map_note(&fields, Some(&opened)).unwrap();
    assert_eq!(mapped.get_text("text").map(String::as_str), Some("body"));
}

#[test]
fn a_note_that_is_not_sealed_ignores_what_was_opened() {
    let row = raw_note_row("n1", Value::from("as it stands"), 1);
    let fields = to_fields(row.as_object().unwrap());
    assert!(text_to_open(&fields).is_none());
    let other = "other".to_string();
    let mapped = map_note(&fields, Some(&other)).unwrap();
    assert_eq!(mapped.get_text("text").map(String::as_str), Some("as it stands"));
    let null = raw_note_row("n2", Value::Null, 1);
    let mapped = map_note(&to_fields(null.as_object().unwrap()), None).unwrap();
    assert!(mapped.get("text").unwrap().is_null());
}

#[test]
fn margins_leave_the_other_members_of_a_note_alone() {
    let store = Store::open_in_memory();
    let vault = Vault::generate();
    put(&store, "notes", note_row(&vault, "parent", "passage", 1, false));
    put(&store, "notes", note_row(&vault, "child", "margin", 2, false));
    let before: Value = serde_json::from_str(&snapshot_at(&store, &vault, 0)).unwrap();
    put(
        &store,
        "note_links",
        obj(vec![
            ("id", Value::from("e")),
            ("from_note_id", Value::from("parent")),
            ("to_note_id", Value::from("child")),
            ("relation_type", Value::from("handwritten_annotation")),
        ]),
    );
    let mut after: Value = serde_json::from_str(&snapshot_at(&store, &vault, 0)).unwrap();
    let parent = after["notes"][0].as_object_mut().unwrap();
    assert_eq!(
        parent.remove("user_metadata").unwrap(),
        obj(vec![("user_annotation", arr(vec![Value::from("margin")]))])
    );
    assert_eq!(after["notes"], before["notes"]);
}

#[test]
fn an_archive_comes_back_through_import() {
    let store = Store::open_in_memory();
    let vault = Vault::generate();
    put(
        &store,
        "notes",
        obj(vec![
            ("id", Value::from("n1")),
            ("book_id", Value::from("b1")),
            ("text", Value::from(vault.encrypt_note(Some("n1".into()), "body".into()))),
            ("page", Value::from("7")),
            ("tags", arr(vec![Value::from("Truth")])),
            ("source", Value::from("manual")),
            ("source_meta", obj(vec![])),
            ("created_at", Value::from(10)),
            ("updated_at", Value::from(11)),
            ("deleted", Value::from(false)),
        ]),
    );
    put(
        &store,
        "lenses",
        obj(vec![
            ("id", Value::from("l1")),
            ("name", Value::from("Lens")),
            ("leaf_ids", arr(vec![Value::from("Truth")])),
            ("combinator", Value::from("AND")),
            ("threshold", Value::from(75)),
            ("created_at", Value::from(20)),
            ("updated_at", Value::from(21)),
            ("deleted", Value::from(false)),
        ]),
    );
    let text = snapshot_at(&store, &vault, 1_704_164_645_123);
    let import = parse_import_at(&text, 99).unwrap();
    assert_eq!(import.schema_version, SCHEMA_VERSION);
    assert_eq!(import.notes.len(), 1);
    let note = from_fields(&import.notes[0].row);
    assert_eq!(note["text"], "body");
    assert_eq!(note["page"], "7");
    assert_eq!(note["tags"], arr(vec![Value::from("Truth")]));
    assert_eq!(note["created_at"], 10);
    let lens = from_fields(&import.lenses[0].row);
    let stored = from_fields(&store.list_live("lenses")[0]);
    assert_eq!(lens, stored);
    assert!(normalize_archive(&to_json(&serde_json::from_str(&text).unwrap()), 99).is_ok());
}

#[test]
fn every_column_of_a_table_has_one_archive_name() {
    for (name, count) in [
        ("books", 10),
        ("notes", 15),
        ("custom_ideas", 6),
        ("note_links", 7),
        ("lenses", 8),
        ("collections", 5),
        ("collection_memberships", 6),
        ("note_signals", 11),
    ] {
        let fields = archive_fields(Table::named(name).unwrap());
        assert_eq!(fields.len(), count, "{name}");
        for (at, (column, archived)) in fields.iter().enumerate() {
            assert!(fields[..at].iter().all(|(c, a)| c != column && a != archived));
        }
    }
    assert!(Table::named("outbox").is_none());
}
