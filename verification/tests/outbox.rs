use braird_sync::json::{Fields, Json, Number};
use braird_sync::outbox::{collapse, resolve_book_id, Collapsed, IdRemap, OutboxItem};
use serde_json::Value;

/// A JSON object.
fn obj(members: Vec<(&str, Value)>) -> Value {
    Value::Object(members.into_iter().map(|(name, value)| (name.to_string(), value)).collect())
}

/// A JSON value as the library holds it.
fn to_json(value: &Value) -> Json {
    match value {
        Value::Null => Json::Null,
        Value::Bool(b) => Json::Bool(*b),
        Value::Number(n) => Json::Num(match (n.as_u64(), n.as_i64()) {
            (Some(n), _) => Number::PosInt(n),
            (None, Some(n)) => Number::NegInt(n),
            (None, None) => Number::Float(n.as_f64().unwrap().to_bits()),
        }),
        Value::String(s) => Json::Str(s.clone()),
        Value::Array(items) => Json::Arr(items.iter().map(to_json).collect()),
        Value::Object(members) => Json::Obj(to_fields(members)),
    }
}

/// An object's members as the library holds them.
fn to_fields(members: &serde_json::Map<String, Value>) -> Fields {
    Fields {
        entries: members.iter().map(|(name, value)| (name.clone(), to_json(value))).collect(),
    }
}

/// A JSON value of the library.
fn from_json(value: &Json) -> Value {
    match value {
        Json::Null => Value::Null,
        Json::Bool(b) => Value::from(*b),
        Json::Num(Number::PosInt(n)) => Value::from(*n),
        Json::Num(Number::NegInt(n)) => Value::from(*n),
        Json::Num(Number::Float(bits)) => Value::from(f64::from_bits(*bits)),
        Json::Str(s) => Value::from(s.clone()),
        Json::Arr(items) => Value::Array(items.iter().map(from_json).collect()),
        Json::Obj(fields) => Value::Object(from_fields(fields)),
    }
}

/// An object's members.
fn from_fields(fields: &Fields) -> serde_json::Map<String, Value> {
    fields.entries.iter().map(|(name, value)| (name.clone(), from_json(value))).collect()
}

fn item(id: i64, table: &str, record: &str, created_at: i64, payload: Value) -> OutboxItem {
    OutboxItem {
        id,
        table_name: table.into(),
        record_id: Some(record.into()),
        payload: to_json(&payload),
        created_at,
    }
}

/// A column of a collapsed row, null where it has none.
fn column(group: &Collapsed, name: &str) -> Value {
    from_fields(&group.payload).get(name).cloned().unwrap_or(Value::Null)
}

#[test]
fn lww_per_field_merges_in_created_at_order() {
    // Two edits to the same note; the later one wins `text`, the earlier survives `page`.
    let items = vec![
        item(
            1,
            "notes",
            "n1",
            100,
            obj(vec![
                ("id", Value::from("n1")),
                ("text", Value::from("enc:v2:a")),
                ("page", Value::from("5")),
            ]),
        ),
        item(
            2,
            "notes",
            "n1",
            200,
            obj(vec![("id", Value::from("n1")), ("text", Value::from("enc:v2:b"))]),
        ),
    ];
    let out = collapse(items, &IdRemap::new());
    assert_eq!(out.len(), 1);
    assert_eq!(out[0].ids, vec![1, 2]);
    assert_eq!(column(&out[0], "text"), Value::from("enc:v2:b"));
    assert_eq!(column(&out[0], "page"), Value::from("5"));
}

#[test]
fn out_of_order_arrival_still_resolves_by_created_at() {
    // Enqueued out of order (higher id is older): created_at, not id, decides LWW.
    let items = vec![
        item(
            2,
            "notes",
            "n1",
            100,
            obj(vec![("id", Value::from("n1")), ("text", Value::from("old"))]),
        ),
        item(
            1,
            "notes",
            "n1",
            200,
            obj(vec![("id", Value::from("n1")), ("text", Value::from("new"))]),
        ),
    ];
    let out = collapse(items, &IdRemap::new());
    assert_eq!(column(&out[0], "text"), Value::from("new"));
}

#[test]
fn delete_is_sticky_and_absorbs_later_edits() {
    // A delete followed by a stray edit still flushes as deleted.
    let items = vec![
        item(
            1,
            "notes",
            "n1",
            100,
            obj(vec![("id", Value::from("n1")), ("deleted", Value::from(true))]),
        ),
        item(
            2,
            "notes",
            "n1",
            200,
            obj(vec![("id", Value::from("n1")), ("text", Value::from("resurrected?"))]),
        ),
    ];
    let out = collapse(items, &IdRemap::new());
    assert_eq!(column(&out[0], "deleted"), Value::from(true));
}

#[test]
fn note_book_id_repoints_transitively() {
    let mut remap = IdRemap::new();
    remap.insert("tempA".to_string(), "tempB".to_string());
    remap.insert("tempB".to_string(), "server-1".to_string());
    let items = vec![item(
        1,
        "notes",
        "n1",
        100,
        obj(vec![
            ("id", Value::from("n1")),
            ("book_id", Value::from("tempA")),
            ("text", Value::from("enc:v2:x")),
        ]),
    )];
    let out = collapse(items, &remap);
    assert_eq!(column(&out[0], "book_id"), Value::from("server-1"));
}

#[test]
fn remap_cycle_terminates() {
    let mut remap = IdRemap::new();
    remap.insert("a".to_string(), "b".to_string());
    remap.insert("b".to_string(), "a".to_string());
    // Hop cap must return SOME id, not hang.
    let resolved = resolve_book_id("a", &remap);
    assert!(resolved == "a" || resolved == "b");
}

#[test]
fn book_payload_keeps_its_own_id_even_if_merged_away() {
    // A merged-loser book still upserts under its own id (as a soft-deleted row); the
    // remap only rewrites NOTE book_id references, never a book's own id.
    let mut remap = IdRemap::new();
    remap.insert("tempA".to_string(), "server-1".to_string());
    let items = vec![item(
        1,
        "books",
        "tempA",
        100,
        obj(vec![("id", Value::from("tempA")), ("deleted", Value::from(true))]),
    )];
    let out = collapse(items, &remap);
    assert_eq!(column(&out[0], "id"), Value::from("tempA"));
}

#[test]
fn distinct_records_do_not_collapse() {
    let items = vec![
        item(
            1,
            "notes",
            "n1",
            100,
            obj(vec![("id", Value::from("n1")), ("text", Value::from("a"))]),
        ),
        item(
            2,
            "notes",
            "n2",
            100,
            obj(vec![("id", Value::from("n2")), ("text", Value::from("b"))]),
        ),
        item(
            3,
            "books",
            "b1",
            100,
            obj(vec![("id", Value::from("b1")), ("title", Value::from("T"))]),
        ),
    ];
    let out = collapse(items, &IdRemap::new());
    assert_eq!(out.len(), 3);
}

#[test]
fn a_deleted_record_stays_deleted_whatever_is_written_later() {
    let out = collapse(
        vec![
            item(1, "notes", "n1", 100, obj(vec![("deleted", Value::from(true))])),
            item(
                2,
                "notes",
                "n1",
                200,
                obj(vec![("deleted", Value::from(false)), ("page", Value::from("9"))]),
            ),
        ],
        &IdRemap::new(),
    );
    assert_eq!(column(&out[0], "deleted"), Value::from(true));
    assert_eq!(column(&out[0], "page"), Value::from("9"));
}

#[test]
fn a_live_write_before_the_delete_does_not_shield_the_record() {
    let out = collapse(
        vec![
            item(2, "notes", "n1", 200, obj(vec![("deleted", Value::from(true))])),
            item(1, "notes", "n1", 100, obj(vec![("deleted", Value::from(false))])),
        ],
        &IdRemap::new(),
    );
    assert_eq!(out[0].ids, vec![1, 2]);
    assert_eq!(column(&out[0], "deleted"), Value::from(true));
}

#[test]
fn truth_of_the_deleted_column_follows_its_type() {
    let deleted = |value: Value| {
        let out = collapse(
            vec![item(1, "notes", "n1", 100, obj(vec![("deleted", value)]))],
            &IdRemap::new(),
        );
        column(&out[0], "deleted")
    };
    for value in [Value::from(true), Value::from(1), Value::from(-3), Value::from(0.5), Value::from("yes")] {
        assert_eq!(deleted(value), Value::from(true));
    }
    for value in [
        Value::from(false),
        Value::from(0),
        Value::from(0.0),
        Value::from(-0.0),
        Value::from(""),
        Value::from("0"),
        Value::from("false"),
        Value::Null,
        Value::Array(vec![Value::from(true)]),
    ] {
        assert_eq!(deleted(value.clone()), value, "not a delete: kept as written");
    }
}

#[test]
fn a_write_without_a_record_id_groups_by_its_payload_id() {
    let mut anonymous = item(
        2,
        "notes",
        "",
        200,
        obj(vec![("id", Value::from("n1")), ("text", Value::from("b"))]),
    );
    anonymous.record_id = None;
    let mut keyless = item(3, "notes", "", 300, obj(vec![("text", Value::from("c"))]));
    keyless.record_id = None;
    let out = collapse(
        vec![item(
            1,
            "notes",
            "n1",
            100,
            obj(vec![("text", Value::from("a"))]),
        ), anonymous, keyless],
        &IdRemap::new(),
    );
    let ids: Vec<Vec<i64>> = out.iter().map(|group| group.ids.clone()).collect();
    assert_eq!(ids, vec![vec![3], vec![1, 2]], "the keyless group sorts first");
    assert_eq!(column(&out[1], "text"), Value::from("b"));
}

#[test]
fn groups_come_out_in_the_order_of_their_keys_and_absorb_every_write() {
    let out = collapse(
        vec![
            item(1, "notes", "b", 3, obj(vec![])),
            item(2, "books", "z", 2, obj(vec![])),
            item(3, "notes", "a", 1, obj(vec![])),
            item(4, "notes", "b", 1, obj(vec![])),
        ],
        &IdRemap::new(),
    );
    let groups: Vec<(&str, Vec<i64>)> =
        out.iter().map(|group| (group.table.as_str(), group.ids.clone())).collect();
    assert_eq!(groups, vec![("books", vec![2]), ("notes", vec![3]), ("notes", vec![4, 1])]);
}

#[test]
fn writes_at_one_time_merge_in_queue_order() {
    let out = collapse(
        vec![
            item(7, "notes", "n1", 100, obj(vec![("text", Value::from("first"))])),
            item(8, "notes", "n1", 100, obj(vec![("text", Value::from("second"))])),
        ],
        &IdRemap::new(),
    );
    assert_eq!(out[0].ids, vec![7, 8]);
    assert_eq!(column(&out[0], "text"), Value::from("second"));
}

#[test]
fn a_payload_that_is_no_object_is_absorbed_without_columns() {
    let out = collapse(vec![item(1, "notes", "n1", 100, Value::from("scalar"))], &IdRemap::new());
    assert_eq!(out.len(), 1);
    assert_eq!(out[0].ids, vec![1]);
    assert!(out[0].payload.entries.is_empty());
}

#[test]
fn repointing_changes_the_book_of_a_note_and_nothing_else() {
    let mut remap = IdRemap::new();
    remap.insert("old".to_string(), "new".to_string());
    let out = collapse(
        vec![
            item(
                1,
                "notes",
                "n1",
                1,
                obj(vec![("book_id", Value::from("old")), ("page", Value::from("old"))]),
            ),
            item(2, "lenses", "l1", 1, obj(vec![("book_id", Value::from("old"))])),
        ],
        &remap,
    );
    assert_eq!(column(&out[0], "book_id"), Value::from("old"), "a lens is left alone");
    assert_eq!(column(&out[1], "book_id"), Value::from("new"));
    assert_eq!(column(&out[1], "page"), Value::from("old"));
}

#[test]
fn a_chain_is_followed_for_at_most_twenty_hops() {
    let mut remap = IdRemap::new();
    for hop in 0..25 {
        remap.insert(format!("b{hop}"), format!("b{}", hop + 1));
    }
    assert_eq!(resolve_book_id("b0", &remap), "b20");
    assert_eq!(resolve_book_id("b6", &remap), "b25");
    assert_eq!(resolve_book_id(&resolve_book_id("b6", &remap), &remap), "b25");
    assert_eq!(resolve_book_id("unmapped", &remap), "unmapped");
}

#[test]
fn a_remapped_id_is_replaced_by_its_latest_entry() {
    let mut remap = IdRemap::new();
    remap.insert("a".to_string(), "b".to_string());
    remap.insert("a".to_string(), "c".to_string());
    assert_eq!(remap.get("a").map(String::as_str), Some("c"));
    assert_eq!(remap.get("b"), None);
    assert_eq!(resolve_book_id("a", &remap), "c");
}
