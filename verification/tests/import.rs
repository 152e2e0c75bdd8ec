use braird_sync::import::{
    invalid, normalize_archive, parse_import_at, score_inputs, set_importance, source_prior,
    NormalizedImport, NormalizedRow,
};
use braird_sync::json::{Fields, Json, Number};
use braird_sync::tags::{remap_tags, CANON_REMAP_V14, GREAT_IDEAS_RENAMES};
use braird_sync::types::{ImportCounts, ImportSummary, SyncError};
use serde_json::Value;

const NOW: i64 = 9_000;

/// A JSON object.
fn obj(members: Vec<(&str, Value)>) -> Value {
    Value::Object(members.into_iter().map(|(name, value)| (name.to_string(), value)).collect())
}

/// A JSON array.
fn arr(items: Vec<Value>) -> Value {
    Value::Array(items)
}

/// A JSON value as the library holds it.
fn to_json(value: &Value) -> Json {
    match value {
        Value::Null => Json::Null,
        Value::Bool(b) => Json::Bool(*b),
        Value::Number(n) => Json::Num(match (n.as_u64(), n.as_i64()) {
            (Some(n), _) => Number::PosInt(n),
            (None, Some(n)) => Number::NegInt(n),
            (None, None) => Number::Float(n.as_f64().unwrap().to_bits()),
        }),
        Value::String(s) => Json::Str(s.clone()),
        Value::Array(items) => Json::Arr(items.iter().map(to_json).collect()),
        Value::Object(members) => Json::Obj(to_fields(members)),
    }
}

/// An object's members as the library holds them.
fn to_fields(members: &serde_json::Map<String, Value>) -> Fields {
    Fields {
        entries: members.iter().map(|(name, value)| (name.clone(), to_json(value))).collect(),
    }
}

/// A JSON value of the library.
fn from_json(value: &Json) -> Value {
    match value {
        Json::Null => Value::Null,
        Json::Bool(b) => Value::from(*b),
        Json::Num(Number::PosInt(n)) => Value::from(*n),
        Json::Num(Number::NegInt(n)) => Value::from(*n),
        Json::Num(Number::Float(bits)) => Value::from(f64::from_bits(*bits)),
        Json::Str(s) => Value::from(s.clone()),
        Json::Arr(items) => Value::Array(items.iter().map(from_json).collect()),
        Json::Obj(fields) => Value::Object(from_fields(fields)),
    }
}

/// An object's members.
fn from_fields(fields: &Fields) -> serde_json::Map<String, Value> {
    fields.entries.iter().map(|(name, value)| (name.clone(), from_json(value))).collect()
}

/// A note's score: evidence wears the prior down and adds itself on top.
fn compute_importance(prior: f64, visits: i64, annotated: bool, spawns: i64) -> f64 {
    let evidence =
        visits as f64 * 0.1 + if annotated { 0.3 } else { 0.0 } + spawns as f64 * 0.5;
    prior * (-std::f64::consts::LN_2 * evidence.max(0.0) / 1.5).exp() + evidence
}

fn parse_raw(raw: &str) -> Result<NormalizedImport, SyncError> {
    let mut import = parse_import_at(raw, NOW)?;
    for signal in &mut import.note_signals {
        let inputs = score_inputs(signal);
        let score = compute_importance(
            f64::from_bits(inputs.source_prior),
            inputs.return_visits,
            inputs.has_annotation,
            inputs.stitch_spawns,
        );
        set_importance(signal, score.to_bits());
    }
    Ok(import)
}

fn parse(value: Value) -> Result<NormalizedImport, SyncError> {
    parse_raw(&serde_json::to_string(&value).unwrap())
}

fn archive(schema_version: u32) -> Value {
    obj(vec![("_syntopicon", Value::from(true)), ("schemaVersion", Value::from(schema_version))])
}

fn row(normalized: &NormalizedRow) -> Value {
    Value::Object(from_fields(&normalized.row))
}

fn assert_invalid(raw: &str) {
    let error = parse_raw(raw).unwrap_err();
    assert!(matches!(error, SyncError::InvalidImport(_)));
}

#[test]
fn public_import_result_types_and_invalid_import_variant_have_exact_fields() {
    let counts = ImportCounts {
        books: 1,
        notes: 2,
        custom_ideas: 3,
        note_links: 4,
        lenses: 5,
        collections: 6,
        collection_memberships: 7,
        note_signals: 8,
    };
    let summary = ImportSummary {
        schema_version: 19,
        imported: counts,
        skipped_stale: ImportCounts {
            books: 8,
            notes: 7,
            custom_ideas: 6,
            note_links: 5,
            lenses: 4,
            collections: 3,
            collection_memberships: 2,
            note_signals: 1,
        },
    };

    assert_eq!(summary.schema_version, 19);
    assert_eq!(summary.imported.note_signals, 8);
    assert_eq!(summary.skipped_stale.collection_memberships, 2);
    assert!(matches!(
        SyncError::InvalidImport("invalid archive".into()),
        SyncError::InvalidImport(message) if message == "invalid archive"
    ));
}

#[test]
fn frozen_tag_migration_tables_are_exhaustive() {
    const EXPECTED_V11: &[(&str, &str)] = &[
        ("Good", "Good and Evil"),
        ("Custom", "Custom and Convention"),
        ("Pleasure", "Pleasure and Pain"),
        ("Virtue", "Virtue and Vice"),
        ("Sign", "Sign and Symbol"),
        ("War", "War and Peace"),
        ("Tyranny", "Tyranny and Despotism"),
        ("Life", "Life and Death"),
        ("Memory", "Memory and Imagination"),
        ("Necessity", "Necessity and Contingency"),
        ("Universal", "Universal and Particular"),
    ];
    const EXPECTED_V14: &[(&str, &str)] = &[
        ("Cause", "Causation"),
        ("Chance", "Probability"),
        ("Liberty", "Freedom"),
        ("Honor", "Status"),
        ("Virtue and Vice", "Virtue"),
        ("Animal", "Life"),
        ("Aristocracy", "Power"),
        ("Monarchy", "Power"),
        ("Oligarchy", "Power"),
        ("Tyranny and Despotism", "Power"),
        ("Constitution", "Institutions"),
        ("Government", "Institutions"),
        ("State", "Institutions"),
        ("Citizen", "Institutions"),
        ("Custom and Convention", "Institutions"),
        ("Courage", "Virtue"),
        ("Dialectic", "Reasoning"),
        ("Induction", "Reasoning"),
        ("Logic", "Reasoning"),
        ("Duty", "Obligation"),
        ("Education", "Learning"),
        ("Experience", "Learning"),
        ("Family", "Community"),
        ("Form", "Beauty"),
        ("God", "the Sacred"),
        ("Religion", "the Sacred"),
        ("Theology", "the Sacred"),
        ("Prophecy", "the Sacred"),
        ("Immortality", "the Sacred"),
        ("Hypothesis", "Evidence"),
        ("Labor", "Productivity"),
        ("Mind", "Consciousness"),
        ("Soul", "Consciousness"),
        ("Sense", "Consciousness"),
        ("Poetry", "Art"),
        ("Property", "Markets"),
        ("Wealth", "Markets"),
        ("Prudence", "Strategy"),
        ("Punishment", "Justice"),
        ("Revolution", "Conflict"),
        ("Rhetoric", "Narrative"),
        ("Sign and Symbol", "Language"),
        ("Sin", "Morality"),
        ("Temperance", "Discipline"),
        ("Wisdom", "Judgment"),
        ("Opinion", "Judgment"),
        ("Will", "Motivation"),
        ("World", "Nature"),
        ("Man", "Identity"),
        ("Good and Evil", "Morality"),
        ("Happiness", "Purpose"),
        ("Knowledge", "Truth"),
        ("Law", "Institutions"),
        ("Life and Death", "Life"),
        ("Memory and Imagination", "Memory"),
        ("Pleasure and Pain", "Emotion"),
        ("Slavery", "Freedom"),
        ("War and Peace", "Conflict"),
    ];

    assert_eq!(GREAT_IDEAS_RENAMES, EXPECTED_V11);
    assert_eq!(CANON_REMAP_V14, EXPECTED_V14);
    assert_eq!(EXPECTED_V11.len(), 11);
    assert_eq!(EXPECTED_V14.len(), 58);
}

#[test]
fn rejects_malformed_json_bad_root_or_non_literal_marker_without_echoing_data() {
    let secret = "PLAINTEXT-MUST-NOT-ECHO";
    let error = parse_raw(&format!("{{{secret}")).unwrap_err();
    assert!(matches!(error, SyncError::InvalidImport(_)));
    assert!(!error.message().contains(secret));

    for raw in [
        "null",
        "[]",
        "true",
        "{}",
        r#"{"_syntopicon":false}"#,
        r#"{"_syntopicon":1}"#,
        r#"{"_syntopicon":"true"}"#,
    ] {
        assert_invalid(raw);
    }
}

#[test]
fn defaults_and_bounds_schema_version_and_archive_arrays() {
    assert_eq!(
        parse(obj(vec![("_syntopicon", Value::from(true))]))
            .unwrap()
            .schema_version,
        1
    );
    assert_eq!(
        parse(obj(vec![("_syntopicon", Value::from(true)), ("schemaVersion", Value::Null)]))
            .unwrap()
            .schema_version,
        1
    );
    assert_eq!(parse(archive(1)).unwrap().schema_version, 1);
    let parsed = parse(archive(19)).unwrap();
    assert_eq!(parsed.schema_version, 19);
    assert!(parsed.books.is_empty());
    assert!(parsed.notes.is_empty());
    assert!(parsed.custom_ideas.is_empty());
    assert!(parsed.note_links.is_empty());
    assert!(parsed.lenses.is_empty());
    assert!(parsed.collections.is_empty());
    assert!(parsed.collection_memberships.is_empty());
    assert!(parsed.note_signals.is_empty());

    for schema in [Value::from(0i64), Value::from(-1i64), Value::from(1.5), Value::from("1"), Value::from(20i64)] {
        assert!(parse(
            obj(vec![("_syntopicon", Value::from(true)), ("schemaVersion", Value::from(schema))]),
        ).is_err());
    }

    let null_arrays = parse(
        obj(vec![
            ("_syntopicon", Value::from(true)),
            ("books", Value::Null),
            ("notes", Value::Null),
            ("customIdeas", Value::Null),
            ("noteLinks", Value::Null),
            ("lenses", Value::Null),
            ("collections", Value::Null),
            ("collectionMemberships", Value::Null),
            ("noteSignals", Value::Null),
        ]),
    )
    .unwrap();
    assert!(null_arrays.books.is_empty() && null_arrays.note_signals.is_empty());

    for field in [
        "books",
        "notes",
        "customIdeas",
        "noteLinks",
        "lenses",
        "collections",
        "collectionMemberships",
        "noteSignals",
    ] {
        let mut root = archive(19);
        root.as_object_mut()
            .unwrap()
            .insert(field.into(), obj(vec![]));
        assert!(parse(root).is_err(), "{field} must be an array");
    }
}

#[test]
fn validates_known_field_types_and_primary_keys_before_any_io() {
    let invalid_rows = [
        ("books", obj(vec![("id", Value::from("b")), ("title", Value::from(1i64))])),
        (
            "notes",
            obj(vec![
                ("id", Value::from("n")),
                ("tags", arr(vec![Value::from("Truth"), Value::from(1i64)])),
            ]),
        ),
        ("notes", obj(vec![("id", Value::from("n")), ("sourceMeta", arr(vec![]))])),
        ("notes", obj(vec![("id", Value::from("n")), ("sourceId", Value::from(false))])),
        ("notes", obj(vec![("id", Value::from("n")), ("updatedAt", Value::from(1.5))])),
        (
            "lenses",
            obj(vec![
                ("id", Value::from("l")),
                ("leafIds", arr(vec![Value::from("Truth"), Value::from(1i64)])),
            ]),
        ),
        ("lenses", obj(vec![("id", Value::from("l")), ("threshold", Value::from(1.5))])),
        (
            "noteSignals",
            obj(vec![("noteId", Value::from("n")), ("sourcePrior", Value::from("0.7"))]),
        ),
        (
            "noteSignals",
            obj(vec![("noteId", Value::from("n")), ("returnVisits", Value::from(1.5))]),
        ),
        (
            "noteSignals",
            obj(vec![("noteId", Value::from("n")), ("hasAnnotation", Value::from(1i64))]),
        ),
    ];
    for (table, invalid_row) in invalid_rows {
        let mut root = archive(19);
        root.as_object_mut()
            .unwrap()
            .insert(table.into(), arr(vec![Value::from(invalid_row)]));
        assert!(parse(root).is_err(), "bad known field in {table} must fail");
    }

    for (table, key) in [
        ("books", "id"),
        ("notes", "id"),
        ("customIdeas", "id"),
        ("noteLinks", "id"),
        ("lenses", "id"),
        ("collections", "id"),
        ("collectionMemberships", "id"),
        ("noteSignals", "noteId"),
    ] {
        for bad_key in [Value::Null, Value::from(""), Value::from(1i64)] {
            let mut item = serde_json::Map::new();
            item.insert(key.into(), bad_key);
            let mut root = archive(19);
            root.as_object_mut()
                .unwrap()
                .insert(table.into(), Value::Array(vec![Value::Object(item)]));
            assert!(parse(root).is_err(), "bad {table}.{key} must fail");
        }

        let mut duplicate_item = serde_json::Map::new();
        duplicate_item.insert(key.into(), Value::from("same"));
        let duplicate = Value::Object(duplicate_item);
        let mut root = archive(19);
        root.as_object_mut().unwrap().insert(
            table.into(),
            Value::Array(vec![duplicate.clone(), duplicate]),
        );
        assert!(parse(root).is_err(), "duplicate keys in {table} must fail");
    }
}

#[test]
fn validates_deleted_live_shape_for_all_eight_store_rows() {
    for (table, key) in [
        ("books", "id"),
        ("notes", "id"),
        ("customIdeas", "id"),
        ("noteLinks", "id"),
        ("lenses", "id"),
        ("collections", "id"),
        ("collectionMemberships", "id"),
        ("noteSignals", "noteId"),
    ] {
        for accepted in [Value::Null, Value::from(0i64), Value::from(0.0), Value::from(false)] {
            let mut item = serde_json::Map::new();
            item.insert(key.into(), Value::from("row"));
            item.insert("deleted".into(), accepted);
            let mut root = archive(19);
            root.as_object_mut()
                .unwrap()
                .insert(table.into(), Value::Array(vec![Value::Object(item)]));
            assert!(parse(root).is_ok(), "supported {table}.deleted must import");
        }

        for rejected in [
            Value::from(true),
            Value::from(1i64),
            Value::from(-1i64),
            Value::from(0.5),
            Value::from("PLAINTEXT-MUST-NOT-ECHO"),
            arr(vec![]),
            obj(vec![]),
        ] {
            let mut item = serde_json::Map::new();
            item.insert(key.into(), Value::from("row"));
            item.insert("deleted".into(), rejected);
            let mut root = archive(19);
            root.as_object_mut()
                .unwrap()
                .insert(table.into(), Value::Array(vec![Value::Object(item)]));
            let error = parse(root).expect_err("malformed deleted must fail");
            assert!(matches!(error, SyncError::InvalidImport(_)));
            assert!(!error.message().contains("PLAINTEXT-MUST-NOT-ECHO"));
        }
    }
}

#[test]
fn maps_all_eight_tables_to_exact_store_fields_and_tracks_keys_and_timestamps() {
    let parsed = parse(
        obj(vec![
            ("_syntopicon", Value::from(true)),
            ("schemaVersion", Value::from(19i64)),
            (
                "books",
                arr(vec![
                    obj(vec![
                        ("id", Value::from("b1")),
                        ("title", Value::from("Book")),
                        ("author", Value::from("Author")),
                        ("isbn", Value::Null),
                        ("coverUrl", Value::from("https://cover")),
                        ("coverSource", Value::from("openlibrary")),
                        ("coverResolvedAt", Value::Null),
                        ("createdAt", Value::from(101i64)),
                        ("updatedAt", Value::from(102i64)),
                        ("deleted", Value::from(0i64)),
                        ("unknown", Value::from("ignored")),
                    ]),
                ]),
            ),
            (
                "notes",
                arr(vec![
                    obj(vec![
                        ("id", Value::from("n1")),
                        ("bookId", Value::from("b1")),
                        ("text", Value::from("plaintext")),
                        ("page", Value::Null),
                        ("tags", arr(vec![Value::from("Truth")])),
                        ("imagePath", Value::from("user/image")),
                        ("inkCropPath", Value::Null),
                        ("source", Value::from("manual")),
                        ("sourceId", Value::Null),
                        ("sourceMeta", obj(vec![("case", Value::from(2i64))])),
                        ("chapter", Value::Null),
                        ("contentTag", Value::from("foreign-key-tag")),
                        ("createdAt", Value::from(201i64)),
                        ("updatedAt", Value::from(202i64)),
                        ("deleted", Value::from(0i64)),
                        ("imageDataUrl", Value::from("data:secret")),
                        ("inkCropDataUrl", Value::from("data:crop")),
                        ("user_metadata", obj(vec![("private", Value::from(true))])),
                        ("unknown", Value::from("ignored")),
                    ]),
                ]),
            ),
            (
                "customIdeas",
                arr(vec![
                    obj(vec![
                        ("id", Value::from("ci1")),
                        ("name", Value::from("Mine")),
                        ("description", Value::Null),
                        ("createdAt", Value::from(301i64)),
                        ("updatedAt", Value::from(302i64)),
                        ("deleted", Value::from(0i64)),
                    ]),
                ]),
            ),
            (
                "noteLinks",
                arr(vec![
                    obj(vec![
                        ("id", Value::from("link1")),
                        ("fromNoteId", Value::from("n1")),
                        ("toNoteId", Value::from("n2")),
                        ("relationType", Value::from("related")),
                        ("createdAt", Value::from(401i64)),
                        ("updatedAt", Value::from(402i64)),
                        ("deleted", Value::from(0i64)),
                    ]),
                ]),
            ),
            (
                "lenses",
                arr(vec![
                    obj(vec![
                        ("id", Value::from("lens1")),
                        ("name", Value::from("Lens")),
                        ("leafIds", arr(vec![Value::from("Truth"), Value::from("Justice")])),
                        ("combinator", Value::from("COOCCUR")),
                        ("threshold", Value::from(60i64)),
                        ("createdAt", Value::from(501i64)),
                        ("updatedAt", Value::from(502i64)),
                        ("deleted", Value::from(0i64)),
                    ]),
                ]),
            ),
            (
                "collections",
                arr(vec![
                    obj(vec![
                        ("id", Value::from("col1")),
                        ("name", Value::from("Study")),
                        ("createdAt", Value::from(601i64)),
                        ("updatedAt", Value::from(602i64)),
                        ("deleted", Value::from(0i64)),
                    ]),
                ]),
            ),
            (
                "collectionMemberships",
                arr(vec![
                    obj(vec![
                        ("id", Value::from("col1:n1")),
                        ("noteId", Value::from("n1")),
                        ("collectionId", Value::from("col1")),
                        ("createdAt", Value::from(701i64)),
                        ("updatedAt", Value::from(702i64)),
                        ("deleted", Value::from(0i64)),
                    ]),
                ]),
            ),
            (
                "noteSignals",
                arr(vec![
                    obj(vec![
                        ("noteId", Value::from("n1")),
                        ("sourcePrior", Value::from(0.7)),
                        ("returnVisits", Value::from(4i64)),
                        ("hasAnnotation", Value::from(true)),
                        ("stitchSpawns", Value::from(1i64)),
                        ("exposureRecencyAt", Value::from(801i64)),
                        ("engagementRecencyAt", Value::from(802i64)),
                        ("importance", Value::from(999i64)),
                        ("createdAt", Value::from(803i64)),
                        ("updatedAt", Value::from(804i64)),
                        ("deleted", Value::from(0i64)),
                        ("evidence", Value::from(999i64)),
                    ]),
                ]),
            ),
        ]),
    )
    .unwrap();

    assert_eq!(parsed.books[0].primary_key, "b1");
    assert_eq!(parsed.books[0].updated_at, 102);
    assert_eq!(
        row(&parsed.books[0]),
        obj(vec![
            ("id", Value::from("b1")),
            ("title", Value::from("Book")),
            ("author", Value::from("Author")),
            ("isbn", Value::Null),
            ("cover_url", Value::from("https://cover")),
            ("cover_source", Value::from("openlibrary")),
            ("cover_resolved_at", Value::Null),
            ("created_at", Value::from(101i64)),
            ("updated_at", Value::from(102i64)),
            ("deleted", Value::from(false)),
        ])
    );
    assert_eq!(parsed.notes[0].primary_key, "n1");
    assert_eq!(
        row(&parsed.notes[0]),
        obj(vec![
            ("id", Value::from("n1")),
            ("book_id", Value::from("b1")),
            ("text", Value::from("plaintext")),
            ("page", Value::Null),
            ("tags", arr(vec![Value::from("Truth")])),
            ("image_path", Value::from("user/image")),
            ("ink_crop_path", Value::Null),
            ("source", Value::from("manual")),
            ("source_id", Value::Null),
            ("source_meta", obj(vec![("case", Value::from(2i64))])),
            ("chapter", Value::Null),
            ("created_at", Value::from(201i64)),
            ("updated_at", Value::from(202i64)),
            ("deleted", Value::from(false)),
        ])
    );
    assert_eq!(
        row(&parsed.custom_ideas[0]),
        obj(vec![
            ("id", Value::from("ci1")),
            ("name", Value::from("Mine")),
            ("description", Value::Null),
            ("created_at", Value::from(301i64)),
            ("updated_at", Value::from(302i64)),
            ("deleted", Value::from(false)),
        ])
    );
    assert_eq!(
        row(&parsed.note_links[0]),
        obj(vec![
            ("id", Value::from("link1")),
            ("from_note_id", Value::from("n1")),
            ("to_note_id", Value::from("n2")),
            ("relation_type", Value::from("related")),
            ("created_at", Value::from(401i64)),
            ("updated_at", Value::from(402i64)),
            ("deleted", Value::from(false)),
        ])
    );
    assert_eq!(
        row(&parsed.lenses[0]),
        obj(vec![
            ("id", Value::from("lens1")),
            ("name", Value::from("Lens")),
            ("leaf_ids", arr(vec![Value::from("Truth"), Value::from("Justice")])),
            ("combinator", Value::from("COOCCUR")),
            ("threshold", Value::from(60i64)),
            ("created_at", Value::from(501i64)),
            ("updated_at", Value::from(502i64)),
            ("deleted", Value::from(false)),
        ])
    );
    assert_eq!(
        row(&parsed.collections[0]),
        obj(vec![
            ("id", Value::from("col1")),
            ("name", Value::from("Study")),
            ("created_at", Value::from(601i64)),
            ("updated_at", Value::from(602i64)),
            ("deleted", Value::from(false)),
        ])
    );
    assert_eq!(
        row(&parsed.collection_memberships[0]),
        obj(vec![
            ("id", Value::from("col1:n1")),
            ("note_id", Value::from("n1")),
            ("collection_id", Value::from("col1")),
            ("created_at", Value::from(701i64)),
            ("updated_at", Value::from(702i64)),
            ("deleted", Value::from(false)),
        ])
    );
    let signal = row(&parsed.note_signals[0]);
    assert_eq!(signal["note_id"], "n1");
    assert_eq!(signal["importance"].as_f64().unwrap(), 1.6020444242489622);
    assert_eq!(parsed.note_signals[0].primary_key, "n1");
    assert_eq!(parsed.note_signals[0].updated_at, 804);
    assert!(!signal.get("evidence").is_some());
    assert!(!signal.get("unknown").is_some());
}

#[test]
fn applies_pwa_defaults_once_with_the_supplied_now() {
    let parsed = parse(
        obj(vec![
            ("_syntopicon", Value::from(true)),
            ("schemaVersion", Value::from(19i64)),
            (
                "books",
                arr(vec![
                    obj(vec![
                        ("id", Value::from("b")),
                        ("title", Value::from("B")),
                        ("updatedAt", Value::from(0i64)),
                    ]),
                ]),
            ),
            (
                "notes",
                arr(vec![
                    obj(vec![
                        ("id", Value::from("n")),
                        ("text", Value::from("T")),
                        ("updatedAt", Value::Null),
                    ]),
                ]),
            ),
            (
                "customIdeas",
                arr(vec![obj(vec![("id", Value::from("i")), ("name", Value::from("I"))])]),
            ),
            (
                "noteLinks",
                arr(vec![
                    obj(vec![
                        ("id", Value::from("e")),
                        ("fromNoteId", Value::from("n")),
                        ("toNoteId", Value::from("n2")),
                    ]),
                ]),
            ),
            (
                "lenses",
                arr(vec![
                    obj(vec![
                        ("id", Value::from("l")),
                        ("name", Value::from("L")),
                        ("threshold", Value::from(0i64)),
                    ]),
                ]),
            ),
            (
                "collections",
                arr(vec![obj(vec![("id", Value::from("c")), ("name", Value::from("C"))])]),
            ),
            (
                "collectionMemberships",
                arr(vec![
                    obj(vec![
                        ("id", Value::from("m")),
                        ("noteId", Value::from("n")),
                        ("collectionId", Value::from("c")),
                    ]),
                ]),
            ),
            ("noteSignals", arr(vec![obj(vec![("noteId", Value::from("n"))])])),
        ]),
    )
    .unwrap();

    assert_eq!(parsed.books[0].updated_at, NOW);
    assert_eq!(parsed.custom_ideas[0].updated_at, NOW);
    assert_eq!(
        row(&parsed.notes[0]),
        obj(vec![
            ("id", Value::from("n")),
            ("text", Value::from("T")),
            ("source", Value::from("manual")),
            ("source_id", Value::Null),
            ("source_meta", obj(vec![])),
            ("chapter", Value::Null),
            ("tags", arr(vec![])),
            ("updated_at", Value::from(NOW)),
            ("deleted", Value::from(false)),
        ])
    );
    assert_eq!(
        row(&parsed.note_links[0])["relation_type"],
        "handwritten_annotation"
    );
    assert_eq!(row(&parsed.note_links[0])["created_at"], NOW);
    assert_eq!(row(&parsed.lenses[0])["leaf_ids"], arr(vec![]));
    assert_eq!(row(&parsed.lenses[0])["combinator"], "AND");
    assert_eq!(row(&parsed.lenses[0])["threshold"], 0);
    assert_eq!(row(&parsed.collections[0])["created_at"], NOW);
    assert_eq!(row(&parsed.collection_memberships[0])["updated_at"], NOW);
    let signal = row(&parsed.note_signals[0]);
    assert_eq!(signal["source_prior"], 0.5);
    assert_eq!(signal["return_visits"], 0);
    assert_eq!(signal["has_annotation"], false);
    assert_eq!(signal["stitch_spawns"], 0);
    assert_eq!(signal["exposure_recency_at"], 0);
    assert_eq!(signal["engagement_recency_at"], 0);
    assert_eq!(signal["importance"], 0.5);
    assert_eq!(signal["created_at"], NOW);
    assert_eq!(signal["updated_at"], NOW);
}

#[test]
fn replays_the_exact_case_sensitive_order_preserving_tag_chain() {
    let parse_tags = |schema_version, tags: Value| {
        let parsed = parse(
            obj(vec![
                ("_syntopicon", Value::from(true)),
                ("schemaVersion", Value::from(schema_version)),
                (
                    "notes",
                    arr(vec![
                        obj(vec![
                            ("id", Value::from("n")),
                            ("text", Value::from("T")),
                            ("tags", Value::from(tags)),
                        ]),
                    ]),
                ),
            ]),
        )
        .unwrap();
        row(&parsed.notes[0])["tags"].clone()
    };

    assert_eq!(
        parse_tags(
            10,
            arr(vec![
                Value::from("War"),
                Value::from("Knowledge"),
                Value::from("War and Peace"),
                Value::from("Angel"),
                Value::from("war"),
            ])
        ),
        arr(vec![
            Value::from("Conflict"),
            Value::from("Truth"),
            Value::from("Angel"),
            Value::from("war"),
        ])
    );
    assert_eq!(
        parse_tags(
            11,
            arr(vec![Value::from("War"), Value::from("Knowledge"), Value::from("War and Peace")]),
        ),
        arr(vec![Value::from("War"), Value::from("Truth"), Value::from("Conflict")])
    );
    assert_eq!(
        parse_tags(
            14,
            arr(vec![Value::from("War"), Value::from("Knowledge"), Value::from("Knowledge")]),
        ),
        arr(vec![Value::from("War"), Value::from("Knowledge"), Value::from("Knowledge")])
    );
}

#[test]
fn derives_missing_signal_priors_from_raw_note_sources_and_recomputes_importance() {
    let sources = [
        ("handwritten", 0.9),
        ("readwise_annotation", 0.9),
        ("share", 0.75),
        ("manual", 0.7),
        ("image", 0.6),
        ("readwise", 0.5),
        ("future", 0.5),
    ];
    let notes: Vec<_> = sources
        .iter()
        .enumerate()
        .map(
            |(index, (source, _))| obj(vec![
                ("id", Value::from(format!("n{index}"))),
                ("text", Value::from("T")),
                ("source", Value::from(*source)),
            ]),
        )
        .chain(std::iter::once(
            obj(vec![("id", Value::from("missing-source")), ("text", Value::from("T"))]),
        ))
        .collect();
    let signals: Vec<_> = sources
        .iter()
        .enumerate()
        .map(|(
            index,
            _,
        )| obj(vec![
            ("noteId", Value::from(format!("n{index}"))),
            ("importance", Value::from(999i64)),
        ]))
        .chain(std::iter::once(obj(vec![("noteId", Value::from("missing-source"))])))
        .chain(std::iter::once(obj(vec![("noteId", Value::from("missing-note"))])))
        .collect();
    let parsed = parse(
        obj(vec![
            ("_syntopicon", Value::from(true)),
            ("schemaVersion", Value::from(19i64)),
            ("notes", Value::from(notes)),
            ("noteSignals", Value::from(signals)),
        ]),
    )
    .unwrap();

    let actual: Vec<_> = parsed
        .note_signals
        .iter()
        .map(|signal| row(signal)["source_prior"].as_f64().unwrap())
        .collect();
    let mut expected: Vec<_> = sources.iter().map(|(_, prior)| *prior).collect();
    expected.extend([0.5, 0.5]);
    assert_eq!(actual, expected);
    assert!(parsed
        .note_signals
        .iter()
        .all(|signal| row(signal)["importance"] == row(signal)["source_prior"]));
}

#[test]
fn discards_foreign_content_tags_local_previews_metadata_and_unknown_fields() {
    let parsed = parse(
        obj(vec![
            ("_syntopicon", Value::from(true)),
            (
                "notes",
                arr(vec![
                    obj(vec![
                        ("id", Value::from("n")),
                        ("text", Value::from("secret")),
                        ("contentTag", Value::from("foreign")),
                        ("imageDataUrl", Value::from("data:image")),
                        ("inkCropDataUrl", Value::from("data:crop")),
                        (
                            "user_metadata",
                            obj(vec![("annotation", arr(vec![Value::from("private")]))]),
                        ),
                        ("futureField", Value::from("ignored")),
                    ]),
                ]),
            ),
        ]),
    )
    .unwrap();
    let note = row(&parsed.notes[0]);

    for ignored in [
        "content_tag",
        "contentTag",
        "imageDataUrl",
        "inkCropDataUrl",
        "user_metadata",
        "futureField",
    ] {
        assert!(!note.get(ignored).is_some());
    }
    assert_eq!(note["text"], "secret");
}

fn reason(value: Value) -> String {
    match parse(value) {
        Err(SyncError::InvalidImport(message)) => message,
        other => panic!("expected a refused archive, got {:?}", other.is_ok()),
    }
}

fn with_rows(store: &str, rows: Vec<Value>) -> Value {
    let mut root = archive(19);
    root.as_object_mut().unwrap().insert(store.into(), arr(rows));
    root
}

#[test]
fn each_way_an_archive_is_malformed_has_its_own_reason() {
    assert_eq!(parse_raw("{").unwrap_err().message(), "invalid import: malformed JSON archive");
    assert_eq!(reason(arr(vec![])), "archive root must be an object");
    assert_eq!(reason(obj(vec![])), "archive marker must be literal true");
    for version in [Value::from(20), Value::from("1")] {
        assert_eq!(
            reason(obj(vec![("_syntopicon", Value::from(true)), ("schemaVersion", version)])),
            "schemaVersion must be an integer from 1 through 19"
        );
    }
    let mut root = archive(19);
    root.as_object_mut().unwrap().insert("books".into(), Value::from(1));
    assert_eq!(reason(root), "archive store must be an array");
    assert_eq!(reason(with_rows("books", vec![Value::from(1)])), "archive store row must be an object");
    assert_eq!(
        reason(with_rows("books", vec![obj(vec![("id", Value::from(""))])])),
        "archive row primary key must be a non-empty string"
    );
    let twin = obj(vec![("id", Value::from("b"))]);
    assert_eq!(
        reason(with_rows("books", vec![twin.clone(), twin])),
        "archive store contains a duplicate primary key"
    );
    for (store, field, value, why) in [
        ("books", "title", Value::from(1), "known string field has an invalid type"),
        ("books", "createdAt", Value::from("1"), "known timestamp or count must be an integer"),
        ("notes", "tags", Value::from("Truth"), "known string-array field must be an array"),
        (
            "notes",
            "tags", arr(vec![Value::from(1)]), "known string-array field contains a non-string",
        ),
        ("notes", "sourceMeta", arr(vec![]), "sourceMeta must be an object"),
        ("notes", "deleted", Value::from(1), "deleted must identify a live archive row"),
    ] {
        let row = obj(vec![("id", Value::from("r")), (field, value)]);
        assert_eq!(reason(with_rows(store, vec![row])), why, "{store}.{field}");
    }
    for (field, value, why) in [
        ("sourcePrior", Value::from("0.7"), "known signal float must be a finite JSON number"),
        ("hasAnnotation", Value::from(1), "hasAnnotation must be a boolean"),
    ] {
        let row = obj(vec![("noteId", Value::from("n")), (field, value)]);
        assert_eq!(reason(with_rows("noteSignals", vec![row])), why, "{field}");
    }
    assert_eq!(invalid("why").message(), "invalid import: why");
}

#[test]
fn priors_follow_the_source_exactly() {
    let prior = |source: Option<&str>| f64::from_bits(source_prior(source.map(String::from).as_ref()));
    assert_eq!(prior(Some("handwritten")), 0.9);
    assert_eq!(prior(Some("readwise_annotation")), 0.9);
    assert_eq!(prior(Some("share")), 0.75);
    assert_eq!(prior(Some("manual")), 0.7);
    assert_eq!(prior(Some("image")), 0.6);
    assert_eq!(prior(Some("readwise")), 0.5);
    assert_eq!(prior(Some("Manual")), 0.5);
    assert_eq!(prior(None), 0.5);
}

#[test]
fn tags_of_a_current_archive_are_kept_as_written() {
    let root = with_rows(
        "notes",
        vec![obj(vec![
            ("id", Value::from("n")),
            ("tags", arr(vec![Value::from("War"), Value::from("War")])),
        ])],
    );
    let parsed = parse(root).unwrap();
    assert_eq!(row(&parsed.notes[0])["tags"], arr(vec![Value::from("War"), Value::from("War")]));
}

#[test]
fn renamed_tags_come_out_once_each_in_first_order() {
    let root = obj(vec![
        ("_syntopicon", Value::from(true)),
        ("schemaVersion", Value::from(13)),
        (
            "notes",
            arr(vec![obj(vec![
                ("id", Value::from("n")),
                (
                    "tags",
                    arr(vec![
                        Value::from("Monarchy"),
                        Value::from("Truth"),
                        Value::from("Oligarchy"),
                    ]),
                ),
            ])]),
        ),
    ]);
    let parsed = parse(root).unwrap();
    assert_eq!(
        row(&parsed.notes[0])["tags"],
        arr(vec![Value::from("Power"), Value::from("Truth")])
    );
}

#[test]
fn an_integer_prior_is_taken_as_a_float() {
    let root = with_rows(
        "noteSignals",
        vec![obj(vec![("noteId", Value::from("n")), ("sourcePrior", Value::from(1))])],
    );
    let signal = row(&parse(root).unwrap().note_signals[0]);
    assert_eq!(signal["source_prior"].as_f64(), Some(1.0));
    assert_eq!(signal["importance"].as_f64(), Some(1.0));
    let negative = with_rows(
        "noteSignals",
        vec![obj(vec![("noteId", Value::from("n")), ("sourcePrior", Value::from(-2))])],
    );
    let signal = row(&parse(negative).unwrap().note_signals[0]);
    assert_eq!(signal["source_prior"].as_f64(), Some(-2.0));
}

#[test]
fn every_row_of_an_archive_is_kept_in_order() {
    let rows = ["c", "a", "b"].map(|id| obj(vec![("id", Value::from(id))])).to_vec();
    let parsed = parse(with_rows("books", rows)).unwrap();
    let keys: Vec<&str> = parsed.books.iter().map(|book| book.primary_key.as_str()).collect();
    assert_eq!(keys, vec!["c", "a", "b"]);
    assert!(parsed.books.iter().all(|book| book.updated_at == NOW));
}

#[test]
fn a_parsed_value_is_normalized_without_its_text() {
    let root = to_json(&with_rows("collections", vec![obj(vec![("id", Value::from("c"))])]));
    let import = normalize_archive(&root, 5).unwrap();
    assert_eq!(import.collections[0].updated_at, 5);
    assert!(normalize_archive(&Json::Null, 5).is_err());
}

#[test]
fn bringing_tags_up_to_date_twice_is_as_good_as_once() {
    let tags = |names: &[&str]| -> Vec<String> { names.iter().map(|name| name.to_string()).collect() };
    let old = tags(&["Virtue", "Courage", "Life", "Animal", "Memory", "War", "Necessity", "mine"]);
    for version in [1, 10, 11, 13, 14, 19] {
        let once = remap_tags(old.clone(), version);
        assert_eq!(remap_tags(once.clone(), version), once, "{version}");
    }
    assert_eq!(
        remap_tags(old, 10),
        tags(&["Virtue", "Life", "Memory", "Conflict", "Necessity and Contingency", "mine"])
    );
}
