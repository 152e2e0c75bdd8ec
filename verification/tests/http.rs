use base64::Engine;
use braird_sync::http::{
    by_ids_url, check_status, config_value, cover_query, read_rows, read_search, read_search_answer,
    search_refused,
    subject_of, user_id_from_jwt, CoverEgress, CoverSearchHit, Method, PostgrestClient,
    PostgrestError, Request,
};
use braird_sync::json::{Json, Number};
use braird_sync::json_text::{read_json, read_json_bytes};

#[test]
fn extracts_sub_from_jwt() {
    // header.payload.sig — only the payload matters; signature is ignored.
    let payload = base64::engine::general_purpose::URL_SAFE_NO_PAD
        .encode(br#"{"sub":"user-123","role":"authenticated"}"#);
    let jwt = format!("h.{payload}.sig");
    assert_eq!(user_id_from_jwt(&jwt).unwrap(), "user-123");
}

#[test]
fn rejects_jwt_without_sub() {
    let payload =
        base64::engine::general_purpose::URL_SAFE_NO_PAD.encode(br#"{"role":"anon"}"#);
    let jwt = format!("h.{payload}.sig");
    assert!(user_id_from_jwt(&jwt).is_err());
}

#[test]
fn base_url_trailing_slash_is_trimmed() {
    let c = PostgrestClient::new("http://localhost:54321/".into(), "anon".into()).unwrap();
    assert_eq!(c.base_url, "http://localhost:54321");
}

#[test]
fn rejects_remote_plaintext_http() {
    // A real remote over http would leak the Bearer JWT + apikey — refuse it.
    assert!(PostgrestClient::new("http://evil.example.com".into(), "anon".into()).is_err());
}

#[test]
fn allows_https_and_loopback_http() {
    assert!(PostgrestClient::new("https://proj.supabase.co".into(), "anon".into()).is_ok());
    assert!(PostgrestClient::new("http://127.0.0.1:54321".into(), "anon".into()).is_ok());
    assert!(PostgrestClient::new("http://localhost:54321".into(), "anon".into()).is_ok());
}

#[test]
fn by_ids_url_uses_the_requested_primary_key() {
    let url = by_ids_url(
        "https://proj.supabase.co",
        "note_signals",
        "note_id",
        &vec!["n1".into(), "n2".into()],
    )
    .unwrap();
    let parsed = reqwest::Url::parse(&url).unwrap();
    let query: Vec<_> = parsed.query_pairs().collect();

    assert_eq!(parsed.path(), "/rest/v1/note_signals");
    assert_eq!(query, vec![("note_id".into(), "in.(\"n1\",\"n2\")".into())]);
}

#[test]
fn by_ids_url_quotes_and_encodes_reserved_id_characters() {
    let ids = vec![
        "comma,value".into(),
        "paren(value)".into(),
        "quote\"value".into(),
        "slash\\value".into(),
    ];
    let url = by_ids_url("https://proj.supabase.co", "books", "id", &ids).unwrap();
    let parsed = reqwest::Url::parse(&url).unwrap();
    let filter = parsed
        .query_pairs()
        .find_map(|(key, value)| if key == "id" { Some(value.into_owned()) } else { None })
        .unwrap();

    assert_eq!(
        filter,
        "in.(\"comma,value\",\"paren(value)\",\"quote\\\"value\",\"slash\\\\value\")"
    );
    assert_eq!(
        parsed.query_pairs().count(),
        1,
        "IDs cannot add query terms"
    );
}

fn client() -> PostgrestClient {
    let mut client = PostgrestClient::new("https://proj.example".into(), "anon".into()).unwrap();
    client.set_access_token("jwt".into());
    client
}

fn headers(request: &Request) -> Vec<(&str, &str)> {
    request.headers.iter().map(|(name, value)| (name.as_str(), value.as_str())).collect()
}

#[test]
fn a_refused_base_url_is_named_in_the_error() {
    let refusal = |url: &str| PostgrestClient::new(url.into(), "anon".into()).unwrap_err();
    assert_eq!(
        refusal("ftp://h\"x//"),
        "refusing non-https base_url \"ftp://h\\\"x\": a Bearer JWT + apikey must not transit plaintext http (loopback excepted)"
    );
    assert!(refusal("http://localhost.evil.example").starts_with("refusing non-https base_url "));
    assert!(refusal("HTTPS://proj.example").starts_with("refusing non-https base_url "));
    assert!(refusal("").starts_with("refusing non-https base_url \"\""));
}

#[test]
fn only_the_loopback_hosts_may_be_reached_in_the_clear() {
    for url in ["http://localhost", "http://127.0.0.1/", "http://localhost/rest", "http://localhost:1"] {
        assert!(PostgrestClient::new(url.into(), "anon".into()).is_ok(), "{url}");
    }
    for url in ["http://[::1]:54321", "http://[::1]", "http://me:pw@localhost:1/", "http://127.0.0.1?q"] {
        assert!(PostgrestClient::new(url.into(), "anon".into()).is_ok(), "{url}");
    }
    for url in [
        "http://localhost:x@evil.example.com",
        "http://localhost@evil.example",
        "http://evil.example\\@localhost",
        "http://[::1]@evil.example",
        "http://evil.example#@localhost",
        "http://[::2]:54321",
        "http://[::1",
        "http://::1",
        "http://127.0.0.2",
        "http://",
    ] {
        assert!(PostgrestClient::new(url.into(), "anon".into()).is_err(), "{url}");
    }
}

#[test]
fn a_new_client_has_no_token_and_each_read_names_what_it_is_for() {
    let client = PostgrestClient::new("https://proj.example".into(), "anon".into()).unwrap();
    assert_eq!(client.access_token(), None);
    assert_eq!(
        client.upsert_request("books", "id").unwrap_err(),
        "no access token set — call set_access_token before flush"
    );
    assert_eq!(
        client.patch_request("notes", "id", "n1").unwrap_err(),
        "no access token set — call set_access_token before flush"
    );
    assert_eq!(
        client.page_request("books", 0, 10).unwrap_err(),
        "no access token set — call set_access_token before pull"
    );
    assert_eq!(
        client.by_ids_request("books", "id", &vec!["b1".into()]).unwrap_err(),
        "no access token set — call set_access_token before pull"
    );
    assert_eq!(
        client.config_request("openlibrary_egress").unwrap_err(),
        "no access token set — call set_access_token before reading app_config"
    );
}

#[test]
fn an_upsert_posts_the_merge_preference() {
    let client = client();
    assert_eq!(client.access_token(), Some("jwt"));
    let request = client.upsert_request("note_signals", "note_id").unwrap();
    assert_eq!(request.method, Method::Post);
    assert_eq!(request.url, "https://proj.example/rest/v1/note_signals?on_conflict=note_id");
    assert_eq!(
        headers(&request),
        vec![
            ("apikey", "anon"),
            ("authorization", "Bearer jwt"),
            ("content-type", "application/json"),
            ("prefer", "resolution=merge-duplicates, return=minimal"),
        ]
    );
}

#[test]
fn a_patch_names_one_row_and_encodes_its_key() {
    let request = client().patch_request("notes", "id", "n 1&x=y").unwrap();
    assert_eq!(request.method, Method::Patch);
    assert_eq!(request.url, "https://proj.example/rest/v1/notes?id=eq.n+1%26x%3Dy");
    assert_eq!(
        headers(&request),
        vec![
            ("apikey", "anon"),
            ("authorization", "Bearer jwt"),
            ("content-type", "application/json"),
            ("prefer", "return=minimal"),
        ]
    );
}

#[test]
fn a_page_is_asked_for_past_the_cursor_in_ascending_order() {
    let request = client().page_request("books", -3, 500).unwrap();
    assert_eq!(request.method, Method::Get);
    assert_eq!(
        request.url,
        "https://proj.example/rest/v1/books?change_seq=gt.-3&order=change_seq.asc&limit=500"
    );
    assert_eq!(headers(&request), vec![("apikey", "anon"), ("authorization", "Bearer jwt")]);
}

#[test]
fn a_config_read_asks_for_the_value_of_one_key() {
    let request = client().config_request("openlibrary_egress").unwrap();
    assert_eq!(
        request.url,
        "https://proj.example/rest/v1/app_config?key=eq.openlibrary_egress&select=value"
    );
}

#[test]
fn a_batch_read_carries_the_filter_of_its_keys() {
    let request = client().by_ids_request("books", "id", &vec!["b1".into()]).unwrap();
    assert_eq!(request.method, Method::Get);
    assert_eq!(request.url, "https://proj.example/rest/v1/books?id=in.%28%22b1%22%29");
}

#[test]
fn keys_that_hold_separators_stay_apart() {
    let one = by_ids_url("https://h", "t", "id", &vec!["a\",\"b".into()]).unwrap();
    let two = by_ids_url("https://h", "t", "id", &vec!["a".into(), "b".into()]).unwrap();
    assert_ne!(one, two);
}

#[test]
fn a_base_that_is_no_url_is_refused_by_the_batch_read() {
    assert_eq!(
        by_ids_url("not a url", "books", "id", &vec![]).unwrap_err(),
        "invalid PostgREST base URL"
    );
}

#[test]
fn a_credential_that_no_header_can_hold_is_refused() {
    let mut client = PostgrestClient::new("https://proj.example".into(), "anon".into()).unwrap();
    client.set_access_token("line\nbreak".into());
    assert_eq!(client.page_request("books", 0, 1).unwrap_err(), "failed to parse header value");
    client.set_access_token("tab\tis fine".into());
    assert!(client.page_request("books", 0, 1).is_ok());
    let mut keyed = PostgrestClient::new("https://proj.example".into(), "\u{7f}".into()).unwrap();
    keyed.set_access_token("jwt".into());
    assert_eq!(keyed.upsert_request("books", "id").unwrap_err(), "failed to parse header value");
}

#[test]
fn only_a_success_status_is_accepted() {
    for status in [200u16, 204, 299] {
        assert!(check_status(status, "body").is_ok());
    }
    for status in [100u16, 199, 300, 401, 500] {
        let error = check_status(status, "row level security").unwrap_err();
        assert_eq!(error.status, status);
        assert_eq!(error.body, "row level security");
    }
    let error = PostgrestError { status: 409, body: "conflict".into() };
    assert_eq!(error.message(), "PostgREST 409 — conflict");
}

#[test]
fn an_answer_is_an_array_of_rows() {
    let rows = read_rows(br#"[{"id":"b1"},7]"#).unwrap();
    assert_eq!(rows.len(), 2);
    assert_eq!(rows[1].as_i64(), Some(7));
    for body in [&b"{}"[..], &b"[1"[..], &b""[..], &b"[1] x"[..]] {
        assert_eq!(read_rows(body).unwrap_err(), "error decoding response body");
    }
}

#[test]
fn a_config_value_comes_from_the_first_row() {
    let rows = read_rows(br#"[{"value":{"on":false}},{"value":2}]"#).unwrap();
    let value = config_value(&rows).unwrap();
    assert_eq!(value.as_object().unwrap().get_bool("on"), Some(false));
    assert!(config_value(&read_rows(b"[]").unwrap()).is_none());
    assert!(config_value(&read_rows(br#"[{"key":1},{"value":2}]"#).unwrap()).is_none());
    assert!(matches!(config_value(&read_rows(br#"[{"value":null}]"#).unwrap()), Some(Json::Null)));
}

#[test]
fn a_cover_search_asks_for_one_document() {
    let terms = |author: Option<&str>| -> Vec<(String, String)> { cover_query("A Title", author) };
    let pair = |name: &str, value: &str| (name.to_string(), value.to_string());
    let base = vec![
        pair("title", "A Title"),
        pair("limit", "1"),
        pair("fields", "key,title,author_name,cover_i,isbn"),
    ];
    assert_eq!(terms(None), base);
    assert_eq!(terms(Some("  \t")), base, "a blank author is left out");
    let mut with_author = base.clone();
    with_author.push(pair("author", "Ann Author"));
    assert_eq!(terms(Some(" Ann Author ")), with_author);
}

#[test]
fn a_search_answer_is_reduced_to_its_first_document() {
    let hit = |text: &str| read_search(&read_json(text).unwrap());
    let found = hit(r#"{"docs":[{"cover_i":42,"isbn":[" 978 ","2"]},{"cover_i":1}]}"#).unwrap();
    assert_eq!(found.cover_i, Some(42));
    assert_eq!(found.isbn.as_deref(), Some("978"));
    let bare = hit(r#"{"docs":[{"cover_i":"42","isbn":["  "]}]}"#).unwrap();
    assert_eq!(bare.cover_i, None);
    assert_eq!(bare.isbn, None);
    assert!(hit(r#"{"docs":[]}"#).is_none());
    assert!(hit(r#"{"docs":3}"#).is_none());
    assert!(hit("[]").is_none());
    assert_eq!(
        search_refused("503 Service Unavailable", "busy"),
        "Open Library search HTTP 503 Service Unavailable: busy"
    );
}

struct Silent;

impl CoverEgress for Silent {}

#[test]
fn a_sink_that_overrides_nothing_finds_no_cover() {
    assert!(matches!(Silent.search_cover("t", None), Ok(None)));
    let none = CoverSearchHit::default();
    assert!(none.cover_i.is_none() && none.isbn.is_none());
}

#[test]
fn each_way_a_token_is_malformed_has_its_own_error() {
    let encode = |claims: &str| {
        format!("h.{}.s", base64::engine::general_purpose::URL_SAFE_NO_PAD.encode(claims))
    };
    assert_eq!(user_id_from_jwt("nodots").unwrap_err(), "malformed JWT: no payload segment");
    assert_eq!(user_id_from_jwt("h.a*c.s").unwrap_err(), "Invalid symbol 42, offset 1.");
    assert_eq!(
        user_id_from_jwt("h..s").unwrap_err(),
        "EOF while parsing a value at line 1 column 0"
    );
    assert_eq!(
        user_id_from_jwt(&encode(r#"{"sub":7}"#)).unwrap_err(),
        "JWT has no `sub` claim"
    );
    assert_eq!(user_id_from_jwt(&encode("[]")).unwrap_err(), "JWT has no `sub` claim");
    assert_eq!(
        user_id_from_jwt(&encode(r#"{"sub":"u"}"#).replace(".s", "")).unwrap(),
        "u",
        "the signature segment may be missing"
    );
}

#[test]
fn the_subject_is_read_from_the_claims_alone() {
    assert_eq!(subject_of(&read_json(r#"{"sub":"u1"}"#).unwrap()).unwrap(), "u1");
    assert_eq!(subject_of(&Json::Null).unwrap_err(), "JWT has no `sub` claim");
}

#[test]
fn json_numbers_keep_their_kind_and_a_later_member_counts() {
    let value = read_json(r#"{"a":1,"a":2,"n":-5,"f":0.5,"big":18446744073709551615}"#).unwrap();
    let fields = value.as_object().unwrap();
    assert_eq!(fields.get_i64("a"), Some(2));
    assert_eq!(fields.get_i64("n"), Some(-5));
    assert!(matches!(fields.get("f"), Some(Json::Num(Number::Float(bits))) if *bits == 0.5f64.to_bits()));
    assert_eq!(fields.get("big").unwrap().as_u64(), Some(u64::MAX));
    assert_eq!(fields.get_i64("big"), None);
    assert!(read_json("{").is_none());
    assert_eq!(
        read_json_bytes(b"\xff").unwrap_err(),
        "expected value at line 1 column 1"
    );
}

#[test]
fn the_body_of_a_search_answer_is_read_or_refused() {
    let hit = read_search_answer(br#"{"docs":[{"cover_i":7}]}"#).unwrap().unwrap();
    assert_eq!(hit.cover_i, Some(7));
    assert!(read_search_answer(b"{}").unwrap().is_none());
    assert_eq!(read_search_answer(b"<html>").unwrap_err(), "error decoding response body");
}

#[test]
fn nothing_is_asked_for_without_a_key() {
    let client = client();
    assert!(client.fetch_by_ids("books", "id", &Vec::new()).unwrap().is_none());
    let ids = vec!["b1".to_string()];
    let asked = client.fetch_by_ids("books", "id", &ids).unwrap().unwrap();
    assert_eq!(asked.url, client.by_ids_request("books", "id", &ids).unwrap().url);
}
