//! What requests to the server carry, and how answers, tokens and searches are read, told from the
//! texts themselves.

use crate::http::{
    answered_rows, answered_search, config_url, escaped, first_value, in_filter, jwt_payload, jwt_user,
    law_no_credentials_in_the_clear, page_url, quoted, quoted_list, request_of, search_hit,
    search_terms, secure_base_url, subject, table_url, upsert_url, write_headers, written_host,
    written_port, written_tail, written_userinfo, Method, PostgrestClient,
};
use crate::import_laws::whole;
use crate::json::{JsonV, RowV};
use crate::json_text::parsed_json_bytes;
use crate::signal_laws::is_integer;
use crate::text::{
    begins_with, before_first, blank, law_trimming_takes_white_space_only, length_before,
    lemma_length_before_goes_on, signed_decimal, surrounded, whitespace,
};
use crate::write_laws::holds;
use vstd::prelude::*;
use vstd::utf8::encode_utf8;

verus! {

/// Whether a text can stand in a header: no byte of it is a control character but the tab.
pub open spec fn fits_in_a_header(text: Seq<char>) -> bool {
    forall|i: int|
        0 <= i < encode_utf8(text).len() ==> ((#[trigger] encode_utf8(text)[i]) >= 0x20
            && encode_utf8(text)[i] != 0x7f) || encode_utf8(text)[i] == 0x09
}

/// A request is made if and only if a token is set, the address could be made, and the key and the
/// token can stand in headers. It goes to the address with the client's key and token, ahead of the
/// other headers. Without a token the refusal says what it was for, before anything else is looked
/// at.
pub proof fn law_request_carries_the_identity(
    client: PostgrestClient,
    purpose: Seq<char>,
    method: Method,
    url: Result<Seq<char>, Seq<char>>,
    more: Seq<(Seq<char>, Seq<char>)>,
)
    ensures
        match request_of(client, purpose, method, url, more) {
            Ok(request) => {
                &&& client.access_token is Some
                &&& url is Ok
                &&& fits_in_a_header(client.anon_key@)
                &&& fits_in_a_header("Bearer "@ + client.access_token->Some_0@)
                &&& request.method == method
                &&& request.url == url->Ok_0
                &&& request.headers.len() == more.len() + 2
                &&& request.headers[0] == ("apikey"@, client.anon_key@)
                &&& request.headers[1] == (
                    "authorization"@,
                    "Bearer "@ + client.access_token->Some_0@,
                )
                &&& request.headers.skip(2) =~= more
            },
            Err(reason) => if client.access_token is None {
                reason == "no access token set — call set_access_token before "@ + purpose
            } else if url is Err {
                reason == url->Err_0
            } else {
                &&& !(fits_in_a_header(client.anon_key@) && fits_in_a_header(
                    "Bearer "@ + client.access_token->Some_0@,
                ))
                &&& reason == "failed to parse header value"@
            },
        },
{
}

/// The addresses of requests: each begins with the client's address and the table's path, and asks
/// for what it is given.
pub proof fn law_addresses(
    base: Seq<char>,
    table: Seq<char>,
    column: Seq<char>,
    after: i64,
    limit: i64,
    key: Seq<char>,
    prefer: Seq<char>,
)
    ensures
        ({
            let path = base + "/rest/v1/"@ + table;
            let asked = "?change_seq=gt."@ + signed_decimal(after as int);
            let paged = "&order=change_seq.asc&limit="@ + signed_decimal(limit as int);
            &&& table_url(base, table) == path
            &&& upsert_url(base, table, column) =~= path + ("?on_conflict="@ + column)
            &&& page_url(base, table, after, limit) =~= path + (asked + paged)
            &&& config_url(base, key) =~= base + ("/rest/v1/app_config?key=eq."@ + key
                + "&select=value"@)
            &&& write_headers(prefer) =~= seq![
                ("content-type"@, "application/json"@),
                ("prefer"@, prefer),
            ]
        }),
{
}

/// An address is accepted where it is an `https` one, whatever follows, and where it is an `http`
/// one of this machine; any address of another kind is refused.
pub proof fn law_secure_addresses(
    rest: Seq<char>,
    userinfo: Seq<char>,
    host: Seq<char>,
    port: Seq<char>,
    tail: Seq<char>,
    other: Seq<char>,
)
    requires
        written_userinfo(userinfo),
        written_host(host),
        written_port(port),
        written_tail(tail),
        !begins_with(other, "https://"@),
        !begins_with(other, "http://"@),
    ensures
        secure_base_url("https://"@ + rest),
        !secure_base_url(other),
        secure_base_url("http://"@ + (userinfo + host + port + tail)) <==> host == "localhost"@
            || host == "127.0.0.1"@ || host == "[::1]"@,
{
    assert(("https://"@ + rest).take("https://"@.len() as int) =~= "https://"@);
    law_no_credentials_in_the_clear(userinfo, host, port, tail);
}

/// Escaping goes character by character, and puts a backslash in front of a backslash and of a
/// quote, and of nothing else.
pub proof fn law_escaping(a: Seq<char>, b: Seq<char>, c: char)
    ensures
        escaped(a + b) == escaped(a) + escaped(b),
        escaped(seq![c]) == if c == '\\' || c == '"' {
            seq!['\\', c]
        } else {
            seq![c]
        },
        escaped(Seq::empty()) == Seq::<char>::empty(),
        quoted(a) == seq!['"'] + escaped(a) + seq!['"'],
    decreases b.len(),
{
    reveal_strlit("\"");
    assert("\""@ =~= seq!['"']);
    reveal_with_fuel(escaped, 2);
    assert(seq![c].drop_last() =~= Seq::empty());
    if b.len() > 0 {
        let rest = b.drop_last();
        law_escaping(a, rest, c);
        assert((a + b).drop_last() =~= a + rest);
        assert((a + b).last() == b.last());
        assert(escaped(a + b) =~= escaped(a) + escaped(b));
    } else {
        assert(a + b =~= a);
        assert(escaped(a) + escaped(b) =~= escaped(a));
    }
}

/// A list of keys is the quoted keys with commas between them, whichever way it is put together.
pub proof fn law_quoted_lists(a: Seq<Seq<char>>, b: Seq<Seq<char>>, id: Seq<char>)
    ensures
        quoted_list(Seq::empty()) == Seq::<char>::empty(),
        quoted_list(seq![id]) == quoted(id),
        a.len() > 0 && b.len() > 0 ==> quoted_list(a + b) == quoted_list(a) + ","@ + quoted_list(b),
        in_filter(a) == "in.("@ + quoted_list(a) + ")"@,
    decreases b.len(),
{
    if a.len() > 0 && b.len() > 0 {
        let rest = b.drop_last();
        assert((a + b).drop_last() =~= a + rest);
        assert((a + b).last() == b.last());
        if b.len() == 1 {
            assert(a + rest =~= a);
            assert(b[0] == b.last());
        } else {
            law_quoted_lists(a, rest, id);
            assert(quoted_list(a + b) =~= quoted_list(a) + ","@ + quoted_list(b));
        }
    }
}

/// The payload of a token is what stands between its first point and its second, or its end. A token
/// without a point has none.
pub proof fn law_token_payload(head: Seq<char>, payload: Seq<char>, tail: Seq<char>, other: Seq<char>)
    requires
        !head.contains('.'),
        !payload.contains('.'),
        tail.len() > 0 ==> tail[0] == '.',
        !other.contains('.'),
    ensures
        jwt_payload(head + seq!['.'] + payload + tail) == Some(payload),
        jwt_payload(other) is None,
{
    let jwt = head + seq!['.'] + payload + tail;
    let rest = seq!['.'] + payload + tail;
    assert(jwt =~= head + rest);
    assert forall|i: int| 0 <= i < head.len() implies #[trigger] head[i] != '.' by {
        assert(head.contains(head[i]));
    }
    assert forall|i: int| 0 <= i < payload.len() implies #[trigger] payload[i] != '.' by {
        assert(payload.contains(payload[i]));
    }
    assert forall|i: int| 0 <= i < other.len() implies #[trigger] other[i] != '.' by {
        assert(other.contains(other[i]));
    }
    lemma_length_before_goes_on(head, rest, '.', '.');
    assert(length_before(jwt, '.', '.') == head.len());
    assert(jwt.skip(head.len() as int + 1) =~= payload + tail);
    lemma_length_before_goes_on(payload, tail, '.', '.');
    assert(before_first(payload + tail, '.', '.') =~= payload);
    lemma_length_before_goes_on(other, Seq::empty(), '.', '.');
    assert(other + Seq::<char>::empty() =~= other);
}

/// The user of a token is the text of its subject claim; the claims are the payload, decoded and
/// read as JSON. Each step that fails is the reason.
pub proof fn law_user_of_a_token(jwt: Seq<char>, claims: JsonV)
    ensures
        match subject(claims) {
            Some(id) => claims is Obj && holds(claims->Obj_0, "sub"@, JsonV::Str(id)),
            None => !(claims is Obj && claims->Obj_0.contains_key("sub"@)
                && claims->Obj_0["sub"@] is Str),
        },
        match jwt_user(jwt) {
            Ok(id) => {
                &&& jwt_payload(jwt) is Some
                &&& crate::http::base64url_decoded(jwt_payload(jwt)->Some_0) matches Ok(bytes)
                    && parsed_json_bytes(bytes) matches Ok(JsonV::Obj(fields)) && holds(
                    fields,
                    "sub"@,
                    JsonV::Str(id),
                )
            },
            Err(reason) => {
                ||| jwt_payload(jwt) is None && reason == "malformed JWT: no payload segment"@
                ||| jwt_payload(jwt) matches Some(payload)
                    && crate::http::base64url_decoded(payload) == Err::<Seq<u8>, Seq<char>>(reason)
                ||| jwt_payload(jwt) matches Some(payload)
                    && crate::http::base64url_decoded(payload) matches Ok(bytes)
                    && parsed_json_bytes(bytes) == Err::<JsonV, Seq<char>>(reason)
                ||| reason == "JWT has no `sub` claim"@
            },
        },
{
}

/// A configuration value is the value of the first row that is returned.
pub proof fn law_first_row_has_the_value(rows: Seq<JsonV>)
    ensures
        match first_value(rows) {
            Some(value) => rows.len() > 0 && rows[0] is Obj && holds(
                rows[0]->Obj_0,
                "value"@,
                value,
            ),
            None => rows.len() == 0 || !(rows[0] is Obj) || !rows[0]->Obj_0.contains_key("value"@),
        },
{
}

/// A search asks for the title as it is given, for one hit and for five fields, and for the author
/// without the white space at its ends, unless that is blank or not given.
pub proof fn law_search_asks_for_title_and_author(title: Seq<char>, author: Option<Seq<char>>)
    ensures
        ({
            let terms = search_terms(title, author);
            &&& terms.len() >= 3
            &&& terms[0] == ("title"@, title)
            &&& terms[1] == ("limit"@, "1"@)
            &&& terms[2] == ("fields"@, "key,title,author_name,cover_i,isbn"@)
            &&& match author {
                Some(name) => if blank(name) {
                    terms.len() == 3
                } else {
                    &&& terms.len() == 4
                    &&& terms[3].0 == "author"@
                    &&& exists|front: Seq<char>, back: Seq<char>| #[trigger]
                        surrounded(name, front, terms[3].1, back)
                    &&& !whitespace(terms[3].1[0]) && !whitespace(terms[3].1.last())
                },
                None => terms.len() == 3,
            }
        }),
{
    if let Some(name) = author {
        law_trimming_takes_white_space_only(name);
    }
}

/// A search hits if and only if its answer lists a document: the first one counts. The cover is its
/// whole number.
pub proof fn law_first_document_is_the_hit(data: JsonV)
    ensures
        search_hit(data) is Some <==> lists_documents(data),
        search_hit(data) matches Some(hit) ==> match hit.cover_i {
            Some(n) => first_document(data) is Obj && is_integer(
                first_document(data)->Obj_0,
                "cover_i"@,
                n as int,
            ),
            None => !(first_document(data) is Obj && first_document(data)->Obj_0.contains_key(
                "cover_i"@,
            ) && whole(first_document(data)->Obj_0["cover_i"@])),
        },
{
}

/// The ISBN of a hit is the first of the document's list, without the white space at its ends, where
/// that is a text that is not blank.
pub proof fn law_first_isbn_is_the_hit(data: JsonV)
    ensures
        search_hit(data) matches Some(hit) ==> match hit.isbn {
            Some(isbn) => {
                &&& first_document(data) is Obj && lists_first(first_document(data)->Obj_0)
                &&& exists|front: Seq<char>, back: Seq<char>| #[trigger]
                    surrounded(
                        first_document(data)->Obj_0["isbn"@]->Arr_0[0]->Str_0,
                        front,
                        isbn,
                        back,
                    )
                &&& isbn.len() > 0 && !whitespace(isbn[0]) && !whitespace(isbn.last())
            },
            None => !(first_document(data) is Obj && lists_first(first_document(data)->Obj_0)
                && !blank(first_document(data)->Obj_0["isbn"@]->Arr_0[0]->Str_0)),
        },
{
    if lists_documents(data) && first_document(data) is Obj {
        let fields = first_document(data)->Obj_0;
        if lists_first(fields) {
            let given = fields["isbn"@]->Arr_0[0]->Str_0;
            law_trimming_takes_white_space_only(given);
            let hit = search_hit(data)->Some_0;
            assert(hit.isbn == crate::http::searched_author(Some(given)));
            if let Some(isbn) = hit.isbn {
                let (front, back) = choose|front: Seq<char>, back: Seq<char>| #[trigger]
                    surrounded(given, front, crate::text::trimmed(given), back);
                assert(surrounded(given, front, isbn, back));
            }
        }
    }
}

/// Whether an answer lists a document.
pub open spec fn lists_documents(data: JsonV) -> bool {
    data is Obj && data->Obj_0.contains_key("docs"@) && data->Obj_0["docs"@] is Arr
        && data->Obj_0["docs"@]->Arr_0.len() > 0
}

/// The first document of an answer.
pub open spec fn first_document(data: JsonV) -> JsonV {
    data->Obj_0["docs"@]->Arr_0[0]
}

/// Whether a document lists an ISBN that is a text.
pub open spec fn lists_first(fields: RowV) -> bool {
    fields.contains_key("isbn"@) && fields["isbn"@] is Arr && fields["isbn"@]->Arr_0.len() > 0
        && fields["isbn"@]->Arr_0[0] is Str
}

/// An answer of rows is read if and only if its body is a JSON array, as the rows of that array, and
/// a search's answer if and only if its body is JSON.
pub proof fn law_answers_are_read(body: Seq<u8>)
    ensures
        match answered_rows(body) {
            Some(rows) => parsed_json_bytes(body) == Ok::<JsonV, Seq<char>>(JsonV::Arr(rows)),
            None => !(parsed_json_bytes(body) matches Ok(value) && value is Arr),
        },
        match answered_search(body) {
            Ok(hit) => parsed_json_bytes(body) matches Ok(data) && hit == search_hit(data),
            Err(reason) => parsed_json_bytes(body) is Err && reason
                == "error decoding response body"@,
        },
{
}

} // verus!
