//! The wire: the requests that are sent to the sync server and what its answers mean.

use crate::json::{
    field, items_view, json_i64, json_text, json_view, lemma_items_view, row_text, Fields, Json,
    JsonV,
};
use crate::json_text::{parsed_json_bytes, read_json_bytes};
use crate::text::{
    before_first, begins_with, behind_last, decimal, decimal_text, find_first, has_prefix, joined,
    lemma_behind_last, lemma_length_before_goes_on, length_before, same_text, signed_decimal,
    signed_text, text_behind_last, trim_end_of, trim_text, trimmed, trimmed_end,
};
use vstd::prelude::*;
use vstd::string::StrSliceExecFns;
use vstd::string::StringExecFns;
use vstd::utf8::encode_utf8;

verus! {

/// What the server answered where it refused a request.
#[derive(Debug)]
pub struct PostgrestError {
    pub status: u16,
    pub body: String,
}

impl PostgrestError {
    /// The error in words.
    pub fn message(&self) -> (text: String)
        ensures
            text@ == "PostgREST "@ + decimal(self.status as nat) + " — "@ + self.body@,
    {
        let mut text = joined("PostgREST ", decimal_text(self.status as u64).as_str());
        text.append(" — ");
        text.append(self.body.as_str());
        text
    }
}

/// Checks the status of an answer: anything but 200 to 299 is a refusal.
pub fn check_status(status: u16, body: &str) -> (result: Result<(), PostgrestError>)
    ensures
        match result {
            Ok(_) => 200 <= status < 300,
            Err(e) => !(200 <= status < 300) && e.status == status && e.body@ == body@,
        },
{
    if 200 <= status && status < 300 {
        Ok(())
    } else {
        Err(PostgrestError { status, body: body.to_owned() })
    }
}

/// A cover that a search found: a cover number, an ISBN, or both.
#[derive(Debug, Default)]
pub struct CoverSearchHit {
    pub cover_i: Option<i64>,
    pub isbn: Option<String>,
}

/// A way to look for a book's cover outside the sync server. Without one of its own, nothing is
/// found and nothing is sent.
pub trait CoverEgress {
    /// Looks for a cover by title and author: a hit, none at all, or a failure that may pass.
    fn search_cover(&self, _title: &str, _author: Option<&str>) -> (result: Result<
        Option<CoverSearchHit>,
        String,
    >)
        default_ensures
            result == Ok::<Option<CoverSearchHit>, String>(None),
    {
        Ok(None)
    }
}

/// The hosts that may be reached in the clear.
pub open spec fn loopback(host: Seq<char>) -> bool {
    host == "localhost"@ || host == "127.0.0.1"@ || host == "[::1]"@
}

/// The authority of an address behind its scheme: what stands before the first slash, question
/// mark or hash. A backslash counts as a slash, as it does to whoever opens an `http` address.
pub open spec fn authority_of(rest: Seq<char>) -> Seq<char> {
    before_first(before_first(rest, '/', '\\'), '?', '#')
}

/// The host in what an authority holds behind its userinfo: up to the closing bracket where it is
/// bracketed, else up to the port.
pub open spec fn host_in(place: Seq<char>) -> Seq<char> {
    if place.len() > 0 && place[0] == '[' {
        let inside = before_first(place, ']', ']');
        if inside.len() < place.len() {
            inside.push(']')
        } else {
            place
        }
    } else {
        before_first(place, ':', ':')
    }
}

/// The host of an address behind its scheme, without userinfo and port.
pub open spec fn host_of(rest: Seq<char>) -> Seq<char> {
    host_in(behind_last(authority_of(rest), '@'))
}

/// Whether credentials may be sent to an address: over https, or in the clear to this machine.
pub open spec fn secure_base_url(base_url: Seq<char>) -> bool {
    ||| begins_with(base_url, "https://"@)
    ||| begins_with(base_url, "http://"@) && loopback(host_of(base_url.skip(7)))
}

/// What the `Debug` form of a text is: quoted, its special characters escaped.
pub uninterp spec fn debug_text(s: Seq<char>) -> Seq<char>;

/// Writes a text in the `Debug` form of `str`. The name `debug_text` says that the form depends on
/// the text alone.
#[verifier::external_body]
fn write_debug(s: &str) -> (out: String)
    ensures
        out@ == debug_text(s@),
{
    format!("{:?}", s)
}

fn is_loopback(host: &str) -> (yes: bool)
    ensures
        yes == loopback(host@),
{
    same_text(host, "localhost") || same_text(host, "127.0.0.1") || same_text(host, "[::1]")
}

fn text_before_first<'a>(s: &'a str, a: char, b: char) -> (out: &'a str)
    ensures
        out@ == before_first(s@, a, b),
{
    let n = find_first(s, a, b);
    assert(s@.subrange(0, n as int) =~= before_first(s@, a, b));
    s.substring_char(0, n)
}

fn find_host<'a>(rest: &'a str) -> (host: &'a str)
    ensures
        host@ == host_of(rest@),
{
    let authority = text_before_first(text_before_first(rest, '/', '\\'), '?', '#');
    let place = text_behind_last(authority, '@');
    let len: usize = place.unicode_len();
    if len > 0 && place.get_char(0) == '[' {
        let n = find_first(place, ']', ']');
        if n < len {
            proof {
                lemma_stops(place@, ']', ']');
                assert(place@.subrange(0, n + 1) =~= before_first(place@, ']', ']').push(']'));
            }
            place.substring_char(0, n + 1)
        } else {
            place
        }
    } else {
        text_before_first(place, ':', ':')
    }
}

proof fn lemma_stops(s: Seq<char>, a: char, b: char)
    requires
        length_before(s, a, b) < s.len(),
    ensures
        s[length_before(s, a, b) as int] == a || s[length_before(s, a, b) as int] == b,
    decreases s.len(),
{
    if s.len() > 0 && s[0] != a && s[0] != b {
        lemma_stops(s.drop_first(), a, b);
        let n = length_before(s.drop_first(), a, b) as int;
        assert(s.drop_first()[n] == s[n + 1]);
    }
}

/// Refuses an address to which credentials must not be sent.
pub fn require_secure_base_url(base_url: &str) -> (result: Result<(), String>)
    ensures
        match result {
            Ok(_) => secure_base_url(base_url@),
            Err(message) => !secure_base_url(base_url@) && message@
                == "refusing non-https base_url "@ + debug_text(base_url@)
                + ": a Bearer JWT + apikey must not transit plaintext http (loopback excepted)"@,
        },
{
    if has_prefix(base_url, "https://") {
        return Ok(());
    }
    if has_prefix(base_url, "http://") {
        proof {
            reveal_strlit("http://");
            assert("http://"@.len() == 7);
            assert(base_url@.subrange(7, base_url@.len() as int) =~= base_url@.skip(7));
        }
        let rest = base_url.substring_char(7, base_url.unicode_len());
        if is_loopback(find_host(rest)) {
            return Ok(());
        }
    }
    let mut message = joined("refusing non-https base_url ", write_debug(base_url).as_str());
    message.append(": a Bearer JWT + apikey must not transit plaintext http (loopback excepted)");
    Err(message)
}

/// What is needed to address the sync server: its address, the public key, and the user's token.
#[derive(Debug)]
pub struct PostgrestClient {
    pub base_url: String,
    pub anon_key: String,
    pub access_token: Option<String>,
}

/// The way of a request.
#[derive(Debug, Clone, Copy, PartialEq, Eq, Structural)]
pub enum Method {
    Get,
    Post,
    Patch,
}

/// A request: its way, its address and its headers.
#[derive(Debug)]
pub struct Request {
    pub method: Method,
    pub url: String,
    pub headers: Vec<(String, String)>,
}

/// A request by its contents.
pub struct RequestV {
    pub method: Method,
    pub url: Seq<char>,
    pub headers: Seq<(Seq<char>, Seq<char>)>,
}

impl View for Request {
    type V = RequestV;

    open spec fn view(&self) -> RequestV {
        RequestV {
            method: self.method,
            url: self.url@,
            headers: headers_view(self.headers@),
        }
    }
}

pub open spec fn headers_view(headers: Seq<(String, String)>) -> Seq<(Seq<char>, Seq<char>)> {
    headers.map_values(|h: (String, String)| (h.0@, h.1@))
}

/// Whether a text can be the value of a header: no control character but the tab.
pub open spec fn header_value(text: Seq<char>) -> bool {
    forall|i: int|
        0 <= i < encode_utf8(text).len() ==> {
            let b = #[trigger] encode_utf8(text)[i];
            (b >= 32 && b != 127) || b == 9
        }
}

/// Calls `reqwest::header::HeaderValue::from_str`, which takes a text whose UTF-8 bytes are all at
/// least 32 and not 127, or a tab, and refuses any other.
#[verifier::external_body]
fn is_header_value(text: &str) -> (yes: bool)
    ensures
        yes == header_value(text@),
{
    reqwest::header::HeaderValue::from_str(text).is_ok()
}

/// What is said where a header cannot be sent.
pub open spec fn header_failed() -> Seq<char> {
    "failed to parse header value"@
}

/// The headers that tell the server who asks.
pub open spec fn identity_headers(anon_key: Seq<char>, token: Seq<char>) -> Seq<
    (Seq<char>, Seq<char>),
> {
    seq![("apikey"@, anon_key), ("authorization"@, "Bearer "@ + token)]
}

/// A request, or why it cannot be made: there is no token, the address is bad, or a header cannot
/// be sent.
pub open spec fn request_of(
    client: PostgrestClient,
    purpose: Seq<char>,
    method: Method,
    url: Result<Seq<char>, Seq<char>>,
    more: Seq<(Seq<char>, Seq<char>)>,
) -> Result<RequestV, Seq<char>> {
    match client.access_token {
        None => Err(no_token_for(purpose)),
        Some(token) => match url {
            Err(reason) => Err(reason),
            Ok(address) => if header_value(client.anon_key@) && header_value("Bearer "@ + token@) {
                Ok(
                    RequestV {
                        method,
                        url: address,
                        headers: identity_headers(client.anon_key@, token@) + more,
                    },
                )
            } else {
                Err(header_failed())
            },
        },
    }
}

/// Whether a request is what `want` says.
pub open spec fn requested(
    result: Result<Request, String>,
    want: Result<RequestV, Seq<char>>,
) -> bool {
    match (result, want) {
        (Ok(r), Ok(w)) => r@ == w,
        (Err(e), Err(reason)) => e@ == reason,
        _ => false,
    }
}

/// What is said where a token is missing.
pub open spec fn no_token_for(what: Seq<char>) -> Seq<char> {
    "no access token set — call set_access_token before "@ + what
}

/// The headers of a request that writes, beside those of who asks.
pub open spec fn write_headers(prefer: Seq<char>) -> Seq<(Seq<char>, Seq<char>)> {
    seq![("content-type"@, "application/json"@), ("prefer"@, prefer)]
}

/// The address of a table.
pub open spec fn table_url(base_url: Seq<char>, table: Seq<char>) -> Seq<char> {
    base_url + "/rest/v1/"@ + table
}

/// The address to which rows are upserted.
pub open spec fn upsert_url(base_url: Seq<char>, table: Seq<char>, on_conflict: Seq<char>) -> Seq<char> {
    table_url(base_url, table) + "?on_conflict="@ + on_conflict
}

/// The address of the page of rows after a sequence number.
pub open spec fn page_url(base_url: Seq<char>, table: Seq<char>, after_seq: i64, limit: i64) -> Seq<
    char,
> {
    table_url(base_url, table) + "?change_seq=gt."@ + signed_decimal(after_seq as int)
        + "&order=change_seq.asc&limit="@ + signed_decimal(limit as int)
}

/// The address of a runtime setting.
pub open spec fn config_url(base_url: Seq<char>, key: Seq<char>) -> Seq<char> {
    base_url + "/rest/v1/app_config?key=eq."@ + key + "&select=value"@
}

/// What `reqwest::Url` makes of an address with one more query pair, or the text of the error
/// that it reports for the address.
pub uninterp spec fn url_with_pair(
    address: Seq<char>,
    key: Seq<char>,
    value: Seq<char>,
) -> Result<Seq<char>, Seq<char>>;

/// Calls `reqwest::Url::parse` and appends a query pair with `query_pairs_mut` and `append_pair`,
/// which encode it. The name `url_with_pair` says that the address, or the error's text, depends
/// on the three texts alone.
#[verifier::external_body]
fn add_query_pair(address: &str, key: &str, value: &str) -> (url: Result<String, String>)
    ensures
        match url {
            Ok(u) => url_with_pair(address@, key@, value@) == Ok::<Seq<char>, Seq<char>>(u@),
            Err(e) => url_with_pair(address@, key@, value@) == Err::<Seq<char>, Seq<char>>(e@),
        },
{
    match reqwest::Url::parse(address) {
        Ok(mut url) => {
            url.query_pairs_mut().append_pair(key, value);
            Ok(String::from(url))
        },
        Err(e) => Err(e.to_string()),
    }
}

/// A key with its backslashes and quotes escaped.
pub open spec fn escaped(id: Seq<char>) -> Seq<char>
    decreases id.len(),
{
    if id.len() == 0 {
        Seq::empty()
    } else if id.last() == '\\' || id.last() == '"' {
        escaped(id.drop_last()).push('\\').push(id.last())
    } else {
        escaped(id.drop_last()).push(id.last())
    }
}

/// A key in quotes.
pub open spec fn quoted(id: Seq<char>) -> Seq<char> {
    "\""@ + escaped(id) + "\""@
}

/// Keys in quotes, separated by commas.
pub open spec fn quoted_list(ids: Seq<Seq<char>>) -> Seq<char>
    decreases ids.len(),
{
    if ids.len() == 0 {
        Seq::empty()
    } else if ids.len() == 1 {
        quoted(ids[0])
    } else {
        quoted_list(ids.drop_last()) + ","@ + quoted(ids.last())
    }
}

/// The filter for rows with some keys.
pub open spec fn in_filter(ids: Seq<Seq<char>>) -> Seq<char> {
    "in.("@ + quoted_list(ids) + ")"@
}

fn char_text(s: &str, i: usize, len: usize) -> (c: &str)
    requires
        i < len,
        len == s@.len(),
    ensures
        c@ == seq![s@[i as int]],
{
    assert(s@.subrange(i as int, i + 1) =~= seq![s@[i as int]]);
    s.substring_char(i, i + 1)
}

fn escape_id(id: &str) -> (out: String)
    ensures
        out@ == escaped(id@),
{
    let n: usize = id.unicode_len();
    let mut out = String::new();
    let mut i: usize = 0;
    proof {
        reveal_strlit("\\");
        assert("\\"@ =~= seq!['\\']);
        assert(id@.take(0) =~= Seq::empty());
        assert(out@ =~= Seq::empty());
    }
    while i < n
        invariant
            i <= n,
            n == id@.len(),
            "\\"@ == seq!['\\'],
            out@ == escaped(id@.take(i as int)),
        decreases n - i,
    {
        assert(id@.take(i + 1).drop_last() =~= id@.take(i as int));
        let ghost held = out@;
        let c = id.get_char(i);
        if c == '\\' || c == '"' {
            out.append("\\");
            assert(out@ =~= held.push('\\'));
        }
        let ghost marked = out@;
        out.append(char_text(id, i, n));
        assert(out@ =~= marked.push(c));
        i = i + 1;
    }
    assert(id@.take(n as int) =~= id@);
    out
}

fn quote_ids(ids: &Vec<String>) -> (out: String)
    ensures
        out@ == quoted_list(crate::json::texts_view(ids@)),
{
    let ghost all = crate::json::texts_view(ids@);
    let mut out = String::new();
    let mut i: usize = 0;
    assert(all.take(0) =~= Seq::empty());
    assert(out@ =~= Seq::empty());
    while i < ids.len()
        invariant
            i <= ids@.len(),
            all == crate::json::texts_view(ids@),
            out@ == quoted_list(all.take(i as int)),
        decreases ids.len() - i,
    {
        assert(all.take(i + 1).drop_last() =~= all.take(i as int));
        assert(all.take(i + 1).last() == ids@[i as int]@);
        let ghost held = out@;
        if i > 0 {
            out.append(",");
        }
        let ghost separated = out@;
        out.append("\"");
        out.append(escape_id(ids[i].as_str()).as_str());
        out.append("\"");
        assert(out@ =~= separated + quoted(ids@[i as int]@));
        if i == 0 {
            assert(held =~= Seq::empty());
            assert(separated + quoted(ids@[0]@) =~= quoted(ids@[0]@));
        }
        i = i + 1;
    }
    assert(all.take(all.len() as int) =~= all);
    out
}

/// The address of the rows of a table with some keys.
pub fn by_ids_url(base_url: &str, table: &str, primary_key: &str, ids: &Vec<String>) -> (url: Result<
    String,
    String,
>)
    ensures
        match (
            url,
            url_with_pair(
                table_url(base_url@, table@),
                primary_key@,
                in_filter(crate::json::texts_view(ids@)),
            ),
        ) {
            (Ok(u), Ok(want)) => u@ == want,
            (Err(e), Err(_)) => e@ == "invalid PostgREST base URL"@,
            _ => false,
        },
{
    let mut address = joined(base_url, "/rest/v1/");
    address.append(table);
    let mut filter = joined("in.(", quote_ids(ids).as_str());
    filter.append(")");
    match add_query_pair(address.as_str(), primary_key, filter.as_str()) {
        Ok(url) => Ok(url),
        Err(_) => Err("invalid PostgREST base URL".to_owned()),
    }
}

impl PostgrestClient {
    /// Takes the server's address, without slashes at its end, if credentials may be sent to it.
    pub fn new(base_url: String, anon_key: String) -> (result: Result<PostgrestClient, String>)
        ensures
            match result {
                Ok(client) => {
                    &&& secure_base_url(trimmed_end(base_url@, '/'))
                    &&& client.base_url@ == trimmed_end(base_url@, '/')
                    &&& client.anon_key == anon_key
                    &&& client.access_token is None
                },
                Err(message) => !secure_base_url(trimmed_end(base_url@, '/')) && message@
                    == "refusing non-https base_url "@ + debug_text(trimmed_end(base_url@, '/'))
                    + ": a Bearer JWT + apikey must not transit plaintext http (loopback excepted)"@,
            },
    {
        let address = trim_end_of(base_url.as_str(), '/');
        if let Err(message) = require_secure_base_url(address) {
            return Err(message);
        }
        Ok(PostgrestClient { base_url: address.to_owned(), anon_key, access_token: None })
    }

    /// Takes the user's token.
    pub fn set_access_token(&mut self, jwt: String)
        ensures
            *final(self) == (PostgrestClient { access_token: Some(jwt), ..*old(self) }),
    {
        self.access_token = Some(jwt);
    }

    /// The user's token.
    pub fn access_token(&self) -> (token: Option<&str>)
        ensures
            match (token, self.access_token) {
                (Some(t), Some(own)) => t@ == own@,
                (None, None) => true,
                _ => false,
            },
    {
        match &self.access_token {
            Some(token) => Some(token.as_str()),
            None => None,
        }
    }

    fn token_for(&self, purpose: &str) -> (result: Result<&String, String>)
        ensures
            match (result, self.access_token) {
                (Ok(token), Some(own)) => *token == own,
                (Err(e), None) => e@ == no_token_for(purpose@),
                _ => false,
            },
    {
        match &self.access_token {
            Some(token) => Ok(token),
            None => Err(
                joined("no access token set — call set_access_token before ", purpose),
            ),
        }
    }

    fn identify(&self, token: &String) -> (result: Result<Vec<(String, String)>, String>)
        ensures
            match result {
                Ok(headers) => {
                    &&& header_value(self.anon_key@) && header_value("Bearer "@ + token@)
                    &&& headers_view(headers@) == identity_headers(self.anon_key@, token@)
                },
                Err(e) => {
                    &&& !(header_value(self.anon_key@) && header_value("Bearer "@ + token@))
                    &&& e@ == header_failed()
                },
            },
    {
        let bearer = joined("Bearer ", token.as_str());
        if !is_header_value(self.anon_key.as_str()) || !is_header_value(bearer.as_str()) {
            return Err("failed to parse header value".to_owned());
        }
        let mut headers: Vec<(String, String)> = Vec::new();
        headers.push(("apikey".to_owned(), self.anon_key.clone()));
        headers.push(("authorization".to_owned(), bearer));
        assert(headers_view(headers@) =~= identity_headers(self.anon_key@, token@));
        Ok(headers)
    }

    fn read_request(&self, token: &String, url: String) -> (result: Result<Request, String>)
        requires
            self.access_token == Some(*token),
        ensures
            forall|purpose: Seq<char>|
                requested(
                    result,
                    #[trigger] request_of(
                        *self,
                        purpose,
                        Method::Get,
                        Ok(url@),
                        Seq::empty(),
                    ),
                ),
    {
        match self.identify(token) {
            Ok(headers) => {
                assert(headers_view(headers@) =~= identity_headers(self.anon_key@, token@)
                    + Seq::empty());
                Ok(Request { method: Method::Get, url, headers })
            },
            Err(e) => Err(e),
        }
    }

    fn write_request(&self, token: &String, method: Method, url: String, prefer: &str) -> (result: Result<
        Request,
        String,
    >)
        requires
            self.access_token == Some(*token),
        ensures
            forall|purpose: Seq<char>|
                requested(
                    result,
                    #[trigger] request_of(
                        *self,
                        purpose,
                        method,
                        Ok(url@),
                        write_headers(prefer@),
                    ),
                ),
    {
        let mut headers = match self.identify(token) {
            Ok(h) => h,
            Err(e) => {
                return Err(e);
            },
        };
        headers.push(("content-type".to_owned(), "application/json".to_owned()));
        headers.push(("prefer".to_owned(), prefer.to_owned()));
        assert(headers_view(headers@) =~= identity_headers(self.anon_key@, token@)
            + write_headers(prefer@));
        Ok(Request { method, url, headers })
    }

    /// The request that upserts rows into a table.
    pub fn upsert_request(&self, table: &str, on_conflict: &str) -> (result: Result<
        Request,
        String,
    >)
        ensures
            requested(
                result,
                request_of(
                    *self,
                    "flush"@,
                    Method::Post,
                    Ok(upsert_url(self.base_url@, table@, on_conflict@)),
                    write_headers("resolution=merge-duplicates, return=minimal"@),
                ),
            ),
    {
        let token = match self.token_for("flush") {
            Ok(token) => token,
            Err(e) => {
                return Err(e);
            },
        };
        let mut url = joined(self.base_url.as_str(), "/rest/v1/");
        url.append(table);
        url.append("?on_conflict=");
        url.append(on_conflict);
        self.write_request(
            token,
            Method::Post,
            url,
            "resolution=merge-duplicates, return=minimal",
        )
    }

    /// The request that patches one row that is there.
    pub fn patch_request(&self, table: &str, primary_key: &str, record_id: &str) -> (result: Result<
        Request,
        String,
    >)
        ensures
            requested(
                result,
                request_of(
                    *self,
                    "flush"@,
                    Method::Patch,
                    url_with_pair(
                        table_url(self.base_url@, table@),
                        primary_key@,
                        "eq."@ + record_id@,
                    ),
                    write_headers("return=minimal"@),
                ),
            ),
    {
        let token = match self.token_for("flush") {
            Ok(token) => token,
            Err(e) => {
                return Err(e);
            },
        };
        let mut address = joined(self.base_url.as_str(), "/rest/v1/");
        address.append(table);
        match add_query_pair(address.as_str(), primary_key, joined("eq.", record_id).as_str()) {
            Ok(url) => self.write_request(token, Method::Patch, url, "return=minimal"),
            Err(e) => Err(e),
        }
    }

    /// The request for the page of rows after a sequence number.
    pub fn page_request(&self, table: &str, after_seq: i64, limit: i64) -> (result: Result<
        Request,
        String,
    >)
        ensures
            requested(
                result,
                request_of(
                    *self,
                    "pull"@,
                    Method::Get,
                    Ok(page_url(self.base_url@, table@, after_seq, limit)),
                    Seq::empty(),
                ),
            ),
    {
        let token = match self.token_for("pull") {
            Ok(token) => token,
            Err(e) => {
                return Err(e);
            },
        };
        let mut url = joined(self.base_url.as_str(), "/rest/v1/");
        url.append(table);
        url.append("?change_seq=gt.");
        url.append(signed_text(after_seq).as_str());
        url.append("&order=change_seq.asc&limit=");
        url.append(signed_text(limit).as_str());
        self.read_request(token, url)
    }

    /// The request for the rows of a table with some keys, if there are any: without a key nothing
    /// is asked.
    pub fn fetch_by_ids(&self, table: &str, primary_key: &str, ids: &Vec<String>) -> (result: Result<
        Option<Request>,
        String,
    >)
        ensures
            if ids@.len() == 0 {
                result == Ok::<Option<Request>, String>(None)
            } else {
                let want = request_of(
                    *self,
                    "pull"@,
                    Method::Get,
                    match url_with_pair(
                        table_url(self.base_url@, table@),
                        primary_key@,
                        in_filter(crate::json::texts_view(ids@)),
                    ) {
                        Ok(url) => Ok(url),
                        Err(_) => Err("invalid PostgREST base URL"@),
                    },
                    Seq::empty(),
                );
                match (result, want) {
                    (Ok(Some(r)), Ok(w)) => r@ == w,
                    (Err(e), Err(reason)) => e@ == reason,
                    _ => false,
                }
            },
    {
        if ids.len() == 0 {
            return Ok(None);
        }
        match self.by_ids_request(table, primary_key, ids) {
            Ok(request) => Ok(Some(request)),
            Err(e) => Err(e),
        }
    }

    /// The request for the rows of a table with some keys.
    pub fn by_ids_request(&self, table: &str, primary_key: &str, ids: &Vec<String>) -> (result: Result<
        Request,
        String,
    >)
        ensures
            requested(
                result,
                request_of(
                    *self,
                    "pull"@,
                    Method::Get,
                    match url_with_pair(
                        table_url(self.base_url@, table@),
                        primary_key@,
                        in_filter(crate::json::texts_view(ids@)),
                    ) {
                        Ok(url) => Ok(url),
                        Err(_) => Err("invalid PostgREST base URL"@),
                    },
                    Seq::empty(),
                ),
            ),
    {
        let token = match self.token_for("pull") {
            Ok(token) => token,
            Err(e) => {
                return Err(e);
            },
        };
        match by_ids_url(self.base_url.as_str(), table, primary_key, ids) {
            Ok(url) => self.read_request(token, url),
            Err(e) => Err(e),
        }
    }

    /// The request for a runtime setting.
    pub fn config_request(&self, key: &str) -> (result: Result<Request, String>)
        ensures
            requested(
                result,
                request_of(
                    *self,
                    "reading app_config"@,
                    Method::Get,
                    Ok(config_url(self.base_url@, key@)),
                    Seq::empty(),
                ),
            ),
    {
        let token = match self.token_for("reading app_config") {
            Ok(token) => token,
            Err(e) => {
                return Err(e);
            },
        };
        let mut url = joined(self.base_url.as_str(), "/rest/v1/app_config?key=eq.");
        url.append(key);
        url.append("&select=value");
        self.read_request(token, url)
    }
}

/// What is said of an answer that cannot be read.
pub open spec fn decode_failed() -> Seq<char> {
    "error decoding response body"@
}

/// The rows of an answer: its body is a JSON array.
pub open spec fn answered_rows(body: Seq<u8>) -> Option<Seq<JsonV>> {
    match parsed_json_bytes(body) {
        Ok(JsonV::Arr(items)) => Some(items),
        _ => None,
    }
}

/// Reads the rows of an answer.
pub fn read_rows(body: &[u8]) -> (result: Result<Vec<Json>, String>)
    ensures
        match result {
            Ok(rows) => answered_rows(body@) == Some(items_view(rows@)),
            Err(e) => answered_rows(body@) is None && e@ == decode_failed(),
        },
{
    match read_json_bytes(body) {
        Ok(Json::Arr(rows)) => Ok(rows),
        _ => Err("error decoding response body".to_owned()),
    }
}

/// The setting in an answer: the value of its first row.
pub open spec fn first_value(rows: Seq<JsonV>) -> Option<JsonV> {
    if rows.len() == 0 {
        None
    } else {
        match rows[0] {
            JsonV::Obj(row) => field(row, "value"@),
            _ => None,
        }
    }
}

/// The setting in an answer.
pub fn config_value(rows: &Vec<Json>) -> (value: Option<Json>)
    ensures
        match value {
            Some(v) => first_value(items_view(rows@)) == Some(json_view(v)),
            None => first_value(items_view(rows@)) is None,
        },
{
    proof {
        lemma_items_view(rows@);
    }
    if rows.len() == 0 {
        return None;
    }
    assert(items_view(rows@)[0] == json_view(rows@[0]));
    match rows[0].as_object() {
        Some(row) => match row.get("value") {
            Some(value) => Some(value.copy()),
            None => None,
        },
        None => None,
    }
}

/// The author to search for: trimmed, and only if something is left.
pub open spec fn searched_author(author: Option<Seq<char>>) -> Option<Seq<char>> {
    match author {
        Some(a) => if trimmed(a).len() == 0 {
            None
        } else {
            Some(trimmed(a))
        },
        None => None,
    }
}

/// The query of a search for a cover.
pub open spec fn search_terms(title: Seq<char>, author: Option<Seq<char>>) -> Seq<
    (Seq<char>, Seq<char>),
> {
    let terms = seq![
        ("title"@, title),
        ("limit"@, "1"@),
        ("fields"@, "key,title,author_name,cover_i,isbn"@),
    ];
    match searched_author(author) {
        Some(a) => terms.push(("author"@, a)),
        None => terms,
    }
}

pub open spec fn opt_str(text: Option<&str>) -> Option<Seq<char>> {
    match text {
        Some(s) => Some(s@),
        None => None,
    }
}

/// The query of a search for a cover.
pub fn cover_query(title: &str, author: Option<&str>) -> (terms: Vec<(String, String)>)
    ensures
        headers_view(terms@) == search_terms(title@, opt_str(author)),
{
    let mut terms: Vec<(String, String)> = Vec::new();
    terms.push(("title".to_owned(), title.to_owned()));
    terms.push(("limit".to_owned(), "1".to_owned()));
    terms.push(("fields".to_owned(), "key,title,author_name,cover_i,isbn".to_owned()));
    let ghost base = seq![
        ("title"@, title@),
        ("limit"@, "1"@),
        ("fields"@, "key,title,author_name,cover_i,isbn"@),
    ];
    assert(headers_view(terms@) =~= base);
    if let Some(a) = author {
        let name = trim_text(a);
        if name.unicode_len() > 0 {
            terms.push(("author".to_owned(), name.to_owned()));
            assert(headers_view(terms@) =~= base.push(("author"@, name@)));
        }
    }
    terms
}

/// A hit by its contents.
pub struct HitV {
    pub cover_i: Option<i64>,
    pub isbn: Option<Seq<char>>,
}

impl View for CoverSearchHit {
    type V = HitV;

    open spec fn view(&self) -> HitV {
        HitV {
            cover_i: self.cover_i,
            isbn: match self.isbn {
                Some(s) => Some(s@),
                None => None,
            },
        }
    }
}

/// The first document of a search answer.
pub open spec fn first_doc(data: JsonV) -> Option<JsonV> {
    match data {
        JsonV::Obj(root) => match field(root, "docs"@) {
            Some(JsonV::Arr(docs)) => if docs.len() == 0 {
                None
            } else {
                Some(docs[0])
            },
            _ => None,
        },
        _ => None,
    }
}

/// The cover number of a document.
pub open spec fn doc_cover(doc: JsonV) -> Option<i64> {
    match doc {
        JsonV::Obj(d) => match field(d, "cover_i"@) {
            Some(value) => json_i64(value),
            None => None,
        },
        _ => None,
    }
}

/// The first ISBN of a document: trimmed, and only if something is left.
pub open spec fn doc_isbn(doc: JsonV) -> Option<Seq<char>> {
    match doc {
        JsonV::Obj(d) => match field(d, "isbn"@) {
            Some(JsonV::Arr(items)) => if items.len() == 0 {
                None
            } else {
                searched_author(json_text(items[0]))
            },
            _ => None,
        },
        _ => None,
    }
}

/// What a search answer says: nothing without a document.
pub open spec fn search_hit(data: JsonV) -> Option<HitV> {
    match first_doc(data) {
        Some(doc) => Some(HitV { cover_i: doc_cover(doc), isbn: doc_isbn(doc) }),
        None => None,
    }
}

fn read_isbn(doc: &Fields) -> (isbn: Option<String>)
    ensures
        match isbn {
            Some(s) => doc_isbn(JsonV::Obj(doc@)) == Some(s@),
            None => doc_isbn(JsonV::Obj(doc@)) is None,
        },
{
    match doc.get("isbn") {
        Some(Json::Arr(items)) => {
            proof {
                lemma_items_view(items@);
            }
            if items.len() == 0 {
                return None;
            }
            assert(items_view(items@)[0] == json_view(items@[0]));
            match items[0].as_str() {
                Some(s) => {
                    let isbn = trim_text(s.as_str());
                    if isbn.unicode_len() == 0 {
                        None
                    } else {
                        Some(isbn.to_owned())
                    }
                },
                None => None,
            }
        },
        _ => None,
    }
}

/// Reads a search answer.
pub fn read_search(data: &Json) -> (hit: Option<CoverSearchHit>)
    ensures
        match hit {
            Some(h) => search_hit(json_view(*data)) == Some(h@),
            None => search_hit(json_view(*data)) is None,
        },
{
    let root = match data.as_object() {
        Some(root) => root,
        None => {
            return None;
        },
    };
    match root.get("docs") {
        Some(Json::Arr(docs)) => {
            proof {
                lemma_items_view(docs@);
            }
            if docs.len() == 0 {
                return None;
            }
            assert(items_view(docs@)[0] == json_view(docs@[0]));
            match docs[0].as_object() {
                Some(doc) => Some(
                    CoverSearchHit { cover_i: doc.get_i64("cover_i"), isbn: read_isbn(doc) },
                ),
                None => Some(CoverSearchHit { cover_i: None, isbn: None }),
            }
        },
        _ => None,
    }
}

/// What a search answer says: its body is JSON.
pub open spec fn answered_search(body: Seq<u8>) -> Result<Option<HitV>, Seq<char>> {
    match parsed_json_bytes(body) {
        Ok(data) => Ok(search_hit(data)),
        Err(_) => Err(decode_failed()),
    }
}

/// Reads the body of a search answer.
pub fn read_search_answer(body: &[u8]) -> (result: Result<Option<CoverSearchHit>, String>)
    ensures
        match (result, answered_search(body@)) {
            (Ok(Some(hit)), Ok(Some(want))) => hit@ == want,
            (Ok(None), Ok(None)) => true,
            (Err(e), Err(reason)) => e@ == reason,
            _ => false,
        },
{
    match read_json_bytes(body) {
        Ok(data) => Ok(read_search(&data)),
        Err(_) => Err("error decoding response body".to_owned()),
    }
}

/// What is said of a search that the other side refused.
pub fn search_refused(status: &str, body: &str) -> (message: String)
    ensures
        message@ == "Open Library search HTTP "@ + status@ + ": "@ + body@,
{
    let mut message = joined("Open Library search HTTP ", status);
    message.append(": ");
    message.append(body);
    message
}

/// The part of a token that holds its claims: between its first dot and the next, or the end.
pub open spec fn jwt_payload(jwt: Seq<char>) -> Option<Seq<char>> {
    let n = length_before(jwt, '.', '.') as int;
    if n >= jwt.len() {
        None
    } else {
        Some(before_first(jwt.skip(n + 1), '.', '.'))
    }
}

/// What the unpadded URL-safe base64 of the `base64` crate decodes a text to, or the text of the
/// error that it reports.
pub uninterp spec fn base64url_decoded(text: Seq<char>) -> Result<Seq<u8>, Seq<char>>;

/// Calls `decode` of `base64::engine::general_purpose::URL_SAFE_NO_PAD`, and writes its error out.
/// The name `base64url_decoded` says that the bytes, or the error's text, depend on the text alone.
#[verifier::external_body]
fn decode_base64url(text: &str) -> (bytes: Result<Vec<u8>, String>)
    ensures
        match bytes {
            Ok(b) => base64url_decoded(text@) == Ok::<Seq<u8>, Seq<char>>(b@),
            Err(e) => base64url_decoded(text@) == Err::<Seq<u8>, Seq<char>>(e@),
        },
{
    base64::Engine::decode(&base64::engine::general_purpose::URL_SAFE_NO_PAD, text)
        .map_err(|e| e.to_string())
}

/// The user that claims name.
pub open spec fn subject(claims: JsonV) -> Option<Seq<char>> {
    match claims {
        JsonV::Obj(fields) => row_text(fields, "sub"@),
        _ => None,
    }
}

/// The user that claims name.
pub fn subject_of(claims: &Json) -> (result: Result<String, String>)
    ensures
        match result {
            Ok(id) => subject(json_view(*claims)) == Some(id@),
            Err(e) => subject(json_view(*claims)) is None && e@ == "JWT has no `sub` claim"@,
        },
{
    match claims.as_object() {
        Some(fields) => match fields.get_text("sub") {
            Some(id) => Ok(id.clone()),
            None => Err("JWT has no `sub` claim".to_owned()),
        },
        None => Err("JWT has no `sub` claim".to_owned()),
    }
}

/// The user that a token names, or why none can be read: there is no payload, it is not base64, it
/// is not JSON, or it names none.
pub open spec fn jwt_user(jwt: Seq<char>) -> Result<Seq<char>, Seq<char>> {
    match jwt_payload(jwt) {
        None => Err("malformed JWT: no payload segment"@),
        Some(payload) => match base64url_decoded(payload) {
            Err(reason) => Err(reason),
            Ok(bytes) => match parsed_json_bytes(bytes) {
                Err(reason) => Err(reason),
                Ok(claims) => match subject(claims) {
                    Some(id) => Ok(id),
                    None => Err("JWT has no `sub` claim"@),
                },
            },
        },
    }
}

fn payload_of<'a>(jwt: &'a str) -> (payload: Option<&'a str>)
    ensures
        match payload {
            Some(p) => jwt_payload(jwt@) == Some(p@),
            None => jwt_payload(jwt@) is None,
        },
{
    let len = jwt.unicode_len();
    let n = find_first(jwt, '.', '.');
    if n >= len {
        return None;
    }
    let rest = jwt.substring_char(n + 1, len);
    assert(rest@ =~= jwt@.skip(n + 1));
    let m = find_first(rest, '.', '.');
    let payload = rest.substring_char(0, m);
    assert(payload@ =~= before_first(rest@, '.', '.'));
    Some(payload)
}

/// Reads the user that a token names. The token's signature is not checked: the server checks it.
pub fn user_id_from_jwt(jwt: &str) -> (result: Result<String, String>)
    ensures
        match (result, jwt_user(jwt@)) {
            (Ok(id), Ok(want)) => id@ == want,
            (Err(e), Err(reason)) => e@ == reason,
            _ => false,
        },
{
    let payload = match payload_of(jwt) {
        Some(payload) => payload,
        None => {
            return Err("malformed JWT: no payload segment".to_owned());
        },
    };
    let bytes = match decode_base64url(payload) {
        Ok(bytes) => bytes,
        Err(e) => {
            return Err(e);
        },
    };
    match read_json_bytes(bytes.as_slice()) {
        Ok(claims) => subject_of(&claims),
        Err(e) => Err(e),
    }
}

/// A character of a key, escaped.
pub open spec fn escaped_char(c: char) -> Seq<char> {
    if c == '\\' || c == '"' {
        seq!['\\', c]
    } else {
        seq![c]
    }
}

proof fn lemma_escaped_front(id: Seq<char>)
    requires
        id.len() > 0,
    ensures
        escaped(id) == escaped_char(id[0]) + escaped(id.drop_first()),
    decreases id.len(),
{
    let before = id.drop_last();
    if before.len() == 0 {
        assert(escaped(before) =~= Seq::empty());
        assert(id.drop_first() =~= Seq::empty());
        assert(escaped(id) =~= escaped_char(id[0]) + escaped(id.drop_first()));
    } else {
        lemma_escaped_front(before);
        assert(before[0] == id[0]);
        assert(before.drop_first() =~= id.drop_first().drop_last());
        assert(id.drop_first().last() == id.last());
        assert(escaped(id) =~= escaped_char(id[0]) + escaped(id.drop_first()));
    }
}

/// A quoted key ends where it is read to end: what follows cannot be taken for a part of it.
proof fn lemma_quoted_ends(a: Seq<char>, b: Seq<char>, u: Seq<char>, v: Seq<char>)
    requires
        escaped(a) + seq!['"'] + u == escaped(b) + seq!['"'] + v,
    ensures
        a == b,
        u == v,
    decreases a.len(),
{
    let left = escaped(a) + seq!['"'] + u;
    let right = escaped(b) + seq!['"'] + v;
    if a.len() > 0 {
        lemma_escaped_front(a);
    }
    if b.len() > 0 {
        lemma_escaped_front(b);
    }
    if a.len() == 0 && b.len() == 0 {
        assert(a =~= b);
        assert(left.skip(1) =~= u);
        assert(right.skip(1) =~= v);
    } else if a.len() == 0 {
        assert(left[0] == '"');
        assert(right[0] == escaped_char(b[0])[0]);
        assert(false);
    } else if b.len() == 0 {
        assert(right[0] == '"');
        assert(left[0] == escaped_char(a[0])[0]);
        assert(false);
    } else {
        assert(left[0] == escaped_char(a[0])[0]);
        assert(right[0] == escaped_char(b[0])[0]);
        let x = escaped_char(a[0]);
        let y = escaped_char(b[0]);
        if x.len() == 2 {
            assert(left[1] == x[1]);
        }
        if y.len() == 2 {
            assert(right[1] == y[1]);
        }
        assert(a[0] == b[0]);
        let n = x.len() as int;
        let rest_left = escaped(a.drop_first()) + seq!['"'] + u;
        let rest_right = escaped(b.drop_first()) + seq!['"'] + v;
        assert(left.skip(n) =~= rest_left);
        assert(right.skip(n) =~= rest_right);
        lemma_quoted_ends(a.drop_first(), b.drop_first(), u, v);
        assert(a =~= seq![a[0]] + a.drop_first());
        assert(b =~= seq![b[0]] + b.drop_first());
    }
}

/// What follows the first key of a list.
spec fn list_rest(ids: Seq<Seq<char>>) -> Seq<char>
    decreases ids.len(),
{
    if ids.len() == 0 {
        Seq::empty()
    } else {
        ","@ + quoted(ids[0]) + list_rest(ids.drop_first())
    }
}

proof fn lemma_list_rest_push(ids: Seq<Seq<char>>, id: Seq<char>)
    ensures
        list_rest(ids.push(id)) == list_rest(ids) + ","@ + quoted(id),
    decreases ids.len(),
{
    let all = ids.push(id);
    if ids.len() == 0 {
        assert(all.drop_first() =~= Seq::empty());
        assert(list_rest(all.drop_first()) =~= Seq::empty());
        assert(list_rest(all) =~= list_rest(ids) + ","@ + quoted(id));
    } else {
        lemma_list_rest_push(ids.drop_first(), id);
        assert(all.drop_first() =~= ids.drop_first().push(id));
        assert(list_rest(all) =~= list_rest(ids) + ","@ + quoted(id));
    }
}

proof fn lemma_list_front(ids: Seq<Seq<char>>)
    requires
        ids.len() > 0,
    ensures
        quoted_list(ids) == quoted(ids[0]) + list_rest(ids.drop_first()),
    decreases ids.len(),
{
    if ids.len() == 1 {
        assert(ids.drop_first() =~= Seq::empty());
        assert(quoted_list(ids) =~= quoted(ids[0]) + list_rest(ids.drop_first()));
    } else {
        let before = ids.drop_last();
        lemma_list_front(before);
        lemma_list_rest_push(before.drop_first(), ids.last());
        assert(before.drop_first().push(ids.last()) =~= ids.drop_first());
        assert(quoted_list(ids) =~= quoted(ids[0]) + list_rest(ids.drop_first()));
    }
}

proof fn lemma_list_rest_apart(a: Seq<Seq<char>>, b: Seq<Seq<char>>)
    requires
        list_rest(a) == list_rest(b),
    ensures
        a == b,
    decreases a.len(),
{
    reveal_strlit(",");
    reveal_strlit("\"");
    assert(","@ =~= seq![',']);
    assert("\""@ =~= seq!['"']);
    let left = list_rest(a);
    let right = list_rest(b);
    if a.len() == 0 || b.len() == 0 {
        if a.len() > 0 {
            assert(left[0] == ',');
        }
        if b.len() > 0 {
            assert(right[0] == ',');
        }
        assert(a =~= b);
    } else {
        assert(left.skip(2) =~= escaped(a[0]) + seq!['"'] + list_rest(a.drop_first()));
        assert(right.skip(2) =~= escaped(b[0]) + seq!['"'] + list_rest(b.drop_first()));
        lemma_quoted_ends(a[0], b[0], list_rest(a.drop_first()), list_rest(b.drop_first()));
        lemma_list_rest_apart(a.drop_first(), b.drop_first());
        assert(a =~= seq![a[0]] + a.drop_first());
        assert(b =~= seq![b[0]] + b.drop_first());
    }
}

/// A filter tells its keys apart: no key can end the list early, add to it, or be taken for
/// another, whatever characters it holds.
pub proof fn law_filter_tells_keys_apart(a: Seq<Seq<char>>, b: Seq<Seq<char>>)
    requires
        in_filter(a) == in_filter(b),
    ensures
        a == b,
{
    reveal_strlit("in.(");
    reveal_strlit(")");
    reveal_strlit("\"");
    assert("\""@ =~= seq!['"']);
    let left = in_filter(a);
    let right = in_filter(b);
    assert(left.subrange(4, left.len() - 1) =~= quoted_list(a));
    assert(right.subrange(4, right.len() - 1) =~= quoted_list(b));
    if a.len() > 0 {
        lemma_list_front(a);
    }
    if b.len() > 0 {
        lemma_list_front(b);
    }
    if a.len() == 0 || b.len() == 0 {
        assert(quoted_list(a).len() > 0 <==> a.len() > 0);
        assert(quoted_list(b).len() > 0 <==> b.len() > 0);
        assert(a =~= b);
    } else {
        assert(quoted_list(a).skip(1) =~= escaped(a[0]) + seq!['"'] + list_rest(a.drop_first()));
        assert(quoted_list(b).skip(1) =~= escaped(b[0]) + seq!['"'] + list_rest(b.drop_first()));
        lemma_quoted_ends(a[0], b[0], list_rest(a.drop_first()), list_rest(b.drop_first()));
        lemma_list_rest_apart(a.drop_first(), b.drop_first());
        assert(a =~= seq![a[0]] + a.drop_first());
        assert(b =~= seq![b[0]] + b.drop_first());
    }
}

/// Whether a text is what an address has between two of its marks.
pub open spec fn unmarked(s: Seq<char>) -> bool {
    forall|i: int|
        0 <= i < s.len() ==> {
            &&& #[trigger] s[i] != '/'
            &&& s[i] != '\\'
            &&& s[i] != '?'
            &&& s[i] != '#'
        }
}

/// A host as an address holds it: a name or a number, or a number in brackets.
pub open spec fn written_host(host: Seq<char>) -> bool {
    &&& unmarked(host)
    &&& !host.contains('@')
    &&& if host.len() > 0 && host[0] == '[' {
        host.last() == ']' && !host.drop_last().contains(']')
    } else {
        !host.contains(':')
    }
}

/// What may follow the host: nothing, or a port.
pub open spec fn written_port(port: Seq<char>) -> bool {
    &&& unmarked(port)
    &&& !port.contains('@')
    &&& port.len() > 0 ==> port[0] == ':'
}

/// What may precede the host: nothing, or userinfo, whatever it holds.
pub open spec fn written_userinfo(userinfo: Seq<char>) -> bool {
    &&& unmarked(userinfo)
    &&& userinfo.len() > 0 ==> userinfo.last() == '@'
}

/// What may follow the authority: nothing, or a path, a query or a fragment.
pub open spec fn written_tail(tail: Seq<char>) -> bool {
    tail.len() > 0 ==> tail[0] == '/' || tail[0] == '\\' || tail[0] == '?' || tail[0] == '#'
}

proof fn lemma_authority(s: Seq<char>, tail: Seq<char>)
    requires
        unmarked(s),
        written_tail(tail),
    ensures
        authority_of(s + tail) == s,
{
    let whole = s + tail;
    let path = before_first(whole, '/', '\\');
    if tail.len() > 0 && (tail[0] == '?' || tail[0] == '#') {
        lemma_length_within(s, tail, '/', '\\');
        let kept = path.skip(s.len() as int);
        assert(path =~= s + kept);
        assert(kept.len() > 0 ==> kept[0] == tail[0]);
        lemma_length_before_goes_on(s, kept, '?', '#');
        assert(before_first(path, '?', '#') =~= s);
    } else {
        lemma_length_before_goes_on(s, tail, '/', '\\');
        assert(path =~= s);
        lemma_length_before_goes_on(s, Seq::empty(), '?', '#');
        assert(s + Seq::<char>::empty() =~= s);
        assert(before_first(path, '?', '#') =~= s);
    }
}

proof fn lemma_length_within(s: Seq<char>, tail: Seq<char>, a: char, b: char)
    requires
        forall|i: int| 0 <= i < s.len() ==> #[trigger] s[i] != a && s[i] != b,
    ensures
        s.len() <= length_before(s + tail, a, b) <= s.len() + tail.len(),
    decreases s.len() + tail.len(),
{
    let whole = s + tail;
    if s.len() > 0 {
        assert(whole[0] == s[0]);
        assert(whole.drop_first() =~= s.drop_first() + tail);
        assert forall|i: int| 0 <= i < s.len() - 1 implies #[trigger] s.drop_first()[i] != a
            && s.drop_first()[i] != b by {
            assert(s.drop_first()[i] == s[i + 1]);
        }
        lemma_length_within(s.drop_first(), tail, a, b);
    } else if tail.len() > 0 {
        assert(whole =~= tail);
        assert(Seq::<char>::empty() + tail.drop_first() =~= tail.drop_first());
        lemma_length_within(Seq::empty(), tail.drop_first(), a, b);
    } else {
        assert(whole =~= Seq::empty());
    }
}

proof fn lemma_host_in(host: Seq<char>, port: Seq<char>)
    requires
        written_host(host),
        written_port(port),
    ensures
        host_in(host + port) == host,
{
    let place = host + port;
    if host.len() > 0 && host[0] == '[' {
        let inner = host.drop_last();
        let rest = seq![']'] + port;
        assert(host =~= inner.push(']'));
        assert(place =~= inner + rest);
        assert forall|i: int| 0 <= i < inner.len() implies #[trigger] inner[i] != ']' by {
            assert(inner.contains(inner[i]));
        }
        lemma_length_before_goes_on(inner, rest, ']', ']');
        assert(before_first(place, ']', ']') =~= inner);
    } else {
        assert forall|i: int| 0 <= i < host.len() implies #[trigger] host[i] != ':' by {
            assert(host.contains(host[i]));
        }
        lemma_length_before_goes_on(host, port, ':', ':');
        assert(before_first(place, ':', ':') =~= host);
        if host.len() == 0 && port.len() > 0 {
            assert(place[0] == ':');
        }
    }
}

/// Credentials go in the clear to this machine alone: whatever userinfo, port and path stand round
/// the host of an `http` address, it is accepted exactly where that host is a loopback one.
pub proof fn law_no_credentials_in_the_clear(
    userinfo: Seq<char>,
    host: Seq<char>,
    port: Seq<char>,
    tail: Seq<char>,
)
    requires
        written_userinfo(userinfo),
        written_host(host),
        written_port(port),
        written_tail(tail),
    ensures
        host_of(userinfo + host + port + tail) == host,
        secure_base_url("http://"@ + (userinfo + host + port + tail)) <==> loopback(host),
{
    reveal_strlit("http://");
    reveal_strlit("https://");
    let authority = userinfo + host + port;
    let rest = authority + tail;
    assert forall|i: int| 0 <= i < authority.len() implies {
        &&& #[trigger] authority[i] != '/'
        &&& authority[i] != '\\'
        &&& authority[i] != '?'
        &&& authority[i] != '#'
    } by {
        if i < userinfo.len() {
            assert(authority[i] == userinfo[i]);
        } else if i < userinfo.len() + host.len() {
            assert(authority[i] == host[i - userinfo.len()]);
        } else {
            assert(authority[i] == port[i - userinfo.len() - host.len()]);
        }
    }
    lemma_authority(authority, tail);
    let n = userinfo.len() as int;
    let place = host + port;
    assert(authority.skip(n) =~= place);
    assert forall|i: int| 0 <= i < place.len() implies place[i] != '@' by {
        if i < host.len() {
            assert(host.contains(host[i]));
        } else {
            assert(port.contains(port[i - host.len()]));
        }
    }
    assert(n > 0 ==> authority[n - 1] == userinfo.last());
    lemma_behind_last(authority, n, '@');
    lemma_host_in(host, port);
    let base_url = "http://"@ + rest;
    assert(base_url.take(7) =~= "http://"@);
    assert(base_url.skip(7) =~= rest);
    assert(base_url[4] == ':' && "https://"@[4] == 's');
    assert(base_url.len() >= 8 ==> base_url.take(8)[4] == ':');
}

/// A request for a path at an address goes to the host of that address.
pub proof fn law_path_keeps_the_host(rest: Seq<char>, path: Seq<char>)
    requires
        path.len() > 0,
        path[0] == '/',
    ensures
        host_of(rest + path) == host_of(rest),
{
    lemma_length_before_goes_on(rest, path, '/', '\\');
    assert(before_first(rest + path, '/', '\\') =~= before_first(rest, '/', '\\'));
}

} // verus!
