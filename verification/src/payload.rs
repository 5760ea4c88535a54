//! The JSON bodies of Snowflake's wire protocol as the proxy reads and
//! edits them: the SQL text and bind variables of a query request, the
//! rewritten request, the flags of a query reply, the facts of a login and
//! of a token renewal. Parsing and serialising are `serde_json`'s; what is
//! read, and what is done with it, is stated here.
use crate::plugin::Session;
use crate::sql::parse::parses_to_one;
use crate::sql::{analysis_of, analyze, QueryAnalysis};
use crate::text::opt_view;
use crate::wire::{
    blame_mismatch, decode_body, encode_body_like, gunzip, gzip_default, login_warehouse, param_in,
};
use serde_json::Value;
use vstd::prelude::*;

verus! {

/// What `serde_json::from_slice::<Value>` parses from `bytes`; `None` when
/// they are no JSON.
pub uninterp spec fn json_parse(bytes: Seq<u8>) -> Option<Value>;

/// What `Value::get` finds under key `key` (`None` unless `v` is an object
/// with that key), cloned.
pub uninterp spec fn json_get(v: Value, key: Seq<char>) -> Option<Value>;

/// What `Value::pointer` finds at the JSON pointer `path`, cloned.
pub uninterp spec fn json_pointer(v: Value, path: Seq<char>) -> Option<Value>;

/// What `Value::as_str` gives: the text of a string value.
pub uninterp spec fn json_as_str(v: Value) -> Option<Seq<char>>;

/// What `Value::as_bool` gives: the value of a boolean.
pub uninterp spec fn json_as_bool(v: Value) -> Option<bool>;

/// What `Value::as_array` gives, by its length.
pub uninterp spec fn json_array_len(v: Value) -> Option<nat>;

/// What `Value`'s `Display` writes: its compact JSON text.
pub uninterp spec fn json_text(v: Value) -> Seq<char>;

/// What `<Value as PartialEq>::eq` answers.
pub uninterp spec fn json_eq(a: Value, b: Value) -> bool;

/// The object `v` with `key` set to the string `text` (`Map::insert`);
/// `None` when `v` is no object.
pub uninterp spec fn json_with_string(v: Value, key: Seq<char>, text: Seq<char>) -> Option<Value>;

/// What `serde_json::to_vec` writes for `v`; `None` when it fails.
pub uninterp spec fn json_bytes(v: Value) -> Option<Seq<u8>>;

/// `serde_json::from_slice::<Value>`; the value is named `json_parse`.
#[verifier::external_body]
fn parse_json(bytes: &[u8]) -> (r: Option<Value>)
    ensures
        r == json_parse(bytes@),
{
    serde_json::from_slice(bytes).ok()
}

/// `Value::get(key)`, cloned; named `json_get`.
#[verifier::external_body]
fn get_field(v: &Value, key: &str) -> (r: Option<Value>)
    ensures
        r == json_get(*v, key@),
{
    v.get(key).cloned()
}

/// `Value::pointer(path)`, cloned; named `json_pointer`.
#[verifier::external_body]
fn get_pointer(v: &Value, path: &str) -> (r: Option<Value>)
    ensures
        r == json_pointer(*v, path@),
{
    v.pointer(path).cloned()
}

/// `Value::as_str`; named `json_as_str`.
#[verifier::external_body]
fn as_text(v: &Value) -> (r: Option<String>)
    ensures
        opt_view(r) == json_as_str(*v),
{
    v.as_str().map(String::from)
}

/// `Value::as_bool`; named `json_as_bool`.
#[verifier::external_body]
fn as_flag(v: &Value) -> (r: Option<bool>)
    ensures
        r == json_as_bool(*v),
{
    v.as_bool()
}

/// `Value::as_array`, by its length; named `json_array_len`.
#[verifier::external_body]
fn array_len(v: &Value) -> (r: Option<usize>)
    ensures
        match json_array_len(*v) {
            Some(n) => r matches Some(k) && k == n,
            None => r is None,
        },
{
    v.as_array().map(|a| a.len())
}

/// `Value`'s `Display`; named `json_text`.
#[verifier::external_body]
fn render(v: &Value) -> (r: String)
    ensures
        r@ == json_text(*v),
{
    v.to_string()
}

/// `<Value as PartialEq>::eq`; named `json_eq`.
#[verifier::external_body]
fn same_json(a: &Value, b: &Value) -> (r: bool)
    ensures
        r == json_eq(*a, *b),
{
    a == b
}

/// `Map::insert(key, Value::String(text))` on the object `v`; named
/// `json_with_string`.
#[verifier::external_body]
fn with_string(v: Value, key: &str, text: &str) -> (r: Option<Value>)
    ensures
        r == json_with_string(v, key@, text@),
{
    let mut v = v;
    v.as_object_mut()?.insert(key.to_string(), Value::String(text.to_string()));
    Some(v)
}

/// `serde_json::to_vec`; named `json_bytes`.
#[verifier::external_body]
fn to_bytes(v: &Value) -> (r: Option<Vec<u8>>)
    ensures
        match json_bytes(*v) {
            Some(b) => r matches Some(x) && x@ == b,
            None => r is None,
        },
{
    serde_json::to_vec(v).ok()
}

/// A field's text, where the field is a string.
pub open spec fn string_at(v: Option<Value>) -> Option<Seq<char>> {
    match v {
        Some(x) => json_as_str(x),
        None => None,
    }
}

fn text_of(v: Option<Value>) -> (r: Option<String>)
    ensures
        opt_view(r) == string_at(v),
{
    match v {
        Some(x) => as_text(&x),
        None => None,
    }
}

/// The body as sent, gzip undone where it is declared gzip.
pub open spec fn decoded(gzip: bool, body: Seq<u8>) -> Option<Seq<u8>> {
    if gzip {
        gunzip(body)
    } else {
        Some(body)
    }
}

/// The JSON of a request body, gzip undone.
pub open spec fn request_json(gzip: bool, body: Seq<u8>) -> Option<Value> {
    match decoded(gzip, body) {
        Some(d) => json_parse(d),
        None => None,
    }
}

/// The JSON of a request body, gzip undone; `None` where it does not
/// decode or is no JSON.
pub fn read_request_json(gzip: bool, body: &[u8]) -> (r: Option<Value>)
    ensures
        r == request_json(gzip, body@),
{
    match decode_body(gzip, body) {
        Some(d) => parse_json(d.as_slice()),
        None => None,
    }
}

/// The bind variables of a query request as JSON text, empty without them.
pub open spec fn bindings_of(payload: Option<Value>) -> Seq<char> {
    match payload {
        Some(p) => match json_get(p, "bindings"@) {
            Some(b) => json_text(b),
            None => Seq::empty(),
        },
        None => Seq::empty(),
    }
}

/// The SQL text of a query request: its `sqlText` field, where the body
/// decodes, is JSON and that field is a string.
pub open spec fn sql_of(payload: Option<Value>) -> Option<Seq<char>> {
    match payload {
        Some(p) => string_at(json_get(p, "sqlText"@)),
        None => None,
    }
}

/// The SQL text of a query request's JSON.
pub fn payload_sql(payload: &Option<Value>) -> (r: Option<String>)
    ensures
        opt_view(r) == sql_of(*payload),
{
    match payload {
        Some(p) => text_of(get_field(p, "sqlText")),
        None => None,
    }
}

/// The bind variables of a query request's JSON, as text.
pub fn payload_bindings(payload: &Option<Value>) -> (r: String)
    ensures
        r@ == bindings_of(*payload),
{
    match payload {
        Some(p) => match get_field(p, "bindings") {
            Some(b) => render(&b),
            None => String::new(),
        },
        None => String::new(),
    }
}

/// The bytes to forward once the SQL text was rewritten to `sql`: the
/// request's JSON with `sqlText` replaced, re-encoded as the client sent
/// it; the body as it came where it does not decode, is no JSON object, or
/// does not serialise.
pub open spec fn rewritten_body_of(gzip: bool, body: Seq<u8>, sql: Seq<char>) -> Seq<u8> {
    match request_json(gzip, body) {
        None => body,
        Some(p) => match json_with_string(p, "sqlText"@, sql) {
            None => body,
            Some(q) => match json_bytes(q) {
                None => body,
                Some(b) => if gzip {
                    match gzip_default(b) {
                        Some(z) => z,
                        None => b,
                    }
                } else {
                    b
                },
            },
        },
    }
}

/// The request body to forward after a rewrite to `sql`.
pub fn rewritten_body(gzip: bool, body: Vec<u8>, sql: &str) -> (r: Vec<u8>)
    ensures
        r@ == rewritten_body_of(gzip, body@, sql@),
{
    let payload = match read_request_json(gzip, body.as_slice()) {
        Some(p) => p,
        None => return body,
    };
    let edited = match with_string(payload, "sqlText", sql) {
        Some(q) => q,
        None => return body,
    };
    match to_bytes(&edited) {
        Some(b) => encode_body_like(gzip, b),
        None => body,
    }
}

/// What a query reply says: its `success` flag is `true`, and its
/// `data.chunks` is a non-empty array (the rows live elsewhere).
pub open spec fn reply_flags_of(reply: Value) -> (bool, bool) {
    (
        match json_get(reply, "success"@) {
            Some(s) => json_as_bool(s) == Some(true),
            None => false,
        },
        match json_pointer(reply, "/data/chunks"@) {
            Some(c) => match json_array_len(c) {
                Some(n) => n > 0,
                None => false,
            },
            None => false,
        },
    )
}

/// Whether a query reply succeeded and whether its rows come in chunks.
pub fn reply_flags(reply: &Value) -> (r: (bool, bool))
    ensures
        r == reply_flags_of(*reply),
{
    let success = match get_field(reply, "success") {
        Some(s) => match as_flag(&s) {
            Some(b) => b,
            None => false,
        },
        None => false,
    };
    let chunked = match get_pointer(reply, "/data/chunks") {
        Some(c) => match array_len(&c) {
            Some(n) => n > 0,
            None => false,
        },
        None => false,
    };
    (success, chunked)
}

/// Two optional JSON values are equal: both absent, or both present and
/// equal.
pub open spec fn same_at(a: Option<Value>, b: Option<Value>) -> bool {
    match (a, b) {
        (None, None) => true,
        (Some(x), Some(y)) => json_eq(x, y),
        _ => false,
    }
}

fn same_opt(a: &Option<Value>, b: &Option<Value>) -> (r: bool)
    ensures
        r == same_at(*a, *b),
{
    match (a, b) {
        (None, None) => true,
        (Some(x), Some(y)) => same_json(x, y),
        _ => false,
    }
}

/// Two replies carry the same rows: `data.rowset` and `data.rowsetBase64`
/// agree.
pub open spec fn same_rows_of(actual: Value, expected: Value) -> bool {
    same_at(json_pointer(actual, "/data/rowset"@), json_pointer(expected, "/data/rowset"@))
        && same_at(
        json_pointer(actual, "/data/rowsetBase64"@),
        json_pointer(expected, "/data/rowsetBase64"@),
    )
}

/// Whether two replies carry the same rows.
pub fn same_rows(actual: &Value, expected: &Value) -> (r: bool)
    ensures
        r == same_rows_of(*actual, *expected),
{
    same_opt(&get_pointer(actual, "/data/rowset"), &get_pointer(expected, "/data/rowset")) && same_opt(
        &get_pointer(actual, "/data/rowsetBase64"),
        &get_pointer(expected, "/data/rowsetBase64"),
    )
}

/// The field `key` of the request's `data` object, where it is a string.
pub open spec fn login_field(request: Option<Value>, key: Seq<char>) -> Option<Seq<char>> {
    match request {
        Some(l) => match json_get(l, "data"@) {
            Some(d) => string_at(json_get(d, key)),
            None => None,
        },
        None => None,
    }
}

/// The session a login creates: under the reply's `data.token`, the
/// request's `LOGIN_NAME` as user and `CLIENT_APP_ID` as application, and
/// the warehouse of `login_warehouse`; nothing without a token.
pub open spec fn login_session_of(request: Option<Value>, reply: Value, query: Option<Seq<char>>) -> Option<
    (Seq<char>, Option<Seq<char>>, Option<Seq<char>>, Option<Seq<char>>),
> {
    match string_at(json_pointer(reply, "/data/token"@)) {
        None => None,
        Some(token) => Some(
            (
                token,
                login_field(request, "LOGIN_NAME"@),
                login_field(request, "CLIENT_APP_ID"@),
                match string_at(json_pointer(reply, "/data/sessionInfo/warehouseName"@)) {
                    Some(w) => if w.len() > 0 {
                        Some(w)
                    } else {
                        match query {
                            Some(q) => param_in(q, "warehouse"@, 0),
                            None => None,
                        }
                    },
                    None => match query {
                        Some(q) => param_in(q, "warehouse"@, 0),
                        None => None,
                    },
                },
            ),
        ),
    }
}

fn login_text(request: &Option<Value>, key: &str) -> (r: Option<String>)
    ensures
        opt_view(r) == login_field(*request, key@),
{
    match request {
        Some(l) => match get_field(l, "data") {
            Some(d) => text_of(get_field(&d, key)),
            None => None,
        },
        None => None,
    }
}

/// The token and session facts a login's request JSON and reply JSON give.
pub fn login_session(request: &Option<Value>, reply: &Value, query: Option<&str>) -> (r: Option<(String, Session)>)
    ensures
        match login_session_of(
            *request,
            *reply,
            match query {
                Some(q) => Some(q@),
                None => None,
            },
        ) {
            None => r is None,
            Some(s) => r matches Some(x) && x.0@ == s.0 && opt_view(x.1.user) == s.1 && opt_view(
                x.1.application_name,
            ) == s.2 && opt_view(x.1.warehouse) == s.3 && x.1.role is None && x.1.query_tag is None,
        },
{
    let token = match text_of(get_pointer(reply, "/data/token")) {
        Some(t) => t,
        None => return None,
    };
    let from_reply = text_of(get_pointer(reply, "/data/sessionInfo/warehouseName"));
    let warehouse = match &from_reply {
        Some(w) => login_warehouse(Some(w.as_str()), query),
        None => login_warehouse(None, query),
    };
    let session = Session {
        user: login_text(request, "LOGIN_NAME"),
        application_name: login_text(request, "CLIENT_APP_ID"),
        warehouse,
        role: None,
        query_tag: None,
    };
    Some((token, session))
}

/// The first of two optional values that is present.
pub open spec fn either(a: Option<Value>, b: Option<Value>) -> Option<Value> {
    match a {
        Some(x) => Some(x),
        None => b,
    }
}

/// The tokens of a renewal: the request's `oldSessionToken` (top level,
/// else under `data`) and the reply's `data.sessionToken` (else
/// `data.token`), where both are strings.
pub open spec fn renewal_of(request: Option<Value>, reply: Value) -> Option<(Seq<char>, Seq<char>)> {
    let old = match request {
        Some(v) => string_at(either(json_get(v, "oldSessionToken"@), json_pointer(v, "/data/oldSessionToken"@))),
        None => None,
    };
    let new = string_at(either(json_pointer(reply, "/data/sessionToken"@), json_pointer(reply, "/data/token"@)));
    match (old, new) {
        (Some(o), Some(n)) => Some((o, n)),
        _ => None,
    }
}

/// The old and the new token of a renewal.
pub fn renewal_tokens(request: &Option<Value>, reply: &Value) -> (r: Option<(String, String)>)
    ensures
        match renewal_of(*request, *reply) {
            None => r is None,
            Some(p) => r matches Some(x) && x.0@ == p.0 && x.1@ == p.1,
        },
{
    let old = match request {
        Some(v) => {
            let top = get_field(v, "oldSessionToken");
            let found = match top {
                Some(t) => Some(t),
                None => get_pointer(v, "/data/oldSessionToken"),
            };
            text_of(found)
        },
        None => None,
    };
    let first = get_pointer(reply, "/data/sessionToken");
    let found = match first {
        Some(t) => Some(t),
        None => get_pointer(reply, "/data/token"),
    };
    let new = text_of(found);
    match (old, new) {
        (Some(o), Some(n)) => Some((o, n)),
        _ => None,
    }
}


/// A reply body's JSON with its flags (`reply_flags_of`); `None` when the
/// body is no JSON.
pub fn read_reply(body: &[u8]) -> (r: Option<(Value, bool, bool)>)
    ensures
        match json_parse(body@) {
            None => r is None,
            Some(v) => r == Some((v, reply_flags_of(v).0, reply_flags_of(v).1)),
        },
{
    match parse_json(body) {
        Some(v) => {
            let (success, chunked) = reply_flags(&v);
            Some((v, success, chunked))
        },
        None => None,
    }
}

/// The blame verdict on a re-run of a cached read: the upstream's answer
/// (`status`, `body`) differs from the cached reply `expected` when it is
/// a successful, unchunked `200` JSON answer with other rows; a body that
/// is no JSON is no evidence.
pub fn blame_verdict(status: u16, body: &[u8], expected: &Value) -> (r: bool)
    ensures
        r == match json_parse(body@) {
            None => false,
            Some(actual) => status == 200 && reply_flags_of(actual).0 && !reply_flags_of(actual).1
                && !same_rows_of(actual, *expected),
        },
{
    match parse_json(body) {
        None => false,
        Some(actual) => {
            let (success, chunked) = reply_flags(&actual);
            blame_mismatch(status, success, chunked, same_rows(&actual, expected))
        },
    }
}

/// The session a login creates, from the request body as sent (gzip where
/// declared) and the reply body; nothing where the reply is no JSON or
/// carries no token.
pub fn login_session_from(gzip: bool, request_body: &[u8], reply_body: &[u8], query: Option<&str>) -> (r:
    Option<(String, Session)>)
    ensures
        match json_parse(reply_body@) {
            None => r is None,
            Some(reply) => match login_session_of(
                request_json(gzip, request_body@),
                reply,
                match query {
                    Some(q) => Some(q@),
                    None => None,
                },
            ) {
                None => r is None,
                Some(s) => r matches Some(x) && x.0@ == s.0 && opt_view(x.1.user) == s.1 && opt_view(
                    x.1.application_name,
                ) == s.2 && opt_view(x.1.warehouse) == s.3 && x.1.role is None && x.1.query_tag is None,
            },
        },
{
    let request = read_request_json(gzip, request_body);
    match parse_json(reply_body) {
        Some(reply) => login_session(&request, &reply, query),
        None => None,
    }
}

/// The old and new tokens of a renewal, from the request body as sent and
/// the reply body; nothing where the reply is no JSON.
pub fn renewal_from(gzip: bool, request_body: &[u8], reply_body: &[u8]) -> (r: Option<(String, String)>)
    ensures
        match json_parse(reply_body@) {
            None => r is None,
            Some(reply) => match renewal_of(request_json(gzip, request_body@), reply) {
                None => r is None,
                Some(p) => r matches Some(x) && x.0@ == p.0 && x.1@ == p.1,
            },
        },
{
    let request = read_request_json(gzip, request_body);
    match parse_json(reply_body) {
        Some(reply) => renewal_tokens(&request, &reply),
        None => None,
    }
}


/// The analysis of a query request as sent, with its bind variables as
/// text: the body's gzip undone where declared, its JSON's `sqlText`
/// analysed. Nothing where the body does not decode, is no JSON, has no
/// string `sqlText`, or that text is not exactly one statement; such
/// requests go upstream as they came.
pub fn request_analysis(gzip: bool, body: &[u8]) -> (r: Option<(QueryAnalysis, String)>)
    ensures
        match sql_of(request_json(gzip, body@)) {
            None => r is None,
            Some(sql) => (r is Some <==> parses_to_one(sql)) && (r matches Some(x) ==> analysis_of(x.0, sql)
                && x.1@ == bindings_of(request_json(gzip, body@))),
        },
{
    let payload = read_request_json(gzip, body);
    let sql = match payload_sql(&payload) {
        Some(s) => s,
        None => return None,
    };
    match analyze(sql.as_str()) {
        Ok(a) => Some((a, payload_bindings(&payload))),
        Err(_) => None,
    }
}

} // verus!
