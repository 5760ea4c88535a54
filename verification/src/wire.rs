//! The Snowflake HTTPS wire shim: the decisions of the proxy.
//!
//! Snowflake drivers speak HTTPS against the account's REST endpoint. The
//! proxy forwards every request verbatim and inspects exactly one:
//! `POST /queries/v1/query-request`, where the SQL lives. There the plugin
//! bus may serve from cache, rewrite the SQL or annotate, and on any
//! internal failure the original request passes through untouched. Auth
//! packets are never inspected or persisted.
//!
//! The sockets, the HTTP framing and the JSON payloads are handled at the
//! edge; what is decided about them is here.
use crate::circuit_breaker::unix_now_ms;
use crate::config::{CoalesceConfig, CoalesceScope};
use crate::keyed::{as_map, distinct_keys};
use crate::plugin::Session;
use crate::sql::fingerprint::{blake3_digest, blake3_hash, hex, push_utf8, spec_hex, utf8};
use crate::text::{
    string_views, find, find_from, from_chars, lemma_find_from, literal_chars, occurs_at, occurs_at_exec, opt_view,
    slice_chars, str_eq, to_chars,
};
use crate::text_map::TextMap;
use std::collections::VecDeque;
use vstd::prelude::*;
use vstd::string::StringExecFns;

verus! {

/// Bodies above this size are never buffered for inspection (64 MiB).
pub const MAX_INSPECT_BYTES: usize = 67_108_864;

/// How long a completed response may be replayed to a driver retry, ms.
pub const DEDUP_TTL_MS: u64 = 60_000;

/// How many completed responses are kept for retry replay.
pub const DEDUP_CAP: usize = 1024;

/// Milliseconds since the Unix epoch (0 before it).
pub fn unix_ms() -> u64 {
    unix_now_ms()
}

// ---------------------------------------------------------------------------
// Query strings and headers

/// Where the `&`-separated segment that starts at `p` ends.
pub open spec fn segment_end(s: Seq<char>, p: int) -> int {
    match find_from(s, "&"@, p) {
        Some(e) => e,
        None => s.len() as int,
    }
}

/// The value of the first `requestId=` segment of a query string, from
/// segment start `p` on.
pub open spec fn request_id_in(s: Seq<char>, p: int) -> Option<Seq<char>>
    decreases s.len() + 1 - p,
{
    if p < 0 || p > s.len() {
        None
    } else {
        let e = segment_end(s, p);
        proof {
            lemma_find_from(s, "&"@, p);
        }
        let seg = s.subrange(p, e);
        if occurs_at(seg, "requestId="@, 0) {
            Some(seg.subrange(10, seg.len() as int))
        } else if e < s.len() {
            request_id_in(s, e + 1)
        } else {
            None
        }
    }
}

/// A character's code with ASCII upper case folded to lower case.
pub open spec fn ascii_fold(c: char) -> u32 {
    let u = c as u32;
    if 65 <= u && u <= 90 {
        (u + 32) as u32
    } else {
        u
    }
}

fn ascii_fold_exec(c: char) -> (r: u32)
    ensures
        r == ascii_fold(c),
{
    let u = c as u32;
    if 65 <= u && u <= 90 {
        u + 32
    } else {
        u
    }
}

/// `str::eq_ignore_ascii_case`.
pub open spec fn eq_ignore_ascii_case(a: Seq<char>, b: Seq<char>) -> bool {
    a.len() == b.len() && forall|i: int| 0 <= i < a.len() ==> ascii_fold(#[trigger] a[i]) == ascii_fold(b[i])
}

pub fn eq_ignore_ascii_case_exec(a: &Vec<char>, b: &Vec<char>) -> (r: bool)
    ensures
        r == eq_ignore_ascii_case(a@, b@),
{
    if a.len() != b.len() {
        return false;
    }
    let mut i: usize = 0;
    while i < a.len()
        invariant
            a.len() == b.len(),
            i <= a.len(),
            forall|j: int| 0 <= j < i ==> ascii_fold(#[trigger] a@[j]) == ascii_fold(b@[j]),
        decreases a.len() - i,
    {
        if ascii_fold_exec(a[i]) != ascii_fold_exec(b[i]) {
            return false;
        }
        i = i + 1;
    }
    true
}

/// The value of the first `name=value` segment (name compared ignoring
/// ASCII case, value non-empty) of a query string, from segment start `p`.
pub open spec fn param_in(s: Seq<char>, name: Seq<char>, p: int) -> Option<Seq<char>>
    decreases s.len() + 1 - p,
{
    if p < 0 || p > s.len() {
        None
    } else {
        let e = segment_end(s, p);
        proof {
            lemma_find_from(s, "&"@, p);
        }
        let seg = s.subrange(p, e);
        let hit = match find_from(seg, "="@, 0) {
            Some(i) => {
                let k = seg.subrange(0, i);
                let v = seg.subrange(i + 1, seg.len() as int);
                if eq_ignore_ascii_case(k, name) && v.len() > 0 {
                    Some(v)
                } else {
                    None
                }
            },
            None => None,
        };
        if hit is Some {
            hit
        } else if e < s.len() {
            param_in(s, name, e + 1)
        } else {
            None
        }
    }
}

/// The `requestId` query parameter drivers repeat when they retry a
/// logical request.
pub fn request_id_from(query: Option<&str>) -> (r: Option<String>)
    ensures
        opt_view(r) == match query {
            Some(q) => request_id_in(q@, 0),
            None => None,
        },
{
    let q = match query {
        Some(q) => q,
        None => {
            return None;
        },
    };
    let s = to_chars(q);
    let amp = literal_chars("&");
    let prefix = literal_chars("requestId=");
    let mut p: usize = 0;
    loop
        invariant
            p <= s.len(),
            query == Some(q),
            s@ == q@,
            amp@ == "&"@,
            prefix@ == "requestId="@,
            request_id_in(s@, 0) == request_id_in(s@, p as int),
        decreases s.len() - p,
    {
        proof {
            reveal_strlit("&");
            reveal_strlit("requestId=");
            lemma_find_from(s@, "&"@, p as int);
        }
        let e = match find(&s, &amp, p) {
            Some(e) => e,
            None => s.len(),
        };
        let seg = slice_chars(&s, p, e);
        assert(segment_end(s@, p as int) == e);
        assert(request_id_in(s@, p as int) == if occurs_at(seg@, "requestId="@, 0) {
            Some(seg@.subrange(10, seg@.len() as int))
        } else if e < s.len() {
            request_id_in(s@, e + 1)
        } else {
            None
        });
        if occurs_at_exec(&seg, &prefix, 0) {
            let v = slice_chars(&seg, 10, seg.len());
            return Some(from_chars(v.as_slice()));
        }
        if e >= s.len() {
            return None;
        }
        p = e + 1;
    }
}

/// A query-string parameter's value (name matched ignoring ASCII case;
/// empty values count as absent).
pub fn query_param(query: Option<&str>, name: &str) -> (r: Option<String>)
    ensures
        opt_view(r) == match query {
            Some(q) => param_in(q@, name@, 0),
            None => None,
        },
{
    let q = match query {
        Some(q) => q,
        None => {
            return None;
        },
    };
    let s = to_chars(q);
    let n = to_chars(name);
    let amp = literal_chars("&");
    let eq = literal_chars("=");
    let mut p: usize = 0;
    loop
        invariant
            p <= s.len(),
            query == Some(q),
            s@ == q@,
            n@ == name@,
            amp@ == "&"@,
            eq@ == "="@,
            param_in(s@, n@, 0) == param_in(s@, n@, p as int),
        decreases s.len() - p,
    {
        proof {
            reveal_strlit("&");
            reveal_strlit("=");
            lemma_find_from(s@, "&"@, p as int);
        }
        let e = match find(&s, &amp, p) {
            Some(e) => e,
            None => s.len(),
        };
        let seg = slice_chars(&s, p, e);
        assert(segment_end(s@, p as int) == e);
        proof {
            lemma_find_from(seg@, "="@, 0);
        }
        match find(&seg, &eq, 0) {
            Some(i) => {
                let k = slice_chars(&seg, 0, i);
                let v = slice_chars(&seg, i + 1, seg.len());
                if eq_ignore_ascii_case_exec(&k, &n) && v.len() > 0 {
                    return Some(from_chars(v.as_slice()));
                }
            },
            None => {},
        }
        if e >= s.len() {
            return None;
        }
        p = e + 1;
    }
}

/// The first index at or after `i` that holds no `c`.
pub open spec fn skip_char(s: Seq<char>, c: char, i: int) -> int
    decreases s.len() - i,
{
    if 0 <= i < s.len() && s[i] == c {
        skip_char(s, c, i + 1)
    } else {
        i
    }
}

/// The end of `s.take(e)` once trailing `c`s are dropped.
pub open spec fn trim_end_char(s: Seq<char>, c: char, e: int) -> int
    decreases e,
{
    if 0 < e <= s.len() && s[e - 1] == c {
        trim_end_char(s, c, e - 1)
    } else {
        e
    }
}

/// `str::trim_matches(c)` for one character `c`.
pub open spec fn trim_matches(s: Seq<char>, c: char) -> Seq<char> {
    let a = skip_char(s, c, 0);
    let b = trim_end_char(s, c, s.len() as int);
    if a < b {
        s.subrange(a, b)
    } else {
        seq![]
    }
}

/// The session token an `Authorization` header carries:
/// `Snowflake Token="<token>"` (drivers) or a bare bearer token.
pub open spec fn token_in(auth: Seq<char>) -> Option<Seq<char>> {
    if occurs_at(auth, "Snowflake Token="@, 0) {
        Some(trim_matches(auth.subrange(16, auth.len() as int), '"'))
    } else if occurs_at(auth, "Bearer "@, 0) {
        Some(auth.subrange(7, auth.len() as int))
    } else {
        None
    }
}

/// The session token of an `Authorization` header value, if any.
pub fn token_from_auth(auth: Option<&str>) -> (r: Option<String>)
    ensures
        opt_view(r) == match auth {
            Some(a) => token_in(a@),
            None => None,
        },
{
    let a = match auth {
        Some(a) => a,
        None => {
            return None;
        },
    };
    let s = to_chars(a);
    let sf = literal_chars("Snowflake Token=");
    let bearer = literal_chars("Bearer ");
    proof {
        reveal_strlit("Snowflake Token=");
        reveal_strlit("Bearer ");
    }
    if occurs_at_exec(&s, &sf, 0) {
        let rest = slice_chars(&s, 16, s.len());
        let mut i: usize = 0;
        while i < rest.len() && rest[i] == '"'
            invariant
                i <= rest.len(),
                skip_char(rest@, '"', 0) == skip_char(rest@, '"', i as int),
            decreases rest.len() - i,
        {
            i = i + 1;
        }
        let mut j = rest.len();
        while j > 0 && rest[j - 1] == '"'
            invariant
                j <= rest.len(),
                trim_end_char(rest@, '"', rest.len() as int) == trim_end_char(rest@, '"', j as int),
            decreases j,
        {
            j = j - 1;
        }
        if i < j {
            let t = slice_chars(&rest, i, j);
            Some(from_chars(t.as_slice()))
        } else {
            Some(String::new())
        }
    } else if occurs_at_exec(&s, &bearer, 0) {
        let rest = slice_chars(&s, 7, s.len());
        Some(from_chars(rest.as_slice()))
    } else {
        None
    }
}

/// Headers that belong to one hop and are never forwarded.
pub open spec fn hop_by_hop(name: Seq<char>) -> bool {
    ||| name == "connection"@
    ||| name == "keep-alive"@
    ||| name == "proxy-authenticate"@
    ||| name == "proxy-authorization"@
    ||| name == "te"@
    ||| name == "trailers"@
    ||| name == "transfer-encoding"@
    ||| name == "upgrade"@
    ||| name == "host"@
    ||| name == "content-length"@
    ||| name == "accept-encoding"@
}

pub fn is_hop_by_hop(name: &str) -> (r: bool)
    ensures
        r == hop_by_hop(name@),
{
    str_eq(name, "connection") || str_eq(name, "keep-alive") || str_eq(name, "proxy-authenticate")
        || str_eq(name, "proxy-authorization") || str_eq(name, "te") || str_eq(name, "trailers")
        || str_eq(name, "transfer-encoding") || str_eq(name, "upgrade") || str_eq(name, "host")
        || str_eq(name, "content-length") || str_eq(name, "accept-encoding")
}

/// Whether a `Content-Encoding` header value says gzip.
pub fn is_gzip(content_encoding: Option<&str>) -> (r: bool)
    ensures
        r == match content_encoding {
            Some(v) => eq_ignore_ascii_case(v@, "gzip"@),
            None => false,
        },
{
    match content_encoding {
        Some(v) => {
            let g = literal_chars("gzip");
            eq_ignore_ascii_case_exec(&to_chars(v), &g)
        },
        None => false,
    }
}

// ---------------------------------------------------------------------------
// Bodies

/// What `flate2::read::GzDecoder` reads to the end from `bytes`; `None`
/// when the stream does not decode.
pub uninterp spec fn gunzip(bytes: Seq<u8>) -> Option<Seq<u8>>;

/// What `flate2::write::GzEncoder` at the default compression level writes
/// for `bytes`; `None` when writing fails.
pub uninterp spec fn gzip_default(bytes: Seq<u8>) -> Option<Seq<u8>>;

/// Decodes a gzip stream with `flate2::read::GzDecoder`; the outcome is
/// named `gunzip`.
#[verifier::external_body]
fn gzip_decode(bytes: &[u8]) -> (r: Option<Vec<u8>>)
    ensures
        match gunzip(bytes@) {
            Some(d) => r matches Some(v) && v@ == d,
            None => r is None,
        },
{
    let mut decoder = flate2::read::GzDecoder::new(bytes);
    let mut out = Vec::new();
    std::io::Read::read_to_end(&mut decoder, &mut out).ok()?;
    Some(out)
}

/// Encodes with `flate2::write::GzEncoder` at the default level; the
/// outcome is named `gzip_default`.
#[verifier::external_body]
fn gzip_encode(bytes: &[u8]) -> (r: Option<Vec<u8>>)
    ensures
        match gzip_default(bytes@) {
            Some(d) => r matches Some(v) && v@ == d,
            None => r is None,
        },
{
    let mut encoder = flate2::write::GzEncoder::new(Vec::new(), flate2::Compression::default());
    std::io::Write::write_all(&mut encoder, bytes).ok()?;
    encoder.finish().ok()
}

/// Decode a request body for inspection. `None` when the body is declared
/// gzip but does not decode: the caller must then pass it through
/// verbatim, never guess.
pub fn decode_body(gzip: bool, bytes: &[u8]) -> (r: Option<Vec<u8>>)
    ensures
        !gzip ==> (r matches Some(v) && v@ == bytes@),
        gzip ==> match gunzip(bytes@) {
            Some(d) => r matches Some(v) && v@ == d,
            None => r is None,
        },
{
    if !gzip {
        let mut v: Vec<u8> = Vec::new();
        let mut i: usize = 0;
        while i < bytes.len()
            invariant
                i <= bytes.len(),
                v@ == bytes@.take(i as int),
            decreases bytes.len() - i,
        {
            v.push(bytes[i]);
            assert(v@ =~= bytes@.take(i + 1));
            i = i + 1;
        }
        assert(bytes@.take(bytes.len() as int) =~= bytes@);
        return Some(v);
    }
    gzip_decode(bytes)
}

/// Re-encode a modified body to match the client's original encoding, or
/// upstream misparses it; should encoding fail, the plain bytes go.
pub fn encode_body_like(gzip: bool, bytes: Vec<u8>) -> (r: Vec<u8>)
    ensures
        !gzip ==> r@ == bytes@,
        gzip ==> r@ == match gzip_default(bytes@) {
            Some(d) => d,
            None => bytes@,
        },
{
    if !gzip {
        return bytes;
    }
    match gzip_encode(bytes.as_slice()) {
        Some(v) => v,
        None => bytes,
    }
}

// ---------------------------------------------------------------------------
// Keys

/// The key under which a completed read is kept for driver-retry replay:
/// the token, the `requestId`, the first 8 bytes of the hard fingerprint
/// and a digest of the bind variables. `requestId` alone is only
/// trustworthy for retries of the same logical request: a client reusing
/// an id with different SQL must never get a stale replay.
pub open spec fn spec_dedup_key(
    token: Seq<char>,
    request_id: Seq<char>,
    fingerprint: Seq<u8>,
    bindings: Seq<char>,
) -> Seq<char> {
    token + ":"@ + request_id + ":"@ + spec_hex(fingerprint.take(8)) + ":"@ + spec_hex(
        blake3_digest(utf8(bindings)),
    )
}

/// The replay key of a query, for deterministic reads that carry a
/// `requestId`.
pub fn dedup_key(
    read_only: bool,
    deterministic: bool,
    token: &str,
    request_id: Option<String>,
    fingerprint: &[u8; 32],
    bindings: &str,
) -> (r: Option<String>)
    ensures
        opt_view(r) == if read_only && deterministic {
            match opt_view(request_id) {
                Some(rid) => Some(spec_dedup_key(token@, rid, fingerprint@, bindings@)),
                None => None,
            }
        } else {
            None
        },
{
    if !(read_only && deterministic) {
        return None;
    }
    let rid = match request_id {
        Some(r) => r,
        None => {
            return None;
        },
    };
    let mut short: Vec<u8> = Vec::new();
    let mut i: usize = 0;
    while i < 8
        invariant
            i <= 8,
            short@ == fingerprint@.take(i as int),
        decreases 8 - i,
    {
        short.push(fingerprint[i]);
        assert(short@ =~= fingerprint@.take(i + 1));
        i = i + 1;
    }
    let mut input: Vec<u8> = Vec::new();
    push_utf8(&mut input, bindings);
    assert(input@ =~= utf8(bindings@));
    let digest = blake3_hash(input.as_slice());
    let mut key = String::from_str(token);
    key.append(":");
    key.append(rid.as_str());
    key.append(":");
    let fp_hex = hex(short.as_slice());
    key.append(fp_hex.as_str());
    key.append(":");
    let digest_hex = hex(&digest);
    key.append(digest_hex.as_str());
    Some(key)
}

/// The bytes hashed for in-flight coalescing: the hard fingerprint, the
/// bind variables and, under the `session` scope, the session token, so
/// row-level security can never leak rows across sessions.
pub open spec fn coalesce_input(
    fingerprint: Seq<u8>,
    bindings: Seq<char>,
    session_scope: bool,
    token: Seq<char>,
) -> Seq<u8> {
    fingerprint + utf8(bindings) + if session_scope {
        utf8(token)
    } else {
        seq![]
    }
}

/// The in-flight coalescing key, or `None` when the query must not
/// coalesce (coalescing off, a write, or anything non-deterministic).
pub fn coalesce_key(
    config: &CoalesceConfig,
    read_only: bool,
    deterministic: bool,
    fingerprint: &[u8; 32],
    bindings: &str,
    token: &str,
) -> (r: Option<[u8; 32]>)
    ensures
        !(config.enabled && read_only && deterministic) ==> r is None,
        config.enabled && read_only && deterministic ==> (r matches Some(k) && k@ == blake3_digest(
            coalesce_input(
                fingerprint@,
                bindings@,
                config.scope == CoalesceScope::Session,
                token@,
            ),
        )),
{
    if !config.enabled || !read_only || !deterministic {
        return None;
    }
    let mut input: Vec<u8> = Vec::new();
    let mut i: usize = 0;
    while i < 32
        invariant
            i <= 32,
            input@ == fingerprint@.take(i as int),
        decreases 32 - i,
    {
        input.push(fingerprint[i]);
        assert(input@ =~= fingerprint@.take(i + 1));
        i = i + 1;
    }
    assert(fingerprint@.take(32) =~= fingerprint@);
    push_utf8(&mut input, bindings);
    let session = match config.scope {
        CoalesceScope::Session => true,
        CoalesceScope::Account => false,
    };
    if session {
        push_utf8(&mut input, token);
    }
    assert(input@ =~= coalesce_input(fingerprint@, bindings@, session, token@));
    Some(blake3_hash(input.as_slice()))
}

// ---------------------------------------------------------------------------
// Upstream addressing and the query path

/// `s` without trailing `/` characters.
pub fn trim_trailing_slashes(s: &str) -> (r: String)
    ensures
        r@ == s@.take(trim_end_char(s@, '/', s@.len() as int)),
{
    let c = to_chars(s);
    let mut j = c.len();
    while j > 0 && c[j - 1] == '/'
        invariant
            j <= c.len(),
            trim_end_char(c@, '/', c.len() as int) == trim_end_char(c@, '/', j as int),
        decreases j,
    {
        j = j - 1;
    }
    let t = slice_chars(&c, 0, j);
    from_chars(t.as_slice())
}

/// The upstream URL of a request: the upstream base followed by the
/// request's path and query.
pub fn upstream_url(base: &str, path_and_query: Option<&str>) -> (r: String)
    ensures
        r@ == base@ + match path_and_query {
            Some(p) => p@,
            None => "/"@,
        },
{
    let mut u = String::from_str(base);
    match path_and_query {
        Some(p) => u.append(p),
        None => u.append("/"),
    }
    u
}

/// The message of a policy veto.
pub fn veto_message(reason: &str) -> (r: String)
    ensures
        r@ == "chukei policy veto: "@ + reason@,
{
    let mut m = String::from_str("chukei policy veto: ");
    m.append(reason);
    m
}

/// A query counts toward cache hits and misses when a cache is configured
/// and the query is a deterministic read of at least one table.
pub fn cache_eligible(cache_present: bool, read_only: bool, deterministic: bool, n_tables: usize) -> (r: bool)
    ensures
        r == (cache_present && read_only && deterministic && n_tables > 0),
{
    cache_present && read_only && deterministic && n_tables > 0
}

/// The route label of a forwarded query.
pub fn forward_route(rewritten: bool) -> (r: &'static str)
    ensures
        r@ == if rewritten {
            "rewritten"@
        } else {
            "passthrough"@
        },
{
    if rewritten {
        "rewritten"
    } else {
        "passthrough"
    }
}

/// A completed upstream response is handed to the plugins' `on_result`
/// when it came back with status 200; its JSON payload travels with it
/// only when it reports success and carries no chunk list (chunked Arrow
/// downloads carry expiring URLs).
pub fn result_payload_kept(success: bool, has_chunks: bool) -> (r: bool)
    ensures
        r == (success && !has_chunks),
{
    success && !has_chunks
}

/// A write that upstream accepted invalidates the cached reads of the
/// tables it touched.
pub fn invalidates_cache(read_only: bool, status: u16) -> (r: bool)
    ensures
        r == (!read_only && status == 200),
{
    !read_only && status == 200
}

/// Blame mode's verdict on a cache hit re-run upstream: a mismatch is a
/// successful, unchunked `200` answer whose rows differ from the cached
/// ones. Anything else (an error, a chunked answer) is no evidence either
/// way.
pub fn blame_mismatch(status: u16, success: bool, has_chunks: bool, same_rows: bool) -> (r: bool)
    ensures
        r == (status == 200 && success && !has_chunks && !same_rows),
{
    status == 200 && success && !has_chunks && !same_rows
}

/// The warehouse of a new session: the login response's warehouse when it
/// names one, else the request's `?warehouse=` parameter.
pub fn login_warehouse(from_response: Option<&str>, query: Option<&str>) -> (r: Option<String>)
    ensures
        opt_view(r) == match from_response {
            Some(w) => if w@.len() > 0 {
                Some(w@)
            } else {
                match query {
                    Some(q) => param_in(q@, "warehouse"@, 0),
                    None => None,
                }
            },
            None => match query {
                Some(q) => param_in(q@, "warehouse"@, 0),
                None => None,
            },
        },
{
    match from_response {
        Some(w) => if !w.is_empty() {
            return Some(String::from_str(w));
        },
        None => {},
    }
    query_param(query, "warehouse")
}

/// A warehouse name as `USE WAREHOUSE` wrote it, without quotes.
pub fn unquoted(name: &str) -> (r: String)
    ensures
        r@ == name@.filter(|c: char| c != '"'),
{
    let c = to_chars(name);
    let mut out: Vec<char> = Vec::new();
    let mut i: usize = 0;
    while i < c.len()
        invariant
            i <= c.len(),
            out@ == c@.take(i as int).filter(|c: char| c != '"'),
        decreases c.len() - i,
    {
        proof {
            assert(c@.take(i + 1) =~= c@.take(i as int).push(c@[i as int]));
            c@.take(i as int).lemma_filter_push(c@[i as int], |c: char| c != '"');
        }
        if c[i] != '"' {
            out.push(c[i]);
        }
        i = i + 1;
    }
    assert(c@.take(c.len() as int) =~= c@);
    from_chars(out.as_slice())
}

// ---------------------------------------------------------------------------
// Session facts by token

/// Session facts captured at login, by session token. Tokens are held in
/// memory only, never logged, never persisted.
pub struct Sessions {
    by_token: TextMap<Session>,
}

impl View for Sessions {
    type V = Map<Seq<char>, Session>;

    closed spec fn view(&self) -> Map<Seq<char>, Session> {
        self.by_token@
    }
}

impl Sessions {
    pub fn new() -> (r: Self)
        ensures
            r@ == Map::<Seq<char>, Session>::empty(),
    {
        Sessions { by_token: TextMap::new() }
    }

    /// Remember the facts of a new session.
    pub fn insert(&mut self, token: String, session: Session)
        ensures
            final(self)@ == old(self)@.insert(token@, session),
    {
        self.by_token.insert(token, session);
    }

    pub fn get(&self, token: &str) -> (r: Option<&Session>)
        ensures
            match r {
                Some(s) => self@.contains_key(token@) && *s == self@[token@],
                None => !self@.contains_key(token@),
            },
    {
        self.by_token.get(token)
    }

    /// A renewed token takes over the old token's facts; the old token
    /// is forgotten. Nothing changes for an unknown old token.
    pub fn rekey(&mut self, old_token: &str, new_token: String)
        ensures
            old(self)@.contains_key(old_token@) ==> final(self)@ == old(self)@.remove(
                old_token@,
            ).insert(new_token@, old(self)@[old_token@]),
            !old(self)@.contains_key(old_token@) ==> final(self)@ == old(self)@,
    {
        match self.by_token.remove(old_token) {
            Some(s) => self.by_token.insert(new_token, s),
            None => {},
        }
    }

    /// Record the warehouse a `USE WAREHOUSE` switched a known session to.
    pub fn set_warehouse(&mut self, token: &str, warehouse: String)
        ensures
            old(self)@.contains_key(token@) ==> {
                &&& final(self)@.dom() == old(self)@.dom()
                &&& final(self)@[token@].warehouse == Some(warehouse)
                &&& final(self)@[token@].user == old(self)@[token@].user
                &&& final(self)@[token@].application_name == old(self)@[token@].application_name
                &&& forall|t: Seq<char>| t != token@ && #[trigger] old(self)@.contains_key(t) ==> final(self)@[t] == old(self)@[t]
            },
            !old(self)@.contains_key(token@) ==> final(self)@ == old(self)@,
    {
        match self.by_token.remove(token) {
            Some(s) => {
                let updated = Session {
                    user: s.user,
                    application_name: s.application_name,
                    warehouse: Some(warehouse),
                    role: s.role,
                    query_tag: s.query_tag,
                };
                let t = String::from_str(token);
                self.by_token.insert(t, updated);
                assert(self@.dom() =~= old(self)@.dom());
            },
            None => {},
        }
    }
}

// ---------------------------------------------------------------------------
// Completed responses for driver-retry replay

/// A kept response: status, body, canonical elapsed ms, inserted at ms.
pub type Kept = (u16, Vec<u8>, u64, u64);

/// Completed read-only responses keyed by replay key, oldest first.
pub struct RecentResponses {
    map: TextMap<Kept>,
    order: VecDeque<String>,
}

/// The abstract kept response: status, body bytes, elapsed, inserted at.
pub open spec fn kept_view(k: Kept) -> (u16, Seq<u8>, u64, u64) {
    (k.0, k.1@, k.2, k.3)
}

/// The abstract view of a map of kept responses.
pub open spec fn kept_map(m: Map<Seq<char>, Kept>) -> Map<Seq<char>, (u16, Seq<u8>, u64, u64)> {
    Map::new(|k: Seq<char>| m.contains_key(k), |k: Seq<char>| kept_view(m[k]))
}

impl RecentResponses {
    pub closed spec fn spec_map(&self) -> Map<Seq<char>, (u16, Seq<u8>, u64, u64)> {
        kept_map(self.map@)
    }

    /// The keys in insertion order (a key re-kept appears again).
    pub closed spec fn spec_order(&self) -> Seq<Seq<char>> {
        string_views(self.order@)
    }

    #[verifier::type_invariant]
    closed spec fn wf(&self) -> bool {
        &&& self.order@.len() <= DEDUP_CAP
        &&& forall|k: Seq<char>| #[trigger] self.map@.contains_key(k) ==> self.spec_order().contains(k)
    }
}

/// Whether a response kept at `at` may still be replayed at `now`.
pub open spec fn replayable(at: u64, now: u64) -> bool {
    (if now >= at {
        now - at
    } else {
        0
    }) <= DEDUP_TTL_MS
}

impl Default for RecentResponses {
    fn default() -> (r: Self)
        ensures
            r.spec_map() == Map::<Seq<char>, (u16, Seq<u8>, u64, u64)>::empty(),
            r.spec_order() == Seq::<Seq<char>>::empty(),
    {
        let r = RecentResponses { map: TextMap::new(), order: VecDeque::new() };
        assert(r.spec_map() =~= Map::<Seq<char>, (u16, Seq<u8>, u64, u64)>::empty());
        assert(r.spec_order() =~= Seq::<Seq<char>>::empty());
        r
    }
}

impl RecentResponses {
    /// The response kept under `key`, if it is young enough to replay.
    pub fn get(&self, key: &str, now_ms: u64) -> (r: Option<(u16, Vec<u8>, u64)>)
        ensures
            match r {
                Some((status, body, elapsed)) => self.spec_map().contains_key(key@) && replayable(
                    self.spec_map()[key@].3,
                    now_ms,
                ) && status == self.spec_map()[key@].0 && body@ == self.spec_map()[key@].1
                    && elapsed == self.spec_map()[key@].2,
                None => !self.spec_map().contains_key(key@) || !replayable(
                    self.spec_map()[key@].3,
                    now_ms,
                ),
            },
    {
        match self.map.get(key) {
            Some(k) => {
                if now_ms.saturating_sub(k.3) <= DEDUP_TTL_MS {
                    let body = k.1.clone();
                    assert(body@ =~= k.1@);
                    Some((k.0, body, k.2))
                } else {
                    None
                }
            },
            None => None,
        }
    }

    /// Keep a completed response under `key`; the oldest keys go first
    /// once `DEDUP_CAP` are kept.
    pub fn put(&mut self, key: String, status: u16, body: Vec<u8>, elapsed_ms: u64, now_ms: u64)
        ensures
            ({
                let n = old(self).spec_order().len();
                let k = if n >= DEDUP_CAP {
                    n - DEDUP_CAP + 1
                } else {
                    0
                };
                let gone = old(self).spec_order().take(k).to_set();
                &&& final(self).spec_order() == old(self).spec_order().skip(k).push(key@)
                &&& final(self).spec_map() == old(self).spec_map().remove_keys(gone).insert(
                    key@,
                    (status, body@, elapsed_ms, now_ms),
                )
            }),
            final(self).spec_order().len() <= DEDUP_CAP,
    {
        proof {
            use_type_invariant(&*self);
        }
        let ghost old_order = self.spec_order();
        let ghost old_map = self.spec_map();
        let ghost n = old_order.len();
        let ghost k = if n >= DEDUP_CAP {
            n - DEDUP_CAP + 1
        } else {
            0
        };
        let mut map = TextMap::new();
        let mut order: VecDeque<String> = VecDeque::new();
        std::mem::swap(&mut map, &mut self.map);
        std::mem::swap(&mut order, &mut self.order);
        let ghost mut popped: int = 0;
        assert(old_order.take(0).to_set() =~= Set::<Seq<char>>::empty());
        assert(old_order.skip(0) =~= old_order);
        assert(kept_map(map@) =~= old_map.remove_keys(old_order.take(0).to_set()));
        while order.len() >= DEDUP_CAP
            invariant
                0 <= popped <= n,
                n == old_order.len(),
                string_views(order@) == old_order.skip(popped),
                n >= DEDUP_CAP ==> popped <= n - DEDUP_CAP + 1,
                n < DEDUP_CAP ==> popped == 0,
                kept_map(map@) == old_map.remove_keys(old_order.take(popped).to_set()),
            decreases order.len(),
        {
            let ghost before = order@;
            let ghost prev_map = map@;
            match order.pop_front() {
                Some(evicted) => {
                    let ghost ev = evicted@;
                    let _ = map.remove(evicted.as_str());
                    proof {
                        assert(kept_map(map@) =~= kept_map(prev_map).remove(ev));
                        let s0 = old_order.take(popped).to_set();
                        assert(old_map.remove_keys(s0).remove(ev) =~= old_map.remove_keys(s0.insert(ev)));
                        assert(before.len() > 0);
                        assert(string_views(before).len() == before.len());
                        assert(old_order.len() == n);
                        assert(old_order.skip(popped).len() == n - popped);
                        assert(popped < n);
                        assert(string_views(before)[0] == ev);
                        assert(old_order.skip(popped)[0] == ev);
                        assert(old_order[popped] == ev);
                        assert(order@ == before.subrange(1, before.len() as int));
                        assert(old_order.take(popped + 1).to_set() =~= old_order.take(
                            popped,
                        ).to_set().insert(ev)) by {
                            let t1 = old_order.take(popped + 1);
                            let t0 = old_order.take(popped);
                            assert(t1 =~= t0.push(ev));
                            assert forall|x: Seq<char>| t1.contains(x) implies t0.contains(x) || x == ev by {
                                let i = choose|i: int| 0 <= i < t1.len() && t1[i] == x;
                                if i < t0.len() {
                                    assert(t0[i] == x);
                                }
                            }
                            assert forall|x: Seq<char>| t0.contains(x) || x == ev implies t1.contains(x) by {
                                if x == ev {
                                    assert(t1[t0.len() as int] == x);
                                } else {
                                    let i = choose|i: int| 0 <= i < t0.len() && t0[i] == x;
                                    assert(t1[i] == x);
                                }
                            }
                        }
                        assert forall|i: int| 0 <= i < order@.len() implies #[trigger] string_views(order@)[i]
                            == old_order.skip(popped + 1)[i] by {
                            assert(order@[i] == before[i + 1]);
                            assert(string_views(before)[i + 1] == old_order.skip(popped)[i + 1]);
                        }
                        assert(string_views(order@) =~= old_order.skip(popped + 1));
                        popped = popped + 1;
                    }
                },
                None => {},
            }
        }
        assert(popped == k);
        let ghost kv = key@;
        let ghost entry = (status, body@, elapsed_ms, now_ms);
        let key2 = key.clone();
        let ghost prev = map@;
        map.insert(key, (status, body, elapsed_ms, now_ms));
        order.push_back(key2);
        let ghost new_order = string_views(order@);
        assert(new_order =~= old_order.skip(k).push(kv));
        assert forall|x: Seq<char>| #[trigger] map@.contains_key(x) implies new_order.contains(x) by {
            if x != kv {
                assert(prev.contains_key(x));
                assert(kept_map(prev).contains_key(x));
                assert(old_map.contains_key(x));
                assert(!old_order.take(k).to_set().contains(x));
                assert(old_order.contains(x));
                let i = choose|i: int| 0 <= i < old_order.len() && old_order[i] == x;
                if i < k {
                    assert(old_order.take(k)[i] == x);
                    assert(old_order.take(k).contains(x));
                }
                assert(new_order[i - k] == x);
            } else {
                assert(new_order[new_order.len() - 1] == x);
            }
        }
        *self = RecentResponses { map, order };
        assert(self.spec_order() =~= old_order.skip(k).push(kv));
        assert(self.spec_map() =~= old_map.remove_keys(old_order.take(k).to_set()).insert(kv, entry));
    }

    /// How many responses are kept: never more than `DEDUP_CAP`.
    pub fn len(&self) -> (r: usize)
        ensures
            r == self.spec_map().dom().len(),
            r <= DEDUP_CAP,
    {
        proof {
            use_type_invariant(self);
        }
        let n = self.map.len();
        assert(self.spec_map().dom() =~= self.map@.dom());
        proof {
            let order = self.spec_order();
            order.lemma_cardinality_of_set();
            assert(self.map@.dom().subset_of(order.to_set()));
            vstd::seq_lib::seq_to_set_is_finite(order);
            vstd::set_lib::lemma_len_subset(self.map@.dom(), order.to_set());
        }
        n
    }
}


/// What the handling of one inspected query has just learnt.
#[derive(Debug, Clone, Copy, PartialEq, Eq)]
pub enum QueryEvent {
    /// The statement was analysed; `dedup` when it has a retry key.
    Analysed { dedup: bool },
    /// The retry store was searched.
    ReplayLooked { found: bool },
    /// The plugin bus decided: a veto, and whether it named a cache entry
    /// while a cache is configured.
    Decided { vetoed: bool, cache_key: bool },
    /// The cache was searched under the bus's key.
    CacheLooked { found: bool },
}

/// What the edge answers without going upstream.
#[derive(Debug, Clone, Copy, PartialEq, Eq)]
pub enum ShortAnswer {
    Replayed,
    Vetoed,
    Cached,
}

/// What the edge does next with an inspected query.
#[derive(Debug, Clone, Copy, PartialEq, Eq)]
pub enum QueryStep {
    /// Search the completed responses kept for driver retries.
    LookUpReplay,
    /// Run the plugin bus.
    Decide,
    /// Search the cache under the bus's key.
    LookUpCache,
    /// Send the (possibly rewritten) query upstream, joining or leading an
    /// in-flight identical read, then record what came back.
    Forward,
    /// Answer at once.
    Respond(ShortAnswer),
}

/// The order of an inspected query's handling: a retry is replayed before
/// anything else, a veto stops the query before the cache, a cached result
/// is served before going upstream, and everything else goes upstream.
pub open spec fn next_query_step(e: QueryEvent) -> QueryStep {
    match e {
        QueryEvent::Analysed { dedup } => if dedup {
            QueryStep::LookUpReplay
        } else {
            QueryStep::Decide
        },
        QueryEvent::ReplayLooked { found } => if found {
            QueryStep::Respond(ShortAnswer::Replayed)
        } else {
            QueryStep::Decide
        },
        QueryEvent::Decided { vetoed, cache_key } => if vetoed {
            QueryStep::Respond(ShortAnswer::Vetoed)
        } else if cache_key {
            QueryStep::LookUpCache
        } else {
            QueryStep::Forward
        },
        QueryEvent::CacheLooked { found } => if found {
            QueryStep::Respond(ShortAnswer::Cached)
        } else {
            QueryStep::Forward
        },
    }
}

/// The next step of an inspected query after `e`.
pub fn query_step(e: QueryEvent) -> (r: QueryStep)
    ensures
        r == next_query_step(e),
{
    match e {
        QueryEvent::Analysed { dedup } => if dedup {
            QueryStep::LookUpReplay
        } else {
            QueryStep::Decide
        },
        QueryEvent::ReplayLooked { found } => if found {
            QueryStep::Respond(ShortAnswer::Replayed)
        } else {
            QueryStep::Decide
        },
        QueryEvent::Decided { vetoed, cache_key } => if vetoed {
            QueryStep::Respond(ShortAnswer::Vetoed)
        } else if cache_key {
            QueryStep::LookUpCache
        } else {
            QueryStep::Forward
        },
        QueryEvent::CacheLooked { found } => if found {
            QueryStep::Respond(ShortAnswer::Cached)
        } else {
            QueryStep::Forward
        },
    }
}

} // verus!
