//! The offline savings simulator: reading a `QUERY_HISTORY` export and the
//! counting behind the projection.
//!
//! Rows are replayed in start-time order (CSV exports are not guaranteed
//! time-ordered, and every time-based projection is order-sensitive; rows
//! without a timestamp come first). Pricing the counted queries happens at
//! the edge, in fractional dollars.
use crate::cache::index::{EntryIndex, key_set};
use crate::error::{Error, Result};
use crate::text::{
    find, from_chars, literal_chars, opt_view, slice_chars, str_eq, string_views, to_chars,
    to_lowercase, trim_chars, trimmed, unicode_lowercase,
};
use crate::text_map::TextMap;
use vstd::prelude::*;
use vstd::string::StringExecFns;

verus! {

/// One row of query history. Header matching is case-insensitive; only
/// `query_text` is required.
#[derive(Debug, Clone)]
pub struct HistoryRow {
    pub query_id: Option<String>,
    pub query_text: String,
    pub user_name: Option<String>,
    pub warehouse_name: Option<String>,
    pub warehouse_size: Option<String>,
    /// Start time, Unix milliseconds.
    pub start_time_ms: Option<i64>,
    pub total_elapsed_ms: Option<u64>,
    pub bytes_scanned: Option<u64>,
    pub rows_produced: Option<u64>,
    pub query_tag: Option<String>,
}

// ---------------------------------------------------------------------------
// Numbers and times

/// The value of a run of ASCII digits.
pub open spec fn digits_value(d: Seq<char>) -> nat
    decreases d.len(),
{
    if d.len() == 0 {
        0
    } else {
        (digits_value(d.drop_last()) * 10 + (d.last() as int - '0' as int)) as nat
    }
}

pub open spec fn all_digits(d: Seq<char>) -> bool {
    forall|i: int| 0 <= i < d.len() ==> '0' <= #[trigger] d[i] && d[i] <= '9'
}

/// `str::parse::<u64>`: an optional `+`, then one or more ASCII digits,
/// within range.
pub open spec fn decimal_u64(s: Seq<char>) -> Option<u64> {
    let d = if s.len() > 0 && s[0] == '+' {
        s.drop_first()
    } else {
        s
    };
    if d.len() > 0 && all_digits(d) && digits_value(d) <= u64::MAX {
        Some(digits_value(d) as u64)
    } else {
        None
    }
}

pub fn parse_u64(s: &str) -> (r: Option<u64>)
    ensures
        r == decimal_u64(s@),
{
    let c = to_chars(s);
    let start: usize = if c.len() > 0 && c[0] == '+' {
        1
    } else {
        0
    };
    let ghost d = if c@.len() > 0 && c@[0] == '+' {
        c@.drop_first()
    } else {
        c@
    };
    assert(d =~= c@.subrange(start as int, c@.len() as int));
    if start >= c.len() {
        return None;
    }
    let mut v: u64 = 0;
    let mut i = start;
    while i < c.len()
        invariant
            start <= i <= c.len(),
            c@ == s@,
            d == (if c@.len() > 0 && c@[0] == '+' {
                c@.drop_first()
            } else {
                c@
            }),
            d == c@.subrange(start as int, c@.len() as int),
            forall|j: int| start <= j < i ==> '0' <= #[trigger] c@[j] && c@[j] <= '9',
            v as nat == digits_value(c@.subrange(start as int, i as int)),
        decreases c.len() - i,
    {
        let ch = c[i];
        if ch < '0' || ch > '9' {
            assert(d[i - start] == ch);
            return None;
        }
        assert(c@.subrange(start as int, i + 1).drop_last() =~= c@.subrange(start as int, i as int));
        let digit = (ch as u32 - '0' as u32) as u64;
        if v > (u64::MAX - digit) / 10 {
            proof {
                assert(digits_value(c@.subrange(start as int, i + 1)) == v * 10 + digit);
                assert(v * 10 + digit > u64::MAX) by (nonlinear_arith)
                    requires
                        v > (u64::MAX - digit) / 10,
                        digit <= 9,
                ;
                if all_digits(d) {
                    assert(d.take(i + 1 - start) =~= c@.subrange(start as int, i + 1));
                    lemma_digits_value_grows(d, i + 1 - start);
                }
            }
            return None;
        }
        proof {
            assert(v * 10 + digit <= u64::MAX) by (nonlinear_arith)
                requires
                    v <= (u64::MAX - digit) / 10,
                    digit <= 9,
            ;
        }
        v = v * 10 + digit;
        i = i + 1;
    }
    assert(c@.subrange(start as int, c@.len() as int) =~= d);
    Some(v)
}

/// A longer run of digits is worth at least as much as its prefix.
proof fn lemma_digits_value_grows(d: Seq<char>, k: int)
    requires
        0 <= k <= d.len(),
        all_digits(d),
    ensures
        digits_value(d) >= digits_value(d.take(k)),
    decreases d.len(),
{
    if d.len() > k {
        assert(all_digits(d.drop_last()));
        assert(d.drop_last().take(k) =~= d.take(k));
        lemma_digits_value_grows(d.drop_last(), k);
    } else {
        assert(d.take(k) =~= d);
    }
}

/// What `DateTime::parse_from_rfc3339` reads from a text, as Unix
/// milliseconds (`timestamp_millis` of the instant).
pub uninterp spec fn rfc3339_ms(s: Seq<char>) -> Option<int>;

/// What `DateTime::parse_from_str(text, fmt)` reads, as Unix milliseconds.
pub uninterp spec fn offset_time_ms(s: Seq<char>, fmt: Seq<char>) -> Option<int>;

/// What `NaiveDateTime::parse_from_str(text, fmt)` reads, taken as UTC, as
/// Unix milliseconds.
pub uninterp spec fn naive_time_ms(s: Seq<char>, fmt: Seq<char>) -> Option<int>;

/// `DateTime::parse_from_rfc3339`, the instant in Unix ms; named
/// `rfc3339_ms`.
#[verifier::external_body]
fn parse_rfc3339(s: &str) -> (r: Option<i64>)
    ensures
        match rfc3339_ms(s@) {
            Some(t) => r == Some(t as i64) && i64::MIN <= t <= i64::MAX,
            None => r is None,
        },
{
    chrono::DateTime::parse_from_rfc3339(s).ok().map(|t| t.timestamp_millis())
}

/// `DateTime::parse_from_str`, the instant in Unix ms; named
/// `offset_time_ms`.
#[verifier::external_body]
fn parse_offset_time(s: &str, fmt: &str) -> (r: Option<i64>)
    ensures
        match offset_time_ms(s@, fmt@) {
            Some(t) => r == Some(t as i64) && i64::MIN <= t <= i64::MAX,
            None => r is None,
        },
{
    chrono::DateTime::parse_from_str(s, fmt).ok().map(|t| t.timestamp_millis())
}

/// `NaiveDateTime::parse_from_str` taken as UTC, in Unix ms; named
/// `naive_time_ms`.
#[verifier::external_body]
fn parse_naive_time(s: &str, fmt: &str) -> (r: Option<i64>)
    ensures
        match naive_time_ms(s@, fmt@) {
            Some(t) => r == Some(t as i64) && i64::MIN <= t <= i64::MAX,
            None => r is None,
        },
{
    chrono::NaiveDateTime::parse_from_str(s, fmt).ok().map(|t| t.and_utc().timestamp_millis())
}

/// The formats a start time is tried in after RFC 3339, in order.
pub open spec fn time_formats() -> Seq<Seq<char>> {
    seq!["%Y-%m-%d %H:%M:%S%.f %z"@, "%Y-%m-%d %H:%M:%S%.f"@, "%Y-%m-%d %H:%M:%S"@]
}

/// A start time: RFC 3339 first, then each format, with an offset and then
/// as UTC.
pub open spec fn start_time(s: Seq<char>) -> Option<int> {
    if rfc3339_ms(s) is Some {
        rfc3339_ms(s)
    } else if offset_time_ms(s, time_formats()[0]) is Some {
        offset_time_ms(s, time_formats()[0])
    } else if naive_time_ms(s, time_formats()[0]) is Some {
        naive_time_ms(s, time_formats()[0])
    } else if offset_time_ms(s, time_formats()[1]) is Some {
        offset_time_ms(s, time_formats()[1])
    } else if naive_time_ms(s, time_formats()[1]) is Some {
        naive_time_ms(s, time_formats()[1])
    } else if offset_time_ms(s, time_formats()[2]) is Some {
        offset_time_ms(s, time_formats()[2])
    } else {
        naive_time_ms(s, time_formats()[2])
    }
}

pub fn parse_time(s: &str) -> (r: Option<i64>)
    ensures
        match start_time(s@) {
            Some(t) => r == Some(t as i64),
            None => r is None,
        },
{
    if let Some(t) = parse_rfc3339(s) {
        return Some(t);
    }
    let f0 = "%Y-%m-%d %H:%M:%S%.f %z";
    let f1 = "%Y-%m-%d %H:%M:%S%.f";
    let f2 = "%Y-%m-%d %H:%M:%S";
    assert(time_formats()[0] == f0@ && time_formats()[1] == f1@ && time_formats()[2] == f2@);
    if let Some(t) = parse_offset_time(s, f0) {
        return Some(t);
    }
    if let Some(t) = parse_naive_time(s, f0) {
        return Some(t);
    }
    if let Some(t) = parse_offset_time(s, f1) {
        return Some(t);
    }
    if let Some(t) = parse_naive_time(s, f1) {
        return Some(t);
    }
    if let Some(t) = parse_offset_time(s, f2) {
        return Some(t);
    }
    parse_naive_time(s, f2)
}

// ---------------------------------------------------------------------------
// CSV rows

/// What the `csv` crate (flexible records, first line the header) reads
/// from a text: the header fields and the records' fields; or, on failure,
/// whether the header failed (else a record) and the error's message.
pub uninterp spec fn csv_table(data: Seq<u8>) -> std::result::Result<(Seq<Seq<char>>, Seq<Seq<Seq<char>>>), (bool, Seq<char>)>;

/// The result of `read_table`.
pub enum CsvRead {
    Table(Vec<String>, Vec<Vec<String>>),
    HeaderError(String),
    RecordError(String),
}

pub open spec fn records_view(r: Seq<Vec<String>>) -> Seq<Seq<Seq<char>>> {
    r.map_values(|rec: Vec<String>| string_views(rec@))
}

/// Reads a CSV text with `csv::ReaderBuilder::new().flexible(true)`; the
/// outcome is named `csv_table`.
#[verifier::external_body]
fn read_table(data: &[u8]) -> (r: CsvRead)
    ensures
        match csv_table(data@) {
            Ok((h, rs)) => r matches CsvRead::Table(hv, rv) && string_views(hv@) == h
                && records_view(rv@) == rs,
            Err((true, m)) => r matches CsvRead::HeaderError(e) && e@ == m,
            Err((false, m)) => r matches CsvRead::RecordError(e) && e@ == m,
        },
{
    let mut reader = csv::ReaderBuilder::new().flexible(true).from_reader(data);
    let headers: Vec<String> = match reader.headers() {
        Ok(h) => h.iter().map(String::from).collect(),
        Err(e) => return CsvRead::HeaderError(e.to_string()),
    };
    let mut records = Vec::new();
    for record in reader.records() {
        match record {
            Ok(rec) => records.push(rec.iter().map(String::from).collect()),
            Err(e) => return CsvRead::RecordError(e.to_string()),
        }
    }
    CsvRead::Table(headers, records)
}

/// A header as matched: trimmed and lower-cased.
pub open spec fn header_key(h: Seq<char>) -> Seq<char> {
    unicode_lowercase(trimmed(h))
}

/// The position of the first header named `name`.
pub open spec fn column(headers: Seq<Seq<char>>, name: Seq<char>) -> Option<int> {
    if exists|i: int| 0 <= i < headers.len() && header_key(headers[i]) == name {
        Some(choose|i: int| 0 <= i < headers.len() && header_key(headers[i]) == name && (forall|j: int| 0 <= j < i ==> header_key(headers[j]) != name))
    } else {
        None
    }
}

/// A record's field at an optional column, trimmed; absent when the column
/// or the field is missing or blank.
pub open spec fn field(rec: Seq<Seq<char>>, col: Option<int>) -> Option<Seq<char>> {
    match col {
        Some(i) => if 0 <= i < rec.len() && trimmed(rec[i]).len() > 0 {
            Some(trimmed(rec[i]))
        } else {
            None
        },
        None => None,
    }
}

/// A row read from a record under the given headers.
pub open spec fn row_from(row: HistoryRow, headers: Seq<Seq<char>>, rec: Seq<Seq<char>>) -> bool {
    &&& field(rec, column(headers, "query_text"@)) == Some(row.query_text@)
    &&& opt_view(row.query_id) == field(rec, column(headers, "query_id"@))
    &&& opt_view(row.user_name) == field(rec, column(headers, "user_name"@))
    &&& opt_view(row.warehouse_name) == field(rec, column(headers, "warehouse_name"@))
    &&& opt_view(row.warehouse_size) == field(rec, column(headers, "warehouse_size"@))
    &&& row.start_time_ms == match field(rec, column(headers, "start_time"@)) {
        Some(t) => match start_time(t) {
            Some(ms) => Some(ms as i64),
            None => None,
        },
        None => None,
    }
    &&& row.total_elapsed_ms == match field(rec, column(headers, "total_elapsed_time"@)) {
        Some(t) => decimal_u64(t),
        None => None,
    }
    &&& row.bytes_scanned == match field(rec, column(headers, "bytes_scanned"@)) {
        Some(t) => decimal_u64(t),
        None => None,
    }
    &&& row.rows_produced == match field(rec, column(headers, "rows_produced"@)) {
        Some(t) => decimal_u64(t),
        None => None,
    }
    &&& opt_view(row.query_tag) == field(rec, column(headers, "query_tag"@))
}

/// A record carries a query text.
pub open spec fn has_text(headers: Seq<Seq<char>>) -> spec_fn(Seq<Seq<char>>) -> bool {
    |rec: Seq<Seq<char>>| field(rec, column(headers, "query_text"@)) is Some
}

/// The records that carry a query text.
pub open spec fn kept_records(headers: Seq<Seq<char>>, recs: Seq<Seq<Seq<char>>>) -> Seq<Seq<Seq<char>>> {
    recs.filter(has_text(headers))
}

pub open spec fn as_col(o: Option<usize>) -> Option<int> {
    match o {
        Some(i) => Some(i as int),
        None => None,
    }
}

fn find_column(keys: &Vec<String>, headers: Ghost<Seq<Seq<char>>>, name: &str) -> (r: Option<usize>)
    requires
        keys@.len() == headers@.len(),
        forall|i: int| 0 <= i < keys@.len() ==> #[trigger] keys@[i]@ == header_key(headers@[i]),
    ensures
        as_col(r) == column(headers@, name@),
{
    let mut i: usize = 0;
    while i < keys.len()
        invariant
            i <= keys.len(),
            keys@.len() == headers@.len(),
            forall|k: int| 0 <= k < keys@.len() ==> #[trigger] keys@[k]@ == header_key(headers@[k]),
            forall|j: int| 0 <= j < i ==> header_key(headers@[j]) != name@,
        decreases keys.len() - i,
    {
        if str_eq(keys[i].as_str(), name) {
            assert(header_key(headers@[i as int]) == name@);
            let ghost c = choose|k: int| 0 <= k < headers@.len() && header_key(headers@[k]) == name@ && (forall|j: int| 0 <= j < k ==> header_key(headers@[j]) != name@);
            assert(c == i) by {
                if c < i {
                } else if c > i {
                }
            }
            return Some(i);
        }
        i = i + 1;
    }
    None
}

fn get_field(rec: &Vec<String>, col: Option<usize>) -> (r: Option<String>)
    ensures
        opt_view(r) == field(string_views(rec@), match col {
            Some(i) => Some(i as int),
            None => None,
        }),
{
    match col {
        Some(i) => {
            if i < rec.len() {
                let t = trim_chars(&to_chars(rec[i].as_str()));
                if t.len() > 0 {
                    return Some(from_chars(t.as_slice()));
                }
            }
            None
        },
        None => None,
    }
}

fn opt_u64(f: Option<String>) -> (r: Option<u64>)
    ensures
        r == match opt_view(f) {
            Some(t) => decimal_u64(t),
            None => None,
        },
{
    match f {
        Some(t) => parse_u64(t.as_str()),
        None => None,
    }
}

/// The columns of a table's header, by position.
pub struct Columns {
    pub text: usize,
    pub id: Option<usize>,
    pub user: Option<usize>,
    pub warehouse: Option<usize>,
    pub size: Option<usize>,
    pub start: Option<usize>,
    pub elapsed: Option<usize>,
    pub bytes: Option<usize>,
    pub rows: Option<usize>,
    pub tag: Option<usize>,
}

/// `c` holds the positions of the named columns of `headers`.
pub open spec fn columns_of(c: Columns, headers: Seq<Seq<char>>) -> bool {
    &&& column(headers, "query_text"@) == Some(c.text as int)
    &&& as_col(c.id) == column(headers, "query_id"@)
    &&& as_col(c.user) == column(headers, "user_name"@)
    &&& as_col(c.warehouse) == column(headers, "warehouse_name"@)
    &&& as_col(c.size) == column(headers, "warehouse_size"@)
    &&& as_col(c.start) == column(headers, "start_time"@)
    &&& as_col(c.elapsed) == column(headers, "total_elapsed_time"@)
    &&& as_col(c.bytes) == column(headers, "bytes_scanned"@)
    &&& as_col(c.rows) == column(headers, "rows_produced"@)
    &&& as_col(c.tag) == column(headers, "query_tag"@)
}

fn row_of(rec: &Vec<String>, c: &Columns, headers: Ghost<Seq<Seq<char>>>) -> (r: Option<HistoryRow>)
    requires
        columns_of(*c, headers@),
    ensures
        match r {
            Some(row) => has_text(headers@)(string_views(rec@)) && row_from(row, headers@, string_views(rec@)),
            None => !has_text(headers@)(string_views(rec@)),
        },
{
    let query_text = match get_field(rec, Some(c.text)) {
        Some(t) => t,
        None => {
            return None;
        },
    };
    let start_time_ms = match get_field(rec, c.start) {
        Some(t) => parse_time(t.as_str()),
        None => None,
    };
    let row = HistoryRow {
        query_text,
        query_id: get_field(rec, c.id),
        user_name: get_field(rec, c.user),
        warehouse_name: get_field(rec, c.warehouse),
        warehouse_size: get_field(rec, c.size),
        start_time_ms,
        total_elapsed_ms: opt_u64(get_field(rec, c.elapsed)),
        bytes_scanned: opt_u64(get_field(rec, c.bytes)),
        rows_produced: opt_u64(get_field(rec, c.rows)),
        query_tag: get_field(rec, c.tag),
    };
    Some(row)
}

fn columns(headers: &Vec<String>) -> (r: Option<Columns>)
    ensures
        match r {
            Some(c) => columns_of(c, string_views(headers@)),
            None => column(string_views(headers@), "query_text"@) is None,
        },
{
    let ghost hs = string_views(headers@);
    let mut keys: Vec<String> = Vec::new();
    let mut i: usize = 0;
    while i < headers.len()
        invariant
            i <= headers.len(),
            hs == string_views(headers@),
            keys@.len() == i,
            forall|k: int| 0 <= k < i ==> #[trigger] keys@[k]@ == header_key(hs[k]),
        decreases headers.len() - i,
    {
        let t = from_chars(trim_chars(&to_chars(headers[i].as_str())).as_slice());
        keys.push(to_lowercase(t.as_str()));
        i = i + 1;
    }
    let text = match find_column(&keys, Ghost(hs), "query_text") {
        Some(c) => c,
        None => {
            return None;
        },
    };
    Some(
        Columns {
            text,
            id: find_column(&keys, Ghost(hs), "query_id"),
            user: find_column(&keys, Ghost(hs), "user_name"),
            warehouse: find_column(&keys, Ghost(hs), "warehouse_name"),
            size: find_column(&keys, Ghost(hs), "warehouse_size"),
            start: find_column(&keys, Ghost(hs), "start_time"),
            elapsed: find_column(&keys, Ghost(hs), "total_elapsed_time"),
            bytes: find_column(&keys, Ghost(hs), "bytes_scanned"),
            rows: find_column(&keys, Ghost(hs), "rows_produced"),
            tag: find_column(&keys, Ghost(hs), "query_tag"),
        },
    )
}

/// Rows from a CSV table: header names matched trimmed and case-
/// insensitively; records without a query text are skipped.
pub fn rows_from_table(headers: &Vec<String>, records: &Vec<Vec<String>>) -> (r: Result<Vec<HistoryRow>>)
    ensures
        column(string_views(headers@), "query_text"@) is None ==> (r matches Err(Error::Replay(m))
            && m@ == "CSV is missing required column QUERY_TEXT"@),
        column(string_views(headers@), "query_text"@) is Some ==> (r matches Ok(rows) && rows@.len()
            == kept_records(string_views(headers@), records_view(records@)).len() && forall|k: int|
            0 <= k < rows@.len() ==> row_from(
                #[trigger] rows@[k],
                string_views(headers@),
                kept_records(string_views(headers@), records_view(records@))[k],
            )),
{
    let ghost hs = string_views(headers@);
    let c = match columns(headers) {
        Some(c) => c,
        None => {
            return Err(Error::Replay(String::from_str("CSV is missing required column QUERY_TEXT")));
        },
    };
    let ghost rv = records_view(records@);
    let mut rows: Vec<HistoryRow> = Vec::new();
    let mut n: usize = 0;
    while n < records.len()
        invariant
            n <= records.len(),
            hs == string_views(headers@),
            rv == records_view(records@),
            columns_of(c, hs),
            rows@.len() == rv.take(n as int).filter(has_text(hs)).len(),
            forall|k: int| 0 <= k < rows@.len() ==> row_from(#[trigger] rows@[k], hs, rv.take(n as int).filter(has_text(hs))[k]),
        decreases records.len() - n,
    {
        proof {
            assert(rv.take(n + 1) =~= rv.take(n as int).push(rv[n as int]));
            rv.take(n as int).lemma_filter_push(rv[n as int], has_text(hs));
            assert(rv[n as int] == string_views(records@[n as int]@));
        }
        let ghost before = rows@;
        match row_of(&records[n], &c, Ghost(hs)) {
            Some(row) => {
                rows.push(row);
                assert forall|k: int| 0 <= k < rows@.len() implies row_from(#[trigger] rows@[k], hs, rv.take(n + 1).filter(has_text(hs))[k]) by {
                    if k < before.len() {
                        assert(rows@[k] == before[k]);
                    }
                }
            },
            None => {},
        }
        n = n + 1;
    }
    assert(rv.take(records.len() as int) =~= rv);
    Ok(rows)
}

/// Read query-history rows from a CSV export.
pub fn read_csv(data: &[u8]) -> (r: Result<Vec<HistoryRow>>)
    ensures
        match csv_table(data@) {
            Err((true, m)) => r matches Err(Error::Replay(e)) && e@ == "cannot read CSV headers: "@ + m,
            Err((false, m)) => r matches Err(Error::Replay(e)) && e@ == "CSV parse error: "@ + m,
            Ok((h, rs)) => {
                &&& column(h, "query_text"@) is None ==> (r matches Err(Error::Replay(m)) && m@
                    == "CSV is missing required column QUERY_TEXT"@)
                &&& column(h, "query_text"@) is Some ==> (r matches Ok(rows) && rows@.len()
                    == kept_records(h, rs).len() && forall|k: int|
                    0 <= k < rows@.len() ==> row_from(#[trigger] rows@[k], h, kept_records(h, rs)[k]))
            },
        },
{
    match read_table(data) {
        CsvRead::HeaderError(e) => {
            let mut m = String::from_str("cannot read CSV headers: ");
            m.append(e.as_str());
            Err(Error::Replay(m))
        },
        CsvRead::RecordError(e) => {
            let mut m = String::from_str("CSV parse error: ");
            m.append(e.as_str());
            Err(Error::Replay(m))
        },
        CsvRead::Table(h, rs) => rows_from_table(&h, &rs),
    }
}

// ---------------------------------------------------------------------------
// Replay order and counting

/// Start times ordered, rows without one first.
pub open spec fn time_le(a: Option<i64>, b: Option<i64>) -> bool {
    match (a, b) {
        (None, _) => true,
        (Some(_), None) => false,
        (Some(x), Some(y)) => x <= y,
    }
}

/// Row `a` is replayed before row `b`: earlier start first, ties in file
/// order.
pub open spec fn replayed_before(ts: Seq<Option<i64>>, a: int, b: int) -> bool {
    (time_le(ts[a], ts[b]) && !time_le(ts[b], ts[a])) || (ts[a] == ts[b] && a < b)
}

fn time_le_exec(a: Option<i64>, b: Option<i64>) -> (r: bool)
    ensures
        r == time_le(a, b),
{
    match (a, b) {
        (None, _) => true,
        (Some(_), None) => false,
        (Some(x), Some(y)) => x <= y,
    }
}

/// The order rows are replayed in: every row once, by start time, rows
/// without a start time first, ties in file order (a stable sort).
pub fn replay_order(times: &Vec<Option<i64>>) -> (r: Vec<usize>)
    ensures
        r@.len() == times@.len(),
        forall|i: int| 0 <= i < r@.len() ==> r@[i] < times@.len(),
        forall|p: usize| p < times@.len() ==> r@.contains(p),
        forall|i: int, j: int|
            0 <= i < j < r@.len() ==> replayed_before(times@, r@[i] as int, r@[j] as int),
{
    let mut r: Vec<usize> = Vec::new();
    let mut idx: usize = 0;
    while idx < times.len()
        invariant
            idx <= times.len(),
            r@.len() == idx,
            forall|i: int| 0 <= i < r@.len() ==> r@[i] < idx,
            forall|p: usize| p < idx ==> r@.contains(p),
            forall|i: int, j: int|
                0 <= i < j < r@.len() ==> replayed_before(times@, r@[i] as int, r@[j] as int),
        decreases times.len() - idx,
    {
        let mut pos: usize = 0;
        while pos < r.len() && time_le_exec(times[r[pos]], times[idx])
            invariant
                pos <= r@.len(),
                r@.len() == idx,
                idx < times.len(),
                forall|i: int| 0 <= i < r@.len() ==> r@[i] < idx,
                forall|k: int| 0 <= k < pos ==> time_le(times@[r@[k] as int], times@[idx as int]),
            decreases r@.len() - pos,
        {
            pos = pos + 1;
        }
        let ghost old_r = r@;
        r.insert(pos, idx);
        proof {
            assert(r@ =~= old_r.insert(pos as int, idx));
            assert forall|i: int, j: int| 0 <= i < j < r@.len() implies replayed_before(
                times@,
                r@[i] as int,
                r@[j] as int,
            ) by {
                if j == pos {
                    assert(r@[i] == old_r[i]);
                } else if i == pos {
                    assert(r@[j] == old_r[j - 1]);
                    if pos < old_r.len() {
                        assert(!time_le(times@[old_r[pos as int] as int], times@[idx as int]));
                        if j - 1 > pos {
                            assert(replayed_before(times@, old_r[pos as int] as int, old_r[j - 1] as int));
                        }
                    }
                } else if i < pos && j > pos {
                    assert(r@[i] == old_r[i]);
                    assert(r@[j] == old_r[j - 1]);
                } else if j < pos {
                    assert(r@[i] == old_r[i]);
                    assert(r@[j] == old_r[j]);
                } else {
                    assert(r@[i] == old_r[i - 1]);
                    assert(r@[j] == old_r[j - 1]);
                }
            }
            assert forall|p: usize| p < idx + 1 implies r@.contains(p) by {
                if p == idx {
                    assert(r@[pos as int] == idx);
                } else {
                    assert(old_r.contains(p));
                    let k = choose|k: int| 0 <= k < old_r.len() && old_r[k] == p;
                    if k < pos {
                        assert(r@[k] == p);
                    } else {
                        assert(r@[k + 1] == p);
                    }
                }
            }
        }
        idx = idx + 1;
    }
    r
}

/// Replaying reads against a cache with a TTL of `ttl_ms`: each eligible
/// read with a start time hits when its fingerprint was stored no more
/// than `ttl_ms` earlier, and is stored (at its start) otherwise. Returns
/// the store and, per read, whether it hit.
pub open spec fn cache_sim(ev: Seq<(bool, Seq<u8>, Option<i64>)>, ttl_ms: int) -> (Map<Seq<u8>, i64>, Seq<bool>)
    decreases ev.len(),
{
    if ev.len() == 0 {
        (Map::empty(), seq![])
    } else {
        let prev = cache_sim(ev.drop_last(), ttl_ms);
        let state = prev.0;
        let hits = prev.1;
        let e = ev.last();
        if e.0 && e.2 is Some {
            let now = e.2->0;
            if state.contains_key(e.1) && now - state[e.1] <= ttl_ms {
                (state, hits.push(true))
            } else {
                (state.insert(e.1, now), hits.push(false))
            }
        } else {
            (state, hits.push(false))
        }
    }
}

pub open spec fn events_view(ev: Seq<(bool, [u8; 32], Option<i64>)>) -> Seq<(bool, Seq<u8>, Option<i64>)> {
    ev.map_values(|e: (bool, [u8; 32], Option<i64>)| (e.0, e.1@, e.2))
}

/// Which of the reads, replayed in order, the cache would have served.
pub fn project_cache_hits(events: &Vec<(bool, [u8; 32], Option<i64>)>, ttl_ms: u64) -> (r: Vec<bool>)
    ensures
        r@ == cache_sim(events_view(events@), ttl_ms as int).1,
{
    let ghost ev = events_view(events@);
    let mut state: EntryIndex<i64> = EntryIndex::new();
    let mut hits: Vec<bool> = Vec::new();
    let mut i: usize = 0;
    while i < events.len()
        invariant
            i <= events.len(),
            ev == events_view(events@),
            state@ == cache_sim(ev.take(i as int), ttl_ms as int).0,
            hits@ == cache_sim(ev.take(i as int), ttl_ms as int).1,
        decreases events.len() - i,
    {
        assert(ev.take(i + 1).drop_last() =~= ev.take(i as int));
        let (eligible, fp, ts) = events[i];
        assert(ev.take(i + 1).last() == (eligible, fp@, ts));
        let mut hit = false;
        if eligible {
            if let Some(now) = ts {
                match state.get(&fp) {
                    Some(inserted) => {
                        if (now as i128) - (*inserted as i128) <= ttl_ms as i128 {
                            hit = true;
                        }
                    },
                    None => {},
                }
                if !hit {
                    state.insert(fp, now);
                }
            }
        }
        hits.push(hit);
        i = i + 1;
    }
    assert(ev.take(events.len() as int) =~= ev);
    hits
}

/// How many different fingerprints there are.
pub fn count_distinct(keys: &Vec<[u8; 32]>) -> (r: usize)
    ensures
        r == key_set(keys@).len(),
{
    let mut seen: EntryIndex<()> = EntryIndex::new();
    let mut i: usize = 0;
    assert(key_set(keys@.take(0)) =~= Set::<Seq<u8>>::empty());
    assert(seen@.dom() =~= Set::<Seq<u8>>::empty());
    while i < keys.len()
        invariant
            i <= keys.len(),
            seen@.dom() == key_set(keys@.take(i as int)),
        decreases keys.len() - i,
    {
        seen.insert(keys[i], ());
        assert(key_set(keys@.take(i + 1)) =~= key_set(keys@.take(i as int)).insert(keys@[i as int]@)) by {
            let t1 = keys@.take(i + 1);
            let t0 = keys@.take(i as int);
            assert forall|x: Seq<u8>| key_set(t1).contains(x) implies key_set(t0).insert(keys@[i as int]@).contains(x) by {
                let j = choose|j: int| 0 <= j < t1.len() && t1[j]@ == x;
                if j < t0.len() {
                    assert(t0[j] == t1[j]);
                }
            }
            assert forall|x: Seq<u8>| key_set(t0).insert(keys@[i as int]@).contains(x) implies key_set(t1).contains(x) by {
                if x == keys@[i as int]@ {
                    assert(t1[i as int]@ == x);
                } else {
                    let j = choose|j: int| 0 <= j < t0.len() && t0[j]@ == x;
                    assert(t1[j] == t0[j]);
                }
            }
        }
        assert(seen@.dom() =~= key_set(keys@.take(i + 1)));
        i = i + 1;
    }
    assert(keys@.take(keys.len() as int) =~= keys@);
    seen.len()
}

/// The key a query's table set is counted under: its tables joined by
/// commas.
pub open spec fn table_set_key(tables: Seq<Seq<char>>) -> Seq<char>
    decreases tables.len(),
{
    if tables.len() == 0 {
        seq![]
    } else if tables.len() == 1 {
        tables[0]
    } else {
        table_set_key(tables.drop_last()) + ","@ + tables.last()
    }
}

pub fn table_key(tables: &Vec<String>) -> (r: String)
    ensures
        r@ == table_set_key(string_views(tables@)),
{
    let ghost ts = string_views(tables@);
    let mut out = String::new();
    let mut i: usize = 0;
    while i < tables.len()
        invariant
            i <= tables.len(),
            ts == string_views(tables@),
            out@ == table_set_key(ts.take(i as int)),
        decreases tables.len() - i,
    {
        assert(ts.take(i + 1).drop_last() =~= ts.take(i as int));
        if i > 0 {
            out.append(",");
        }
        out.append(tables[i].as_str());
        i = i + 1;
    }
    assert(ts.take(tables.len() as int) =~= ts);
    out
}

/// A query is a router candidate in the replay when it is a deterministic
/// read of at least one table, its table set recurs at least
/// `min_occurrences` times, and it scanned fewer than `max_bytes` bytes (an
/// unknown scan counts as the most there is).
pub fn router_candidate(
    read_only: bool,
    deterministic: bool,
    n_tables: usize,
    repeats: usize,
    min_occurrences: usize,
    bytes_scanned: Option<u64>,
    max_bytes: u64,
) -> (r: bool)
    ensures
        r == (read_only && deterministic && n_tables > 0 && repeats >= min_occurrences && match bytes_scanned {
            Some(b) => b < max_bytes,
            None => u64::MAX < max_bytes,
        }),
{
    let scanned = match bytes_scanned {
        Some(b) => b,
        None => u64::MAX,
    };
    read_only && deterministic && n_tables > 0 && repeats >= min_occurrences && scanned < max_bytes
}

/// The query text carries dbt's metadata comment.
pub open spec fn mentions_dbt(text: Seq<char>) -> bool {
    (exists|i: int| crate::text::occurs_at(text, "\"app\": \"dbt\""@, i)) || (exists|i: int| crate::text::occurs_at(text, "\"app\":\"dbt\""@, i))
}

pub fn has_dbt_meta(text: &str) -> (r: bool)
    ensures
        r == mentions_dbt(text@),
{
    let s = to_chars(text);
    let a = literal_chars("\"app\": \"dbt\"");
    let b = literal_chars("\"app\":\"dbt\"");
    proof {
        crate::text::lemma_find_from(s@, a@, 0);
        crate::text::lemma_find_from(s@, b@, 0);
    }
    find(&s, &a, 0).is_some() || find(&s, &b, 0).is_some()
}

} // verus!
