use chukei_core::payload::{
    blame_verdict, login_session_from, read_reply, renewal_from, request_analysis, rewritten_body,
};
use serde_json::Value;
use std::io::{Read, Write};

fn gz(bytes: &[u8]) -> Vec<u8> {
    let mut e = flate2::write::GzEncoder::new(Vec::new(), flate2::Compression::default());
    e.write_all(bytes).unwrap();
    e.finish().unwrap()
}

fn gunz(bytes: &[u8]) -> Vec<u8> {
    let mut out = Vec::new();
    flate2::read::GzDecoder::new(bytes).read_to_end(&mut out).unwrap();
    out
}

#[test]
fn query_requests_are_analysed_from_their_json() {
    let body = br#"{"sqlText":"SELECT a FROM t WHERE b = 1","bindings":{"1":{"type":"TEXT","value":"x"}},"sequenceId":7}"#;
    let (a, bindings) = request_analysis(false, body).unwrap();
    assert_eq!(a.raw_sql, "SELECT a FROM t WHERE b = 1");
    assert_eq!(a.features.tables, vec!["T".to_string()]);
    assert_eq!(bindings, r#"{"1":{"type":"TEXT","value":"x"}}"#);
    // without bindings the text is empty
    let (_, none) = request_analysis(false, br#"{"sqlText":"SELECT 1"}"#).unwrap();
    assert_eq!(none, "");
    // gzip bodies are inspected once decoded
    let (g, _) = request_analysis(true, &gz(body)).unwrap();
    assert_eq!(g.hard_fingerprint, a.hard_fingerprint);
    // what cannot be inspected passes through
    assert!(request_analysis(true, body).is_none());
    assert!(request_analysis(false, b"not json").is_none());
    assert!(request_analysis(false, br#"{"sqlText":42}"#).is_none());
    assert!(request_analysis(false, br#"{"other":"SELECT 1"}"#).is_none());
    assert!(request_analysis(false, br#"{"sqlText":"THIS IS NOT SQL ;;;"}"#).is_none());
}

#[test]
fn rewritten_requests_keep_everything_but_the_sql() {
    let body = br#"{"sqlText":"SELECT a FROM t","sequenceId":7}"#.to_vec();
    let out = rewritten_body(false, body.clone(), "SELECT b FROM t");
    let v: Value = serde_json::from_slice(&out).unwrap();
    assert_eq!(v["sqlText"], "SELECT b FROM t");
    assert_eq!(v["sequenceId"], 7);
    // gzip in, gzip out
    let out = rewritten_body(true, gz(&body), "SELECT c FROM t");
    let v: Value = serde_json::from_slice(&gunz(&out)).unwrap();
    assert_eq!(v["sqlText"], "SELECT c FROM t");
    // bodies that cannot be edited go as they came
    assert_eq!(rewritten_body(false, b"not json".to_vec(), "SELECT 1"), b"not json".to_vec());
    assert_eq!(rewritten_body(false, b"[1,2]".to_vec(), "SELECT 1"), b"[1,2]".to_vec());
    assert_eq!(rewritten_body(true, body.clone(), "SELECT 1"), body);
}

#[test]
fn replies_report_success_and_chunks() {
    let (_, ok, chunked) = read_reply(br#"{"success":true,"data":{"rowset":[["1"]]}}"#).unwrap();
    assert!(ok && !chunked);
    let (_, ok, chunked) = read_reply(br#"{"success":true,"data":{"chunks":[{"url":"u"}]}}"#).unwrap();
    assert!(ok && chunked);
    let (_, ok, chunked) = read_reply(br#"{"success":"yes","data":{"chunks":[]}}"#).unwrap();
    assert!(!ok && !chunked);
    assert!(read_reply(b"<html>").is_none());
}

#[test]
fn blame_needs_a_clean_answer_with_other_rows() {
    let expected: Value = serde_json::from_str(r#"{"success":true,"data":{"rowset":[["1"]]}}"#).unwrap();
    let same = br#"{"success":true,"data":{"rowset":[["1"]]}}"#;
    let other = br#"{"success":true,"data":{"rowset":[["2"]]}}"#;
    assert!(!blame_verdict(200, same, &expected));
    assert!(blame_verdict(200, other, &expected));
    assert!(!blame_verdict(500, other, &expected));
    assert!(!blame_verdict(200, br#"{"success":false,"data":{"rowset":[["2"]]}}"#, &expected));
    assert!(!blame_verdict(200, br#"{"success":true,"data":{"chunks":[{}],"rowset":[]}}"#, &expected));
    assert!(!blame_verdict(200, b"not json", &expected));
}

#[test]
fn logins_and_renewals_carry_session_facts() {
    let request = br#"{"data":{"LOGIN_NAME":"ALICE","CLIENT_APP_ID":"Tableau"}}"#;
    let reply = br#"{"data":{"token":"tok-1","sessionInfo":{"warehouseName":"BI_WH"}}}"#;
    let (token, s) = login_session_from(false, request, reply, None).unwrap();
    assert_eq!(token, "tok-1");
    assert_eq!(s.user.as_deref(), Some("ALICE"));
    assert_eq!(s.application_name.as_deref(), Some("Tableau"));
    assert_eq!(s.warehouse.as_deref(), Some("BI_WH"));
    // the warehouse falls back to the request's parameter
    let bare = br#"{"data":{"token":"tok-2"}}"#;
    let (_, s) = login_session_from(true, &gz(request), bare, Some("warehouse=ETL_WH")).unwrap();
    assert_eq!(s.warehouse.as_deref(), Some("ETL_WH"));
    assert_eq!(s.user.as_deref(), Some("ALICE"));
    assert!(login_session_from(false, request, br#"{"data":{}}"#, None).is_none());
    assert!(login_session_from(false, request, b"oops", None).is_none());
    let (_, s) = login_session_from(false, b"oops", reply, None).unwrap();
    assert!(s.user.is_none());

    let renew = br#"{"oldSessionToken":"old"}"#;
    assert_eq!(
        renewal_from(false, renew, br#"{"data":{"sessionToken":"new"}}"#),
        Some(("old".to_string(), "new".to_string()))
    );
    assert_eq!(
        renewal_from(false, br#"{"data":{"oldSessionToken":"old2"}}"#, br#"{"data":{"token":"new2"}}"#),
        Some(("old2".to_string(), "new2".to_string()))
    );
    assert_eq!(renewal_from(false, renew, br#"{"data":{}}"#), None);
    assert_eq!(renewal_from(false, b"{}", br#"{"data":{"token":"n"}}"#), None);
}
