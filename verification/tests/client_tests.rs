use bugzilla_cli::client::{
    assemble_bug, bug_path, bug_query, comments_path, search_results, trim_end_slashes,
    trim_start_slashes, BmoClient,
};
use bugzilla_cli::commands::comment_body;
use bugzilla_cli::json::{read_json, Json};

fn j(text: &str) -> Json {
    read_json(text).unwrap()
}

fn num(n: u64) -> Json {
    Json::Number(n.to_string())
}

fn s(text: &str) -> Json {
    Json::Str(text.to_string())
}

fn at(v: &Json, i: usize) -> &Json {
    &v.as_array().unwrap()[i]
}

const BASE: &str = "http://127.0.0.1:1234";

#[test]
fn test_whoami() {
    let client = BmoClient::new_with_base("test-key", BASE);
    assert_eq!(client.url("/whoami"), "http://127.0.0.1:1234/whoami");
    assert_eq!(
        client.auth_header(),
        Some(("X-BUGZILLA-API-KEY".to_string(), "test-key".to_string()))
    );
    let val = j(r#"{"id":1,"name":"bot@mozilla.com","real_name":"Bot"}"#);
    assert_eq!(val.get("name"), Some(&s("bot@mozilla.com")));
}

#[test]
fn test_get_bug_with_comments() {
    let client = BmoClient::new_with_base("test-key", BASE);
    assert_eq!(client.url(&bug_path(123)), "http://127.0.0.1:1234/bug/123");
    assert_eq!(client.url(&comments_path(123)), "http://127.0.0.1:1234/bug/123/comment");
    let bug_resp = j(r#"{"bugs":[{"id":123,"summary":"Test bug"}]}"#);
    let comments_resp = j(
        r#"{"bugs":{"123":{"comments":[{"id":1,"creator":"a@b.com","text":"hi","creation_time":"2026-04-01T00:00:00Z"}]}}}"#,
    );
    let val = assemble_bug(123, &bug_resp, Some(&comments_resp));
    assert_eq!(val.get("bug").unwrap().get("id"), Some(&num(123)));
    assert!(val.get("comments").unwrap().as_array().is_some());
    assert_eq!(at(val.get("comments").unwrap(), 0).get("creator"), Some(&s("a@b.com")));
}

#[test]
fn test_get_bug_no_comments() {
    let bug_resp = j(r#"{"bugs":[{"id":456,"summary":"No comments"}]}"#);
    let val = assemble_bug(456, &bug_resp, None);
    assert_eq!(val.get("bug").unwrap().get("id"), Some(&num(456)));
    assert!(val.member("comments").is_none());
}

#[test]
fn test_get_bug_includes_flags() {
    let query = bug_query();
    assert_eq!(query, vec![("include_fields".to_string(), "_default,flags".to_string())]);
    let bug_resp = j(
        r#"{"bugs":[{"id":789,"summary":"Flag bug","flags":[{"name":"needinfo","status":"?","requestee":"dev@mozilla.com"}]}]}"#,
    );
    let val = assemble_bug(789, &bug_resp, None);
    let flags = val.get("bug").unwrap().get("flags").unwrap();
    assert!(flags.as_array().is_some());
    assert_eq!(at(flags, 0).get("name"), Some(&s("needinfo")));
}

#[test]
fn test_search() {
    let client = BmoClient::new_with_base("test-key", BASE);
    assert_eq!(client.url("/bug"), "http://127.0.0.1:1234/bug");
    let resp = j(r#"{"bugs":[{"id":1,"summary":"bug one"},{"id":2,"summary":"bug two"}]}"#);
    let bugs = search_results(&resp);
    assert_eq!(bugs.len(), 2);
    assert_eq!(bugs[0].get("id"), Some(&num(1)));
}

#[test]
fn test_post_comment() {
    let client = BmoClient::new_with_base("test-key", BASE);
    assert_eq!(client.url("/bug/789/comment"), "http://127.0.0.1:1234/bug/789/comment");
    assert_eq!(comment_body("Hello"), j(r#"{"comment":"Hello"}"#));
    let val = j(r#"{"id":42}"#);
    assert_eq!(val.get("id"), Some(&num(42)));
}

#[test]
fn test_put_bug() {
    let client = BmoClient::new_with_base("test-key", BASE);
    assert_eq!(client.url(&bug_path(789)), "http://127.0.0.1:1234/bug/789");
    let val = j(r#"{"bugs":[{"id":789}]}"#);
    assert_eq!(at(val.get("bugs").unwrap(), 0).get("id"), Some(&num(789)));
}

#[test]
fn test_search_by_summary() {
    let resp = j(
        r#"{"bugs":[{"id":100,"summary":"mp4 crash on startup","status":"NEW","priority":"P2"}]}"#,
    );
    let bugs = search_results(&resp);
    assert_eq!(bugs.len(), 1);
    assert_eq!(bugs[0].get("summary"), Some(&s("mp4 crash on startup")));
    assert_eq!(bugs[0].get("status"), Some(&s("NEW")));
}

#[test]
fn test_anonymous_client_sends_no_api_key() {
    let client = BmoClient::anonymous_with_base(BASE);
    assert!(!client.is_authenticated());
    assert_eq!(client.auth_header(), None);
    let bug_resp = j(r#"{"bugs":[{"id":123,"summary":"public bug"}]}"#);
    let val = assemble_bug(123, &bug_resp, None);
    assert_eq!(val.get("bug").unwrap().get("id"), Some(&num(123)));
}

#[test]
fn test_authenticated_client_reports_authenticated() {
    let client = BmoClient::new_with_base("k", "http://example.invalid");
    assert!(client.is_authenticated());
}

#[test]
fn default_clients_use_bmo() {
    assert!(BmoClient::new("k").is_authenticated());
    assert_eq!(BmoClient::new("k").url("whoami"), "https://bugzilla.mozilla.org/rest/whoami");
    assert!(!BmoClient::anonymous().is_authenticated());
    assert_eq!(BmoClient::anonymous().url("//bug"), "https://bugzilla.mozilla.org/rest/bug");
}

#[test]
fn base_trailing_slashes_dropped() {
    let client = BmoClient::anonymous_with_base("http://h/rest//");
    assert_eq!(client.url("/bug/1"), "http://h/rest/bug/1");
    assert_eq!(trim_end_slashes("a//"), "a");
    assert_eq!(trim_start_slashes("//a/"), "a/");
    assert_eq!(trim_end_slashes("///"), "");
}

#[test]
fn missing_parts_of_responses() {
    let val = assemble_bug(5, &j(r#"{"bugs":[]}"#), Some(&j(r#"{"bugs":{}}"#)));
    assert_eq!(val, j(r#"{"bug":null,"comments":null}"#));
    assert!(search_results(&j(r#"{"error":true}"#)).is_empty());
    assert!(search_results(&j(r#"{"bugs":7}"#)).is_empty());
}

#[test]
fn comments_taken_from_the_bugs_own_entry() {
    let comments = j(r#"{"bugs":{"1":{"comments":["one"]},"12":{"comments":["twelve"]}}}"#);
    let val = assemble_bug(12, &j(r#"{"bugs":[{"id":12}]}"#), Some(&comments));
    assert_eq!(val.get("comments"), Some(&j(r#"["twelve"]"#)));
}
