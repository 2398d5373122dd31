use bugzilla_cli::commands::{
    has_updates, update_field_names,
    build_apply_field_body, build_fields_update, draft_summary_with, fetch_dates, format_bug_header_with_id,
    plan_apply_text, setup_key_step, week_bounds, DraftShown, KeyStep, build_fetch_params, build_search_params, build_set_fields_body,
    choose_api_key, comment_body, draft_summary, format_bug_header, format_comments,
    format_whoami, is_yes, needinfo_flags_body, normalize_base_url, parse_secrets, plan_apply,
    search_line, secrets_file_text, sort_by_creation_time, text_le_str,
};
use bugzilla_cli::json::{read_json, Json};
use chrono::Datelike;

fn j(text: &str) -> Json {
    read_json(text).unwrap()
}

fn s(text: &str) -> Json {
    Json::Str(text.to_string())
}

fn strings(items: &[&str]) -> Vec<String> {
    items.iter().map(|x| x.to_string()).collect()
}

fn member<'a>(body: &'a Json, key: &str) -> Option<&'a Json> {
    body.member(key)
}

fn contains_key(body: &Json, key: &str) -> bool {
    body.member(key).is_some()
}

fn object_len(body: &Json) -> usize {
    match body {
        Json::Object(m) => m.len(),
        _ => usize::MAX,
    }
}

fn param(params: &[(String, String)], key: &str) -> Option<String> {
    params.iter().find(|(k, _)| k == key).map(|(_, v)| v.clone())
}

fn all_values<'a>(params: &'a [(String, String)], key: &str) -> Vec<&'a str> {
    params.iter().filter(|(k, _)| k == key).map(|(_, v)| v.as_str()).collect()
}

// --- field update bodies ---

#[test]
fn test_build_apply_field_body_all_fields() {
    let draft = j(r#"{
        "priority": "P2",
        "severity": "S2",
        "status": "RESOLVED",
        "resolution": "FIXED",
        "blocks_add": [123],
        "keywords_add": ["regression"],
        "cc_add": ["dev@mozilla.com"]
    }"#);
    let body = build_apply_field_body(&draft);
    assert_eq!(member(&body, "priority"), Some(&s("P2")));
    assert_eq!(member(&body, "severity"), Some(&s("S2")));
    assert_eq!(member(&body, "status"), Some(&s("RESOLVED")));
    assert_eq!(member(&body, "resolution"), Some(&s("FIXED")));
    assert_eq!(member(&body, "blocks"), Some(&j(r#"{"add": [123]}"#)));
    assert_eq!(member(&body, "keywords"), Some(&j(r#"{"add": ["regression"]}"#)));
    assert_eq!(member(&body, "cc"), Some(&j(r#"{"add": ["dev@mozilla.com"]}"#)));
}

#[test]
fn test_build_apply_field_body_status_omitted_when_absent() {
    let draft = j(r#"{"resolution": "FIXED"}"#);
    let body = build_apply_field_body(&draft);
    assert!(!contains_key(&body, "status"));
    assert_eq!(member(&body, "resolution"), Some(&s("FIXED")));
}

#[test]
fn test_build_apply_field_body_cc_add_only() {
    let draft = j(r#"{"cc_add": ["a@b.com", "c@d.com"]}"#);
    let body = build_apply_field_body(&draft);
    assert_eq!(member(&body, "cc"), Some(&j(r#"{"add": ["a@b.com", "c@d.com"]}"#)));
    assert!(!contains_key(&body, "priority"));
}

#[test]
fn test_build_apply_field_body_empty_cc_omitted() {
    let draft = j(r#"{"cc_add": [], "priority": "P1"}"#);
    let body = build_apply_field_body(&draft);
    assert!(!contains_key(&body, "cc"));
    assert_eq!(member(&body, "priority"), Some(&s("P1")));
}

#[test]
fn test_build_apply_field_body_null_strings_omitted() {
    let draft = j(r#"{"priority": "null", "severity": "", "resolution": "FIXED"}"#);
    let body = build_apply_field_body(&draft);
    assert!(!contains_key(&body, "priority"));
    assert!(!contains_key(&body, "severity"));
    assert_eq!(member(&body, "resolution"), Some(&s("FIXED")));
}

#[test]
fn apply_field_body_ignores_non_string_fields() {
    let draft = j(r#"{"priority": 3, "severity": null, "blocks_add": "7"}"#);
    let body = build_apply_field_body(&draft);
    assert_eq!(object_len(&body), 0);
}

#[test]
fn apply_field_body_members_in_name_order() {
    let draft = j(r#"{"status": "NEW", "priority": "P1", "cc_add": ["x@y.z"]}"#);
    let body = build_apply_field_body(&draft);
    assert_eq!(body, j(r#"{"cc":{"add":["x@y.z"]},"priority":"P1","status":"NEW"}"#));
}

#[test]
fn test_build_set_fields_body_all_fields() {
    let body = build_set_fields_body(
        Some("P2"),
        Some("S3"),
        None,
        None,
        &[10, 20],
        &["crash".to_string()],
        &["dev@mozilla.com".to_string()],
    );
    assert_eq!(member(&body, "priority"), Some(&s("P2")));
    assert_eq!(member(&body, "severity"), Some(&s("S3")));
    assert_eq!(member(&body, "blocks"), Some(&j(r#"{"add": [10, 20]}"#)));
    assert_eq!(member(&body, "keywords"), Some(&j(r#"{"add": ["crash"]}"#)));
    assert_eq!(member(&body, "cc"), Some(&j(r#"{"add": ["dev@mozilla.com"]}"#)));
    assert!(!contains_key(&body, "resolution"));
    assert!(!contains_key(&body, "status"));
}

#[test]
fn test_build_set_fields_body_cc_only() {
    let body = build_set_fields_body(
        None,
        None,
        None,
        None,
        &[],
        &[],
        &["a@b.com".to_string(), "c@d.com".to_string()],
    );
    assert_eq!(member(&body, "cc"), Some(&j(r#"{"add": ["a@b.com", "c@d.com"]}"#)));
    assert_eq!(object_len(&body), 1);
}

#[test]
fn test_build_set_fields_body_empty_cc_omitted() {
    let body = build_set_fields_body(Some("P1"), None, None, None, &[], &[], &[]);
    assert!(!contains_key(&body, "cc"));
    assert_eq!(member(&body, "priority"), Some(&s("P1")));
}

#[test]
fn test_build_set_fields_body_all_empty_returns_empty_map() {
    let body = build_set_fields_body(None, None, None, None, &[], &[], &[]);
    assert_eq!(object_len(&body), 0);
}

#[test]
fn test_build_set_fields_body_close_bug() {
    let body = build_set_fields_body(None, None, Some("RESOLVED"), Some("FIXED"), &[], &[], &[]);
    assert_eq!(member(&body, "status"), Some(&s("RESOLVED")));
    assert_eq!(member(&body, "resolution"), Some(&s("FIXED")));
    assert_eq!(object_len(&body), 2);
}

#[test]
fn test_build_set_fields_body_status_only() {
    let body = build_set_fields_body(None, None, Some("ASSIGNED"), None, &[], &[], &[]);
    assert_eq!(member(&body, "status"), Some(&s("ASSIGNED")));
    assert!(!contains_key(&body, "resolution"));
}

#[test]
fn test_build_set_fields_body_no_status_omitted() {
    let body = build_set_fields_body(Some("P1"), None, None, Some("FIXED"), &[], &[], &[]);
    assert!(!contains_key(&body, "status"));
    assert_eq!(member(&body, "resolution"), Some(&s("FIXED")));
}

#[test]
fn set_fields_body_text_in_name_order() {
    let body = build_set_fields_body(Some("--"), None, Some("NEW"), None, &[5], &[], &[]);
    assert_eq!(body, j(r#"{"blocks":{"add":[5]},"priority":"--","status":"NEW"}"#));
}

// --- text shown to the user ---

#[test]
fn test_format_whoami() {
    let val = j(r#"{"name": "bot@mozilla.com", "real_name": "Triage Bot", "id": 1}"#);
    assert_eq!(format_whoami(&val), "Triage Bot <bot@mozilla.com>");
}

#[test]
fn test_format_whoami_missing_fields() {
    let val = j("{}");
    assert_eq!(format_whoami(&val), "? <?>");
}

#[test]
fn test_format_bug_header_basic() {
    let bug = j(r#"{
        "id": 123,
        "summary": "Video playback crash",
        "status": "NEW",
        "resolution": "",
        "priority": "P2",
        "severity": "S2",
        "assigned_to": "nobody@mozilla.org",
        "creator": "reporter@example.com",
        "creator_detail": {"real_name": "A Reporter"},
        "cf_qa_whiteboard": ""
    }"#);
    let out = format_bug_header(&bug);
    assert!(out.contains("Bug 123: Video playback crash"));
    assert!(out.contains("Status:   NEW"));
    assert!(out.contains("Priority: P2  Severity: S2"));
    assert!(out.contains("Assigned: nobody@mozilla.org"));
    assert!(out.contains("Creator:  reporter@example.com (A Reporter)"));
    assert!(!out.contains("QA:"));
}

#[test]
fn test_format_bug_header_shows_qa_whiteboard() {
    let bug = j(r#"{
        "id": 1, "summary": "s", "status": "NEW", "resolution": "",
        "priority": "--", "severity": "--",
        "assigned_to": "nobody@mozilla.org",
        "creator": "x@x.com", "creator_detail": {"real_name": "X"},
        "cf_qa_whiteboard": "verified-upstream"
    }"#);
    let out = format_bug_header(&bug);
    assert!(out.contains("QA:       verified-upstream"));
}

#[test]
fn bug_header_exact_text_with_missing_fields() {
    let out = format_bug_header(&j(r#"{"status": "RESOLVED", "resolution": "FIXED"}"#));
    assert_eq!(
        out,
        "Bug null: ?\n  Status:   RESOLVED FIXED\n  Priority: ?  Severity: ?\n  Assigned: ?\n  Creator:  ? (?)\n"
    );
}

#[test]
fn test_format_comments_full_text() {
    let comment = format!(
        r#"{{"creation_time": "2026-01-01T00:00:00Z", "creator": "dev@mozilla.com", "text": "{}"}}"#,
        "a".repeat(600)
    );
    let comments = vec![j(&comment)];
    let out = format_comments(&comments);
    assert!(out.contains("1 comment(s)"));
    assert!(out.contains(&"a".repeat(600)));
}

#[test]
fn test_format_comments_empty() {
    let out = format_comments(&[]);
    assert!(out.contains("0 comment(s)"));
}

#[test]
fn comments_exact_text() {
    let comments = vec![
        j(r#"{"creation_time": "2026-01-01T00:00:00Z", "creator": "a@b.c", "text": "first"}"#),
        j(r#"{"creator": "x@y.z"}"#),
    ];
    assert_eq!(
        format_comments(&comments),
        "\n--- 2 comment(s) ---\n\n[2026-01-01T00:00:00Z] a@b.c:\nfirst\n\n[?] x@y.z:\n"
    );
}

#[test]
fn search_line_text_and_defaults() {
    let bug = j(r#"{"id": 7, "summary": "crash", "status": "NEW", "priority": "P1"}"#);
    assert_eq!(search_line(&bug), "Bug 7: [NEW P1] crash");
    assert_eq!(search_line(&j("{}")), "Bug 0: [? --] ?");
}

// --- search parameters ---

#[test]
fn test_search_params_default() {
    let params = build_search_params("mp4 crash", &[], None, 25, false, false);
    assert_eq!(param(&params, "f1").as_deref(), Some("short_desc"));
    assert_eq!(param(&params, "o1").as_deref(), Some("substring"));
    assert_eq!(param(&params, "v1").as_deref(), Some("mp4 crash"));
    assert!(param(&params, "f3").is_none());
    let statuses = all_values(&params, "bug_status");
    assert!(statuses.contains(&"NEW"));
    assert!(statuses.contains(&"UNCONFIRMED"));
    assert!(statuses.contains(&"ASSIGNED"));
    assert!(statuses.contains(&"REOPENED"));
    assert_eq!(param(&params, "limit").as_deref(), Some("25"));
}

#[test]
fn test_search_params_full_text() {
    let params = build_search_params("NS_ERROR_FAILURE", &[], None, 25, true, false);
    assert_eq!(param(&params, "f1").as_deref(), Some("OP"));
    assert_eq!(param(&params, "j1").as_deref(), Some("OR"));
    assert_eq!(param(&params, "f2").as_deref(), Some("short_desc"));
    assert_eq!(param(&params, "o2").as_deref(), Some("substring"));
    assert_eq!(param(&params, "v2").as_deref(), Some("NS_ERROR_FAILURE"));
    assert_eq!(param(&params, "f3").as_deref(), Some("longdesc"));
    assert_eq!(param(&params, "o3").as_deref(), Some("substring"));
    assert_eq!(param(&params, "v3").as_deref(), Some("NS_ERROR_FAILURE"));
    assert_eq!(param(&params, "f4").as_deref(), Some("CP"));
}

#[test]
fn test_search_params_all_statuses() {
    let params = build_search_params("crash", &[], None, 25, false, true);
    assert!(all_values(&params, "bug_status").is_empty());
}

#[test]
fn test_search_params_components_and_product() {
    let components = vec![
        "Audio/Video: Playback".to_string(),
        "Audio/Video: Web Codecs".to_string(),
    ];
    let params = build_search_params("decode", &components, Some("Core"), 10, false, false);
    let comps = all_values(&params, "component");
    assert!(comps.contains(&"Audio/Video: Playback"));
    assert!(comps.contains(&"Audio/Video: Web Codecs"));
    assert_eq!(param(&params, "product").as_deref(), Some("Core"));
    assert_eq!(param(&params, "limit").as_deref(), Some("10"));
}

#[test]
fn test_search_params_no_product() {
    let params = build_search_params("crash", &[], None, 25, false, false);
    assert!(param(&params, "product").is_none());
}

#[test]
fn search_params_exact_order() {
    let params = build_search_params("q", &strings(&["C"]), Some("P"), 4294967295, false, false);
    let flat: Vec<(&str, &str)> = params.iter().map(|(k, v)| (k.as_str(), v.as_str())).collect();
    assert_eq!(
        flat,
        vec![
            ("query_format", "advanced"),
            ("limit", "4294967295"),
            ("f1", "short_desc"),
            ("o1", "substring"),
            ("v1", "q"),
            ("bug_status", "UNCONFIRMED"),
            ("bug_status", "NEW"),
            ("bug_status", "ASSIGNED"),
            ("bug_status", "REOPENED"),
            ("component", "C"),
            ("product", "P"),
        ]
    );
}

// --- configuration ---

#[test]
fn secrets_with_export_prefix() {
    let content = "# triage\nexport BUGZILLA_BOT_API_KEY=abc123\n";
    assert_eq!(parse_secrets(content), Some("abc123".to_string()));
}

#[test]
fn secrets_plain_and_trimmed() {
    assert_eq!(parse_secrets("  BUGZILLA_BOT_API_KEY=k1  \n"), Some("k1".to_string()));
}

#[test]
fn secrets_empty_key_skipped() {
    let content = "BUGZILLA_BOT_API_KEY=\nBUGZILLA_BOT_API_KEY=second\r\n";
    assert_eq!(parse_secrets(content), Some("second".to_string()));
}

#[test]
fn secrets_without_key() {
    assert_eq!(parse_secrets(""), None);
    assert_eq!(parse_secrets("OTHER=1\nexport X=2"), None);
}

#[test]
fn secrets_round_trip() {
    let text = secrets_file_text("my-key");
    assert_eq!(text, "export BUGZILLA_BOT_API_KEY=my-key\n");
    assert_eq!(parse_secrets(&text), Some("my-key".to_string()));
}

#[test]
fn api_key_from_env_first() {
    assert_eq!(
        choose_api_key(Some("env"), Some("BUGZILLA_BOT_API_KEY=file")),
        Some("env".to_string())
    );
    assert_eq!(
        choose_api_key(Some(""), Some("BUGZILLA_BOT_API_KEY=file")),
        Some("file".to_string())
    );
    assert_eq!(choose_api_key(None, None), None);
    assert_eq!(choose_api_key(Some(""), Some("nothing")), None);
}

#[test]
fn base_url_answers() {
    assert_eq!(normalize_base_url(""), "https://bugzilla.mozilla.org/rest");
    assert_eq!(normalize_base_url("https://bmo.test///"), "https://bmo.test/rest");
    assert_eq!(normalize_base_url("https://bmo.test/rest/"), "https://bmo.test/rest");
    assert_eq!(normalize_base_url("https://bmo.test/rest"), "https://bmo.test/rest");
    let once = normalize_base_url("http://x/");
    assert_eq!(normalize_base_url(&once), once);
}

// --- fetching the triage queue ---

#[test]
fn fetch_params_default_components() {
    let params = build_fetch_params("2026-01-05", "2026-01-12", &[]);
    assert_eq!(param(&params, "v2").as_deref(), Some("2026-01-05"));
    assert_eq!(param(&params, "v3").as_deref(), Some("2026-01-12"));
    assert_eq!(param(&params, "n3").as_deref(), Some("1"));
    assert_eq!(param(&params, "v9").as_deref(), Some("core-security"));
    let comps = all_values(&params, "component");
    assert_eq!(comps.len(), 8);
    assert_eq!(comps[0], "Audio/Video");
    assert_eq!(comps[7], "Audio/Video: Web Codecs");
    assert_eq!(
        all_values(&params, "bug_status"),
        vec!["UNCONFIRMED", "NEW", "ASSIGNED", "REOPENED"]
    );
    assert_eq!(params.len(), 24 + 8 + 4);
}

#[test]
fn fetch_params_named_components() {
    let params = build_fetch_params("a", "b", &strings(&["Web Audio"]));
    assert_eq!(all_values(&params, "component"), vec!["Web Audio"]);
}

#[test]
fn text_order_by_code_point() {
    assert!(text_le_str("", ""));
    assert!(text_le_str("a", "b"));
    assert!(!text_le_str("b", "a"));
    assert!(text_le_str("ab", "abc"));
    assert!(!text_le_str("abc", "ab"));
    assert!(text_le_str("Z", "a"));
}

#[test]
fn sort_is_stable_by_creation_time() {
    let bugs = vec![
        j(r#"{"id": 1, "creation_time": "2026-01-03T00:00:00Z"}"#),
        j(r#"{"id": 2, "creation_time": "2026-01-01T00:00:00Z"}"#),
        j(r#"{"id": 3}"#),
        j(r#"{"id": 4, "creation_time": "2026-01-01T00:00:00Z"}"#),
    ];
    let sorted = sort_by_creation_time(&bugs);
    let ids: Vec<u64> = sorted.iter().map(|b| b.get("id").unwrap().as_u64().unwrap()).collect();
    assert_eq!(ids, vec![3, 2, 4, 1]);
}

// --- request bodies ---

#[test]
fn comment_body_text() {
    assert_eq!(comment_body("Hello \"you\""), j(r#"{"comment":"Hello \"you\""}"#));
}

#[test]
fn needinfo_body_text() {
    let body = needinfo_flags_body(&strings(&["a@b.c", "d@e.f"]));
    assert_eq!(body, j(r#"{"flags":[{"name":"needinfo","requestee":"a@b.c","status":"?"},{"name":"needinfo","requestee":"d@e.f","status":"?"}]}"#));
}

// --- applying a draft ---

#[test]
fn plan_full_draft() {
    let draft = j(r#"{
        "bug_id": 42, "title": "Crash", "comment": "Thanks!",
        "ni_targets": ["a@b.c", 5, "d@e.f"], "priority": "P3"
    }"#);
    let plan = plan_apply(&draft, 7);
    assert_eq!(plan.bug_id, 42);
    assert_eq!(plan.comment, Some("Thanks!".to_string()));
    assert_eq!(plan.fields, j(r#"{"priority":"P3"}"#));
    assert_eq!(
        plan.watch,
        Some(("Crash".to_string(), strings(&["a@b.c", "d@e.f"])))
    );
}

#[test]
fn plan_minimal_draft() {
    let draft = j(r#"{"comment": "", "ni_targets": []}"#);
    let plan = plan_apply(&draft, 7);
    assert_eq!(plan.bug_id, 7);
    assert_eq!(plan.comment, None);
    assert_eq!(plan.fields, j("{}"));
    assert_eq!(plan.watch, None);
}

#[test]
fn draft_summary_text() {
    let draft = j(r#"{"bug_id": 9, "title": "T", "comment": "C", "ni_targets": ["x@y.z"], "priority": "P1", "blocks_add": [1, 2]}"#);
    assert_eq!(
        draft_summary(&draft),
        "--- Draft for bug 9: T ---\nComment:\nC\nNI targets: [\"x@y.z\"]\nFields: priority=\"P1\", severity=null, blocks_add=[1,2], keywords_add=null, cc_add=null\n"
    );
}

#[test]
fn yes_answers() {
    assert!(is_yes("y"));
    assert!(is_yes("Y"));
    assert!(!is_yes("yes"));
    assert!(!is_yes(""));
    assert!(!is_yes("n"));
}

#[test]
fn header_with_given_id_text() {
    let bug = j(r#"{"summary": "S", "status": "NEW", "resolution": "", "priority": "P1", "severity": "S1", "assigned_to": "a@b", "creator": "c@d", "creator_detail": {"real_name": "C"}}"#);
    assert_eq!(
        format_bug_header_with_id(&bug, "<id>"),
        "Bug <id>: S\n  Status:   NEW \n  Priority: P1  Severity: S1\n  Assigned: a@b\n  Creator:  c@d (C)\n"
    );
}

#[test]
fn header_shows_id_as_json() {
    assert!(format_bug_header(&j(r#"{"id": "12"}"#)).starts_with("Bug \"12\": ?\n"));
    assert!(format_bug_header(&j(r#"{"id": 12}"#)).starts_with("Bug 12: ?\n"));
}

#[test]
fn summary_with_given_texts() {
    let shown = DraftShown {
        bug_id: "B".to_string(),
        ni_targets: "N".to_string(),
        priority: "P".to_string(),
        severity: "S".to_string(),
        blocks_add: "BL".to_string(),
        keywords_add: "K".to_string(),
        cc_add: "CC".to_string(),
    };
    assert_eq!(
        draft_summary_with(&j(r#"{"comment": 3}"#), &shown),
        "--- Draft for bug B: ? ---\nComment:\n\nNI targets: N\nFields: priority=P, severity=S, blocks_add=BL, keywords_add=K, cc_add=CC\n"
    );
}

#[test]
fn draft_shows_escaped_strings() {
    let out = draft_summary(&j(r#"{"priority": "a\"b\n"}"#));
    assert!(out.contains(r#"priority="a\"b\n""#));
}

#[test]
fn plan_from_draft_text() {
    let plan = plan_apply_text(r#"{"bug_id": 5, "comment": "hi"}"#, 1).unwrap();
    assert_eq!(plan.bug_id, 5);
    assert_eq!(plan.comment, Some("hi".to_string()));
    assert!(plan_apply_text("{not json", 1).is_none());
    assert_eq!(plan_apply_text("[]", 8).unwrap().bug_id, 8);
}

#[test]
fn weeks_start_on_monday() {
    // Day 1 (1 January of year 1) is a Monday; 2026-01-07 is a Wednesday.
    assert_eq!(week_bounds(1), (1, 8));
    assert_eq!(week_bounds(7), (1, 8));
    assert_eq!(week_bounds(8), (8, 15));
    assert_eq!(week_bounds(0), (-6, 1));
    let wednesday = chrono::NaiveDate::from_ymd_opt(2026, 1, 7).unwrap();
    let (monday, next) = week_bounds(wednesday.num_days_from_ce());
    assert_eq!(chrono::NaiveDate::from_num_days_from_ce_opt(monday).unwrap().to_string(), "2026-01-05");
    assert_eq!(next - monday, 7);
}

#[test]
fn fetch_dates_default_to_the_week() {
    let sunday = chrono::NaiveDate::from_ymd_opt(2026, 1, 11).unwrap().num_days_from_ce();
    assert_eq!(
        fetch_dates(None, None, sunday),
        Some(("2026-01-05".to_string(), "2026-01-12".to_string()))
    );
    assert_eq!(
        fetch_dates(Some("2025-12-01"), None, sunday),
        Some(("2025-12-01".to_string(), "2026-01-12".to_string()))
    );
    assert_eq!(
        fetch_dates(Some("a"), Some("b"), sunday),
        Some(("a".to_string(), "b".to_string()))
    );
    assert_eq!(fetch_dates(None, Some("b"), 2_000_000_000), None);
}

#[test]
fn setup_key_steps() {
    assert_eq!(setup_key_step("", None), KeyStep::ReadOnly);
    assert_eq!(setup_key_step("yes", Some("k")), KeyStep::ReadOnly);
    assert_eq!(setup_key_step("y", None), KeyStep::AskKey);
    assert_eq!(setup_key_step("Y", Some("")), KeyStep::KeyRequired);
    assert_eq!(setup_key_step("y", Some("k1")), KeyStep::Verify("k1".to_string()));
}

#[test]
fn fields_update_marks_duplicate() {
    let body = build_fields_update(
        None,
        None,
        Some("RESOLVED"),
        Some("DUPLICATE"),
        Some(77),
        &[],
        &["k".to_string()],
        &["c@d".to_string()],
    );
    assert_eq!(
        body,
        j(r#"{"cc":{"add":["c@d"]},"dupe_of":77,"keywords":{"add":["k"]},"resolution":"DUPLICATE","status":"RESOLVED"}"#)
    );
    let none = build_fields_update(Some("P1"), None, None, None, None, &[], &[], &[]);
    assert_eq!(none, build_set_fields_body(Some("P1"), None, None, None, &[], &[], &[]));
}

#[test]
fn search_filters_removable() {
    let cs = strings(&["C1", "C2"]);
    for full_text in [false, true] {
        let open = build_search_params("q", &cs, Some("Core"), 9, full_text, false);
        let all = build_search_params("q", &cs, Some("Core"), 9, full_text, true);
        let without_status: Vec<(String, String)> =
            open.iter().filter(|(k, _)| k != "bug_status").cloned().collect();
        assert_eq!(without_status, all);
        let no_product = build_search_params("q", &cs, None, 9, full_text, false);
        let without_product: Vec<(String, String)> =
            open.iter().filter(|(k, _)| k != "product").cloned().collect();
        assert_eq!(without_product, no_product);
    }
}

#[test]
fn updates_and_their_names() {
    let empty = build_set_fields_body(None, None, None, None, &[], &[], &[]);
    assert!(!has_updates(&empty));
    assert!(update_field_names(&empty).is_empty());
    let body = build_set_fields_body(Some("P1"), None, Some("NEW"), None, &[3], &[], &[]);
    assert!(has_updates(&body));
    assert_eq!(update_field_names(&body), strings(&["blocks", "priority", "status"]));
    assert!(!has_updates(&Json::Null));
}
