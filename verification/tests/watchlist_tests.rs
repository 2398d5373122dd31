use bugzilla_cli::client::assemble_bug;
use bugzilla_cli::json::{read_json, Json};
use bugzilla_cli::text::u64_to_decimal;
use bugzilla_cli::watchlist::{
    watch_list_of_text,
    days_between, has_replied, ni_is_cleared, Instant, PollOutcome, PollReport, WatchList,
};
use chrono::{DateTime, Duration, Utc};

fn j(text: &str) -> Json {
    read_json(text).unwrap()
}

fn instant(t: DateTime<Utc>) -> Instant {
    Instant { secs: t.timestamp(), nanos: t.timestamp_subsec_nanos() }
}

fn targets(emails: &[&str]) -> Vec<String> {
    emails.iter().map(|s| s.to_string()).collect()
}

fn contains_id(report: &Json, list: &str, id: &str) -> bool {
    match report.get(list) {
        Some(Json::Array(items)) => items.iter().any(|x| *x == Json::Str(id.to_string())),
        _ => false,
    }
}

fn list_len(report: &Json, list: &str) -> usize {
    match report.get(list) {
        Some(Json::Array(items)) => items.len(),
        _ => usize::MAX,
    }
}

/// The bug data a fetch of bug `id` gives, with these flags and comments.
fn fetched(id: u64, flags_json: &str, comments_json: &str) -> Json {
    let bug_resp = j(&format!(
        r#"{{"bugs":[{{"id":{id},"summary":"Bug {id}","flags":{flags_json}}}]}}"#
    ));
    let comments_resp = j(&format!(r#"{{"bugs":{{"{id}":{{"comments":{comments_json}}}}}}}"#));
    assemble_bug(id, &bug_resp, Some(&comments_resp))
}

/// Runs a poll: each queued bug gets the data `fetch` gives for its number.
fn poll(wl: &mut WatchList, now: Instant, fetch: &dyn Fn(u64) -> Option<Json>) -> Json {
    let mut report = PollReport::new();
    for (bug_id, n) in wl.poll_queue() {
        let data = fetch(n);
        wl.record_poll(&bug_id, data.as_ref(), now, &mut report);
    }
    report.to_json()
}

fn date_text(t: DateTime<Utc>) -> String {
    t.format("%Y-%m-%dT%H:%M:%SZ").to_string()
}

// --- pure function unit tests ---

#[test]
fn test_has_replied_true() {
    let ni_date = Instant::parse("2026-01-01T00:00:00Z").unwrap();
    let reply_time = "2026-01-02T00:00:00Z";
    let comments = vec![j(&format!(
        r#"{{"creator": "dev@mozilla.com", "creation_time": "{reply_time}", "text": "done"}}"#
    ))];
    assert!(has_replied(&comments, &targets(&["dev@mozilla.com"]), ni_date));
}

#[test]
fn test_has_replied_false_wrong_creator() {
    let ni_date = Instant::parse("2026-01-01T00:00:00Z").unwrap();
    let comments = vec![j(
        r#"{"creator": "other@mozilla.com", "creation_time": "2026-01-02T00:00:00Z", "text": "unrelated"}"#,
    )];
    assert!(!has_replied(&comments, &targets(&["dev@mozilla.com"]), ni_date));
}

#[test]
fn test_has_replied_false_before_ni_date() {
    let ni_date = Instant::parse("2026-01-10T00:00:00Z").unwrap();
    let comments = vec![j(
        r#"{"creator": "dev@mozilla.com", "creation_time": "2026-01-05T00:00:00Z", "text": "old comment"}"#,
    )];
    assert!(!has_replied(&comments, &targets(&["dev@mozilla.com"]), ni_date));
}

#[test]
fn test_ni_is_cleared_true_when_no_active_flag() {
    let flags = vec![j(r#"{"name": "needinfo", "status": "-", "requestee": "dev@mozilla.com"}"#)];
    assert!(ni_is_cleared(&flags, &targets(&["dev@mozilla.com"])));
}

#[test]
fn test_ni_is_cleared_false_when_flag_active() {
    let flags = vec![j(r#"{"name": "needinfo", "status": "?", "requestee": "dev@mozilla.com"}"#)];
    assert!(!ni_is_cleared(&flags, &targets(&["dev@mozilla.com"])));
}

#[test]
fn test_ni_is_cleared_true_when_no_flags_at_all() {
    assert!(ni_is_cleared(&[], &targets(&["dev@mozilla.com"])));
}

// --- the list and its document ---

#[test]
fn test_add_and_persist() {
    let mut wl = WatchList::new();
    wl.add("123", "Test bug", &["a@b.com".to_string()], "2026-04-01T00:00:00Z");
    let doc = wl.to_json();
    drop(wl);
    let wl2 = WatchList::from_json(&doc).unwrap();
    assert!(wl2.get("123").is_some());
    assert_eq!(wl2.get("123").unwrap().get("title"), Some(&Json::Str("Test bug".to_string())));
}

#[test]
fn test_remove_existing() {
    let mut wl = WatchList::new();
    wl.add("456", "Another bug", &[], "2026-04-01T00:00:00Z");
    assert!(wl.remove("456"));
    assert!(wl.get("456").is_none());
}

#[test]
fn test_remove_nonexistent() {
    let mut wl = WatchList::new();
    assert!(!wl.remove("999"));
}

// --- poll tests ---

#[test]
fn test_poll_detects_reply() {
    let now = Utc::now();
    let ni_date = now - Duration::days(2);
    let reply_time = date_text(now - Duration::hours(1));
    let mut wl = WatchList::new();
    wl.add("100", "Test bug", &["reporter@example.com".to_string()], &date_text(ni_date));
    let comments = format!(
        r#"[{{"id":1,"creator":"reporter@example.com","text":"done","creation_time":"{reply_time}"}}]"#
    );
    let result = poll(&mut wl, instant(now), &|n| Some(fetched(n, "[]", &comments)));
    assert!(contains_id(&result, "replied", "100"));
    assert!(wl.get("100").is_none());
}

#[test]
fn test_poll_stale_after_14_days() {
    let now = Utc::now();
    let ni_date = now - Duration::days(15);
    let mut wl = WatchList::new();
    wl.add("200", "Stale bug", &["no-reply@example.com".to_string()], &date_text(ni_date));
    let flags = r#"[{"name":"needinfo","status":"?","requestee":"no-reply@example.com"}]"#;
    let result = poll(&mut wl, instant(now), &|n| Some(fetched(n, flags, "[]")));
    assert!(contains_id(&result, "stale", "200"));
    assert!(wl.get("200").is_some()); // still in list
}

#[test]
fn test_poll_not_stale_before_14_days() {
    let now = Utc::now();
    let ni_date = now - Duration::days(7); // 7 days < threshold
    let mut wl = WatchList::new();
    wl.add("201", "Pending bug", &["no-reply@example.com".to_string()], &date_text(ni_date));
    let flags = r#"[{"name":"needinfo","status":"?","requestee":"no-reply@example.com"}]"#;
    let result = poll(&mut wl, instant(now), &|n| Some(fetched(n, flags, "[]")));
    assert_eq!(list_len(&result, "stale"), 0);
}

#[test]
fn test_poll_ni_cleared() {
    let now = Utc::now();
    let ni_date = now - Duration::days(3);
    let mut wl = WatchList::new();
    wl.add("300", "NI cleared bug", &["dev@mozilla.com".to_string()], &date_text(ni_date));
    // flags empty = NI was cleared without a comment
    let result = poll(&mut wl, instant(now), &|n| Some(fetched(n, "[]", "[]")));
    assert!(contains_id(&result, "ni_cleared", "300"));
    assert!(wl.get("300").is_none()); // removed from list
}

#[test]
fn test_poll_auto_remove_after_30_days() {
    let now = Utc::now();
    let ni_date = now - Duration::days(31);
    let mut wl = WatchList::new();
    wl.add("400", "Ancient bug", &["ghost@mozilla.com".to_string()], &date_text(ni_date));
    let flags = r#"[{"name":"needinfo","status":"?","requestee":"ghost@mozilla.com"}]"#;
    let result = poll(&mut wl, instant(now), &|n| Some(fetched(n, flags, "[]")));
    assert!(contains_id(&result, "auto_removed", "400"));
    assert!(wl.get("400").is_none()); // purged
}

#[test]
fn test_poll_inaccessible() {
    let now = Utc::now();
    let ni_date = now - Duration::days(1);
    let mut wl = WatchList::new();
    wl.add("500", "Gone bug", &["x@y.com".to_string()], &date_text(ni_date));
    // the fetch fails
    let result = poll(&mut wl, instant(now), &|_| None);
    assert!(contains_id(&result, "inaccessible", "500"));
    assert!(wl.get("500").is_none());
}

// --- further cases ---

#[test]
fn test_instant_parse_reads_the_date() {
    assert_eq!(
        Instant::parse("2026-01-01T00:00:00Z"),
        Some(Instant { secs: 1_767_225_600, nanos: 0 })
    );
    assert_eq!(
        Instant::parse("2026-01-01T01:00:00.5+01:00"),
        Some(Instant { secs: 1_767_225_600, nanos: 500_000_000 })
    );
    assert_eq!(Instant::parse("yesterday"), None);
    assert_eq!(Instant::parse(""), None);
}

#[test]
fn test_days_between_counts_whole_days() {
    let a = Instant { secs: 1_000_000, nanos: 0 };
    assert_eq!(days_between(Instant { secs: 1_000_000 + 86_400 * 14, nanos: 0 }, a), 14);
    assert_eq!(days_between(Instant { secs: 1_000_000 + 86_400 * 14 - 1, nanos: 999 }, a), 13);
    assert_eq!(days_between(a, Instant { secs: 1_000_000 + 86_400 * 2, nanos: 0 }), -2);
    // toward zero: a day and a half back is one day
    assert_eq!(days_between(a, Instant { secs: 1_000_000 + 86_400 + 43_200, nanos: 0 }), -1);
    // agrees with chrono
    let x: DateTime<Utc> = "2026-03-01T10:00:00Z".parse().unwrap();
    let y: DateTime<Utc> = "2026-01-15T22:30:00.25Z".parse().unwrap();
    assert_eq!(days_between(instant(x), instant(y)), (x - y).num_days());
    assert_eq!(days_between(instant(y), instant(x)), (y - x).num_days());
}

#[test]
fn test_poll_skips_unreadable_date_and_id() {
    let now = Utc::now();
    let mut wl = WatchList::new();
    wl.add("600", "Odd bug", &["a@b.com".to_string()], "not a date");
    wl.add("abc", "Not a number", &["a@b.com".to_string()], &date_text(now));
    let queue = wl.poll_queue();
    assert_eq!(queue, vec![("600".to_string(), 600)]);
    let mut report = PollReport::new();
    let data = fetched(600, "[]", "[]");
    let o = wl.record_poll("600", Some(&data), instant(now), &mut report);
    assert_eq!(o, PollOutcome::Skipped);
    assert!(wl.get("600").is_some());
    assert!(wl.get("abc").is_some());
    let o2 = wl.record_poll("700", None, instant(now), &mut report);
    assert_eq!(o2, PollOutcome::Skipped);
    assert_eq!(
        report.to_json(),
        j(r#"{"auto_removed":[],"inaccessible":[],"ni_cleared":[],"replied":[],"stale":[]}"#)
    );
}

#[test]
fn test_poll_reply_beats_open_flag_and_age() {
    let now = Utc::now();
    let ni_date = now - Duration::days(40);
    let reply_time = date_text(now - Duration::days(1));
    let mut wl = WatchList::new();
    wl.add("800", "Old replied bug", &["dev@mozilla.com".to_string()], &date_text(ni_date));
    let flags = r#"[{"name":"needinfo","status":"?","requestee":"dev@mozilla.com"}]"#;
    let comments = format!(r#"[{{"creator":"dev@mozilla.com","creation_time":"{reply_time}"}}]"#);
    let result = poll(&mut wl, instant(now), &|n| Some(fetched(n, flags, &comments)));
    assert!(contains_id(&result, "replied", "800"));
    assert_eq!(list_len(&result, "auto_removed"), 0);
}

#[test]
fn test_add_replaces_and_keeps_others() {
    let mut wl = WatchList::new();
    wl.add("1", "First", &["a@b.com".to_string()], "2026-01-01T00:00:00Z");
    wl.add("2", "Second", &[], "2026-01-02T00:00:00Z");
    wl.add("1", "First again", &["c@d.com".to_string()], "2026-01-03T00:00:00Z");
    assert_eq!(wl.all().len(), 2);
    assert_eq!(
        wl.get("1").unwrap(),
        &j(r#"{"ni_set_date":"2026-01-03T00:00:00Z","ni_targets":["c@d.com"],"title":"First again"}"#)
    );
    assert_eq!(wl.get("2").unwrap().get("title"), Some(&Json::Str("Second".to_string())));
    // removing twice: the second time nothing was watched
    assert!(wl.remove("1"));
    assert!(!wl.remove("1"));
    assert_eq!(wl.all().len(), 1);
}

#[test]
fn test_from_json_later_member_wins_and_non_object_fails() {
    let doc = Json::Object(vec![
        ("7".to_string(), j(r#"{"title":"old"}"#)),
        ("8".to_string(), j(r#"{"title":"other"}"#)),
        ("7".to_string(), j(r#"{"title":"new"}"#)),
    ]);
    let wl = WatchList::from_json(&doc).unwrap();
    assert_eq!(wl.all().len(), 2);
    assert_eq!(wl.get("7").unwrap().get("title"), Some(&Json::Str("new".to_string())));
    assert!(WatchList::from_json(&j("[1,2]")).is_none());
}

#[test]
fn test_save_then_load_round_trip() {
    let mut wl = WatchList::new();
    wl.add("10", "A", &["x@y.com".to_string(), "z@w.com".to_string()], "2026-02-02T00:00:00Z");
    wl.add("11", "B", &[], "2026-02-03T00:00:00Z");
    let back = WatchList::from_json(&wl.to_json()).unwrap();
    assert_eq!(back.all(), wl.all());
}

#[test]
fn test_bug_id_written_reads_back() {
    for n in [0u64, 7, 10, 123456, u64::MAX] {
        let text = u64_to_decimal(n);
        let mut wl = WatchList::new();
        wl.add(&text, "t", &[], "2026-01-01T00:00:00Z");
        assert_eq!(wl.poll_queue(), vec![(text.clone(), n)]);
    }
}

#[test]
fn test_report_records_each_outcome_once() {
    let mut r = PollReport::new();
    r.record("1", PollOutcome::Replied);
    r.record("2", PollOutcome::NiCleared);
    r.record("3", PollOutcome::Stale);
    r.record("4", PollOutcome::AutoRemoved);
    r.record("5", PollOutcome::Inaccessible);
    r.record("6", PollOutcome::Pending);
    r.record("7", PollOutcome::Skipped);
    assert_eq!(
        r.to_json(),
        j(r#"{"auto_removed":["4"],"inaccessible":["5"],"ni_cleared":["2"],"replied":["1"],"stale":["3"]}"#)
    );
    assert!(PollOutcome::Replied.drops_bug());
    assert!(!PollOutcome::Stale.drops_bug());
}

#[test]
fn watch_file_text_read() {
    let wl = watch_list_of_text(r#"{"5": {"title": "T"}, "6": {}}"#).unwrap();
    assert_eq!(wl.all().len(), 2);
    assert_eq!(wl.get("5").unwrap().get("title"), Some(&Json::Str("T".to_string())));
    assert!(watch_list_of_text("[]").is_none());
    assert!(watch_list_of_text("{").is_none());
}

#[test]
fn whole_poll_run() {
    let now = Instant::parse("2026-03-01T00:00:00Z").unwrap();
    let mut wl = WatchList::new();
    wl.add("1", "replied", &targets(&["a@b.c"]), "2026-02-27T00:00:00Z");
    wl.add("2", "gone", &targets(&["a@b.c"]), "2026-02-27T00:00:00Z");
    wl.add("3", "stale", &targets(&["a@b.c"]), "2026-02-10T00:00:00Z");
    wl.add("x", "not a number", &targets(&["a@b.c"]), "2026-02-10T00:00:00Z");
    let open_flag = r#"[{"name":"needinfo","status":"?","requestee":"a@b.c"}]"#;
    let queue = wl.poll_queue();
    assert_eq!(queue.iter().map(|(id, _)| id.as_str()).collect::<Vec<_>>(), vec!["1", "2", "3"]);
    let fetched: Vec<(String, Option<Json>)> = queue
        .into_iter()
        .map(|(id, n)| {
            let data = match n {
                1 => Some(fetched(1, open_flag, r#"[{"creator":"a@b.c","creation_time":"2026-02-28T00:00:00Z"}]"#)),
                2 => None,
                _ => Some(fetched(n, open_flag, "[]")),
            };
            (id, data)
        })
        .collect();
    let report = wl.poll_run(&fetched, now);
    assert_eq!(
        report.to_json(),
        j(r#"{"auto_removed":[],"inaccessible":["2"],"ni_cleared":[],"replied":["1"],"stale":["3"]}"#)
    );
    let left: Vec<&str> = wl.all().iter().map(|(id, _)| id.as_str()).collect();
    assert_eq!(left, vec!["3", "x"]);
}
