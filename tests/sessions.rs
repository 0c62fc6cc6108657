use mini_claw::calendar::{
    chrono_like_timestamp, days_to_ymd, format_age_at, format_file_size, format_session_age,
    format_timestamp, is_leap_year,
};
use mini_claw::sessions::{
    archive_filename, session_info, session_tenant, sessions_to_delete, sort_newest_first,
    SessionInfo, SessionManager, SwitchPlan,
};
use mini_claw::error::MiniClawError;

fn now_ms() -> u64 {
    std::time::SystemTime::now()
        .duration_since(std::time::UNIX_EPOCH)
        .unwrap()
        .as_millis() as u64
}

#[test]
fn test_default_session_filename() {
    assert_eq!(SessionManager::default_session_filename(123), "telegram-123.jsonl");
    assert_eq!(SessionManager::default_session_filename(-456), "telegram--456.jsonl");
}

#[test]
fn test_format_file_size_bytes() {
    assert_eq!(format_file_size(500), "500B");
}

#[test]
fn test_format_file_size_kb() {
    assert_eq!(format_file_size(2048), "2.0KB");
}

#[test]
fn test_format_file_size_mb() {
    assert_eq!(format_file_size(1048576), "1.0MB");
}

#[test]
fn file_size_rounds_like_float_formatting() {
    for bytes in [1023u64, 1024, 1075, 1126, 1280, 1331, 1536, 10239, 1048575, 1048576 + 52428, 5 * 1048576 + 314572] {
        let expected = if bytes < 1024 {
            format!("{bytes}B")
        } else if bytes < 1024 * 1024 {
            format!("{:.1}KB", bytes as f64 / 1024.0)
        } else {
            format!("{:.1}MB", bytes as f64 / (1024.0 * 1024.0))
        };
        assert_eq!(format_file_size(bytes), expected);
    }
}

#[test]
fn test_format_session_age_just_now() {
    assert_eq!(format_session_age(now_ms()), "just now");
}

#[test]
fn test_format_session_age_minutes() {
    assert_eq!(format_session_age(now_ms() - 300_000), "5m ago");
}

#[test]
fn test_format_session_age_hours() {
    assert_eq!(format_session_age(now_ms() - 7_200_000), "2h ago");
}

#[test]
fn test_format_session_age_days() {
    assert_eq!(format_session_age(now_ms() - 172_800_000), "2d ago");
}

#[test]
fn session_age_beyond_a_week_is_a_date() {
    let then = 1_735_689_600_000u64; // 2025-01-01
    assert_eq!(format_age_at(then + 8 * 86_400_000, then), "1/1/2025");
    assert_eq!(format_age_at(then, then + 5000), "just now");
    assert_eq!(format_age_at(then + 59_999, then), "just now");
    assert_eq!(format_age_at(then + 60_000, then), "1m ago");
}

#[test]
fn test_chrono_like_timestamp_format() {
    let ts = chrono_like_timestamp();
    assert!(ts.ends_with('Z'));
    assert!(ts.contains('T'));
    assert_eq!(ts.len(), 24);
}

#[test]
fn timestamps_of_known_instants() {
    assert_eq!(format_timestamp(0), "1970-01-01T00-00-00-000Z");
    assert_eq!(format_timestamp(1_735_689_600_123), "2025-01-01T00-00-00-123Z");
    assert_eq!(format_timestamp(951_782_400_000 + 3_723_004), "2000-02-29T01-02-03-004Z");
}

#[test]
fn test_days_to_ymd() {
    let (y, m, d) = days_to_ymd(0);
    assert_eq!((y, m, d), (1970, 1, 1));
}

#[test]
fn days_to_ymd_known_days() {
    assert_eq!(days_to_ymd(20089), (2025, 1, 1));
    assert_eq!(days_to_ymd(59), (1970, 3, 1));
    assert_eq!(days_to_ymd(11016), (2000, 2, 29));
    assert_eq!(days_to_ymd(364), (1970, 12, 31));
}

#[test]
fn test_is_leap_year() {
    assert!(is_leap_year(2000));
    assert!(is_leap_year(2024));
    assert!(!is_leap_year(1900));
    assert!(!is_leap_year(2023));
}

#[test]
fn switch_binds_target_and_archives_canonical() {
    let mut mgr = SessionManager::new();
    assert_eq!(mgr.get_active_session_filename(7), "telegram-7.jsonl");
    match mgr.plan_switch(7, "A.jsonl", true, true, "2025-01-01T00-00-00-000Z") {
        Ok(SwitchPlan::Switch { archive_to, copy_target }) => {
            assert_eq!(archive_to.as_deref(), Some("telegram-7-2025-01-01T00-00-00-000Z.jsonl"));
            assert!(copy_target);
        }
        _ => panic!("Expected a switch"),
    }
    mgr.commit_switch(7, "A.jsonl");
    assert_eq!(mgr.get_active_session_filename(7), "A.jsonl");
    assert!(matches!(
        mgr.plan_switch(7, "A.jsonl", true, true, "ts"),
        Ok(SwitchPlan::AlreadyActive)
    ));
    match mgr.plan_switch(7, "B.jsonl", true, false, "ts") {
        Ok(SwitchPlan::Switch { archive_to, copy_target }) => {
            assert!(archive_to.is_none());
            assert!(copy_target);
        }
        _ => panic!("Expected a switch"),
    }
    mgr.clear_active_session(7);
    assert_eq!(mgr.get_active_session_filename(7), "telegram-7.jsonl");
}

#[test]
fn switch_to_missing_target_fails() {
    let mgr = SessionManager::new();
    match mgr.plan_switch(3, "gone.jsonl", false, true, "ts") {
        Err(MiniClawError::Session(m)) => assert_eq!(m, "Session not found: gone.jsonl"),
        _ => panic!("Expected an error"),
    }
}

#[test]
fn bindings_survive_a_json_round_trip() {
    let mut mgr = SessionManager::new();
    mgr.commit_switch(-12, "x.jsonl");
    mgr.commit_switch(5, "y.jsonl");
    let text = mgr.to_json();
    let mut other = SessionManager::new();
    other.load_json(&text);
    assert_eq!(other.get_active_session_filename(-12), "x.jsonl");
    assert_eq!(other.get_active_session_filename(5), "y.jsonl");
    let mut bad = SessionManager::new();
    bad.load_json("{\"007\": \"z.jsonl\", \"9\": \"w.jsonl\"}");
    assert_eq!(bad.get_active_session_filename(7), "telegram-7.jsonl");
    assert_eq!(bad.get_active_session_filename(9), "w.jsonl");
    bad.load_json("not json");
    assert_eq!(bad.get_active_session_filename(9), "telegram-9.jsonl");
}

#[test]
fn archive_names() {
    assert_eq!(archive_filename(-1, "T"), "telegram--1-T.jsonl");
}

#[test]
fn tenants_from_file_names() {
    assert_eq!(session_tenant("telegram-123.jsonl"), "123");
    assert_eq!(session_tenant("telegram--45-2025.jsonl"), "-45");
    assert_eq!(session_tenant("telegram-x.jsonl"), "unknown");
    assert_eq!(session_tenant("telegram--.jsonl"), "unknown");
    assert_eq!(session_tenant("other-1.jsonl"), "unknown");
    assert_eq!(session_tenant("telegram-\u{661}.jsonl"), "\u{661}");
    assert!(session_info("notes.txt".to_string(), "/s/notes.txt".to_string(), 0, 0).is_none());
}

fn entry(name: &str, modified_ms: u64) -> SessionInfo {
    session_info(name.to_string(), format!("/s/{name}"), modified_ms, 10).unwrap()
}

#[test]
fn retention_deletes_the_three_oldest_of_eight() {
    let mut list = Vec::new();
    for k in 0..8u64 {
        list.push(entry(&format!("telegram-9-{k}.jsonl"), 1000 * (k + 1)));
    }
    list.push(entry("telegram-4.jsonl", 50));
    let sorted = sort_newest_first(list);
    for w in sorted.windows(2) {
        assert!(w[0].modified_ms >= w[1].modified_ms);
    }
    let doomed = sessions_to_delete(&sorted, 5);
    let mut names: Vec<String> = doomed.iter().map(|&i| sorted[i].filename.clone()).collect();
    names.sort();
    assert_eq!(names, vec!["telegram-9-0.jsonl", "telegram-9-1.jsonl", "telegram-9-2.jsonl"]);
}

#[test]
fn retention_with_keep_zero_deletes_all() {
    let list = vec![entry("telegram-1.jsonl", 5), entry("telegram-2.jsonl", 6)];
    assert_eq!(sessions_to_delete(&list, 0), vec![0, 1]);
    assert!(sessions_to_delete(&list, 1).is_empty());
}

#[test]
fn retention_groups_by_any_decimal_digits() {
    let list = vec![entry("telegram-\u{661}.jsonl", 5), entry("telegram-\u{662}.jsonl", 6)];
    assert_eq!(list[0].chat_id, "\u{661}");
    assert!(sessions_to_delete(&list, 1).is_empty());
}
