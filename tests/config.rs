use mini_claw::config::ThinkingLevel;

#[test]
fn test_thinking_level_display() {
    assert_eq!(ThinkingLevel::Low.to_string(), "low");
    assert_eq!(ThinkingLevel::Medium.to_string(), "medium");
    assert_eq!(ThinkingLevel::High.to_string(), "high");
}

#[test]
fn test_thinking_level_from_str() {
    assert_eq!(ThinkingLevel::from_str("low"), ThinkingLevel::Low);
    assert_eq!(ThinkingLevel::from_str("medium"), ThinkingLevel::Medium);
    assert_eq!(ThinkingLevel::from_str("high"), ThinkingLevel::High);
    assert_eq!(ThinkingLevel::from_str("HIGH"), ThinkingLevel::High);
    assert_eq!(ThinkingLevel::from_str("unknown"), ThinkingLevel::Low);
    assert_eq!(ThinkingLevel::from_str(""), ThinkingLevel::Low);
}

#[test]
fn thinking_level_mixed_case_and_near_misses() {
    assert_eq!(ThinkingLevel::from_str("MeDiUm"), ThinkingLevel::Medium);
    assert_eq!(ThinkingLevel::from_str("highs"), ThinkingLevel::Low);
    assert_eq!(ThinkingLevel::from_str(" high"), ThinkingLevel::Low);
}

fn config_with(users: Vec<i64>) -> mini_claw::config::Config {
    mini_claw::config::Config {
        telegram_token: "SECRET-REDACTED".to_string(),
        workspace: "/w".to_string(),
        session_dir: "/s".to_string(),
        thinking_level: ThinkingLevel::Low,
        allowed_users: users,
        rate_limit_cooldown_ms: 5000,
        pi_timeout_ms: 300000,
        shell_timeout_ms: 60000,
        session_title_timeout_ms: 10000,
    }
}

#[test]
fn access_by_allowed_users() {
    assert!(config_with(vec![]).allows(None));
    assert!(config_with(vec![]).allows(Some(5)));
    assert!(config_with(vec![1, 5]).allows(Some(5)));
    assert!(!config_with(vec![1, 5]).allows(Some(6)));
    assert!(!config_with(vec![1]).allows(None));
}

fn settings() -> mini_claw::config::Settings {
    mini_claw::config::Settings {
        telegram_token: Some("  SECRET-REDACTED ".to_string()),
        workspace: None,
        session_dir: Some("~//state/s".to_string()),
        thinking_level: Some(" High ".to_string()),
        allowed_users: Some(" 1, x ,-7,,+3 ".to_string()),
        rate_limit_cooldown_ms: Some(" 2500 ".to_string()),
        pi_timeout_ms: Some("-1".to_string()),
        shell_timeout_ms: Some("+10".to_string()),
        session_title_timeout_ms: None,
    }
}

#[test]
fn config_from_raw_settings() {
    let c = mini_claw::config::config_from_settings(&settings(), "/home/u").ok().unwrap();
    assert_eq!(c.telegram_token, "SECRET-REDACTED");
    assert_eq!(c.workspace, "/home/u/mini-claw-workspace");
    assert_eq!(c.session_dir, "/home/u/state/s");
    assert_eq!(c.thinking_level, ThinkingLevel::High);
    assert_eq!(c.allowed_users, vec![1, -7, 3]);
    assert_eq!(c.rate_limit_cooldown_ms, 2500);
    assert_eq!(c.pi_timeout_ms, 300_000);
    assert_eq!(c.shell_timeout_ms, 10);
    assert_eq!(c.session_title_timeout_ms, 10_000);
}

#[test]
fn config_needs_a_token() {
    let mut s = settings();
    s.telegram_token = Some("   ".to_string());
    match mini_claw::config::config_from_settings(&s, "/home/u") {
        Err(mini_claw::error::MiniClawError::Config(m)) => assert!(m.contains("TELEGRAM_BOT_TOKEN")),
        _ => panic!("Expected a configuration error"),
    }
}

#[test]
fn numbers_read_as_std_parses_them() {
    let v = |s: &str| s.chars().collect::<Vec<char>>();
    assert_eq!(mini_claw::text::parse_u64(&v("18446744073709551615")), Some(u64::MAX));
    assert_eq!(mini_claw::text::parse_u64(&v("18446744073709551616")), None);
    assert_eq!(mini_claw::text::parse_u64(&v("+0007")), Some(7));
    assert_eq!(mini_claw::text::parse_u64(&v("+")), None);
    assert_eq!(mini_claw::text::parse_u64(&v("-1")), None);
    assert_eq!(mini_claw::text::parse_i64(&v("-9223372036854775808")), Some(i64::MIN));
    assert_eq!(mini_claw::text::parse_i64(&v("9223372036854775808")), None);
    assert_eq!(mini_claw::text::parse_i64(&v("-")), None);
    for s in ["12", "+12", "-0", "", "1a", "99999999999999999999"] {
        assert_eq!(mini_claw::text::parse_i64(&v(s)), s.parse::<i64>().ok());
        assert_eq!(mini_claw::text::parse_u64(&v(s)), s.parse::<u64>().ok());
    }
}
