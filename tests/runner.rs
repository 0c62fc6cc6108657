use mini_claw::config::{Config, ThinkingLevel};
use mini_claw::runner::{
    detect_activity, finish_run, get_session_path, heartbeat_update, oneshot_args,
    start_failed, stderr_handle_result, ActivityType, ProcessOutcome, RunPiOptions, StartFailure,
    OutputText,
};

#[test]
fn test_detect_activity_reading() {
    let result = detect_activity("Reading package.json");
    assert!(result.is_some());
    let (t, d) = result.unwrap();
    assert_eq!(t, ActivityType::Reading);
    assert_eq!(d, "package.json");
}

#[test]
fn test_detect_activity_writing() {
    let result = detect_activity("Writing src/main.rs");
    assert!(result.is_some());
    let (t, _) = result.unwrap();
    assert_eq!(t, ActivityType::Writing);
}

#[test]
fn test_detect_activity_running() {
    let result = detect_activity("Running npm test");
    assert!(result.is_some());
    let (t, d) = result.unwrap();
    assert_eq!(t, ActivityType::Running);
    assert_eq!(d, "npm test");
}

#[test]
fn test_detect_activity_searching() {
    let result = detect_activity("Searching for references");
    assert!(result.is_some());
    let (t, _) = result.unwrap();
    assert_eq!(t, ActivityType::Searching);
}

#[test]
fn test_detect_activity_thinking() {
    let result = detect_activity("Thinking about the problem");
    assert!(result.is_some());
    let (t, _) = result.unwrap();
    assert_eq!(t, ActivityType::Thinking);
}

#[test]
fn test_detect_activity_none() {
    assert!(detect_activity("").is_none());
    assert!(detect_activity("  ").is_none());
    assert!(detect_activity("Hello world").is_none());
}

#[test]
fn test_detect_activity_case_insensitive() {
    assert!(detect_activity("READING file.txt").is_some());
    assert!(detect_activity("read file.txt").is_some());
}

#[test]
fn activity_details_and_edges() {
    assert_eq!(
        detect_activity("  Created   out/report.pdf  "),
        Some((ActivityType::Writing, "out/report.pdf".to_string()))
    );
    assert_eq!(detect_activity("Readme"), None);
    assert_eq!(detect_activity("Reading"), None);
    assert_eq!(
        detect_activity("> $ cargo build"),
        Some((ActivityType::Running, "cargo build".to_string()))
    );
    assert_eq!(detect_activity("Running"), None);
    assert_eq!(
        detect_activity("Executingls"),
        Some((ActivityType::Running, "ls".to_string()))
    );
    let long = format!("Running {}", "x".repeat(80));
    assert_eq!(detect_activity(&long), Some((ActivityType::Running, "x".repeat(50))));
    assert_eq!(
        detect_activity("Looking around"),
        Some((ActivityType::Searching, "codebase".to_string()))
    );
    assert_eq!(detect_activity("processing"), Some((ActivityType::Thinking, String::new())));
    assert_eq!(
        detect_activity("Read a\nb"),
        Some((ActivityType::Reading, "a".to_string()))
    );
    assert_eq!(
        detect_activity("THIN\u{212a}ING hard"),
        Some((ActivityType::Thinking, String::new()))
    );
}

#[test]
fn heartbeat_reports_working() {
    let u = heartbeat_update(15);
    assert_eq!(u.activity_type, ActivityType::Working);
    assert_eq!(u.elapsed, 15);
    assert_eq!(u.detail, "");
}

#[test]
fn timeout_keeps_partial_output() {
    let r = finish_run(ProcessOutcome::TimedOut, "partial".to_string(), "warn".to_string());
    assert_eq!(r.output, "partial");
    assert_eq!(r.error.as_deref(), Some("Timeout: Pi took too long"));
}

#[test]
fn run_results_by_exit() {
    let r = finish_run(ProcessOutcome::Exited { success: true }, String::new(), String::new());
    assert_eq!(r.output, "(no output)");
    assert!(r.error.is_none());
    let r = finish_run(ProcessOutcome::Exited { success: false }, String::new(), "bad".to_string());
    assert_eq!(r.output, "Error occurred");
    assert_eq!(r.error.as_deref(), Some("bad"));
    let r = finish_run(ProcessOutcome::Exited { success: false }, "out".to_string(), "bad".to_string());
    assert_eq!(r.output, "out");
    let r = finish_run(ProcessOutcome::Exited { success: false }, "out".to_string(), String::new());
    assert_eq!(r.output, "out");
    assert!(r.error.is_none());
    let r = finish_run(ProcessOutcome::WaitFailed("gone".to_string()), "o".to_string(), String::new());
    assert_eq!(r.error.as_deref(), Some("Pi process error: gone"));
}

#[test]
fn output_lines_are_joined() {
    let mut out = OutputText::new();
    out.push_line("one");
    out.push_line("two");
    assert_eq!(out.into_text(), "one\ntwo");
    let mut out = OutputText::new();
    out.push_line("");
    out.push_line("x");
    assert_eq!(out.into_text(), "\nx");
    assert_eq!(OutputText::new().into_text(), "");
    let mut out = OutputText::new();
    out.push_line("");
    assert_eq!(out.into_text(), "");
}

fn config(dir: &str) -> Config {
    Config {
        telegram_token: "SECRET-REDACTED".to_string(),
        workspace: "/w".to_string(),
        session_dir: dir.to_string(),
        thinking_level: ThinkingLevel::Medium,
        allowed_users: vec![],
        rate_limit_cooldown_ms: 5000,
        pi_timeout_ms: 300000,
        shell_timeout_ms: 60000,
        session_title_timeout_ms: 10000,
    }
}

#[test]
fn session_path_in_the_session_dir() {
    assert_eq!(get_session_path(&config("/s"), 5), "/s/telegram-5.jsonl");
    assert_eq!(get_session_path(&config("/s/"), -5), "/s/telegram--5.jsonl");
}

#[test]
fn oneshot_arguments() {
    let opts = Some(RunPiOptions { image_paths: vec!["/i/a.png".to_string(), "/i/b.jpg".to_string()] });
    let args = oneshot_args("/s/telegram-1.jsonl", ThinkingLevel::High, &opts, "describe");
    assert_eq!(
        args,
        vec![
            "--session",
            "/s/telegram-1.jsonl",
            "--print",
            "--thinking",
            "high",
            "@/i/a.png",
            "@/i/b.jpg",
            "describe"
        ]
    );
    let args = oneshot_args("p", ThinkingLevel::Low, &None, "hi");
    assert_eq!(args, vec!["--session", "p", "--print", "--thinking", "low", "hi"]);
    let default_opts: RunPiOptions = Default::default();
    assert!(default_opts.image_paths.is_empty());
}

#[test]
fn reader_result_kept_or_emptied() {
    assert_eq!(stderr_handle_result(Ok("err".to_string())), "err");
}

#[test]
fn runs_that_cannot_start() {
    let r = start_failed(StartFailure::Spawn("No such file".to_string()));
    assert_eq!(r.output, "");
    assert_eq!(r.error.as_deref(), Some("Failed to start Pi: No such file"));
    let r = start_failed(StartFailure::SessionDir("denied".to_string()));
    assert_eq!(r.error.as_deref(), Some("Failed to create session dir: denied"));
}
