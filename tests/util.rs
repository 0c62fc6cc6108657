use mini_claw::util::{shell_result, split_message, ShellOutcome, MAX_MESSAGE_LENGTH};

#[test]
fn test_split_short_message() {
    let chunks = split_message("hello");
    assert_eq!(chunks, vec!["hello"]);
}

#[test]
fn test_split_at_newline() {
    let text = format!("{}\n{}", "a".repeat(3000), "b".repeat(3000));
    let chunks = split_message(&text);
    assert_eq!(chunks.len(), 2);
    assert_eq!(chunks[0], "a".repeat(3000));
    assert_eq!(chunks[1], "b".repeat(3000));
}

#[test]
fn test_split_at_space() {
    let text = format!("{} {}", "a".repeat(3000), "b".repeat(3000));
    let chunks = split_message(&text);
    assert_eq!(chunks.len(), 2);
}

#[test]
fn test_split_hard() {
    let text = "a".repeat(5000);
    let chunks = split_message(&text);
    assert_eq!(chunks.len(), 2);
    assert_eq!(chunks[0].len(), MAX_MESSAGE_LENGTH);
}

#[test]
fn test_split_empty() {
    let chunks = split_message("");
    assert_eq!(chunks, vec![""]);
}

#[test]
fn test_split_exactly_max() {
    let text = "a".repeat(MAX_MESSAGE_LENGTH);
    let chunks = split_message(&text);
    assert_eq!(chunks.len(), 1);
}

#[test]
fn split_newline_in_first_half_falls_back_to_space() {
    let text = format!("{}\n{} {}", "a".repeat(100), "b".repeat(2900), "c".repeat(3000));
    let chunks = split_message(&text);
    assert_eq!(chunks.len(), 2);
    assert_eq!(chunks[0], format!("{}\n{}", "a".repeat(100), "b".repeat(2900)));
    assert_eq!(chunks[1], "c".repeat(3000));
}

#[test]
fn split_drops_leading_whitespace_of_the_rest() {
    let text = format!("{}\n   {}", "a".repeat(3000), "b".repeat(3000));
    let chunks = split_message(&text);
    assert_eq!(chunks, vec!["a".repeat(3000), "b".repeat(3000)]);
}

#[test]
fn split_three_hard_chunks() {
    let text = "x".repeat(2 * MAX_MESSAGE_LENGTH + 10);
    let chunks = split_message(&text);
    assert_eq!(chunks.len(), 3);
    assert_eq!(chunks[2].len(), 10);
}

#[test]
fn shell_result_of_each_outcome() {
    let r = shell_result(ShellOutcome::TimedOut);
    assert_eq!(r.code, Some(124));
    assert_eq!(r.stderr, "(timeout)");
    let r = shell_result(ShellOutcome::Failed("no such file".to_string()));
    assert_eq!(r.code, Some(1));
    assert_eq!(r.stderr, "no such file");
    assert_eq!(r.stdout, "");
    let r = shell_result(ShellOutcome::Finished {
        stdout: "hello\n".to_string(),
        stderr: String::new(),
        code: Some(0),
    });
    assert_eq!(r.stdout, "hello\n");
    assert_eq!(r.code, Some(0));
}
