use mini_claw::titles::{fallback_title, first_user_message, session_title, title_prompt};

#[test]
fn first_user_message_of_a_log() {
    let log = "\n{\"role\":\"system\",\"content\":\"x\"}\n  \n{\"role\":\"user\",\"content\":\"  Fix the build  \"}\n";
    assert_eq!(first_user_message(log).as_deref(), Some("Fix the build"));
    let arr = "{\"role\":\"user\",\"content\":[{\"text\":\"from array\"}]}";
    assert_eq!(first_user_message(arr).as_deref(), Some("from array"));
    let blank_first = "{\"role\":\"user\",\"content\":[]}\n{\"role\":\"user\",\"content\":\"second\"}";
    assert_eq!(first_user_message(blank_first).as_deref(), Some("second"));
    let broken = "garbage\n{\"role\":\"user\",\"content\":\"never\"}";
    assert_eq!(first_user_message(broken), None);
    assert_eq!(first_user_message(""), None);
    let long = format!("{{\"role\":\"user\",\"content\":\"{}\"}}", "z".repeat(600));
    assert_eq!(first_user_message(&long).unwrap().len(), 500);
}

#[test]
fn fallback_titles() {
    assert_eq!(fallback_title("  please   fix the failing tests now thanks "), "please fix the failing tests");
    assert_eq!(fallback_title("one"), "one");
    assert_eq!(fallback_title(""), "");
    assert_eq!(
        fallback_title("internationalization localization globalization x"),
        "internationalization localizat..."
    );
}

#[test]
fn titles_from_replies() {
    assert_eq!(session_title(Some("  Build fix \n".to_string()), "ignored words"), "Build fix");
    assert_eq!(session_title(Some("   ".to_string()), "fix it"), "fix it");
    assert_eq!(session_title(None, "fix it"), "fix it");
    let long = "t".repeat(70);
    assert_eq!(session_title(Some(long), "x").len(), 50);
}

#[test]
fn title_prompt_quotes_an_excerpt() {
    let p = title_prompt("hello");
    assert_eq!(
        p,
        "Generate a very short title (max 5 words) for a conversation that started with: \"hello\". Reply with ONLY the title, no quotes, no explanation."
    );
    let long = "a".repeat(300);
    assert!(title_prompt(&long).contains(&format!("\"{}\"", "a".repeat(200))));
}
