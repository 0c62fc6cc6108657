use mini_claw::session_log::{extract_images_in, images_in_line, session_line_count, split_log_lines};

#[test]
fn log_lines_are_trimmed_and_split() {
    assert_eq!(split_log_lines("\n a\r\nb\n\nc \n"), vec!["a", "b", "", "c"]);
    assert_eq!(session_line_count(""), 0);
    assert_eq!(session_line_count("  \n "), 0);
    assert_eq!(session_line_count("x"), 1);
}

const INLINE: &str = r#"{"type":"message","message":{"role":"toolResult","content":[{"type":"text","text":"hi"},{"type":"image","data":"aGVsbG8=","mimeType":"image/jpeg"}]}}"#;
const SOURCE: &str = r#"{"type":"message","message":{"role":"toolResult","content":[{"type":"image","source":{"type":"base64","data":"AQID"}}]}}"#;

#[test]
fn images_of_both_shapes() {
    let imgs = images_in_line(INLINE);
    assert_eq!(imgs.len(), 1);
    assert_eq!(imgs[0].data, b"hello".to_vec());
    assert_eq!(imgs[0].mime_type, "image/jpeg");
    let imgs = images_in_line(SOURCE);
    assert_eq!(imgs.len(), 1);
    assert_eq!(imgs[0].data, vec![1u8, 2, 3]);
    assert_eq!(imgs[0].mime_type, "image/png");
}

#[test]
fn lines_without_images_give_none() {
    assert!(images_in_line("not json").is_empty());
    assert!(images_in_line(r#"{"type":"message","message":{"role":"user","content":[{"type":"image","data":"AQID","mimeType":"x"}]}}"#).is_empty());
    assert!(images_in_line(r#"{"type":"message","message":{"role":"toolResult","content":[{"type":"image","data":"@@@","mimeType":"x"}]}}"#).is_empty());
}

#[test]
fn images_after_a_line() {
    let log = format!("{INLINE}\n{SOURCE}\n");
    assert_eq!(extract_images_in(&log, 0).len(), 2);
    let later = extract_images_in(&log, 1);
    assert_eq!(later.len(), 1);
    assert_eq!(later[0].data, vec![1u8, 2, 3]);
    assert!(extract_images_in(&log, 5).is_empty());
}
