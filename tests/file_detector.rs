use mini_claw::file_detector::{categorize_files, extension, file_name, DetectedFileType};

#[test]
fn test_categorize_photo() {
    let files = categorize_files(&["/tmp/image.png".to_string()]);
    assert_eq!(files.len(), 1);
    assert_eq!(files[0].file_type, DetectedFileType::Photo);
    assert_eq!(files[0].filename, "image.png");
}

#[test]
fn test_categorize_document() {
    let files = categorize_files(&["/tmp/doc.pdf".to_string()]);
    assert_eq!(files.len(), 1);
    assert_eq!(files[0].file_type, DetectedFileType::Document);
}

#[test]
fn test_categorize_unsupported_skipped() {
    let files = categorize_files(&["/tmp/file.exe".to_string()]);
    assert!(files.is_empty());
}

#[test]
fn test_categorize_case_insensitive() {
    let files = categorize_files(&["/tmp/photo.JPG".to_string()]);
    assert_eq!(files.len(), 1);
    assert_eq!(files[0].file_type, DetectedFileType::Photo);
}

#[test]
fn categorize_keeps_order_and_skips_others() {
    let paths = vec![
        "/a/notes.md".to_string(),
        "/a/.png".to_string(),
        "/a/run.sh".to_string(),
        "/a/pic.webp/".to_string(),
    ];
    let files = categorize_files(&paths);
    assert_eq!(files.len(), 2);
    assert_eq!(files[0].filename, "notes.md");
    assert_eq!(files[0].file_type, DetectedFileType::Document);
    assert_eq!(files[1].filename, "pic.webp");
    assert_eq!(files[1].path, "/a/pic.webp/");
    assert_eq!(files[1].file_type, DetectedFileType::Photo);
}

#[test]
fn file_names_and_extensions_as_paths_have_them() {
    assert_eq!(file_name("/tmp/a.txt").as_deref(), Some("a.txt"));
    assert_eq!(file_name("dir/sub/./").as_deref(), Some("sub"));
    assert_eq!(file_name("/"), None);
    assert_eq!(file_name("a/.."), None);
    assert_eq!(file_name(""), None);
    assert_eq!(extension(".bashrc"), None);
    assert_eq!(extension("archive.tar.gz").as_deref(), Some("gz"));
    assert_eq!(extension("trailing.").as_deref(), Some(""));
    assert_eq!(extension("plain"), None);
}

#[test]
fn changed_files_are_new_or_newer() {
    let before = vec![("/w/a".to_string(), 10u128), ("/w/b".to_string(), 20u128)];
    let after = vec![
        ("/w/a".to_string(), 10u128),
        ("/w/b".to_string(), 21u128),
        ("/w/c".to_string(), 5u128),
    ];
    assert_eq!(mini_claw::file_detector::changed_files(&before, &after), vec!["/w/b", "/w/c"]);
    assert!(mini_claw::file_detector::changed_files(&after, &after).is_empty());
}
