use ritual::layout::{get_directory_name, get_frame_count, validate_directory_structure, ListedEntry};

fn entry(name: &str, is_dir: bool, is_file: bool) -> ListedEntry {
    ListedEntry::Entry { name: Some(name.to_string()), is_dir, is_file }
}

#[test]
fn spirit_layout_is_accepted() {
    let listing = Some(vec![
        entry("actions", true, false),
        entry("audio", true, false),
        entry("meta.json", false, true),
    ]);
    assert!(validate_directory_structure(true, &listing));
}

#[test]
fn audio_and_everything_else_are_optional() {
    assert!(validate_directory_structure(true, &Some(vec![entry("actions", true, false)])));
    assert!(validate_directory_structure(true, &Some(vec![])));
}

#[test]
fn unknown_entries_are_refused() {
    let listing = Some(vec![entry("actions", true, false), entry("notes.txt", false, true)]);
    assert!(!validate_directory_structure(true, &listing));
}

#[test]
fn entries_of_the_wrong_kind_are_refused() {
    assert!(!validate_directory_structure(true, &Some(vec![entry("audio", false, true)])));
    assert!(!validate_directory_structure(true, &Some(vec![entry("actions", false, true)])));
    assert!(!validate_directory_structure(true, &Some(vec![entry("meta.json", true, false)])));
}

#[test]
fn entries_without_a_utf8_name_are_refused() {
    let listing = Some(vec![
        entry("actions", true, false),
        ListedEntry::Entry { name: None, is_dir: false, is_file: true },
    ]);
    assert!(!validate_directory_structure(true, &listing));
}

#[test]
fn unreadable_directories_are_refused() {
    assert!(!validate_directory_structure(true, &None));
    assert!(!validate_directory_structure(false, &Some(vec![])));
    assert!(!validate_directory_structure(true, &Some(vec![ListedEntry::Unreadable])));
}

#[test]
fn frames_are_counted() {
    let listing = Some(vec![entry("00.png", false, true), entry("01.png", false, true)]);
    assert_eq!(get_frame_count(&listing), Some(2));
    assert_eq!(get_frame_count(&Some(vec![])), Some(0));
}

#[test]
fn frames_must_all_be_files() {
    let listing = Some(vec![entry("00.png", false, true), entry("sub", true, false)]);
    assert_eq!(get_frame_count(&listing), None);
    assert_eq!(get_frame_count(&Some(vec![ListedEntry::Unreadable])), None);
    assert_eq!(get_frame_count(&None), None);
}

#[test]
fn spirit_is_named_after_its_directory() {
    assert_eq!(get_directory_name(b"/home/user/Inori"), Some("Inori".to_string()));
    assert_eq!(get_directory_name(b"/home/user/Inori/"), Some("Inori".to_string()));
    assert_eq!(get_directory_name(b"Inori"), Some("Inori".to_string()));
    assert_eq!(get_directory_name(b"/a/b/."), Some("b".to_string()));
    assert_eq!(get_directory_name("/srv/\u{e9}t\u{e9}".as_bytes()), Some("\u{e9}t\u{e9}".to_string()));
}

#[test]
fn directory_without_a_utf8_name_has_no_name() {
    assert_eq!(get_directory_name(b"/tmp/\xff\xfe"), None);
    assert_eq!(get_directory_name(b"/\xff/Inori"), Some("Inori".to_string()));
}

#[test]
fn directory_name_agrees_with_path_file_name() {
    for path in ["/", "", ".", "..", "a/..", "./", "/.", "a//b//", "/x/y.z", "./a/./", "a/./.", "//", "/a/b/.."] {
        let expected = std::path::Path::new(path)
            .file_name()
            .and_then(|n| n.to_str())
            .map(String::from);
        assert_eq!(get_directory_name(path.as_bytes()), expected, "{:?}", path);
    }
}
