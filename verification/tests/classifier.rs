use uri_path::path::is_absolute;

#[test]
pub fn test_is_absolute_empty() {
    assert!(!is_absolute(""));
}

#[test]
pub fn test_is_absolute_unix() {
    assert!(is_absolute("/"));
    assert!(is_absolute("/sbin"));
    assert!(is_absolute("/home/user"));
    assert!(!is_absolute(""));
    assert!(!is_absolute("usr/local"));
}

#[test]
pub fn test_is_absolute_windows() {
    assert!(is_absolute("a:\\"));
    assert!(is_absolute("A:\\"));
    assert!(is_absolute("c:\\Windows\\System32"));
    assert!(is_absolute("C:\\Windows\\System32"));
    assert!(!is_absolute("\\User"));
    assert!(!is_absolute("User\\Someone Special"));
}

#[test]
fn drive_letter_needs_nothing_behind_the_colon() {
    assert!(is_absolute("C:"));
    assert!(is_absolute("z:"));
    assert!(is_absolute("Z:relative"));
}

#[test]
fn drive_letter_must_be_an_ascii_letter() {
    assert!(!is_absolute("1:\\"));
    assert!(!is_absolute("@:\\"));
    assert!(!is_absolute("[:\\"));
    assert!(!is_absolute("`:\\"));
    assert!(!is_absolute("{:\\"));
    assert!(!is_absolute("\u{e9}:\\"));
    assert!(!is_absolute(":\\"));
}

#[test]
fn letter_without_colon_is_relative() {
    assert!(!is_absolute("C"));
    assert!(!is_absolute("Cx"));
    assert!(!is_absolute("C\\"));
    assert!(!is_absolute("C/:"));
}

#[test]
fn unc_needs_two_backslashes() {
    assert!(is_absolute("\\\\"));
    assert!(is_absolute("\\\\server\\share"));
    assert!(!is_absolute("\\"));
    assert!(!is_absolute("\\/"));
    assert!(!is_absolute("\\s\\"));
}

#[test]
fn other_first_characters_are_relative() {
    assert!(!is_absolute("."));
    assert!(!is_absolute("./a"));
    assert!(!is_absolute("../a"));
    assert!(!is_absolute(" /"));
    assert!(!is_absolute("~/x"));
    assert!(!is_absolute("\u{2215}etc"));
}
