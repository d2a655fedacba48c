use file_guard::guard::{guard_dropped_file, path_extension_permitted};

const EXT_REASON: &str = "Nur .json, .xml, .xsl, .yaml, .yml oder .txt erlaubt";
const NOT_A_FILE_REASON: &str = "Keine Datei";

#[test]
fn disallowed_extension_is_rejected() {
    let r = guard_dropped_file("image.png", true);
    assert_eq!(r, Err(EXT_REASON.to_string()));
}

#[test]
fn disallowed_extension_rejected_whatever_the_directory() {
    let r = guard_dropped_file("/home/user/slides/deck.pdf", true);
    assert_eq!(r, Err(EXT_REASON.to_string()));
}

#[test]
fn missing_extension_is_rejected() {
    let r = guard_dropped_file("Makefile", true);
    assert_eq!(r, Err(EXT_REASON.to_string()));
}

#[test]
fn hidden_file_has_no_extension() {
    let r = guard_dropped_file("/repo/.gitignore", true);
    assert_eq!(r, Err(EXT_REASON.to_string()));
}

#[test]
fn missing_file_is_rejected_even_with_allowed_extension() {
    let r = guard_dropped_file("data.json", false);
    assert_eq!(r, Err(NOT_A_FILE_REASON.to_string()));
}

#[test]
fn missing_file_is_reported_before_the_extension() {
    let r = guard_dropped_file("image.png", false);
    assert_eq!(r, Err(NOT_A_FILE_REASON.to_string()));
}

#[test]
fn upper_case_extension_is_permitted() {
    assert!(path_extension_permitted("notes.TXT"));
    assert_eq!(guard_dropped_file("notes.TXT", true), Ok(()));
}

#[test]
fn mixed_case_extension_is_permitted() {
    assert!(path_extension_permitted("config.YaMl"));
    assert_eq!(guard_dropped_file("config.YaMl", true), Ok(()));
}

#[test]
fn every_allowed_extension_is_permitted() {
    for path in [
        "a.json", "a.xml", "a.xsl", "a.yaml", "a.yml", "a.txt",
    ] {
        assert_eq!(guard_dropped_file(path, true), Ok(()), "{path}");
    }
}

#[test]
fn json_file_is_permitted() {
    assert_eq!(guard_dropped_file("data.json", true), Ok(()));
}

#[test]
fn empty_extension_is_rejected() {
    let r = guard_dropped_file("notes.", true);
    assert_eq!(r, Err(EXT_REASON.to_string()));
}

#[test]
fn empty_path_is_rejected() {
    let r = guard_dropped_file("", true);
    assert_eq!(r, Err(EXT_REASON.to_string()));
}

#[test]
fn the_two_reasons_differ() {
    assert_ne!(NOT_A_FILE_REASON, EXT_REASON);
}
