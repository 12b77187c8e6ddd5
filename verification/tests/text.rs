use deep_filter::text::{contains, replace, same_text};

#[test]
fn same_text_compares_characters() {
    assert!(same_text("", ""));
    assert!(same_text("Schröter", "Schröter"));
    assert!(!same_text("Schröter", "Schroter"));
    assert!(!same_text("ab", "abc"));
    assert!(!same_text("abd", "abc"));
}

#[test]
fn contains_finds_a_part_anywhere() {
    for (whole, part) in [
        ("usb audio device", "audio"),
        ("usb audio device", "usb"),
        ("usb audio device", "device"),
        ("usb audio device", "hdmi"),
        ("usb", "usb audio"),
        ("", ""),
        ("abc", ""),
        ("größe", "ß"),
        ("aaab", "aab"),
    ] {
        assert_eq!(contains(whole, part), whole.contains(part));
    }
}

#[test]
fn replace_takes_occurrences_from_the_left() {
    for (whole, part, by) in [
        ("aaa", "aa", "b"),
        ("a-b-c", "-", ""),
        ("a-b-c", "x", "y"),
        ("df::reexport_dataset_modules:::x", "::reexport_dataset_modules:", ""),
        ("", "a", "b"),
        ("äöä", "ä", "ae"),
    ] {
        assert_eq!(replace(whole, part, by), whole.replace(part, by));
    }
    assert_eq!(replace("aaa", "aa", "b"), "ba");
}
