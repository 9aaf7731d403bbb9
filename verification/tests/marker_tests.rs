use vanity::marker::scan_line;
use vanity::marker::MirroredMarkerSet;

const SHA_A: &str = "0123456789abcdef0123456789abcdef01234567";
const SHA_B: &str = "89abcdef0123456789abcdef0123456789abcdef";

#[test]
fn scan_line_accepts_plain_marker() {
    let line = format!("Vanity-Source-Commit: {SHA_A}");
    assert_eq!(scan_line(&line), Some(SHA_A.to_owned()));
}

#[test]
fn scan_line_trims_and_lowercases() {
    let line = "Vanity-Source-Commit:   0123456789ABCDEF0123456789abcdef01234567\t ";
    assert_eq!(scan_line(line), Some(SHA_A.to_owned()));
}

#[test]
fn scan_line_rejects_short_hash() {
    let line = "Vanity-Source-Commit: 0123456789abcdef0123456789abcdef0123456";
    assert_eq!(scan_line(line), None);
}

#[test]
fn scan_line_rejects_long_hash() {
    let line = format!("Vanity-Source-Commit: {SHA_A}0");
    assert_eq!(scan_line(&line), None);
}

#[test]
fn scan_line_rejects_non_hex() {
    let line = "Vanity-Source-Commit: 0123456789abcdef0123456789abcdef0123456g";
    assert_eq!(scan_line(line), None);
}

#[test]
fn scan_line_requires_exact_prefix() {
    assert_eq!(scan_line(&format!("vanity-source-commit: {SHA_A}")), None);
    assert_eq!(scan_line(&format!("Vanity-Source-Commit:{SHA_A}")), None);
    assert_eq!(scan_line(&format!("  Vanity-Source-Commit: {SHA_A}")), None);
    assert_eq!(scan_line(""), None);
}

#[test]
fn marker_set_collects_markers_from_messages() {
    let mut set = MirroredMarkerSet::new();
    let message = format!(
        "Some subject\r\n\r\nVanity-Source-Commit: {SHA_A}\nUnrelated line\nVanity-Source-Commit: {SHA_B}\n"
    );
    set.add_from_message(&message);
    assert_eq!(set.len(), 2);
    assert!(set.contains(&SHA_A.to_owned()));
    assert!(set.contains(&SHA_B.to_owned()));
    assert!(!set.contains(&"f".repeat(40)));
}

#[test]
fn marker_set_ignores_unrelated_messages() {
    let mut set = MirroredMarkerSet::new();
    set.add_from_message("Fix a bug\n\nNothing to see here.");
    assert_eq!(set.len(), 0);
}

#[test]
fn marker_set_deduplicates_inserts() {
    let mut set = MirroredMarkerSet::new();
    set.insert(SHA_A.to_owned());
    set.insert(SHA_A.to_owned());
    set.insert(SHA_B.to_owned());
    assert_eq!(set.len(), 2);
}
