use vanity::date::format_source_date;
use vanity::marker::MirroredMarkerSet;
use vanity::message::build_commit_message;
use vanity::numeral::i64_to_string;
use vanity::numeral::u64_to_string;
use vanity::numeral::usize_to_string;
use vanity::source::SourceCommit;

const SHA_A: &str = "0123456789abcdef0123456789abcdef01234567";

fn commit(sha: &str, hint: &str, web: Option<&str>, secs: i64, off: i32, subject: &str) -> SourceCommit {
    SourceCommit {
        sha: sha.to_owned(),
        source_repo_hint: hint.to_owned(),
        source_web_base_url: web.map(|w| w.to_owned()),
        author_date_seconds: secs,
        author_offset_minutes: off,
        subject: subject.to_owned(),
    }
}

#[test]
fn format_source_date_renders_utc() {
    assert_eq!(format_source_date(1_700_000_000, 0), "2023-11-14T22:13:20+00:00");
}

#[test]
fn format_source_date_keeps_original_offset() {
    assert_eq!(format_source_date(1_700_000_000, 330), "2023-11-15T03:43:20+05:30");
    assert_eq!(format_source_date(1_700_000_000, -90), "2023-11-14T20:43:20-01:30");
}

#[test]
fn format_source_date_falls_back_to_utc_on_invalid_offset() {
    assert_eq!(format_source_date(1_700_000_000, 1440), "2023-11-14T22:13:20+00:00");
    assert_eq!(format_source_date(1_700_000_000, i32::MIN), "2023-11-14T22:13:20+00:00");
}

#[test]
fn format_source_date_falls_back_to_seconds_out_of_range() {
    assert_eq!(format_source_date(9_300_000_000_000, 0), "9300000000000");
    assert_eq!(format_source_date(-9_300_000_000_000, 60), "-9300000000000");
}

#[test]
fn format_source_date_before_epoch() {
    assert_eq!(format_source_date(-1, 0), "1969-12-31T23:59:59+00:00");
}

#[test]
fn build_commit_message_full_template() {
    let c = commit(
        SHA_A,
        "https://github.com/owner/repo",
        Some("https://github.com/owner/repo"),
        1_700_000_000,
        0,
        "Add the thing",
    );
    let message = build_commit_message(&c);
    let expected = format!(
        "Vanity mirror: 0123456789ab\n\
         \n\
         Source-Repo: https://github.com/owner/repo\n\
         Vanity-Source-Commit: {SHA_A}\n\
         Source-Commit-URL: https://github.com/owner/repo/commit/{SHA_A}\n\
         Source-Date: 2023-11-14T22:13:20+00:00\n\
         Source-Subject: Add the thing"
    );
    assert_eq!(message, expected);
}

#[test]
fn build_commit_message_without_web_base_omits_url_line() {
    let c = commit(SHA_A, "/local/path", None, 1_700_000_000, 0, "subject");
    let message = build_commit_message(&c);
    let expected = format!(
        "Vanity mirror: 0123456789ab\n\
         \n\
         Source-Repo: /local/path\n\
         Vanity-Source-Commit: {SHA_A}\n\
         Source-Date: 2023-11-14T22:13:20+00:00\n\
         Source-Subject: subject"
    );
    assert_eq!(message, expected);
}

#[test]
fn built_message_round_trips_through_scanner() {
    let c = commit(
        SHA_A,
        "git@github.com:owner/repo.git",
        Some("https://github.com/owner/repo"),
        1_700_000_000,
        120,
        "A subject with Vanity-Source-Commit: words in it",
    );
    let message = build_commit_message(&c);
    let mut set = MirroredMarkerSet::new();
    set.add_from_message(&message);
    assert_eq!(set.len(), 1);
    assert!(set.contains(&SHA_A.to_owned()));
}

#[test]
fn decimal_renderings_are_exact() {
    assert_eq!(u64_to_string(0), "0");
    assert_eq!(u64_to_string(907), "907");
    assert_eq!(u64_to_string(u64::MAX), "18446744073709551615");
    assert_eq!(usize_to_string(12), "12");
    assert_eq!(i64_to_string(0), "0");
    assert_eq!(i64_to_string(-1), "-1");
    assert_eq!(i64_to_string(1_700_000_000), "1700000000");
    assert_eq!(i64_to_string(i64::MIN), "-9223372036854775808");
    assert_eq!(i64_to_string(i64::MAX), "9223372036854775807");
}
