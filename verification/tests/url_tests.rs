use vanity::source::SourceCommit;
use vanity::url::derive_github_web_base;
use vanity::url::normalize_remote_url;
use vanity::url::source_commit_url;

const SHA_A: &str = "0123456789abcdef0123456789abcdef01234567";

#[test]
fn web_base_from_ssh_shorthand() {
    assert_eq!(
        derive_github_web_base("git@github.com:owner/repo.git"),
        Some("https://github.com/owner/repo".to_owned())
    );
    assert_eq!(
        derive_github_web_base("git@github.com:owner/repo"),
        Some("https://github.com/owner/repo".to_owned())
    );
}

#[test]
fn web_base_from_https_url() {
    assert_eq!(
        derive_github_web_base("https://github.com/owner/repo.git"),
        Some("https://github.com/owner/repo".to_owned())
    );
    assert_eq!(
        derive_github_web_base("http://github.com/owner/repo/"),
        Some("http://github.com/owner/repo".to_owned())
    );
}

#[test]
fn web_base_trims_surrounding_whitespace() {
    assert_eq!(
        derive_github_web_base("  https://github.com/owner/repo \n"),
        Some("https://github.com/owner/repo".to_owned())
    );
}

#[test]
fn web_base_rejects_other_hosts() {
    assert_eq!(derive_github_web_base("https://gitlab.com/owner/repo"), None);
    assert_eq!(derive_github_web_base("/local/path/repo"), None);
    assert_eq!(derive_github_web_base("git@bitbucket.org:o/r.git"), None);
}

#[test]
fn normalize_lowercases_and_rewrites_ssh() {
    assert_eq!(
        normalize_remote_url("git@github.com:TeamDman/Vanity.git"),
        "https://github.com/teamdman/vanity"
    );
    assert_eq!(
        normalize_remote_url(" https://github.com/TeamDman/Vanity/ "),
        "https://github.com/teamdman/vanity"
    );
}

#[test]
fn normalize_strips_one_git_suffix() {
    assert_eq!(
        normalize_remote_url("https://github.com/a/b.git.git"),
        "https://github.com/a/b.git"
    );
}

#[test]
fn commit_url_joins_base_and_hash() {
    let c = SourceCommit {
        sha: SHA_A.to_owned(),
        source_repo_hint: "hint".to_owned(),
        source_web_base_url: Some("https://github.com/owner/repo/".to_owned()),
        author_date_seconds: 0,
        author_offset_minutes: 0,
        subject: String::new(),
    };
    assert_eq!(
        source_commit_url(&c),
        Some(format!("https://github.com/owner/repo/commit/{SHA_A}"))
    );
    let without = SourceCommit { source_web_base_url: None, ..c };
    assert_eq!(source_commit_url(&without), None);
}
