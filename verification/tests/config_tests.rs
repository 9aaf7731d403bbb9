use vanity::config::parse_config;
use vanity::config::render_config;
use vanity::config::VanityConfig;

#[test]
fn parse_reads_target_and_sources() {
    let config = parse_config("this=/home/me/vanity\nread=/home/me/a\nread=/home/me/b");
    assert_eq!(config.this_repo, Some("/home/me/vanity".to_owned()));
    assert_eq!(config.read_repos, vec!["/home/me/a".to_owned(), "/home/me/b".to_owned()]);
}

#[test]
fn parse_ignores_unknown_lines_and_keeps_last_target() {
    let config = parse_config("# comment\nthis=/first\nnoise\nthis=/second\nread=/only");
    assert_eq!(config.this_repo, Some("/second".to_owned()));
    assert_eq!(config.read_repos, vec!["/only".to_owned()]);
}

#[test]
fn parse_of_empty_content_is_default() {
    let config = parse_config("");
    assert_eq!(config.this_repo, None);
    assert!(config.read_repos.is_empty());
}

#[test]
fn parse_tolerates_crlf_line_endings() {
    let config = parse_config("this=/t\r\nread=/a\r\n");
    assert_eq!(config.this_repo, Some("/t".to_owned()));
    assert_eq!(config.read_repos, vec!["/a".to_owned()]);
}

#[test]
fn render_writes_one_line_per_entry() {
    let config = VanityConfig {
        this_repo: Some("/t".to_owned()),
        read_repos: vec!["/a".to_owned(), "/b".to_owned()],
    };
    assert_eq!(render_config(&config), "this=/t\nread=/a\nread=/b");
    let no_target = VanityConfig { this_repo: None, read_repos: vec!["/a".to_owned()] };
    assert_eq!(render_config(&no_target), "read=/a");
    let empty = VanityConfig { this_repo: None, read_repos: Vec::new() };
    assert_eq!(render_config(&empty), "");
}

#[test]
fn render_then_parse_round_trips() {
    let config = VanityConfig {
        this_repo: Some("/home/me/vanity".to_owned()),
        read_repos: vec!["/home/me/a".to_owned(), "/home/me/b".to_owned()],
    };
    let parsed = parse_config(&render_config(&config));
    assert_eq!(parsed.this_repo, config.this_repo);
    assert_eq!(parsed.read_repos, config.read_repos);
}

#[test]
fn set_this_repo_replaces_target() {
    let mut config = VanityConfig::default();
    let set = config.set_this_repo("/t".to_owned());
    assert_eq!(set, "/t");
    assert_eq!(config.this_repo, Some("/t".to_owned()));
    config.set_this_repo("/u".to_owned());
    assert_eq!(config.this_repo, Some("/u".to_owned()));
}

#[test]
fn add_read_repo_deduplicates() {
    let mut config = VanityConfig::default();
    config.add_read_repo("/a".to_owned());
    config.add_read_repo("/b".to_owned());
    let again = config.add_read_repo("/a".to_owned());
    assert_eq!(again, "/a");
    assert_eq!(config.read_repos, vec!["/a".to_owned(), "/b".to_owned()]);
}
