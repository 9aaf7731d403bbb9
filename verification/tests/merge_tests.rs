use vanity::merge::all_well_formed;
use vanity::merge::merge_source_commits;
use vanity::source::SourceCommit;

fn commit(sha: &str, hint: &str, secs: i64) -> SourceCommit {
    SourceCommit {
        sha: sha.to_owned(),
        source_repo_hint: hint.to_owned(),
        source_web_base_url: None,
        author_date_seconds: secs,
        author_offset_minutes: 0,
        subject: "s".to_owned(),
    }
}

fn sha(tag: char) -> String {
    tag.to_string().repeat(40)
}

#[test]
fn merge_deduplicates_by_hash_keeping_first_repo() {
    let shared = sha('a');
    let repo_one = vec![commit(&shared, "first-repo", 100)];
    let repo_two = vec![commit(&shared, "second-repo", 100), commit(&sha('b'), "second-repo", 50)];
    let merged = merge_source_commits(&vec![repo_one, repo_two]);
    assert_eq!(merged.len(), 2);
    let kept: Vec<&SourceCommit> = merged.iter().filter(|c| c.sha == shared).collect();
    assert_eq!(kept.len(), 1);
    assert_eq!(kept[0].source_repo_hint, "first-repo");
}

#[test]
fn merge_sorts_by_timestamp() {
    let repo = vec![commit(&sha('c'), "r", 300), commit(&sha('a'), "r", 100), commit(&sha('b'), "r", 200)];
    let merged = merge_source_commits(&vec![repo]);
    let times: Vec<i64> = merged.iter().map(|c| c.author_date_seconds).collect();
    assert_eq!(times, vec![100, 200, 300]);
}

#[test]
fn merge_breaks_timestamp_ties_by_hash() {
    let repo = vec![commit(&sha('f'), "r", 100), commit(&sha('0'), "r", 100), commit(&sha('9'), "r", 100)];
    let merged = merge_source_commits(&vec![repo]);
    let shas: Vec<String> = merged.iter().map(|c| c.sha.clone()).collect();
    assert_eq!(shas, vec![sha('0'), sha('9'), sha('f')]);
}

#[test]
fn merge_of_nothing_is_empty() {
    let merged = merge_source_commits(&Vec::new());
    assert!(merged.is_empty());
    let merged2 = merge_source_commits(&vec![Vec::new(), Vec::new()]);
    assert!(merged2.is_empty());
}

#[test]
fn well_formedness_gate_checks_every_record() {
    let good = vec![vec![commit(&sha('a'), "r", 1)]];
    assert!(all_well_formed(&good));
    let bad_sha = vec![vec![commit("ABC", "r", 1)]];
    assert!(!all_well_formed(&bad_sha));
    let bad_hint = vec![vec![commit(&sha('a'), "two\nlines", 1)]];
    assert!(!all_well_formed(&bad_hint));
    assert!(all_well_formed(&Vec::new()));
}
