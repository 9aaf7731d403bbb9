//! Rendering the commit message for one pending source commit, and the
//! guarantee that makes mirroring idempotent: scanning a rendered message
//! recovers exactly the source hash it was rendered for.

use crate::chars::all_hex;
use crate::chars::all_lower_hex;
use crate::chars::is_hex_char;
use crate::chars::is_lower_hex_char;
use crate::chars::is_space_char;
use crate::chars::lower_hex;
use crate::chars::lower_hex_char;
use crate::date::format_source_date;
use crate::date::source_date_spec;
use crate::lines::lemma_lines_head;
use crate::lines::lemma_lines_single;
use crate::lines::lines_of;
use crate::lines::strip_cr;
use crate::marker::line_marker;
use crate::marker::marker_prefix;
use crate::marker::marker_prefix_spec;
use crate::marker::message_markers;
use crate::source::SourceCommit;
use crate::source::SourceCommitView;
use crate::text::no_newline;
use crate::text::trim_end_spec;
use crate::text::trim_spec;
use crate::text::trim_start_spec;
use crate::url::commit_url_spec;
use crate::url::source_commit_url;
use crate::url::strip_all_trailing;
use vstd::prelude::*;

verus! {

/// The rendered message for a pending source commit, given its already
/// rendered commit URL (if any) and `Source-Date` value: a short headline
/// with the abbreviated hash, a blank line, then one provenance field per
/// line, the marker line among them.
pub open spec fn message_spec(
    hint: Seq<char>,
    sha: Seq<char>,
    url: Option<Seq<char>>,
    date: Seq<char>,
    subject: Seq<char>,
) -> Seq<char> {
    let head = "Vanity mirror: "@ + sha.take(12) + "\n"@ + "\n"@ + "Source-Repo: "@ + hint + "\n"@
        + marker_prefix_spec() + sha;
    let with_url = match url {
        Some(u) => head + "\n"@ + "Source-Commit-URL: "@ + u,
        None => head,
    };
    with_url + "\n"@ + "Source-Date: "@ + date + "\n"@ + "Source-Subject: "@ + subject
}

/// A line that does not carry the marker prefix records nothing, even after
/// its trailing carriage return is dropped.
proof fn lemma_non_marker_line(line: Seq<char>, k: int, c: char)
    requires
        0 <= k < marker_prefix_spec().len(),
        k < line.len(),
        line[k] == c,
        marker_prefix_spec()[k] != c,
    ensures
        line_marker(strip_cr(line)) is None,
{
    let s = strip_cr(line);
    if marker_prefix_spec().is_prefix_of(s) {
        assert(s[k] == marker_prefix_spec()[k]);
        assert(s[k] == line[k]);
    }
}

/// A short line records nothing.
proof fn lemma_short_line(line: Seq<char>)
    requires
        strip_cr(line).len() < marker_prefix_spec().len(),
    ensures
        line_marker(strip_cr(line)) is None,
{
}

/// Hexadecimal characters are not whitespace, line feeds or carriage
/// returns, and normalized ones are left alone by lowercase folding.
proof fn lemma_hex_char_facts(c: char)
    ensures
        is_hex_char(c) ==> !is_space_char(c),
        is_hex_char(c) ==> c != '\n' && c != '\r',
        is_lower_hex_char(c) ==> lower_hex_char(c) == c,
{
    if is_hex_char(c) {
        assert(c as u32 != 0xa && c as u32 != 0xd);
        if c == '\n' {
            assert(c as u32 == '\n' as u32);
        }
        if c == '\r' {
            assert(c as u32 == '\r' as u32);
        }
    }
}

/// The marker line built for a normalized hash records exactly that hash.
proof fn lemma_marker_line(sha: Seq<char>)
    requires
        sha.len() == 40,
        all_lower_hex(sha),
    ensures
        line_marker(strip_cr(marker_prefix_spec() + sha)) == Some(sha),
{
    let p = marker_prefix_spec();
    let line = p + sha;
    assert forall|i: int| 0 <= i < 40 implies is_hex_char(sha[i]) && !is_space_char(sha[i])
        && sha[i] != '\r' && lower_hex_char(sha[i]) == sha[i] by {
        lemma_hex_char_facts(sha[i]);
    }
    reveal_strlit("Vanity-Source-Commit: ");
    assert(line.last() == sha[39]);
    assert(strip_cr(line) == line);
    assert(p.is_prefix_of(line)) by {
        assert(line.take(p.len() as int) =~= p);
    }
    let rest = line.skip(p.len() as int);
    assert(rest =~= sha);
    assert(trim_start_spec(sha) == sha);
    assert(trim_end_spec(sha) == sha);
    assert(trim_spec(rest) == sha);
    assert(all_hex(sha));
    assert(lower_hex(sha) =~= sha);
}

/// Scanning a rendered message recovers exactly the hash it embeds: the
/// marker round-trip that makes mirroring idempotent.
#[verifier::rlimit(100)]
pub proof fn lemma_message_round_trip(
    hint: Seq<char>,
    sha: Seq<char>,
    url: Option<Seq<char>>,
    date: Seq<char>,
    subject: Seq<char>,
)
    requires
        sha.len() == 40,
        all_lower_hex(sha),
        no_newline(hint),
        no_newline(date),
        no_newline(subject),
        url is Some ==> no_newline(url.unwrap()),
    ensures
        message_markers(message_spec(hint, sha, url, date, subject)) =~= Set::empty().insert(sha),
{
    let p = marker_prefix_spec();
    let m = message_spec(hint, sha, url, date, subject);
    let sha12 = sha.take(12);
    assert forall|i: int| 0 <= i < 40 implies is_hex_char(#[trigger] sha[i]) && sha[i] != '\n' by {
        lemma_hex_char_facts(sha[i]);
    }
    reveal_strlit("Vanity mirror: ");
    reveal_strlit("Source-Repo: ");
    reveal_strlit("Source-Commit-URL: ");
    reveal_strlit("Source-Date: ");
    reveal_strlit("Source-Subject: ");
    reveal_strlit("Vanity-Source-Commit: ");
    reveal_strlit("\n");
    let l1 = "Vanity mirror: "@ + sha12;
    let l2 = Seq::<char>::empty();
    let l3 = "Source-Repo: "@ + hint;
    let l4 = p + sha;
    let l6 = "Source-Date: "@ + date;
    let l7 = "Source-Subject: "@ + subject;
    assert(no_newline(l1));
    assert(no_newline(l2));
    assert(no_newline(l3));
    assert(no_newline(l4));
    assert(no_newline(l6));
    assert(no_newline(l7));
    lemma_lines_single(l7);
    let r6 = l6 + seq!['\n'] + l7;
    lemma_lines_head(l6, l7);
    let lines = if url is Some {
        let l5 = "Source-Commit-URL: "@ + url.unwrap();
        assert(no_newline(l5));
        let r5 = l5 + seq!['\n'] + r6;
        lemma_lines_head(l5, r6);
        let r4 = l4 + seq!['\n'] + r5;
        lemma_lines_head(l4, r5);
        let r3 = l3 + seq!['\n'] + r4;
        lemma_lines_head(l3, r4);
        let r2 = l2 + seq!['\n'] + r3;
        lemma_lines_head(l2, r3);
        let r1 = l1 + seq!['\n'] + r2;
        lemma_lines_head(l1, r2);
        assert(m =~= r1);
        assert(lines_of(m) == lines_of(r1));
        seq![
            strip_cr(l1),
            strip_cr(l2),
            strip_cr(l3),
            strip_cr(l4),
            strip_cr(l5),
            strip_cr(l6),
            strip_cr(l7),
        ]
    } else {
        let r4 = l4 + seq!['\n'] + r6;
        lemma_lines_head(l4, r6);
        let r3 = l3 + seq!['\n'] + r4;
        lemma_lines_head(l3, r4);
        let r2 = l2 + seq!['\n'] + r3;
        lemma_lines_head(l2, r3);
        let r1 = l1 + seq!['\n'] + r2;
        lemma_lines_head(l1, r2);
        assert(m =~= r1);
        assert(lines_of(m) == lines_of(r1));
        seq![strip_cr(l1), strip_cr(l2), strip_cr(l3), strip_cr(l4), strip_cr(l6), strip_cr(l7)]
    };
    assert(lines_of(m) =~= lines);
    lemma_marker_line(sha);
    assert(l1[6] == ' ');
    assert(p[6] == '-');
    lemma_non_marker_line(l1, 6, ' ');
    lemma_short_line(l2);
    lemma_non_marker_line(l3, 0, 'S');
    lemma_non_marker_line(l6, 0, 'S');
    lemma_non_marker_line(l7, 0, 'S');
    if url is Some {
        lemma_non_marker_line("Source-Commit-URL: "@ + url.unwrap(), 0, 'S');
    }
    let markers = message_markers(m);
    assert forall|h: Seq<char>| markers.contains(h) implies h == sha by {
        let i = choose|i: int|
            0 <= i < lines_of(m).len() && line_marker(#[trigger] lines_of(m)[i]) == Some(h);
        assert(lines_of(m)[i] == lines[i]);
    }
    assert(line_marker(lines[3]) == Some(sha));
    assert(markers.contains(sha));
    assert(markers =~= Set::empty().insert(sha));
}

/// The commit URL of a well-formed record is one line.
proof fn lemma_commit_url_no_newline(c: SourceCommitView)
    requires
        c.wf(),
    ensures
        commit_url_spec(c) is Some ==> no_newline(commit_url_spec(c).unwrap()),
{
    match c.source_web_base_url {
        Some(base) => {
            lemma_strip_trailing_no_newline(base, '/');
            reveal_strlit("/commit/");
            assert forall|i: int| 0 <= i < 40 implies #[trigger] c.sha[i] != '\n' by {
                lemma_hex_char_facts(c.sha[i]);
            }
            assert(no_newline(commit_url_spec(c).unwrap()));
        },
        None => {},
    }
}

proof fn lemma_strip_trailing_no_newline(s: Seq<char>, c: char)
    requires
        no_newline(s),
    ensures
        no_newline(strip_all_trailing(s, c)),
    decreases s.len(),
{
    if s.len() > 0 && s.last() == c {
        lemma_strip_trailing_no_newline(s.drop_last(), c);
    }
}

/// Renders the deterministic commit message for one pending source commit.
/// Scanning the result recovers exactly this commit's hash.
pub fn build_commit_message(commit: &SourceCommit) -> (r: String)
    requires
        commit@.wf(),
    ensures
        r@ == message_spec(
            commit@.source_repo_hint,
            commit@.sha,
            commit_url_spec(commit@),
            source_date_spec(commit@.author_date_seconds, commit@.author_offset_minutes),
            commit@.subject,
        ),
        message_markers(r@) =~= Set::empty().insert(commit@.sha),
{
    let mut m = "Vanity mirror: ".to_owned();
    m.append(commit.sha.as_str().substring_char(0, 12));
    proof {
        assert(commit.sha@.subrange(0, 12) =~= commit.sha@.take(12));
    }
    m.append("\n");
    m.append("\n");
    m.append("Source-Repo: ");
    m.append(commit.source_repo_hint.as_str());
    m.append("\n");
    m.append(marker_prefix());
    m.append(commit.sha.as_str());
    let url = source_commit_url(commit);
    match &url {
        Some(u) => {
            m.append("\n");
            m.append("Source-Commit-URL: ");
            m.append(u.as_str());
        },
        None => {},
    }
    m.append("\n");
    m.append("Source-Date: ");
    let date = format_source_date(commit.author_date_seconds, commit.author_offset_minutes);
    m.append(date.as_str());
    m.append("\n");
    m.append("Source-Subject: ");
    m.append(commit.subject.as_str());
    proof {
        let c = commit@;
        assert(m@ =~= message_spec(
            c.source_repo_hint,
            c.sha,
            commit_url_spec(c),
            source_date_spec(c.author_date_seconds, c.author_offset_minutes),
            c.subject,
        ));
        lemma_commit_url_no_newline(c);
        lemma_message_round_trip(
            c.source_repo_hint,
            c.sha,
            commit_url_spec(c),
            source_date_spec(c.author_date_seconds, c.author_offset_minutes),
            c.subject,
        );
    }
    m
}

} // verus!
