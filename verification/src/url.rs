//! Remote-URL handling: deriving a web-viewable base URL from a source
//! repository's origin, normalizing remote URLs for comparison, and building
//! the web URL of a single commit.

use crate::source::SourceCommit;
use crate::source::SourceCommitView;
use crate::text::str_starts_with;
use crate::text::trim_spec;
use crate::text::trimmed;
use vstd::prelude::*;

verus! {

/// `s` with every trailing repetition of `suf` removed.
pub open spec fn strip_all_suffix(s: Seq<char>, suf: Seq<char>) -> Seq<char>
    decreases s.len(),
{
    if suf.len() > 0 && suf.is_suffix_of(s) {
        strip_all_suffix(s.take(s.len() - suf.len()), suf)
    } else {
        s
    }
}

/// `s` with every trailing occurrence of `c` removed.
pub open spec fn strip_all_trailing(s: Seq<char>, c: char) -> Seq<char>
    decreases s.len(),
{
    if s.len() > 0 && s.last() == c {
        strip_all_trailing(s.drop_last(), c)
    } else {
        s
    }
}

/// Whether `suf` ends the first `e` characters of `s`.
fn str_ends_with_at(s: &str, e: usize, suf: &str) -> (b: bool)
    requires
        e <= s@.len(),
    ensures
        b == suf@.is_suffix_of(s@.take(e as int)),
{
    let k = suf.unicode_len();
    if k > e {
        return false;
    }
    let mut i: usize = 0;
    while i < k
        invariant
            0 <= i <= k <= e <= s@.len(),
            k == suf@.len(),
            forall|j: int| 0 <= j < i ==> s@[e - k + j] == suf@[j],
        decreases k - i,
    {
        if s.get_char(e - k + i) != suf.get_char(i) {
            assert(s@.take(e as int).skip(e - k)[i as int] != suf@[i as int]);
            return false;
        }
        i += 1;
    }
    proof {
        assert(s@.take(e as int).skip(e - k) =~= suf@);
    }
    true
}

/// The first `e` characters of `s`, with every trailing repetition of `suf`
/// removed.
fn strip_suffix_reps<'a>(s: &'a str, e: usize, suf: &str) -> (r: &'a str)
    requires
        e <= s@.len(),
        suf@.len() > 0,
    ensures
        r@ == strip_all_suffix(s@.take(e as int), suf@),
{
    let k = suf.unicode_len();
    let mut b = e;
    while str_ends_with_at(s, b, suf)
        invariant
            0 <= b <= e <= s@.len(),
            k == suf@.len(),
            k > 0,
            strip_all_suffix(s@.take(e as int), suf@) == strip_all_suffix(
                s@.take(b as int),
                suf@,
            ),
        decreases b,
    {
        proof {
            assert(s@.take(b as int).take(b - k) =~= s@.take(b - k));
        }
        b -= k;
    }
    s.substring_char(0, b)
}

/// The first `e` characters of `s`, with every trailing occurrence of `c`
/// removed.
fn strip_trailing_reps<'a>(s: &'a str, e: usize, c: char) -> (r: &'a str)
    requires
        e <= s@.len(),
    ensures
        r@ == strip_all_trailing(s@.take(e as int), c),
{
    let mut b = e;
    while b > 0 && s.get_char(b - 1) == c
        invariant
            0 <= b <= e <= s@.len(),
            strip_all_trailing(s@.take(e as int), c) == strip_all_trailing(s@.take(b as int), c),
        decreases b,
    {
        proof {
            assert(s@.take(b as int).drop_last() =~= s@.take(b - 1));
        }
        b -= 1;
    }
    s.substring_char(0, b)
}

/// The web base URL derived from a source hint, when the hint matches a
/// recognized hosting shape: the SSH shorthand `git@github.com:owner/repo`
/// or a GitHub `http(s)` URL. Any other shape yields nothing.
pub open spec fn web_base_spec(hint0: Seq<char>) -> Option<Seq<char>> {
    let hint = trim_spec(hint0);
    if "git@github.com:"@.is_prefix_of(hint) {
        Some(
            "https://github.com/"@ + strip_all_suffix(
                hint.skip("git@github.com:"@.len() as int),
                ".git"@,
            ),
        )
    } else if "https://github.com/"@.is_prefix_of(hint) || "http://github.com/"@.is_prefix_of(
        hint,
    ) {
        Some(strip_all_trailing(strip_all_suffix(hint, ".git"@), '/'))
    } else {
        None
    }
}

/// Derives the web base URL of a source hint (see [`web_base_spec`]).
pub fn derive_github_web_base(source_hint: &str) -> (r: Option<String>)
    ensures
        match r {
            Some(u) => web_base_spec(source_hint@) == Some(u@),
            None => web_base_spec(source_hint@) is None,
        },
{
    let hint = trimmed(source_hint);
    let n = hint.unicode_len();
    let ssh = "git@github.com:";
    if str_starts_with(hint, ssh) {
        let np = ssh.unicode_len();
        let tail = hint.substring_char(np, n);
        proof {
            reveal_strlit(".git");
            assert(tail@ =~= hint@.skip(np as int));
            assert(tail@.take(tail@.len() as int) =~= tail@);
        }
        let stripped = strip_suffix_reps(tail, n - np, ".git");
        let mut url = "https://github.com/".to_owned();
        url.append(stripped);
        return Some(url);
    }
    if str_starts_with(hint, "https://github.com/") || str_starts_with(hint, "http://github.com/")
    {
        proof {
            reveal_strlit(".git");
            assert(hint@.take(n as int) =~= hint@);
        }
        let no_git = strip_suffix_reps(hint, n, ".git");
        let ng = no_git.unicode_len();
        proof {
            assert(no_git@.take(ng as int) =~= no_git@);
        }
        let base = strip_trailing_reps(no_git, ng, '/');
        return Some(base.to_owned());
    }
    None
}

/// What `str::to_lowercase` yields: the Unicode lowercase mapping of a
/// character sequence.
pub uninterp spec fn lower_of(s: Seq<char>) -> Seq<char>;

/// Relies on `str::to_lowercase`: the result is a function of the input
/// characters alone.
#[verifier::external_body]
fn lowercase(s: &str) -> (r: String)
    ensures
        r@ == lower_of(s@),
{
    s.to_lowercase()
}

/// A remote URL in canonical form, for comparing against the expected
/// mirror target: trimmed, lowercased, the SSH shorthand rewritten to the
/// web form, one `.git` suffix dropped, and trailing slashes dropped.
pub open spec fn normalize_spec(u: Seq<char>) -> Seq<char> {
    let l = lower_of(trim_spec(u));
    let a = if "git@github.com:"@.is_prefix_of(l) {
        "https://github.com/"@ + l.skip("git@github.com:"@.len() as int)
    } else {
        l
    };
    let b = if ".git"@.is_suffix_of(a) {
        a.take(a.len() - 4)
    } else {
        a
    };
    strip_all_trailing(b, '/')
}

/// Normalizes a remote URL (see [`normalize_spec`]).
pub fn normalize_remote_url(url: &str) -> (r: String)
    ensures
        r@ == normalize_spec(url@),
{
    let low = lowercase(trimmed(url));
    let n = low.as_str().unicode_len();
    let ssh = "git@github.com:";
    let a: String = if str_starts_with(low.as_str(), ssh) {
        let np = ssh.unicode_len();
        let mut rew = "https://github.com/".to_owned();
        rew.append(low.as_str().substring_char(np, n));
        proof {
            assert(low@.subrange(np as int, n as int) =~= low@.skip(np as int));
        }
        rew
    } else {
        low
    };
    let na = a.as_str().unicode_len();
    let suf = ".git";
    let b_end: usize = if str_ends_with_at(a.as_str(), na, suf) {
        proof {
            reveal_strlit(".git");
            assert(a@.take(na as int) =~= a@);
            assert(a@.len() >= 4);
        }
        na - 4
    } else {
        proof {
            assert(a@.take(na as int) =~= a@);
        }
        na
    };
    let r = strip_trailing_reps(a.as_str(), b_end, '/');
    proof {
        if ".git"@.is_suffix_of(a@) {
            assert(a@.take(b_end as int) =~= a@.take(a@.len() - 4));
        } else {
            assert(a@.take(b_end as int) =~= a@);
        }
    }
    r.to_owned()
}

/// The web URL of one source commit, when its record carries a web base:
/// the base without trailing slashes, `/commit/`, then the full hash.
pub open spec fn commit_url_spec(c: SourceCommitView) -> Option<Seq<char>> {
    match c.source_web_base_url {
        Some(base) => Some(strip_all_trailing(base, '/') + "/commit/"@ + c.sha),
        None => None,
    }
}

/// Builds the web URL of one source commit (see [`commit_url_spec`]).
pub fn source_commit_url(commit: &SourceCommit) -> (r: Option<String>)
    ensures
        match r {
            Some(u) => commit_url_spec(commit@) == Some(u@),
            None => commit_url_spec(commit@) is None,
        },
{
    match &commit.source_web_base_url {
        Some(base) => {
            let nb = base.as_str().unicode_len();
            proof {
                assert(base@.take(nb as int) =~= base@);
            }
            let mut url = strip_trailing_reps(base.as_str(), nb, '/').to_owned();
            url.append("/commit/");
            url.append(commit.sha.as_str());
            Some(url)
        },
        None => None,
    }
}

} // verus!
