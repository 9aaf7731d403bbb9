//! The sync orchestrator and its stages: the safety guard on the target's
//! origin, the pending-set resolver, the committer identity fallback, and
//! the plan a run carries out.
//!
//! The orchestrator here is pure: the application opens the repositories,
//! scans target messages into a [`MirroredMarkerSet`], ingests each source
//! repository into records, hands everything to [`sync_plan`], and then
//! creates exactly the planned commits — none when the plan says not to
//! apply.

use crate::config::VanityConfig;
use crate::date::source_date_spec;
use crate::marker::message_markers;
use crate::marker::MirroredMarkerSet;
use crate::merge::all_wf;
use crate::merge::distinct_shas;
use crate::merge::is_merged_of;
use crate::merge::lemma_merged_wf;
use crate::merge::merge_source_commits;
use crate::merge::repo_views_of;
use crate::merge::shas_of;
use crate::merge::views_of;
use crate::message::build_commit_message;
use crate::message::message_spec;
use crate::source::SourceCommit;
use crate::source::SourceCommitView;
use crate::text::trim_spec;
use crate::url::commit_url_spec;
use crate::url::normalize_remote_url;
use crate::url::normalize_spec;
use vstd::prelude::*;

verus! {

/// The counts a run reports.
#[derive(Clone, Copy, Debug, PartialEq, Eq, Structural)]
pub struct SyncSummary {
    /// Distinct source commits observed across all source repositories.
    pub total_source_commits: usize,
    /// Source commits already marked as mirrored in target history.
    pub existing_markers: usize,
    /// Commits newly created by this run (what a preview would create).
    pub created: usize,
}

/// Why a run is refused before any commit is created.
#[derive(Clone, Copy, Debug, PartialEq, Eq, Structural)]
pub enum SyncError {
    /// No target repository is configured.
    TargetNotConfigured,
    /// The source repository list is empty.
    NoSourceRepos,
    /// The target repository has no `origin` remote to check.
    MissingOrigin,
    /// The target's origin does not match the expected mirror repository.
    OriginMismatch,
}

/// The remote identity the target repository must carry, unless bypassed.
pub open spec fn expected_vanity_remote_spec() -> Seq<char> {
    "https://github.com/TeamDman/Vanity"@
}

/// The remote identity the target repository must carry, unless bypassed.
pub fn expected_vanity_remote() -> (r: &'static str)
    ensures
        r@ == expected_vanity_remote_spec(),
{
    "https://github.com/TeamDman/Vanity"
}

/// What the safety guard decides: pass when bypassed; otherwise the
/// origin must exist and normalize to the expected remote.
pub open spec fn guard_spec(origin: Option<Seq<char>>, allow: bool) -> Result<(), SyncError> {
    if allow {
        Ok(())
    } else {
        match origin {
            None => Err(SyncError::MissingOrigin),
            Some(u) => if normalize_spec(u) == normalize_spec(expected_vanity_remote_spec()) {
                Ok(())
            } else {
                Err(SyncError::OriginMismatch)
            },
        }
    }
}

/// The view of an optional borrowed string.
pub open spec fn opt_str_view(o: Option<&str>) -> Option<Seq<char>> {
    match o {
        Some(s) => Some(s@),
        None => None,
    }
}

/// Checks that the target's origin remote is the expected mirror
/// repository, so a stray invocation cannot mutate an arbitrary checkout.
pub fn assert_vanity_target_repo(origin: Option<&str>, allow_non_vanity_target: bool) -> (r:
    Result<(), SyncError>)
    ensures
        r == guard_spec(opt_str_view(origin), allow_non_vanity_target),
{
    if allow_non_vanity_target {
        return Ok(());
    }
    match origin {
        None => Err(SyncError::MissingOrigin),
        Some(u) => {
            let actual = normalize_remote_url(u);
            let expected = normalize_remote_url(expected_vanity_remote());
            if actual.eq(&expected) {
                Ok(())
            } else {
                Err(SyncError::OriginMismatch)
            }
        },
    }
}

/// A configured identity value, or the fallback when it is absent or
/// blank.
pub open spec fn identity_or_default(v: Option<Seq<char>>, d: Seq<char>) -> Seq<char> {
    match v {
        Some(s) => if trim_spec(s).len() == 0 {
            d
        } else {
            s
        },
        None => d,
    }
}

/// The author/committer identity for created commits: the target
/// repository's configured name and email, each falling back to a fixed
/// default when absent or blank.
pub fn resolve_repo_identity(name: Option<String>, email: Option<String>) -> (r: (String, String))
    ensures
        r.0@ == identity_or_default(
            match name {
                Some(s) => Some(s@),
                None => None,
            },
            "Vanity"@,
        ),
        r.1@ == identity_or_default(
            match email {
                Some(s) => Some(s@),
                None => None,
            },
            "vanity@example.invalid"@,
        ),
{
    let n = match name {
        Some(s) => {
            if crate::text::trimmed(s.as_str()).unicode_len() == 0 {
                "Vanity".to_owned()
            } else {
                s
            }
        },
        None => "Vanity".to_owned(),
    };
    let e = match email {
        Some(s) => {
            if crate::text::trimmed(s.as_str()).unicode_len() == 0 {
                "vanity@example.invalid".to_owned()
            } else {
                s
            }
        },
        None => "vanity@example.invalid".to_owned(),
    };
    (n, e)
}

/// The pending commits: the merged sequence without the already mirrored
/// hashes, truncated to the limit when one is given — the chronologically
/// earliest unmirrored commits first.
pub open spec fn pending_spec(
    commits: Seq<SourceCommitView>,
    markers: Set<Seq<char>>,
    limit: Option<int>,
) -> Seq<SourceCommitView> {
    let f = commits.filter(|c: SourceCommitView| !markers.contains(c.sha));
    match limit {
        Some(k) => f.take(
            if k < 0 {
                0
            } else if k < f.len() {
                k
            } else {
                f.len() as int
            },
        ),
        None => f,
    }
}

/// The view of an optional count.
pub open spec fn opt_usize_view(o: Option<usize>) -> Option<int> {
    match o {
        Some(k) => Some(k as int),
        None => None,
    }
}

/// Filters out already mirrored commits and applies the optional cap.
pub fn resolve_pending(
    commits: &Vec<SourceCommit>,
    markers: &MirroredMarkerSet,
    limit: Option<usize>,
) -> (r: Vec<SourceCommit>)
    ensures
        views_of(r@) == pending_spec(views_of(commits@), markers@, opt_usize_view(limit)),
{
    let ghost pred = |c: SourceCommitView| !markers@.contains(c.sha);
    let mut out: Vec<SourceCommit> = Vec::new();
    let n = commits.len();
    let mut i: usize = 0;
    proof {
        reveal(Seq::filter);
        assert(views_of(commits@.take(0)) =~= Seq::<SourceCommitView>::empty());
        assert(views_of(out@) =~= views_of(commits@.take(0)).filter(pred));
    }
    while i < n
        invariant
            0 <= i <= n,
            n == commits@.len(),
            pred == (|c: SourceCommitView| !markers@.contains(c.sha)),
            views_of(out@) == views_of(commits@.take(i as int)).filter(pred),
        decreases n - i,
    {
        let ghost pfx = views_of(commits@.take(i as int));
        let ghost pfx2 = views_of(commits@.take(i as int + 1));
        proof {
            reveal(Seq::filter);
            assert(pfx2 =~= pfx.push(commits@[i as int]@));
            assert(pfx2.drop_last() =~= pfx);
        }
        if !markers.contains(&commits[i].sha) {
            let ghost prev = views_of(out@);
            out.push(commits[i].clone());
            proof {
                assert(views_of(out@) =~= prev.push(commits@[i as int]@));
            }
        }
        i += 1;
    }
    proof {
        assert(commits@.take(n as int) =~= commits@);
    }
    if let Some(k) = limit {
        let ghost before = views_of(out@);
        out.truncate(k);
        proof {
            if k <= before.len() {
                assert(views_of(out@) =~= before.take(k as int));
            } else {
                assert(views_of(out@) =~= before);
                assert(before.take(before.len() as int) =~= before);
            }
        }
    }
    out
}

/// One planned commit: the source record and the message to commit it
/// under.
pub struct PendingCommit {
    /// The source commit being mirrored.
    pub commit: SourceCommit,
    /// The rendered commit message, marker line included.
    pub message: String,
}

/// What a run will do: the commits to create in order, the summary to
/// report, and whether the target may be mutated at all.
pub struct SyncPlan {
    /// The commits to create, chronologically earliest first.
    pub pending: Vec<PendingCommit>,
    /// The counts the run reports.
    pub summary: SyncSummary,
    /// Whether the commits are to be created; a preview never applies.
    pub apply: bool,
}

/// The records of a planned commit sequence.
pub open spec fn pending_views(s: Seq<PendingCommit>) -> Seq<SourceCommitView> {
    s.map_values(|p: PendingCommit| p.commit@)
}

/// The error a run stops on before planning anything, if any: an
/// unconfigured target, an empty source list, then — only when the run
/// would mutate — what the safety guard decides.
pub open spec fn plan_error_spec(
    cfg: crate::config::VanityConfigView,
    dry_run: bool,
    allow: bool,
    origin: Option<Seq<char>>,
) -> Option<SyncError> {
    if cfg.this_repo is None {
        Some(SyncError::TargetNotConfigured)
    } else if cfg.read_repos.len() == 0 {
        Some(SyncError::NoSourceRepos)
    } else if !dry_run {
        match guard_spec(origin, allow) {
            Ok(_) => None,
            Err(e) => Some(e),
        }
    } else {
        None
    }
}

/// The plan matches the merged sequence `m`: its pending list is exactly
/// the unmirrored prefix of `m` under the limit, every planned message is
/// the rendered message of its commit and scans back to exactly that
/// commit's hash, and the summary counts are exact.
pub open spec fn plan_matches(
    p: SyncPlan,
    m: Seq<SourceCommitView>,
    markers: Set<Seq<char>>,
    limit: Option<int>,
) -> bool {
    let pend = pending_spec(m, markers, limit);
    &&& pending_views(p.pending@) == pend
    &&& forall|t: int|
        0 <= t < p.pending@.len() ==> {
            let c = (#[trigger] p.pending@[t]).commit@;
            p.pending@[t].message@ == message_spec(
                c.source_repo_hint,
                c.sha,
                commit_url_spec(c),
                source_date_spec(c.author_date_seconds, c.author_offset_minutes),
                c.subject,
            ) && message_markers(p.pending@[t].message@) == Set::empty().insert(c.sha)
        }
    &&& p.summary.total_source_commits == m.len()
    &&& p.summary.existing_markers == markers.len()
    &&& p.summary.created == pend.len()
}

/// Plans one run: refuses a misconfigured run or a guarded target, merges
/// the per-repository records, resolves the pending set, and renders every
/// message. The application performs the plan's commits in order exactly
/// when `apply` holds.
pub fn sync_plan(
    config: &VanityConfig,
    dry_run: bool,
    allow_non_vanity_target: bool,
    limit: Option<usize>,
    origin: Option<&str>,
    markers: &MirroredMarkerSet,
    per_repo: &Vec<Vec<SourceCommit>>,
) -> (r: Result<SyncPlan, SyncError>)
    requires
        markers.wf(),
        all_wf(repo_views_of(per_repo@)),
    ensures
        r matches Err(e) ==> plan_error_spec(
            config@,
            dry_run,
            allow_non_vanity_target,
            opt_str_view(origin),
        ) == Some(e),
        r is Ok ==> plan_error_spec(
            config@,
            dry_run,
            allow_non_vanity_target,
            opt_str_view(origin),
        ) is None,
        r matches Ok(p) ==> p.apply == !dry_run,
        r matches Ok(p) ==> exists|m: Seq<SourceCommitView>|
            {
                &&& #[trigger] is_merged_of(m, repo_views_of(per_repo@))
                &&& plan_matches(p, m, markers@, opt_usize_view(limit))
            },
{
    if config.this_repo.is_none() {
        return Err(SyncError::TargetNotConfigured);
    }
    if config.read_repos.is_empty() {
        return Err(SyncError::NoSourceRepos);
    }
    if !dry_run {
        match assert_vanity_target_repo(origin, allow_non_vanity_target) {
            Ok(_) => {},
            Err(e) => {
                return Err(e);
            },
        }
    }
    let merged = merge_source_commits(per_repo);
    let ghost m = views_of(merged@);
    proof {
        lemma_merged_wf(m, repo_views_of(per_repo@));
    }
    let pending_raw = resolve_pending(&merged, markers, limit);
    let ghost pend = pending_spec(m, markers@, opt_usize_view(limit));
    proof {
        broadcast use vstd::seq_lib::group_filter_ensures;

        assert forall|t: int| 0 <= t < pend.len() implies (#[trigger] pend[t]).wf() by {
            let f = m.filter(|c: SourceCommitView| !markers@.contains(c.sha));
            assert(f.contains(f[t]));
            m.lemma_filter_contains_rev(|c: SourceCommitView| !markers@.contains(c.sha), f[t]);
            assert(m.contains(f[t]));
            let u = choose|u: int| 0 <= u < m.len() && m[u] == f[t];
            assert(m[u].wf());
        }
    }
    let total = merged.len();
    let existing = markers.len();
    let np = pending_raw.len();
    let mut pending: Vec<PendingCommit> = Vec::new();
    let mut t: usize = 0;
    proof {
        assert(pending_views(pending@) =~= pend.take(0));
    }
    while t < np
        invariant
            0 <= t <= np,
            np == pending_raw@.len(),
            views_of(pending_raw@) == pend,
            forall|u: int| 0 <= u < pend.len() ==> (#[trigger] pend[u]).wf(),
            pending_views(pending@) == pend.take(t as int),
            forall|u: int|
                0 <= u < t ==> {
                    let c = (#[trigger] pending@[u]).commit@;
                    pending@[u].message@ == message_spec(
                        c.source_repo_hint,
                        c.sha,
                        commit_url_spec(c),
                        source_date_spec(c.author_date_seconds, c.author_offset_minutes),
                        c.subject,
                    ) && message_markers(pending@[u].message@) == Set::empty().insert(c.sha)
                },
        decreases np - t,
    {
        let c = pending_raw[t].clone();
        proof {
            assert(views_of(pending_raw@)[t as int] == pending_raw@[t as int]@);
            assert(pend[t as int].wf());
        }
        let message = build_commit_message(&c);
        let ghost prev = pending_views(pending@);
        pending.push(PendingCommit { commit: c, message });
        proof {
            assert(pending_views(pending@) =~= prev.push(pend[t as int]));
            assert(pend.take(t as int + 1) =~= pend.take(t as int).push(pend[t as int]));
        }
        t += 1;
    }
    proof {
        assert(pend.take(np as int) =~= pend);
    }
    let plan = SyncPlan {
        pending,
        summary: SyncSummary {
            total_source_commits: total,
            existing_markers: existing,
            created: np,
        },
        apply: !dry_run,
    };
    proof {
        assert(plan_matches(plan, m, markers@, opt_usize_view(limit)));
    }
    Ok(plan)
}

/// Idempotence: a run with no limit leaves nothing for the next run. Once
/// the markers of every pending commit have been committed and scanned
/// back in — which the marker round-trip guarantees — the next pending
/// set is empty, whatever its limit.
pub proof fn lemma_sync_idempotent(
    m: Seq<SourceCommitView>,
    markers: Set<Seq<char>>,
    limit2: Option<int>,
)
    ensures
        pending_spec(
            m,
            markers.union(shas_of(pending_spec(m, markers, None)).to_set()),
            limit2,
        ).len() == 0,
{
    broadcast use vstd::seq_lib::group_filter_ensures;

    let p1 = |c: SourceCommitView| !markers.contains(c.sha);
    let f = m.filter(p1);
    let m2 = markers.union(shas_of(f).to_set());
    let p2 = |c: SourceCommitView| !m2.contains(c.sha);
    assert forall|i: int| 0 <= i < m.len() implies !p2(m[i]) by {
        if !markers.contains(m[i].sha) {
            m.lemma_filter_contains(p1, i);
            let k = choose|k: int| 0 <= k < f.len() && f[k] == m[i];
            assert(shas_of(f)[k] == m[i].sha);
            assert(shas_of(f).contains(m[i].sha));
        }
    }
    assert(m.all(|c: SourceCommitView| !p2(c)));
    m.lemma_all_neg_filter_empty(p2);
}

/// Ordering: the pending set keeps the global order — of two pending
/// commits, the one with the earlier author timestamp is processed first,
/// and the lexicographically smaller hash first on a tie.
pub proof fn lemma_pending_sorted(
    m: Seq<SourceCommitView>,
    markers: Set<Seq<char>>,
    limit: Option<int>,
)
    requires
        crate::merge::sorted_commits(m),
    ensures
        crate::merge::sorted_commits(pending_spec(m, markers, limit)),
{
    broadcast use vstd::seq_lib::group_filter_ensures;

    let p = |c: SourceCommitView| !markers.contains(c.sha);
    lemma_filter_sorted(m, p);
    let f = m.filter(p);
    assert forall|i: int, j: int|
        0 <= i < j < pending_spec(m, markers, limit).len() implies crate::merge::commit_le(
        #[trigger] pending_spec(m, markers, limit)[i],
        #[trigger] pending_spec(m, markers, limit)[j],
    ) by {
        assert(pending_spec(m, markers, limit)[i] == f[i]);
        assert(pending_spec(m, markers, limit)[j] == f[j]);
    }
}

proof fn lemma_filter_sorted(s: Seq<SourceCommitView>, p: spec_fn(SourceCommitView) -> bool)
    requires
        crate::merge::sorted_commits(s),
    ensures
        crate::merge::sorted_commits(s.filter(p)),
    decreases s.len(),
{
    broadcast use vstd::seq_lib::group_filter_ensures;

    reveal(Seq::filter);
    if s.len() > 0 {
        let s0 = s.drop_last();
        assert(crate::merge::sorted_commits(s0));
        lemma_filter_sorted(s0, p);
        if p(s.last()) {
            let f0 = s0.filter(p);
            assert forall|i: int, j: int|
                0 <= i < j < s.filter(p).len() implies crate::merge::commit_le(
                #[trigger] s.filter(p)[i],
                #[trigger] s.filter(p)[j],
            ) by {
                if j == f0.len() {
                    assert(s.filter(p)[i] == f0[i]);
                    assert(f0.contains(f0[i]));
                    s0.lemma_filter_contains_rev(p, f0[i]);
                    let u = choose|u: int| 0 <= u < s0.len() && s0[u] == f0[i];
                    assert(crate::merge::commit_le(s[u], s.last()));
                }
            }
        }
    }
}

proof fn lemma_filter_narrow(
    s: Seq<SourceCommitView>,
    p1: spec_fn(SourceCommitView) -> bool,
    p2: spec_fn(SourceCommitView) -> bool,
)
    requires
        forall|c: SourceCommitView| #[trigger] p2(c) ==> p1(c),
    ensures
        s.filter(p2) == s.filter(p1).filter(p2),
    decreases s.len(),
{
    reveal(Seq::filter);
    if s.len() > 0 {
        let x = s.last();
        let s0 = s.drop_last();
        lemma_filter_narrow(s0, p1, p2);
        if p1(x) {
            assert(s.filter(p1) == s0.filter(p1).push(x));
            assert(s.filter(p1).drop_last() =~= s0.filter(p1));
        }
    }
}

proof fn lemma_filter_all_true(s: Seq<SourceCommitView>, p: spec_fn(SourceCommitView) -> bool)
    requires
        forall|t: int| 0 <= t < s.len() ==> p(#[trigger] s[t]),
    ensures
        s.filter(p) == s,
    decreases s.len(),
{
    reveal(Seq::filter);
    if s.len() > 0 {
        lemma_filter_all_true(s.drop_last(), p);
        assert(s.filter(p) =~= s);
    }
}

proof fn lemma_filter_distinct(s: Seq<SourceCommitView>, p: spec_fn(SourceCommitView) -> bool)
    requires
        distinct_shas(s),
    ensures
        distinct_shas(s.filter(p)),
    decreases s.len(),
{
    broadcast use vstd::seq_lib::group_filter_ensures;

    reveal(Seq::filter);
    if s.len() > 0 {
        let s0 = s.drop_last();
        lemma_filter_distinct(s0, p);
        if p(s.last()) {
            let f0 = s0.filter(p);
            assert forall|i: int, j: int|
                0 <= i < j < s.filter(p).len() implies s.filter(p)[i].sha != s.filter(p)[j].sha by {
                if j == f0.len() {
                    assert(s.filter(p)[i] == f0[i]);
                    assert(f0.contains(f0[i]));
                    s0.lemma_filter_contains_rev(p, f0[i]);
                    let u = choose|u: int| 0 <= u < s0.len() && s0[u] == f0[i];
                    assert(s[u] == f0[i]);
                    assert(s[u].sha != s.last().sha);
                }
            }
        }
    }
}

/// Limit semantics: a run capped at `k` takes exactly the `k`
/// chronologically earliest pending commits; once their markers are
/// scanned back in, the next run's pending set is exactly the remainder,
/// in the same order — capped runs resume without gaps or reordering.
pub proof fn lemma_limit_resumable(m: Seq<SourceCommitView>, markers: Set<Seq<char>>, k: int)
    requires
        distinct_shas(m),
        0 <= k <= pending_spec(m, markers, None).len(),
    ensures
        pending_spec(m, markers, Some(k)) == pending_spec(m, markers, None).take(k),
        pending_spec(
            m,
            markers.union(shas_of(pending_spec(m, markers, Some(k))).to_set()),
            None,
        ) == pending_spec(m, markers, None).skip(k),
{
    broadcast use vstd::seq_lib::group_filter_ensures;

    let p1 = |c: SourceCommitView| !markers.contains(c.sha);
    let f = m.filter(p1);
    if k == f.len() {
        assert(f.take(k) =~= f);
    }
    let taken = f.take(k);
    let m2 = markers.union(shas_of(taken).to_set());
    let p2 = |c: SourceCommitView| !m2.contains(c.sha);
    lemma_filter_distinct(m, p1);
    lemma_filter_narrow(m, p1, p2);
    assert forall|t: int| 0 <= t < k implies !p2(#[trigger] f[t]) by {
        assert(shas_of(taken)[t] == f[t].sha);
        assert(shas_of(taken).contains(f[t].sha));
    }
    assert forall|t: int| k <= t < f.len() implies p2(#[trigger] f[t]) by {
        assert(p1(f[t]));
        if shas_of(taken).to_set().contains(f[t].sha) {
            let s = choose|s: int| 0 <= s < shas_of(taken).len() && shas_of(taken)[s] == f[t].sha;
            assert(f[s].sha == f[t].sha);
        }
    }
    assert(f =~= taken + f.skip(k));
    Seq::filter_distributes_over_add(taken, f.skip(k), p2);
    taken.lemma_all_neg_filter_empty(p2);
    assert forall|t: int| 0 <= t < f.skip(k).len() implies p2(#[trigger] f.skip(k)[t]) by {
        assert(f.skip(k)[t] == f[t + k]);
    }
    lemma_filter_all_true(f.skip(k), p2);
    assert(taken.filter(p2) + f.skip(k).filter(p2) =~= f.skip(k));
    assert(m.filter(p2) == f.skip(k));
}

} // verus!
