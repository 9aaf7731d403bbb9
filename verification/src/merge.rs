//! The merge/dedup stage: combines per-repository ingestion results into one
//! global sequence, keeping the first occurrence of every hash in configured
//! repository order, sorted by author timestamp with the hash as a
//! deterministic tiebreak.

use crate::source::SourceCommit;
use crate::source::SourceCommitView;
use crate::text::lemma_lex_asym;
use crate::text::lemma_lex_total;
use crate::text::lemma_lex_trans;
use crate::text::lex_lt;
use crate::text::str_lex_lt;
use vstd::multiset::Multiset;
use vstd::prelude::*;
use vstd::seq_lib::lemma_multiset_commutative;

verus! {

/// The views of a sequence of records.
pub open spec fn views_of(s: Seq<SourceCommit>) -> Seq<SourceCommitView> {
    s.map_values(|c: SourceCommit| c@)
}

/// The views of per-repository ingestion results, in configured order.
pub open spec fn repo_views_of(rs: Seq<Vec<SourceCommit>>) -> Seq<Seq<SourceCommitView>> {
    rs.map_values(|v: Vec<SourceCommit>| views_of(v@))
}

/// The hashes of a sequence of records.
pub open spec fn shas_of(s: Seq<SourceCommitView>) -> Seq<Seq<char>> {
    s.map_values(|c: SourceCommitView| c.sha)
}

/// No two records share a hash.
pub open spec fn distinct_shas(s: Seq<SourceCommitView>) -> bool {
    forall|i: int, j: int| 0 <= i < j < s.len() ==> s[i].sha != s[j].sha
}

/// Keeps the first occurrence of every hash, dropping later duplicates
/// silently.
pub open spec fn dedup_first(s: Seq<SourceCommitView>) -> Seq<SourceCommitView>
    decreases s.len(),
{
    if s.len() == 0 {
        s
    } else {
        let d = dedup_first(s.drop_last());
        if shas_of(d).contains(s.last().sha) {
            d
        } else {
            d.push(s.last())
        }
    }
}

/// The global order: author timestamp ascending, then hash ascending.
pub open spec fn commit_le(a: SourceCommitView, b: SourceCommitView) -> bool {
    ||| a.author_date_seconds < b.author_date_seconds
    ||| (a.author_date_seconds == b.author_date_seconds && (lex_lt(a.sha, b.sha) || a.sha
        == b.sha))
}

/// Sorted in the global order.
pub open spec fn sorted_commits(s: Seq<SourceCommitView>) -> bool {
    forall|i: int, j: int| 0 <= i < j < s.len() ==> commit_le(#[trigger] s[i], #[trigger] s[j])
}

/// Every record of every repository is well formed.
pub open spec fn all_wf(rs: Seq<Seq<SourceCommitView>>) -> bool {
    forall|i: int, j: int|
        0 <= i < rs.len() && 0 <= j < rs[i].len() ==> (#[trigger] rs[i][j]).wf()
}

/// `m` is the merge of the given per-repository results: the first
/// occurrence of every hash, in the global sorted order.
pub open spec fn is_merged_of(m: Seq<SourceCommitView>, repos: Seq<Seq<SourceCommitView>>) -> bool {
    &&& sorted_commits(m)
    &&& distinct_shas(m)
    &&& m.to_multiset() == dedup_first(repos.flatten()).to_multiset()
    &&& forall|x: SourceCommitView|
        m.contains(x) <==> dedup_first(repos.flatten()).contains(x)
}

/// The global order relates any two records.
pub proof fn lemma_commit_le_total(a: SourceCommitView, b: SourceCommitView)
    ensures
        commit_le(a, b) || commit_le(b, a),
{
    lemma_lex_total(a.sha, b.sha);
}

/// The global order is transitive.
pub proof fn lemma_commit_le_trans(a: SourceCommitView, b: SourceCommitView, c: SourceCommitView)
    requires
        commit_le(a, b),
        commit_le(b, c),
    ensures
        commit_le(a, c),
{
    if a.author_date_seconds == b.author_date_seconds && b.author_date_seconds
        == c.author_date_seconds {
        if lex_lt(a.sha, b.sha) && lex_lt(b.sha, c.sha) {
            lemma_lex_trans(a.sha, b.sha, c.sha);
        }
    }
}

/// The global order is antisymmetric on hashes: two records each ordered
/// no later than the other share a hash.
pub proof fn lemma_commit_le_antisym(a: SourceCommitView, b: SourceCommitView)
    requires
        commit_le(a, b),
        commit_le(b, a),
    ensures
        a.sha == b.sha,
{
    if lex_lt(a.sha, b.sha) {
        lemma_lex_asym(a.sha, b.sha);
    }
}

fn commit_le_exec(a: &SourceCommit, b: &SourceCommit) -> (r: bool)
    ensures
        r == commit_le(a@, b@),
{
    if a.author_date_seconds < b.author_date_seconds {
        true
    } else if a.author_date_seconds == b.author_date_seconds {
        str_lex_lt(a.sha.as_str(), b.sha.as_str()) || a.sha.eq(&b.sha)
    } else {
        false
    }
}

/// Decides whether every record of every repository is well formed: the
/// condition the planner requires of ingested data.
pub fn all_well_formed(per_repo: &Vec<Vec<SourceCommit>>) -> (b: bool)
    ensures
        b == all_wf(repo_views_of(per_repo@)),
{
    let ghost rvs = repo_views_of(per_repo@);
    let n = per_repo.len();
    let mut i: usize = 0;
    while i < n
        invariant
            0 <= i <= n,
            n == per_repo@.len(),
            rvs == repo_views_of(per_repo@),
            forall|p: int, q: int|
                0 <= p < i && 0 <= q < rvs[p].len() ==> (#[trigger] rvs[p][q]).wf(),
        decreases n - i,
    {
        let m = per_repo[i].len();
        let mut j: usize = 0;
        while j < m
            invariant
                0 <= j <= m,
                0 <= i < n,
                n == per_repo@.len(),
                m == per_repo@[i as int]@.len(),
                rvs == repo_views_of(per_repo@),
                forall|q: int| 0 <= q < j ==> (#[trigger] rvs[i as int][q]).wf(),
            decreases m - j,
        {
            proof {
                assert(rvs[i as int][j as int] == per_repo@[i as int]@[j as int]@);
            }
            if !per_repo[i][j].is_well_formed() {
                return false;
            }
            j += 1;
        }
        i += 1;
    }
    true
}

fn contains_sha(acc: &Vec<SourceCommit>, sha: &String) -> (b: bool)
    ensures
        b == shas_of(views_of(acc@)).contains(sha@),
{
    let ghost shas = shas_of(views_of(acc@));
    let n = acc.len();
    let mut i: usize = 0;
    while i < n
        invariant
            0 <= i <= n,
            n == acc@.len(),
            shas == shas_of(views_of(acc@)),
            forall|j: int| 0 <= j < i ==> shas[j] != sha@,
        decreases n - i,
    {
        assert(shas[i as int] == acc@[i as int]@.sha);
        if acc[i].sha.eq(sha) {
            return true;
        }
        i += 1;
    }
    assert(!shas.contains(sha@));
    false
}

proof fn lemma_views_insert(s: Seq<SourceCommit>, i: int, x: SourceCommit)
    requires
        0 <= i <= s.len(),
    ensures
        views_of(s.insert(i, x)) =~= views_of(s).insert(i, x@),
{
    s.insert_ensures(i, x);
    views_of(s).insert_ensures(i, x@);
}

proof fn lemma_insert_multiset(s: Seq<SourceCommitView>, i: int, x: SourceCommitView)
    requires
        0 <= i <= s.len(),
    ensures
        s.insert(i, x).to_multiset() =~= s.to_multiset().insert(x),
{
    broadcast use vstd::seq_lib::group_to_multiset_ensures;

    assert(s.insert(i, x) =~= s.take(i) + (seq![x] + s.skip(i)));
    assert(s =~= s.take(i) + s.skip(i));
    lemma_multiset_commutative(s.take(i), seq![x] + s.skip(i));
    lemma_multiset_commutative(seq![x], s.skip(i));
    lemma_multiset_commutative(s.take(i), s.skip(i));
    assert(seq![x] =~= Seq::<SourceCommitView>::empty().push(x));
    assert(seq![x].to_multiset() =~= Multiset::<SourceCommitView>::empty().insert(x));
}

proof fn lemma_sorted_insert(vs: Seq<SourceCommitView>, pos: int, x: SourceCommitView)
    requires
        sorted_commits(vs),
        0 <= pos <= vs.len(),
        forall|t: int| 0 <= t < pos ==> commit_le(#[trigger] vs[t], x),
        forall|t: int| pos <= t < vs.len() ==> commit_le(x, #[trigger] vs[t]),
    ensures
        sorted_commits(vs.insert(pos, x)),
{
    let v2 = vs.insert(pos, x);
    vs.insert_ensures(pos, x);
    assert forall|i: int, j: int| 0 <= i < j < v2.len() implies commit_le(
        #[trigger] v2[i],
        #[trigger] v2[j],
    ) by {
        if i < pos {
            assert(v2[i] == vs[i]);
        } else if i == pos {
            assert(v2[i] == x);
        } else {
            assert(v2[i] == vs[i - 1]);
        }
        if j < pos {
            assert(v2[j] == vs[j]);
        } else if j == pos {
            assert(v2[j] == x);
        } else {
            assert(v2[j] == vs[j - 1]);
        }
    }
}

/// Every record of the deduplicated sequence stands in the original.
pub proof fn lemma_dedup_elements(s: Seq<SourceCommitView>)
    ensures
        forall|k: int|
            0 <= k < dedup_first(s).len() ==> s.contains(#[trigger] dedup_first(s)[k]),
    decreases s.len(),
{
    if s.len() > 0 {
        lemma_dedup_elements(s.drop_last());
        assert forall|k: int| 0 <= k < dedup_first(s).len() implies s.contains(
            #[trigger] dedup_first(s)[k],
        ) by {
            let d = dedup_first(s.drop_last());
            if k < d.len() {
                let i = choose|i: int| 0 <= i < s.drop_last().len() && s.drop_last()[i] == d[k];
                assert(s[i] == d[k]);
            } else {
                assert(s[s.len() - 1] == dedup_first(s)[k]);
            }
        }
    }
}

/// Deduplication leaves no two records with one hash.
proof fn lemma_dedup_distinct_shas(s: Seq<SourceCommitView>)
    ensures
        distinct_shas(dedup_first(s)),
    decreases s.len(),
{
    if s.len() > 0 {
        lemma_dedup_distinct_shas(s.drop_last());
        let d = dedup_first(s.drop_last());
        if !shas_of(d).contains(s.last().sha) {
            assert forall|i: int, j: int|
                0 <= i < j < dedup_first(s).len() implies dedup_first(s)[i].sha != dedup_first(
                s,
            )[j].sha by {
                if j == d.len() {
                    assert(shas_of(d)[i] == d[i].sha);
                }
            }
        }
    }
}

/// Merging keeps, for each hash, exactly the record that stands first in
/// the concatenation of the configured repositories' results: later
/// duplicates of a hash are dropped, so the surviving record carries the
/// first-listed repository's provenance.
pub proof fn lemma_dedup_keeps_first(s: Seq<SourceCommitView>, i: int)
    requires
        0 <= i < s.len(),
        forall|j: int| 0 <= j < i ==> (#[trigger] s[j]).sha != s[i].sha,
    ensures
        dedup_first(s).contains(s[i]),
        forall|k: int|
            0 <= k < dedup_first(s).len() && (#[trigger] dedup_first(s)[k]).sha == s[i].sha
                ==> dedup_first(s)[k] == s[i],
    decreases s.len(),
{
    let d0 = dedup_first(s.drop_last());
    let d = dedup_first(s);
    lemma_dedup_elements(s.drop_last());
    if i < s.len() - 1 {
        lemma_dedup_keeps_first(s.drop_last(), i);
        assert(s.drop_last()[i] == s[i]);
        let k0 = choose|k: int| 0 <= k < d0.len() && d0[k] == s[i];
        if shas_of(d0).contains(s.last().sha) {
            assert(d == d0);
            assert(d[k0] == s[i]);
        } else {
            assert(d == d0.push(s.last()));
            assert(d[k0] == s[i]);
            assert forall|k: int|
                0 <= k < d.len() && (#[trigger] d[k]).sha == s[i].sha implies d[k] == s[i] by {
                if k < d0.len() {
                    assert(d[k] == d0[k]);
                    assert(dedup_first(s.drop_last())[k] == d0[k]);
                } else {
                    assert(d[k] == s.last());
                    assert(s.drop_last()[i] == s[i]);
                    assert(shas_of(d0)[k0] == d0[k0].sha);
                }
            }
        }
    } else {
        // s[i] is the last record and the first with its hash, so no
        // earlier record, hence no deduplicated record, carries it.
        assert forall|k: int| 0 <= k < d0.len() implies (#[trigger] d0[k]).sha != s[i].sha by {
            let j = choose|j: int| 0 <= j < s.drop_last().len() && s.drop_last()[j] == d0[k];
            assert(s[j] == d0[k]);
        }
        if shas_of(d0).contains(s.last().sha) {
            let k = choose|k: int| 0 <= k < shas_of(d0).len() && shas_of(d0)[k] == s.last().sha;
            assert(d0[k].sha == s.last().sha);
            assert(false);
        }
        assert(d == d0.push(s.last()));
        assert(d[d.len() - 1] == s[i]);
    }
}

/// A hash that appears in several configured repositories survives exactly
/// once in the merge, carrying the record — hint and all — of its first
/// occurrence in configured order; later duplicates are dropped silently.
pub proof fn lemma_merge_first_wins(
    m: Seq<SourceCommitView>,
    repos: Seq<Seq<SourceCommitView>>,
    i: int,
)
    requires
        is_merged_of(m, repos),
        0 <= i < repos.flatten().len(),
        forall|j: int|
            0 <= j < i ==> (#[trigger] repos.flatten()[j]).sha != repos.flatten()[i].sha,
    ensures
        m.contains(repos.flatten()[i]),
        forall|k: int|
            0 <= k < m.len() && (#[trigger] m[k]).sha == repos.flatten()[i].sha ==> m[k]
                == repos.flatten()[i],
{
    let all = repos.flatten();
    lemma_dedup_keeps_first(all, i);
    assert(m.contains(all[i]));
    let w = choose|w: int| 0 <= w < m.len() && m[w] == all[i];
    assert forall|k: int|
        0 <= k < m.len() && (#[trigger] m[k]).sha == all[i].sha implies m[k] == all[i] by {
        if k != w {
            if k < w {
                assert(m[k].sha != m[w].sha);
            } else {
                assert(m[w].sha != m[k].sha);
            }
        }
    }
}

/// Two sequences with one multiset have the same records; if one has
/// distinct hashes, so does the other, and a record is in one exactly when
/// it is in the other.
proof fn lemma_multiset_transfers(a: Seq<SourceCommitView>, b: Seq<SourceCommitView>)
    requires
        a.to_multiset() == b.to_multiset(),
        distinct_shas(a),
    ensures
        distinct_shas(b),
        forall|x: SourceCommitView| a.contains(x) <==> b.contains(x),
{
    broadcast use vstd::seq_lib::group_to_multiset_ensures;

    assert forall|i: int, j: int| 0 <= i < j < b.len() implies b[i].sha != b[j].sha by {
        if b[i].sha == b[j].sha {
            if b[i] == b[j] {
                let s0 = b.subrange(0, j);
                let s1 = b.subrange(j, b.len() as int);
                assert(b =~= s0 + s1);
                lemma_multiset_commutative(s0, s1);
                assert(s0[i] == b[i]);
                assert(s1[0] == b[j]);
                assert(s0.contains(b[i]));
                assert(s1.contains(b[j]));
                assert(b.to_multiset().count(b[i]) >= 2);
                a.lemma_multiset_has_no_duplicates();
                assert(a.no_duplicates()) by {
                    assert forall|p: int, q: int|
                        0 <= p < q < a.len() implies a[p] != a[q] by {
                        assert(a[p].sha != a[q].sha);
                    }
                }
                assert(a.to_multiset().count(b[i]) <= 1);
            } else {
                assert(b.contains(b[i]));
                assert(b.contains(b[j]));
                assert(b.to_multiset().count(b[i]) > 0);
                assert(b.to_multiset().count(b[j]) > 0);
                assert(a.to_multiset().count(b[i]) > 0);
                assert(a.to_multiset().count(b[j]) > 0);
                assert(a.contains(b[i]));
                assert(a.contains(b[j]));
                let p = choose|p: int| 0 <= p < a.len() && a[p] == b[i];
                let q = choose|q: int| 0 <= q < a.len() && a[q] == b[j];
                assert(a[p].sha == a[q].sha);
            }
        }
    }
    assert forall|x: SourceCommitView| a.contains(x) <==> b.contains(x) by {
        if a.contains(x) {
            assert(a.to_multiset().count(x) > 0);
            assert(b.to_multiset().count(x) > 0);
        }
        if b.contains(x) {
            assert(b.to_multiset().count(x) > 0);
            assert(a.to_multiset().count(x) > 0);
        }
    }
}

/// The global order admits one arrangement: two sorted sequences of the
/// same records, with no hash repeated, are equal — so the merged order is
/// total and reproducible given the same input set.
pub proof fn lemma_merged_unique(a: Seq<SourceCommitView>, b: Seq<SourceCommitView>)
    requires
        sorted_commits(a),
        sorted_commits(b),
        distinct_shas(a),
        a.to_multiset() == b.to_multiset(),
    ensures
        a == b,
    decreases a.len(),
{
    broadcast use vstd::seq_lib::group_to_multiset_ensures;

    assert(a.to_multiset().len() == a.len());
    assert(b.to_multiset().len() == b.len());
    if a.len() == 0 {
        assert(a =~= b);
    } else {
        assert(a.contains(a[0]));
        assert(a.to_multiset().count(a[0]) > 0);
        assert(b.to_multiset().count(a[0]) > 0);
        assert(b.contains(a[0]));
        let j = choose|j: int| 0 <= j < b.len() && b[j] == a[0];
        assert(b.contains(b[0]));
        assert(b.to_multiset().count(b[0]) > 0);
        assert(a.to_multiset().count(b[0]) > 0);
        assert(a.contains(b[0]));
        let k = choose|k: int| 0 <= k < a.len() && a[k] == b[0];
        if j > 0 {
            assert(commit_le(b[0], b[j]));
        }
        if k > 0 {
            assert(commit_le(a[0], a[k]));
        }
        lemma_commit_le_total(a[0], b[0]);
        lemma_commit_le_antisym(a[0], b[0]);
        assert(a[k].sha == a[0].sha);
        assert(k == 0);
        assert(a[0] == b[0]);
        let a1 = a.drop_first();
        let b1 = b.drop_first();
        assert(a.remove(0) =~= a1);
        assert(b.remove(0) =~= b1);
        assert(a.remove(0).to_multiset() =~= a.to_multiset().remove(a[0]));
        assert(b.remove(0).to_multiset() =~= b.to_multiset().remove(b[0]));
        assert forall|i: int, t: int| 0 <= i < t < a1.len() implies commit_le(
            #[trigger] a1[i],
            #[trigger] a1[t],
        ) && a1[i].sha != a1[t].sha by {
            assert(a1[i] == a[i + 1]);
            assert(a1[t] == a[t + 1]);
        }
        assert forall|i: int, t: int| 0 <= i < t < b1.len() implies commit_le(
            #[trigger] b1[i],
            #[trigger] b1[t],
        ) by {
            assert(b1[i] == b[i + 1]);
            assert(b1[t] == b[t + 1]);
        }
        lemma_merged_unique(a1, b1);
        assert forall|i: int| 0 <= i < a.len() implies a[i] == b[i] by {
            if i > 0 {
                assert(a1[i - 1] == b1[i - 1]);
            }
        }
        assert(a =~= b);
    }
}

/// A record of the concatenation stands in one of the repositories.
pub proof fn lemma_flatten_member(rs: Seq<Seq<SourceCommitView>>, x: SourceCommitView)
    requires
        rs.flatten().contains(x),
    ensures
        exists|i: int| 0 <= i < rs.len() && (#[trigger] rs[i]).contains(x),
    decreases rs.len(),
{
    if rs.len() > 0 {
        if rs.first().contains(x) {
            assert(rs[0].contains(x));
        } else {
            let k = choose|k: int| 0 <= k < rs.flatten().len() && rs.flatten()[k] == x;
            assert(rs.flatten() =~= rs.first() + rs.drop_first().flatten());
            assert(rs.drop_first().flatten()[k - rs.first().len()] == x);
            lemma_flatten_member(rs.drop_first(), x);
            let i = choose|i: int|
                0 <= i < rs.drop_first().len() && (#[trigger] rs.drop_first()[i]).contains(x);
            assert(rs[i + 1].contains(x));
        }
    }
}

/// Every record of a merge of well-formed repositories is well formed.
pub proof fn lemma_merged_wf(m: Seq<SourceCommitView>, repos: Seq<Seq<SourceCommitView>>)
    requires
        is_merged_of(m, repos),
        all_wf(repos),
    ensures
        forall|t: int| 0 <= t < m.len() ==> (#[trigger] m[t]).wf(),
{
    lemma_dedup_elements(repos.flatten());
    assert forall|t: int| 0 <= t < m.len() implies (#[trigger] m[t]).wf() by {
        assert(m.contains(m[t]));
        let d = dedup_first(repos.flatten());
        assert(d.contains(m[t]));
        let k = choose|k: int| 0 <= k < d.len() && d[k] == m[t];
        assert(repos.flatten().contains(d[k]));
        lemma_flatten_member(repos, m[t]);
        let i = choose|i: int| 0 <= i < repos.len() && (#[trigger] repos[i]).contains(m[t]);
        let j = choose|j: int| 0 <= j < repos[i].len() && repos[i][j] == m[t];
        assert(repos[i][j].wf());
    }
}

/// Concatenates all per-repository results in configured order, drops later
/// duplicates of each hash, and sorts by `(author timestamp, hash)`: the
/// deterministic global order every later stage relies on.
pub fn merge_source_commits(per_repo: &Vec<Vec<SourceCommit>>) -> (r: Vec<SourceCommit>)
    ensures
        is_merged_of(views_of(r@), repo_views_of(per_repo@)),
{
    let ghost rvs = repo_views_of(per_repo@);
    let n = per_repo.len();
    let mut acc: Vec<SourceCommit> = Vec::new();
    let mut k: usize = 0;
    proof {
        assert(rvs.take(0) =~= Seq::<Seq<SourceCommitView>>::empty());
        assert(rvs.take(0).flatten() =~= Seq::<SourceCommitView>::empty());
        assert(views_of(acc@) =~= Seq::<SourceCommitView>::empty());
    }
    while k < n
        invariant
            0 <= k <= n,
            n == per_repo@.len(),
            rvs == repo_views_of(per_repo@),
            views_of(acc@) == dedup_first(rvs.take(k as int).flatten()),
        decreases n - k,
    {
        let m = per_repo[k].len();
        let ghost base = rvs.take(k as int).flatten();
        let mut j: usize = 0;
        proof {
            assert(views_of(per_repo@[k as int]@.take(0)) =~= Seq::<SourceCommitView>::empty());
            assert(base + views_of(per_repo@[k as int]@.take(0)) =~= base);
        }
        while j < m
            invariant
                0 <= j <= m,
                0 <= k < n,
                n == per_repo@.len(),
                m == per_repo@[k as int]@.len(),
                rvs == repo_views_of(per_repo@),
                base == rvs.take(k as int).flatten(),
                views_of(acc@) == dedup_first(
                    base + views_of(per_repo@[k as int]@.take(j as int)),
                ),
            decreases m - j,
        {
            let ghost pref = base + views_of(per_repo@[k as int]@.take(j as int));
            let c = per_repo[k][j].clone();
            let ghost pref2 = base + views_of(per_repo@[k as int]@.take(j as int + 1));
            proof {
                assert(pref2 =~= pref.push(c@));
                assert(pref2.drop_last() =~= pref);
            }
            if !contains_sha(&acc, &c.sha) {
                let ghost old_acc = acc@;
                acc.push(c);
                proof {
                    assert(views_of(acc@) =~= views_of(old_acc).push(pref2.last()));
                }
            }
            j += 1;
        }
        proof {
            assert(per_repo@[k as int]@.take(m as int) =~= per_repo@[k as int]@);
            assert(rvs.take(k as int + 1) =~= rvs.take(k as int).push(rvs[k as int]));
            rvs.take(k as int).lemma_flatten_push(rvs[k as int]);
            assert(base + views_of(per_repo@[k as int]@) =~= rvs.take(k as int + 1).flatten());
        }
        k += 1;
    }
    proof {
        assert(rvs.take(n as int) =~= rvs);
    }
    let ghost dd = views_of(acc@);
    proof {
        lemma_dedup_distinct_shas(rvs.flatten());
    }
    // Sort by insertion into a fresh list, preserving the record multiset.
    let mut out: Vec<SourceCommit> = Vec::new();
    let an = acc.len();
    let mut idx: usize = 0;
    proof {
        broadcast use vstd::seq_lib::group_to_multiset_ensures;

        assert(views_of(out@) =~= Seq::<SourceCommitView>::empty());
        assert(views_of(acc@.take(0)) =~= Seq::<SourceCommitView>::empty());
        assert(views_of(out@).to_multiset() =~= views_of(acc@.take(0)).to_multiset());
    }
    while idx < an
        invariant
            0 <= idx <= an,
            an == acc@.len(),
            dd == views_of(acc@),
            sorted_commits(views_of(out@)),
            views_of(out@).to_multiset() == views_of(acc@.take(idx as int)).to_multiset(),
        decreases an - idx,
    {
        let c = acc[idx].clone();
        let on = out.len();
        let mut pos: usize = 0;
        while pos < on && commit_le_exec(&out[pos], &c)
            invariant
                0 <= pos <= on,
                on == out@.len(),
                forall|t: int| 0 <= t < pos ==> commit_le(#[trigger] views_of(out@)[t], c@),
            decreases on - pos,
        {
            proof {
                assert(views_of(out@)[pos as int] == out@[pos as int]@);
            }
            pos += 1;
        }
        let ghost ovs = views_of(out@);
        let ghost oseq = out@;
        let ghost cc = c;
        proof {
            if pos < on {
                assert(ovs[pos as int] == out@[pos as int]@);
                lemma_commit_le_total(ovs[pos as int], c@);
            }
            assert forall|t: int| pos <= t < ovs.len() implies commit_le(
                c@,
                #[trigger] ovs[t],
            ) by {
                if t > pos {
                    lemma_commit_le_trans(c@, ovs[pos as int], ovs[t]);
                }
            }
        }
        out.insert(pos, c);
        proof {
            broadcast use vstd::seq_lib::group_to_multiset_ensures;

            lemma_views_insert(oseq, pos as int, cc);
            assert(views_of(out@) =~= ovs.insert(pos as int, cc@));
            lemma_sorted_insert(ovs, pos as int, cc@);
            lemma_insert_multiset(ovs, pos as int, cc@);
            assert(views_of(acc@.take(idx as int + 1)) =~= views_of(acc@.take(idx as int)).push(
                cc@,
            ));
        }
        idx += 1;
    }
    proof {
        assert(acc@.take(an as int) =~= acc@);
        lemma_multiset_transfers(dd, views_of(out@));
        lemma_dedup_elements(rvs.flatten());
    }
    out
}

} // verus!
