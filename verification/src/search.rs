//! Search aggregation: the uniform package record, the deterministic
//! scoring function, stable ranking by descending score, adjacent
//! deduplication, and the merge of per-backend outcomes that tolerates
//! individual backend failures.

use vstd::prelude::*;

use crate::strutil::{
    lower, is_prefix_of, contains_seq, eq_ci, starts_with_ci, contains_ci, str_eq,
};

verus! {

/// A search result in the uniform shape every backend produces.
/// `score` is meaningful only after the aggregator has recomputed it.
#[derive(Debug)]
pub struct PackageResult {
    /// Package name.
    pub name: String,
    /// Package version, if the backend reported one.
    pub version: Option<String>,
    /// Short description, if the backend reported one.
    pub description: Option<String>,
    /// Identifier of the backend the record came from.
    pub source: String,
    /// Ranking score; higher ranks earlier.
    pub score: u32,
}

impl PackageResult {
    /// A fresh record with no version, no description and a zero score.
    pub fn new(name: String, source: String) -> (r: PackageResult)
        ensures
            r.name == name,
            r.source == source,
            r.version is None,
            r.description is None,
            r.score == 0,
    {
        PackageResult { name, version: None, description: None, source, score: 0 }
    }

    /// The same record with the version set.
    pub fn with_version(self, version: String) -> (r: PackageResult)
        ensures
            r == (PackageResult { version: Some(version), ..self }),
    {
        PackageResult { version: Some(version), ..self }
    }

    /// The same record with the description set.
    pub fn with_description(self, desc: String) -> (r: PackageResult)
        ensures
            r == (PackageResult { description: Some(desc), ..self }),
    {
        PackageResult { description: Some(desc), ..self }
    }

    /// The same record with the score set.
    pub fn with_score(self, score: u32) -> (r: PackageResult)
        ensures
            r == (PackageResult { score, ..self }),
    {
        PackageResult { score, ..self }
    }
}

/// An exact replica of a record.
pub fn clone_result(r: &PackageResult) -> (out: PackageResult)
    ensures
        out == *r,
{
    PackageResult {
        name: r.name.clone(),
        version: match &r.version {
            Some(v) => Some(v.clone()),
            None => None,
        },
        description: match &r.description {
            Some(d) => Some(d.clone()),
            None => None,
        },
        source: r.source.clone(),
        score: r.score,
    }
}

/// Bonus for how well the record name matches the query, after ASCII case
/// folding: 100 for an exact match, 75 for a proper prefix match, 50 for a
/// substring match, 0 otherwise.
pub open spec fn match_bonus(query: Seq<char>, name: Seq<char>) -> int {
    if lower(name) == lower(query) {
        100
    } else if is_prefix_of(lower(query), lower(name)) {
        75
    } else if contains_seq(lower(name), lower(query)) {
        50
    } else {
        0
    }
}

/// Bonus for the backend the record came from, from the fixed priority list
/// `[apt, winget, brew, snap, npm, pip]`: `(6 - index) * 5` for a listed
/// backend, 0 for any other.
pub open spec fn priority_bonus(source: Seq<char>) -> int {
    if source == "apt"@ {
        30
    } else if source == "winget"@ {
        25
    } else if source == "brew"@ {
        20
    } else if source == "snap"@ {
        15
    } else if source == "npm"@ {
        10
    } else if source == "pip"@ {
        5
    } else {
        0
    }
}

/// The full deterministic score of a record for a query: match bonus, plus
/// backend priority bonus, plus 5 when a version is present, plus 2 when a
/// description is present.
pub open spec fn result_score(query: Seq<char>, r: PackageResult) -> int {
    match_bonus(query, r.name@) + priority_bonus(r.source@) + (if r.version is Some {
        5int
    } else {
        0int
    }) + (if r.description is Some {
        2int
    } else {
        0int
    })
}

/// The record with its score replaced by the recomputed one.
pub open spec fn scored(query: Seq<char>, r: PackageResult) -> PackageResult {
    PackageResult {
        name: r.name,
        version: r.version,
        description: r.description,
        source: r.source,
        score: result_score(query, r) as u32,
    }
}

/// Every record of the sequence, rescored for the query.
pub open spec fn scored_seq(query: Seq<char>, s: Seq<PackageResult>) -> Seq<PackageResult> {
    s.map_values(|r: PackageResult| scored(query, r))
}

/// The scores are non-increasing from the front to the back.
pub open spec fn sorted_desc(s: Seq<PackageResult>) -> bool {
    forall|i: int, j: int| 0 <= i < j < s.len() ==> s[i].score >= s[j].score
}

/// Insert `x` into `s` from the right, after every element whose score is at
/// least `x.score`. On a sorted sequence this is stable insertion.
pub open spec fn insert_desc(s: Seq<PackageResult>, x: PackageResult) -> Seq<PackageResult>
    decreases s.len(),
{
    if s.len() == 0 {
        seq![x]
    } else if s.last().score >= x.score {
        s.push(x)
    } else {
        insert_desc(s.drop_last(), x).push(s.last())
    }
}

/// Stable insertion sort by descending score: elements with equal scores keep
/// their original relative order.
pub open spec fn sort_by_score_desc(s: Seq<PackageResult>) -> Seq<PackageResult>
    decreases s.len(),
{
    if s.len() == 0 {
        Seq::<PackageResult>::empty()
    } else {
        insert_desc(sort_by_score_desc(s.drop_last()), s.last())
    }
}

proof fn lemma_insert_desc_len(s: Seq<PackageResult>, x: PackageResult)
    ensures
        insert_desc(s, x).len() == s.len() + 1,
    decreases s.len(),
{
    if s.len() != 0 && s.last().score < x.score {
        lemma_insert_desc_len(s.drop_last(), x);
    }
}

proof fn lemma_insert_desc_sorted(s: Seq<PackageResult>, x: PackageResult)
    requires
        sorted_desc(s),
    ensures
        sorted_desc(insert_desc(s, x)),
    decreases s.len(),
{
    lemma_insert_desc_len(s, x);
    if s.len() == 0 {
    } else if s.last().score >= x.score {
        assert forall|i: int, j: int|
            0 <= i < j < s.push(x).len() implies s.push(x)[i].score >= s.push(x)[j].score by {
            if j < s.len() {
                assert(s[i].score >= s[j].score);
            } else {
                assert(s.push(x)[j] == x);
                if i < s.len() - 1 {
                    assert(s[i].score >= s[s.len() - 1].score);
                }
            }
        }
    } else {
        assert(sorted_desc(s.drop_last())) by {
            assert forall|i: int, j: int|
                0 <= i < j < s.drop_last().len() implies s.drop_last()[i].score >= s.drop_last()[j].score by {
                assert(s[i].score >= s[j].score);
            }
        }
        lemma_insert_desc_sorted(s.drop_last(), x);
        lemma_insert_desc_len(s.drop_last(), x);
        let t = insert_desc(s.drop_last(), x);
        // every element of t is either x or an element of s.drop_last(),
        // so each scores at least s.last().score
        lemma_insert_desc_scores(s.drop_last(), x);
        assert forall|i: int, j: int|
            0 <= i < j < t.push(s.last()).len() implies t.push(s.last())[i].score >= t.push(
            s.last(),
        )[j].score by {
            if j < t.len() {
                assert(t[i].score >= t[j].score);
            } else {
                assert(t.push(s.last())[j] == s.last());
                // t[i] is either from s.drop_last() (score >= s.last().score by
                // sortedness of s) or x (score > s.last().score)
            }
        }
    }
}

/// Every element of `insert_desc(s, x)` is `x` or one of the elements of `s`.
proof fn lemma_insert_desc_scores(s: Seq<PackageResult>, x: PackageResult)
    ensures
        forall|i: int|
            0 <= i < insert_desc(s, x).len() ==> #[trigger] insert_desc(s, x)[i] == x || s.contains(
                insert_desc(s, x)[i],
            ),
    decreases s.len(),
{
    lemma_insert_desc_len(s, x);
    if s.len() == 0 {
    } else if s.last().score >= x.score {
        assert forall|i: int|
            0 <= i < insert_desc(s, x).len() implies #[trigger] insert_desc(s, x)[i] == x
            || s.contains(insert_desc(s, x)[i]) by {
            if i < s.len() {
                assert(s.push(x)[i] == s[i]);
            }
        }
    } else {
        lemma_insert_desc_scores(s.drop_last(), x);
        lemma_insert_desc_len(s.drop_last(), x);
        let t = insert_desc(s.drop_last(), x);
        assert forall|i: int|
            0 <= i < insert_desc(s, x).len() implies #[trigger] insert_desc(s, x)[i] == x
            || s.contains(insert_desc(s, x)[i]) by {
            if i < t.len() {
                assert(insert_desc(s, x)[i] == t[i]);
                if t[i] != x {
                    let k = choose|k: int| 0 <= k < s.drop_last().len() && s.drop_last()[k] == t[i];
                    assert(s[k] == t[i]);
                }
            } else {
                assert(insert_desc(s, x)[i] == s.last());
                assert(s[s.len() - 1] == s.last());
            }
        }
    }
}

/// The output of the stable sort is sorted by non-increasing score, and keeps
/// the length of its input.
pub proof fn lemma_sort_sorted(s: Seq<PackageResult>)
    ensures
        sorted_desc(sort_by_score_desc(s)),
        sort_by_score_desc(s).len() == s.len(),
    decreases s.len(),
{
    if s.len() != 0 {
        lemma_sort_sorted(s.drop_last());
        lemma_insert_desc_sorted(sort_by_score_desc(s.drop_last()), s.last());
        lemma_insert_desc_len(sort_by_score_desc(s.drop_last()), s.last());
    }
}

/// Where `x` belongs: if the first `k` elements of a sorted sequence score at
/// least `x.score` and the rest score below it, inserting `x` puts it exactly
/// at position `k`.
proof fn lemma_insert_desc_split(s: Seq<PackageResult>, x: PackageResult, k: int)
    requires
        sorted_desc(s),
        0 <= k <= s.len(),
        forall|i: int| 0 <= i < k ==> s[i].score >= x.score,
        k < s.len() ==> s[k].score < x.score,
    ensures
        insert_desc(s, x) == s.take(k) + seq![x] + s.skip(k),
    decreases s.len(),
{
    if s.len() == 0 {
        assert(insert_desc(s, x) =~= s.take(k) + seq![x] + s.skip(k));
    } else if s.last().score >= x.score {
        // x goes at the very end; k must be s.len()
        if k < s.len() {
            assert(s[k].score >= s[s.len() - 1].score);
            assert(false);
        }
        assert(insert_desc(s, x) =~= s.take(k) + seq![x] + s.skip(k));
    } else {
        if k == s.len() {
            assert(s[s.len() - 1].score >= x.score);
            assert(false);
        }
        assert(sorted_desc(s.drop_last())) by {
            assert forall|i: int, j: int|
                0 <= i < j < s.drop_last().len() implies s.drop_last()[i].score >= s.drop_last()[j].score by {
                assert(s[i].score >= s[j].score);
            }
        }
        assert forall|i: int| 0 <= i < k implies s.drop_last()[i].score >= x.score by {
            assert(s[i].score >= x.score);
        }
        lemma_insert_desc_split(s.drop_last(), x, k);
        assert(insert_desc(s, x) =~= s.take(k) + seq![x] + s.skip(k));
    }
}

/// The recomputed score of one record, from its parts.
fn score_value(query: &str, name: &str, has_version: bool, has_description: bool, source: &str) -> (
    s: u32)
    ensures
        s == match_bonus(query@, name@) + priority_bonus(source@) + (if has_version {
            5int
        } else {
            0int
        }) + (if has_description {
            2int
        } else {
            0int
        }),
{
    let mut s: u32 = 0;
    if eq_ci(name, query) {
        s = s + 100;
    } else if starts_with_ci(name, query) {
        s = s + 75;
    } else if contains_ci(name, query) {
        s = s + 50;
    }
    if str_eq(source, "apt") {
        s = s + 30;
    } else if str_eq(source, "winget") {
        s = s + 25;
    } else if str_eq(source, "brew") {
        s = s + 20;
    } else if str_eq(source, "snap") {
        s = s + 15;
    } else if str_eq(source, "npm") {
        s = s + 10;
    } else if str_eq(source, "pip") {
        s = s + 5;
    }
    if has_version {
        s = s + 5;
    }
    if has_description {
        s = s + 2;
    }
    s
}

/// The aggregator: scores, ranks, deduplicates and merges search results.
pub struct SearchAggregator;

impl SearchAggregator {
    /// Recompute the score of one record for a query; no other field changes.
    pub fn calculate_score(query: &str, result: &mut PackageResult)
        ensures
            *final(result) == scored(query@, *old(result)),
    {
        let s = score_value(
            query,
            result.name.as_str(),
            result.version.is_some(),
            result.description.is_some(),
            result.source.as_str(),
        );
        result.score = s;
    }

    /// Recompute every score for the query, then sort by descending score
    /// with a stable sort, so that ties keep their arrival order.
    pub fn rank_results(query: &str, results: &mut Vec<PackageResult>)
        ensures
            final(results)@ == sort_by_score_desc(scored_seq(query@, old(results)@)),
            sorted_desc(final(results)@),
    {
        let ghost orig = results@;
        let n = results.len();
        let mut i: usize = 0;
        while i < n
            invariant
                n == results@.len(),
                i <= n,
                forall|j: int| i <= j < n ==> results@[j] == orig[j],
                forall|j: int| 0 <= j < i ==> results@[j] == scored(query@, orig[j]),
            decreases n - i,
        {
            let mut r = clone_result(&results[i]);
            Self::calculate_score(query, &mut r);
            results[i] = r;
            i += 1;
        }
        proof {
            assert(results@ =~= scored_seq(query@, orig));
        }
        sort_in_place(results);
        proof {
            lemma_sort_sorted(scored_seq(query@, orig));
        }
    }

    /// Sort by descending score, then drop every record whose name equals the
    /// name of the record immediately before it, keeping the first of each
    /// adjacent run.
    pub fn deduplicate(results: &mut Vec<PackageResult>)
        ensures
            final(results)@ == dedup_adjacent(sort_by_score_desc(old(results)@)),
    {
        let ghost orig = results@;
        sort_in_place(results);
        let ghost t = sort_by_score_desc(orig);
        let n = results.len();
        let mut out: Vec<PackageResult> = Vec::new();
        if n == 0 {
            return ;
        }
        out.push(clone_result(&results[0]));
        let mut i: usize = 1;
        while i < n
            invariant
                n == results@.len(),
                results@ == t,
                1 <= i <= n,
                t.len() == n,
                out@ == dedup_adjacent(t.take(i as int)),
            decreases n - i,
        {
            proof {
                assert(t.take(i as int).len() >= 1);
                assert(t.take(i as int).last() == t[i - 1]);
                lemma_dedup_adjacent_push(t.take(i as int), t[i as int]);
                assert(t.take(i as int).push(t[i as int]) =~= t.take(i + 1));
            }
            if !str_eq(results[i].name.as_str(), results[i - 1].name.as_str()) {
                out.push(clone_result(&results[i]));
            }
            i += 1;
        }
        proof {
            assert(t.take(n as int) =~= t);
        }
        *results = out;
    }
}

/// Stable insertion sort of the vector, in place, by descending score.
fn sort_in_place(v: &mut Vec<PackageResult>)
    ensures
        final(v)@ == sort_by_score_desc(old(v)@),
{
    let ghost g = v@;
    let n = v.len();
    if n == 0 {
        proof {
            assert(sort_by_score_desc(g) =~= g);
        }
        return ;
    }
    let mut i: usize = 1;
    proof {
        assert(g.take(1).drop_last() =~= Seq::<PackageResult>::empty());
        assert(sort_by_score_desc(Seq::<PackageResult>::empty())
            == Seq::<PackageResult>::empty());
        assert(insert_desc(Seq::<PackageResult>::empty(), g.take(1).last()) == seq![
            g.take(1).last(),
        ]);
        assert(sort_by_score_desc(g.take(1)) =~= g.take(1));
        assert(v@ =~= sort_by_score_desc(g.take(1)) + g.skip(1));
    }
    while i < n
        invariant
            n == v@.len(),
            n == g.len(),
            1 <= i <= n,
            v@ == sort_by_score_desc(g.take(i as int)) + g.skip(i as int),
            sort_by_score_desc(g.take(i as int)).len() == i,
        decreases n - i,
    {
        let ghost s = sort_by_score_desc(g.take(i as int));
        proof {
            lemma_sort_sorted(g.take(i as int));
            assert(v@[i as int] == g.skip(i as int)[0]);
            assert(v@[i as int] == g[i as int]);
        }
        let xscore = v[i].score;
        let mut k: usize = i;
        while k > 0 && v[k - 1].score < xscore
            invariant
                n == v@.len(),
                k <= i < n,
                xscore == v@[i as int].score,
                forall|j: int| k <= j < i ==> v@[j].score < xscore,
            decreases k,
        {
            k -= 1;
        }
        proof {
            assert forall|j: int| 0 <= j < k implies s[j].score >= xscore by {
                assert(v@[k - 1] == s[k - 1]);
                assert(s[j].score >= s[k - 1].score);
            }
            assert forall|j: int| k <= j < i implies s[j].score < xscore by {
                assert(v@[j] == s[j]);
            }
        }
        let x = v.remove(i);
        v.insert(k, x);
        proof {
            assert(x == g[i as int]);
            assert(x.score == xscore);
            lemma_insert_desc_split(s, x, k as int);
            assert(g.take(i + 1).drop_last() =~= g.take(i as int));
            assert(g.take(i + 1).last() == g[i as int]);
            assert(sort_by_score_desc(g.take(i + 1)) == insert_desc(s, x));
            lemma_insert_desc_len(s, x);
            assert(v@ =~= sort_by_score_desc(g.take(i + 1)) + g.skip(i + 1));
        }
        i += 1;
    }
    proof {
        assert(g.take(n as int) =~= g);
        assert(v@ =~= sort_by_score_desc(g));
    }
}

/// Keep an element only when its name differs from the name of the element
/// kept immediately before it; `last_name` is the name most recently kept.
pub open spec fn dedup_keep(s: Seq<PackageResult>, last_name: Seq<char>) -> Seq<PackageResult>
    decreases s.len(),
{
    if s.len() == 0 {
        Seq::<PackageResult>::empty()
    } else if s.first().name@ == last_name {
        dedup_keep(s.drop_first(), last_name)
    } else {
        seq![s.first()] + dedup_keep(s.drop_first(), s.first().name@)
    }
}

/// Collapse adjacent runs of records sharing a name, keeping the first
/// record of each run.
pub open spec fn dedup_adjacent(s: Seq<PackageResult>) -> Seq<PackageResult> {
    if s.len() == 0 {
        Seq::<PackageResult>::empty()
    } else {
        seq![s.first()] + dedup_keep(s.drop_first(), s.first().name@)
    }
}

/// After processing `s` starting from `last_name`, the most recently kept
/// name equals the name of the last element of `s` (or `last_name` if `s` is
/// empty); appending `x` keeps it exactly when its name differs from that.
proof fn lemma_dedup_keep_push(s: Seq<PackageResult>, last_name: Seq<char>, x: PackageResult)
    ensures
        dedup_keep(s.push(x), last_name) == dedup_keep(s, last_name) + (if x.name@ == (if s.len()
            == 0 {
            last_name
        } else {
            s.last().name@
        }) {
            Seq::<PackageResult>::empty()
        } else {
            seq![x]
        }),
    decreases s.len(),
{
    if s.len() == 0 {
        assert(s.push(x).first() == x);
        assert(s.push(x).drop_first() =~= Seq::<PackageResult>::empty());
        assert(dedup_keep(Seq::<PackageResult>::empty(), last_name) == Seq::<
            PackageResult,
        >::empty());
        assert(dedup_keep(Seq::<PackageResult>::empty(), x.name@) == Seq::<
            PackageResult,
        >::empty());
        assert(dedup_keep(s, last_name) == Seq::<PackageResult>::empty());
        if x.name@ == last_name {
            assert(dedup_keep(s.push(x), last_name) =~= dedup_keep(s, last_name) + Seq::<
                PackageResult,
            >::empty());
        } else {
            assert(dedup_keep(s.push(x), last_name) =~= dedup_keep(s, last_name) + seq![x]);
        }
    } else {
        assert(s.push(x).first() == s.first());
        assert(s.push(x).drop_first() =~= s.drop_first().push(x));
        lemma_dedup_keep_push(s.drop_first(), last_name, x);
        lemma_dedup_keep_push(s.drop_first(), s.first().name@, x);
        if s.len() == 1 {
            assert(s.drop_first().len() == 0);
            assert(s.last() == s.first());
        } else {
            assert(s.drop_first().last() == s.last());
        }
    }
}

/// Appending one record to a non-empty sequence extends its deduplication by
/// that record exactly when its name differs from the last name.
proof fn lemma_dedup_adjacent_push(t: Seq<PackageResult>, x: PackageResult)
    requires
        t.len() >= 1,
    ensures
        dedup_adjacent(t.push(x)) == dedup_adjacent(t) + (if x.name@ == t.last().name@ {
            Seq::<PackageResult>::empty()
        } else {
            seq![x]
        }),
{
    assert(t.push(x).first() == t.first());
    assert(t.push(x).drop_first() =~= t.drop_first().push(x));
    lemma_dedup_keep_push(t.drop_first(), t.first().name@, x);
    if t.len() == 1 {
        assert(t.last() == t.first());
    } else {
        assert(t.drop_first().last() == t.last());
    }
}

/// The records of the successful outcomes, concatenated in arrival order;
/// failed outcomes contribute nothing.
pub open spec fn ok_results(outcomes: Seq<Result<Vec<PackageResult>, String>>) -> Seq<
    PackageResult,
>
    decreases outcomes.len(),
{
    if outcomes.len() == 0 {
        Seq::<PackageResult>::empty()
    } else {
        (match outcomes.first() {
            Ok(v) => v@,
            Err(_) => Seq::<PackageResult>::empty(),
        }) + ok_results(outcomes.drop_first())
    }
}

/// The total number of records carried by the successful outcomes.
pub open spec fn ok_count(outcomes: Seq<Result<Vec<PackageResult>, String>>) -> int
    decreases outcomes.len(),
{
    if outcomes.len() == 0 {
        0
    } else {
        (match outcomes.first() {
            Ok(v) => v@.len() as int,
            Err(_) => 0,
        }) + ok_count(outcomes.drop_first())
    }
}

/// Merge the per-backend search outcomes: the records of every successful
/// backend survive, in arrival order; a failed backend contributes nothing
/// and never aborts the merge.
pub fn merge_results(outcomes: Vec<Result<Vec<PackageResult>, String>>) -> (merged: Vec<
    PackageResult,
>)
    ensures
        merged@ == ok_results(outcomes@),
{
    let ghost orig = outcomes@;
    let mut rest = outcomes;
    let mut merged: Vec<PackageResult> = Vec::new();
    proof {
        assert(ok_results(orig) =~= merged@ + ok_results(rest@));
    }
    while rest.len() > 0
        invariant
            ok_results(orig) == merged@ + ok_results(rest@),
        decreases rest.len(),
    {
        let ghost prev = rest@;
        let o = rest.remove(0);
        proof {
            assert(prev.first() == o);
            assert(rest@ =~= prev.drop_first());
        }
        match o {
            Ok(mut v) => {
                merged.append(&mut v);
            },
            Err(_) => {},
        }
        proof {
            assert(ok_results(orig) =~= merged@ + ok_results(rest@));
        }
    }
    proof {
        assert(ok_results(rest@) =~= Seq::<PackageResult>::empty());
        assert(merged@ =~= ok_results(orig));
    }
    merged
}

/// Partial-failure tolerance of the merge: the merged output holds exactly as
/// many records as the successful outcomes supplied, and every record of
/// every successful outcome is present in it — a failed backend never blanks
/// out the others' results.
pub proof fn lemma_merge_tolerates_failures(outcomes: Seq<Result<Vec<PackageResult>, String>>)
    ensures
        ok_results(outcomes).len() == ok_count(outcomes),
        forall|i: int, j: int|
            0 <= i < outcomes.len() && outcomes[i] is Ok && 0 <= j < outcomes[i]->Ok_0@.len()
                ==> ok_results(outcomes).contains(#[trigger] outcomes[i]->Ok_0@[j]),
    decreases outcomes.len(),
{
    if outcomes.len() > 0 {
        lemma_merge_tolerates_failures(outcomes.drop_first());
        let head = match outcomes.first() {
            Ok(v) => v@,
            Err(_) => Seq::<PackageResult>::empty(),
        };
        assert forall|i: int, j: int|
            0 <= i < outcomes.len() && outcomes[i] is Ok && 0 <= j
                < outcomes[i]->Ok_0@.len() implies ok_results(outcomes).contains(
            #[trigger] outcomes[i]->Ok_0@[j],
        ) by {
            if i == 0 {
                assert(ok_results(outcomes)[j] == outcomes[0]->Ok_0@[j]);
            } else {
                assert(outcomes.drop_first()[i - 1] == outcomes[i]);
                assert(ok_results(outcomes.drop_first()).contains(outcomes[i]->Ok_0@[j]));
                let k = choose|k: int|
                    0 <= k < ok_results(outcomes.drop_first()).len() && ok_results(
                        outcomes.drop_first(),
                    )[k] == outcomes[i]->Ok_0@[j];
                assert(ok_results(outcomes)[head.len() + k] == outcomes[i]->Ok_0@[j]);
            }
        }
    }
}

proof fn lemma_insert_desc_multiset(s: Seq<PackageResult>, x: PackageResult)
    ensures
        insert_desc(s, x).to_multiset() == s.to_multiset().insert(x),
    decreases s.len(),
{
    broadcast use vstd::seq_lib::group_to_multiset_ensures;

    if s.len() == 0 {
        assert(seq![x] =~= Seq::<PackageResult>::empty().push(x));
        assert(insert_desc(s, x).to_multiset() =~= s.to_multiset().insert(x));
    } else if s.last().score >= x.score {
        assert(insert_desc(s, x).to_multiset() =~= s.to_multiset().insert(x));
    } else {
        lemma_insert_desc_multiset(s.drop_last(), x);
        assert(s.drop_last().push(s.last()) =~= s);
        assert(s.to_multiset() =~= s.drop_last().to_multiset().insert(s.last()));
        assert(insert_desc(s, x).to_multiset() =~= insert_desc(s.drop_last(), x).to_multiset()
            .insert(s.last()));
        assert(insert_desc(s, x).to_multiset() =~= s.to_multiset().insert(x));
    }
}

/// The stable sort only reorders: its output holds exactly the records of
/// its input.
pub proof fn lemma_sort_permutes(s: Seq<PackageResult>)
    ensures
        sort_by_score_desc(s).to_multiset() == s.to_multiset(),
    decreases s.len(),
{
    broadcast use vstd::seq_lib::group_to_multiset_ensures;

    if s.len() != 0 {
        lemma_sort_permutes(s.drop_last());
        lemma_insert_desc_multiset(sort_by_score_desc(s.drop_last()), s.last());
        assert(s.drop_last().push(s.last()) =~= s);
        assert(s.to_multiset() =~= s.drop_last().to_multiset().insert(s.last()));
        assert(sort_by_score_desc(s).to_multiset() =~= s.to_multiset());
    }
}

/// No record of a different name scores within the closed score interval
/// spanned by two same-named records. Under this separation the same-named
/// records form one contiguous block once sorted by score, which is what
/// adjacent deduplication relies on.
pub open spec fn score_separated(s: Seq<PackageResult>) -> bool {
    forall|i: int, j: int, k: int|
        #![trigger s[i], s[j], s[k]]
        0 <= i < s.len() && 0 <= j < s.len() && 0 <= k < s.len() && s[i].name@ == s[j].name@
            && s[k].name@ != s[i].name@ ==> !(s[j].score <= s[k].score && s[k].score
            <= s[i].score)
}

/// Between two same-named records of the sequence, every record carries
/// that same name: same-named records form adjacent runs.
#[verifier::opaque]
spec fn name_contiguous(t: Seq<PackageResult>) -> bool {
    forall|p: int, m: int, q: int|
        #![trigger t[p], t[m], t[q]]
        0 <= p < m < q < t.len() && t[p].name@ == t[q].name@ ==> t[m].name@ == t[p].name@
}

proof fn lemma_dedup_shape(t: Seq<PackageResult>, n: int)
    requires
        0 <= n <= t.len(),
    ensures
        ({
            let d = dedup_adjacent(t.take(n));
            &&& d.len() == 0 <==> n == 0
            &&& n > 0 ==> d.last().name@ == t[n - 1].name@
        }),
    decreases n,
{
    if n > 0 {
        lemma_dedup_shape(t, n - 1);
        let x = t[n - 1];
        assert(t.take(n - 1).push(x) =~= t.take(n));
        if n == 1 {
            assert(t.take(1).first() == t[0]);
            assert(t.take(1).drop_first() =~= Seq::<PackageResult>::empty());
            assert(dedup_keep(Seq::<PackageResult>::empty(), t[0].name@) == Seq::<
                PackageResult,
            >::empty());
            assert(dedup_adjacent(t.take(1)) =~= seq![t[0]]);
        } else {
            lemma_dedup_adjacent_push(t.take(n - 1), x);
            assert(t.take(n - 1).last() == t[n - 2]);
            if x.name@ == t[n - 2].name@ {
                assert(dedup_adjacent(t.take(n)) =~= dedup_adjacent(t.take(n - 1)));
            } else {
                assert(dedup_adjacent(t.take(n)) =~= dedup_adjacent(t.take(n - 1)).push(x));
            }
        }
    }
}

proof fn lemma_dedup_membership(t: Seq<PackageResult>, n: int)
    requires
        0 <= n <= t.len(),
    ensures
        forall|p: int|
            #![trigger dedup_adjacent(t.take(n))[p]]
            0 <= p < dedup_adjacent(t.take(n)).len() ==> exists|m: int|
                0 <= m < n && #[trigger] t[m] == dedup_adjacent(t.take(n))[p],
    decreases n,
{
    if n > 0 {
        lemma_dedup_membership(t, n - 1);
        let d0 = dedup_adjacent(t.take(n - 1));
        let d = dedup_adjacent(t.take(n));
        let x = t[n - 1];
        assert(t.take(n - 1).push(x) =~= t.take(n));
        if n == 1 {
            assert(t.take(1).first() == t[0]);
            assert(t.take(1).drop_first() =~= Seq::<PackageResult>::empty());
            assert(dedup_keep(Seq::<PackageResult>::empty(), t[0].name@) == Seq::<
                PackageResult,
            >::empty());
            assert(d =~= seq![t[0]]);
            assert forall|p: int| #![trigger d[p]] 0 <= p < d.len() implies exists|m: int|
                0 <= m < 1 && #[trigger] t[m] == d[p] by {
                assert(t[0] == d[p]);
            }
        } else {
            lemma_dedup_adjacent_push(t.take(n - 1), x);
            assert(t.take(n - 1).last() == t[n - 2]);
            if x.name@ == t[n - 2].name@ {
                assert(d =~= d0);
                assert forall|p: int| #![trigger d[p]] 0 <= p < d.len() implies exists|m: int|
                    0 <= m < n && #[trigger] t[m] == d[p] by {
                    let mp = choose|mp: int| 0 <= mp < n - 1 && #[trigger] t[mp] == d0[p];
                    assert(t[mp] == d[p]);
                }
            } else {
                assert(d =~= d0.push(x));
                assert forall|p: int| #![trigger d[p]] 0 <= p < d.len() implies exists|m: int|
                    0 <= m < n && #[trigger] t[m] == d[p] by {
                    if p == d.len() - 1 {
                        assert(t[n - 1] == d[p]);
                    } else {
                        let mp = choose|mp: int| 0 <= mp < n - 1 && #[trigger] t[mp] == d0[p];
                        assert(t[mp] == d[p]);
                    }
                }
            }
        }
    }
}

proof fn lemma_dedup_distinct(t: Seq<PackageResult>, n: int)
    requires
        name_contiguous(t),
        0 <= n <= t.len(),
    ensures
        forall|p: int, q: int|
            #![trigger dedup_adjacent(t.take(n))[p], dedup_adjacent(t.take(n))[q]]
            0 <= p < q < dedup_adjacent(t.take(n)).len() ==> dedup_adjacent(t.take(n))[p].name@
                != dedup_adjacent(t.take(n))[q].name@,
    decreases n,
{
    if n > 0 {
        lemma_dedup_distinct(t, n - 1);
        let d0 = dedup_adjacent(t.take(n - 1));
        let d = dedup_adjacent(t.take(n));
        let x = t[n - 1];
        assert(t.take(n - 1).push(x) =~= t.take(n));
        if n == 1 {
            assert(t.take(1).first() == t[0]);
            assert(t.take(1).drop_first() =~= Seq::<PackageResult>::empty());
            assert(dedup_keep(Seq::<PackageResult>::empty(), t[0].name@) == Seq::<
                PackageResult,
            >::empty());
            assert(d =~= seq![t[0]]);
        } else {
            lemma_dedup_adjacent_push(t.take(n - 1), x);
            assert(t.take(n - 1).last() == t[n - 2]);
            if x.name@ == t[n - 2].name@ {
                assert(d =~= d0);
            } else {
                assert(d =~= d0.push(x));
                assert forall|p: int, q: int|
                    #![trigger d[p], d[q]]
                    0 <= p < q < d.len() implies d[p].name@ != d[q].name@ by {
                    if q == d.len() - 1 {
                        assert(d[q] == x);
                        assert(forall|pp: int|
                            #![trigger d0[pp]]
                            0 <= pp < d0.len() ==> exists|m: int|
                                0 <= m < n - 1 && #[trigger] t[m] == d0[pp]) by {
                            lemma_dedup_membership(t, n - 1);
                        }
                        let mp = choose|mp: int| 0 <= mp < n - 1 && #[trigger] t[mp] == d0[p];
                        if t[mp].name@ == x.name@ {
                            reveal(name_contiguous);
                            if mp < n - 2 {
                                assert(t[n - 2].name@ == t[mp].name@);
                            }
                            assert(false);
                        }
                    } else {
                        assert(d0[p].name@ != d0[q].name@);
                    }
                }
            }
        }
    }
}

#[verifier::rlimit(100)]
#[verifier::spinoff_prover]
proof fn lemma_dedup_scoremax(t: Seq<PackageResult>, n: int)
    requires
        sorted_desc(t),
        name_contiguous(t),
        0 <= n <= t.len(),
    ensures
        forall|p: int, m: int|
            #![trigger dedup_adjacent(t.take(n))[p], t[m]]
            0 <= p < dedup_adjacent(t.take(n)).len() && 0 <= m < n && dedup_adjacent(
                t.take(n),
            )[p].name@ == t[m].name@ ==> dedup_adjacent(t.take(n))[p].score >= t[m].score,
    decreases n,
{
    if n > 0 {
        lemma_dedup_scoremax(t, n - 1);
        let d0 = dedup_adjacent(t.take(n - 1));
        let d = dedup_adjacent(t.take(n));
        let x = t[n - 1];
        assert(t.take(n - 1).push(x) =~= t.take(n));
        if n == 1 {
            assert(t.take(1).first() == t[0]);
            assert(t.take(1).drop_first() =~= Seq::<PackageResult>::empty());
            assert(dedup_keep(Seq::<PackageResult>::empty(), t[0].name@) == Seq::<
                PackageResult,
            >::empty());
            assert(d =~= seq![t[0]]);
        } else {
            lemma_dedup_adjacent_push(t.take(n - 1), x);
            assert(t.take(n - 1).last() == t[n - 2]);
            assert(forall|pp: int|
                #![trigger d0[pp]]
                0 <= pp < d0.len() ==> exists|m: int| 0 <= m < n - 1 && #[trigger] t[m]
                    == d0[pp]) by {
                lemma_dedup_membership(t, n - 1);
            }
            if x.name@ == t[n - 2].name@ {
                assert(d =~= d0);
                assert forall|p: int, m: int|
                    #![trigger d[p], t[m]]
                    0 <= p < d.len() && 0 <= m < n && d[p].name@ == t[m].name@ implies d[p].score
                    >= t[m].score by {
                    if m == n - 1 {
                        let mp = choose|mp: int| 0 <= mp < n - 1 && #[trigger] t[mp] == d0[p];
                        assert(t[mp].score >= t[n - 1].score);
                    }
                }
            } else {
                assert(d =~= d0.push(x));
                assert forall|p: int, m: int|
                    #![trigger d[p], t[m]]
                    0 <= p < d.len() && 0 <= m < n && d[p].name@ == t[m].name@ implies d[p].score
                    >= t[m].score by {
                    if m == n - 1 {
                        if p < d.len() - 1 {
                            reveal(name_contiguous);
                            let mp = choose|mp: int| 0 <= mp < n - 1 && #[trigger] t[mp] == d0[p];
                            if t[mp].name@ == x.name@ && mp < n - 2 {
                                assert(t[n - 2].name@ == t[mp].name@);
                            }
                            assert(false);
                        }
                    } else {
                        if p == d.len() - 1 {
                            reveal(name_contiguous);
                            if m < n - 2 {
                                assert(t[n - 2].name@ == t[m].name@);
                            }
                            assert(false);
                        } else {
                            assert(d0[p].score >= t[m].score);
                        }
                    }
                }
            }
        }
    }
}

proof fn lemma_dedup_cover(t: Seq<PackageResult>, n: int)
    requires
        0 <= n <= t.len(),
    ensures
        forall|m: int|
            #![trigger t[m]]
            0 <= m < n ==> exists|p: int|
                0 <= p < dedup_adjacent(t.take(n)).len() && #[trigger] dedup_adjacent(
                    t.take(n),
                )[p].name@ == t[m].name@,
    decreases n,
{
    if n > 0 {
        lemma_dedup_cover(t, n - 1);
        let d0 = dedup_adjacent(t.take(n - 1));
        let d = dedup_adjacent(t.take(n));
        let x = t[n - 1];
        assert(t.take(n - 1).push(x) =~= t.take(n));
        if n == 1 {
            assert(t.take(1).first() == t[0]);
            assert(t.take(1).drop_first() =~= Seq::<PackageResult>::empty());
            assert(dedup_keep(Seq::<PackageResult>::empty(), t[0].name@) == Seq::<
                PackageResult,
            >::empty());
            assert(d =~= seq![t[0]]);
            assert forall|m: int| #![trigger t[m]] 0 <= m < 1 implies exists|p: int|
                0 <= p < d.len() && #[trigger] d[p].name@ == t[m].name@ by {
                assert(d[0].name@ == t[0].name@);
            }
        } else {
            lemma_dedup_adjacent_push(t.take(n - 1), x);
            assert(t.take(n - 1).last() == t[n - 2]);
            assert(d0.len() > 0 && d0.last().name@ == t[n - 2].name@) by {
                lemma_dedup_shape(t, n - 1);
            }
            if x.name@ == t[n - 2].name@ {
                assert(d =~= d0);
                assert forall|m: int| #![trigger t[m]] 0 <= m < n implies exists|p: int|
                    0 <= p < d.len() && #[trigger] d[p].name@ == t[m].name@ by {
                    if m == n - 1 {
                        assert(d[d.len() - 1].name@ == t[n - 2].name@);
                        assert(d[d.len() - 1].name@ == t[n - 1].name@);
                    } else {
                        let p0 = choose|p0: int|
                            0 <= p0 < d0.len() && #[trigger] d0[p0].name@ == t[m].name@;
                        assert(d[p0].name@ == t[m].name@);
                    }
                }
            } else {
                assert(d =~= d0.push(x));
                assert forall|m: int| #![trigger t[m]] 0 <= m < n implies exists|p: int|
                    0 <= p < d.len() && #[trigger] d[p].name@ == t[m].name@ by {
                    if m == n - 1 {
                        assert(d[d.len() - 1].name@ == t[n - 1].name@);
                    } else {
                        let p0 = choose|p0: int|
                            0 <= p0 < d0.len() && #[trigger] d0[p0].name@ == t[m].name@;
                        assert(d[p0].name@ == t[m].name@);
                    }
                }
            }
        }
    }
}

/// Deduplication keeps one record per distinct name, and for each name the
/// kept record scores at least as high as every same-named record of the
/// input — provided no record of a different name scores within the closed
/// score interval spanned by two same-named records, so that sorting makes
/// each name's records adjacent.
#[verifier::rlimit(100)]
#[verifier::spinoff_prover]
pub proof fn lemma_deduplicate_unique_max(s: Seq<PackageResult>)
    requires
        score_separated(s),
    ensures
        ({
            let d = dedup_adjacent(sort_by_score_desc(s));
            &&& forall|p: int, q: int|
                #![trigger d[p], d[q]]
                0 <= p < q < d.len() ==> d[p].name@ != d[q].name@
            &&& forall|p: int| 0 <= p < d.len() ==> s.contains(#[trigger] d[p])
            &&& forall|p: int, k: int|
                #![trigger d[p], s[k]]
                0 <= p < d.len() && 0 <= k < s.len() && d[p].name@ == s[k].name@ ==> d[p].score
                    >= s[k].score
            &&& forall|k: int|
                #![trigger s[k]]
                0 <= k < s.len() ==> exists|p: int|
                    0 <= p < d.len() && #[trigger] d[p].name@ == s[k].name@
        }),
{
    broadcast use vstd::seq_lib::group_to_multiset_ensures;

    let t = sort_by_score_desc(s);
    let d = dedup_adjacent(t);
    lemma_sort_sorted(s);
    lemma_sort_permutes(s);
    assert(t.take(t.len() as int) =~= t);
    assert(name_contiguous(t)) by {
        reveal(name_contiguous);
        reveal(score_separated);
        assert forall|p: int, m: int, q: int|
            #![trigger t[p], t[m], t[q]]
            0 <= p < m < q < t.len() && t[p].name@ == t[q].name@ implies t[m].name@
            == t[p].name@ by {
            if t[m].name@ != t[p].name@ {
                assert(t.contains(t[p]) && t.contains(t[q]) && t.contains(t[m]));
                assert(s.contains(t[p])) by {
                    assert(t.to_multiset().count(t[p]) > 0);
                }
                assert(s.contains(t[q])) by {
                    assert(t.to_multiset().count(t[q]) > 0);
                }
                assert(s.contains(t[m])) by {
                    assert(t.to_multiset().count(t[m]) > 0);
                }
                let i = choose|i: int| 0 <= i < s.len() && s[i] == t[p];
                let j = choose|j: int| 0 <= j < s.len() && s[j] == t[q];
                let k = choose|k: int| 0 <= k < s.len() && s[k] == t[m];
                assert(t[p].score >= t[m].score && t[m].score >= t[q].score);
                assert(!(s[j].score <= s[k].score && s[k].score <= s[i].score));
                assert(false);
            }
        }
    }
    assert(forall|p: int, q: int|
        #![trigger d[p], d[q]]
        0 <= p < q < d.len() ==> d[p].name@ != d[q].name@) by {
        lemma_dedup_distinct(t, t.len() as int);
    }
    assert forall|p: int| 0 <= p < d.len() implies s.contains(#[trigger] d[p]) by {
        assert(exists|m: int| 0 <= m < t.len() && #[trigger] t[m] == d[p]) by {
            lemma_dedup_membership(t, t.len() as int);
        }
        let m = choose|m: int| 0 <= m < t.len() && #[trigger] t[m] == d[p];
        assert(t.contains(d[p]));
        assert(t.to_multiset().count(d[p]) > 0);
    }
    assert forall|p: int, k: int|
        #![trigger d[p], s[k]]
        0 <= p < d.len() && 0 <= k < s.len() && d[p].name@ == s[k].name@ implies d[p].score
        >= s[k].score by {
        assert(s.contains(s[k]));
        assert(t.contains(s[k])) by {
            assert(s.to_multiset().count(s[k]) > 0);
        }
        let m = choose|m: int| 0 <= m < t.len() && t[m] == s[k];
        assert(d[p].score >= t[m].score) by {
            lemma_dedup_scoremax(t, t.len() as int);
        }
    }
    assert forall|k: int| #![trigger s[k]] 0 <= k < s.len() implies exists|p: int|
        0 <= p < d.len() && #[trigger] d[p].name@ == s[k].name@ by {
        assert(s.contains(s[k]));
        assert(t.contains(s[k])) by {
            assert(s.to_multiset().count(s[k]) > 0);
        }
        let m = choose|m: int| 0 <= m < t.len() && t[m] == s[k];
        assert(exists|p: int|
            0 <= p < d.len() && #[trigger] d[p].name@ == t[m].name@) by {
            lemma_dedup_cover(t, t.len() as int);
        }
        let p = choose|p: int| 0 <= p < d.len() && #[trigger] d[p].name@ == t[m].name@;
        assert(d[p].name@ == s[k].name@);
    }
}

/// Exact case-insensitive name matches outrank prefix matches: for two
/// records alike in source, version presence and description presence, an
/// exact match scores strictly above a prefix (non-exact) match.
pub proof fn lemma_exact_outranks_prefix(query: Seq<char>, a: PackageResult, b: PackageResult)
    requires
        a.source@ == b.source@,
        a.version is Some <==> b.version is Some,
        a.description is Some <==> b.description is Some,
        lower(a.name@) == lower(query),
        lower(b.name@) != lower(query),
    ensures
        result_score(query, a) > result_score(query, b),
{
}

/// Prefix matches outrank substring matches: for two records alike in
/// source, version presence and description presence, a prefix (non-exact)
/// match scores strictly above a mere substring (non-prefix) match.
pub proof fn lemma_prefix_outranks_substring(query: Seq<char>, a: PackageResult, b: PackageResult)
    requires
        a.source@ == b.source@,
        a.version is Some <==> b.version is Some,
        a.description is Some <==> b.description is Some,
        lower(a.name@) != lower(query),
        is_prefix_of(lower(query), lower(a.name@)),
        !is_prefix_of(lower(query), lower(b.name@)),
        lower(b.name@) != lower(query),
    ensures
        result_score(query, a) > result_score(query, b),
{
}

/// The fixed backend priority: a record from `apt` outranks an
/// otherwise-identical record from `pip`, whatever the query.
pub proof fn lemma_apt_outranks_pip(query: Seq<char>, a: PackageResult, b: PackageResult)
    requires
        a.name@ == b.name@,
        a.version is Some <==> b.version is Some,
        a.description is Some <==> b.description is Some,
        a.source@ == "apt"@,
        b.source@ == "pip"@,
    ensures
        result_score(query, a) >= result_score(query, b) + 25,
{
    reveal_strlit("apt");
    reveal_strlit("winget");
    reveal_strlit("brew");
    reveal_strlit("snap");
    reveal_strlit("npm");
    reveal_strlit("pip");
    assert("pip"@ != "apt"@) by {
        assert("pip"@[0] == 'p' && "apt"@[0] == 'a');
    }
    assert("pip"@ != "winget"@) by {
        assert("pip"@.len() == 3 && "winget"@.len() == 6);
    }
    assert("pip"@ != "brew"@) by {
        assert("pip"@.len() == 3 && "brew"@.len() == 4);
    }
    assert("pip"@ != "snap"@) by {
        assert("pip"@.len() == 3 && "snap"@.len() == 4);
    }
    assert("pip"@ != "npm"@) by {
        assert("pip"@[0] == 'p' && "npm"@[0] == 'n');
    }
}

} // verus!
