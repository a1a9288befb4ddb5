//! The ranked search query. Matching is case-insensitive; a document's
//! score for a query is the sum of the weights of its kept terms that match
//! a query term. Within one document every kept weight has the document's
//! token count as denominator, so the sum is the exact fraction
//! `matched counts / total`, and documents are ordered by that fraction,
//! compared by cross-multiplication — no floating point is involved.
//!
//! Ranking reads only the per-document importance rows; the corpus-wide
//! keyword table is never consulted.

use vstd::prelude::*;

use vstd::string::StringExecFns;

use crate::counts::TermCount;
use crate::counts::TermCountV;
use crate::features::DocFeatures;
use crate::features::DocFeaturesV;
use crate::features::doc_wf;
use crate::features::sum_counts;
use crate::features::lemma_sum_counts_push;
use crate::features::lemma_sum_counts_take_le;
use crate::text::contains_string;
use crate::text::lower_ascii;
use crate::text::spec_lower;

verus! {

/// Whether a kept word matches the query: its lowercased form equals some
/// lowercased query term.
pub open spec fn term_matches(word: Seq<char>, q: Seq<Seq<char>>) -> bool {
    q.map_values(|t: Seq<char>| spec_lower(t)).contains(spec_lower(word))
}

/// The summed counts of the kept terms that match the query.
pub open spec fn matched_sum(terms: Seq<TermCountV>, q: Seq<Seq<char>>) -> nat
    decreases terms.len(),
{
    if terms.len() == 0 {
        0
    } else {
        matched_sum(terms.drop_last(), q) + if term_matches(terms.last().word, q) {
            terms.last().count
        } else {
            0nat
        }
    }
}

/// The matched sum never exceeds the total count sum.
pub proof fn lemma_matched_sum_le(terms: Seq<TermCountV>, q: Seq<Seq<char>>)
    ensures
        matched_sum(terms, q) <= sum_counts(terms),
    decreases terms.len(),
{
    if terms.len() > 0 {
        lemma_matched_sum_le(terms.drop_last(), q);
    }
}

/// A positive matched sum names a kept matching term.
pub proof fn lemma_matched_sum_positive(terms: Seq<TermCountV>, q: Seq<Seq<char>>)
    requires
        matched_sum(terms, q) > 0,
    ensures
        exists|t: int| 0 <= t < terms.len() && term_matches((#[trigger] terms[t]).word, q),
    decreases terms.len(),
{
    if terms.len() > 0 {
        if term_matches(terms.last().word, q) {
            assert(terms[terms.len() - 1] == terms.last());
        } else {
            lemma_matched_sum_positive(terms.drop_last(), q);
            let t = choose|t: int|
                0 <= t < terms.drop_last().len() && term_matches(
                    (#[trigger] terms.drop_last()[t]).word,
                    q,
                );
            assert(terms[t] == terms.drop_last()[t]);
        }
    }
}

/// One scored document at the specification level: its key, its matched
/// count sum and its weight denominator.
pub struct ScoreV {
    pub key: Seq<char>,
    pub num: nat,
    pub den: nat,
}

/// One scored document: the key `domain + path`, the summed matched counts
/// and the document's token count.
pub struct Score {
    pub key: String,
    pub num: u64,
    pub den: u64,
}

impl View for Score {
    type V = ScoreV;

    open spec fn view(&self) -> ScoreV {
        ScoreV { key: self.key@, num: self.num as nat, den: self.den as nat }
    }
}

impl DeepView for Score {
    type V = ScoreV;

    open spec fn deep_view(&self) -> ScoreV {
        self@
    }
}

/// `n1 / d1 >= n2 / d2`, by cross-multiplication.
pub open spec fn score_ge(n1: nat, d1: nat, n2: nat, d2: nat) -> bool {
    n1 * d2 >= n2 * d1
}

/// Cross-multiplied comparison is transitive once the middle denominator is
/// positive.
proof fn lemma_score_ge_trans(n1: nat, d1: nat, n2: nat, d2: nat, n3: nat, d3: nat)
    requires
        d2 > 0,
        score_ge(n1, d1, n2, d2),
        score_ge(n2, d2, n3, d3),
    ensures
        score_ge(n1, d1, n3, d3),
{
    assert(n1 * d3 >= n3 * d1) by (nonlinear_arith)
        requires
            d2 > 0,
            n1 * d2 >= n2 * d1,
            n2 * d3 >= n3 * d2,
    ;
}

/// The score entry of one document for a query.
pub open spec fn doc_entry(d: DocFeaturesV, q: Seq<Seq<char>>) -> ScoreV {
    ScoreV { key: d.domain + d.path, num: matched_sum(d.terms, q), den: d.total }
}

/// The scored documents of a query: one entry per document with at least
/// one matched kept term, in document order.
pub open spec fn spec_scores(docs: Seq<DocFeaturesV>, q: Seq<Seq<char>>) -> Seq<ScoreV>
    decreases docs.len(),
{
    if docs.len() == 0 {
        Seq::empty()
    } else {
        let rest = spec_scores(docs.drop_last(), q);
        let e = doc_entry(docs.last(), q);
        if e.num > 0 {
            rest.push(e)
        } else {
            rest
        }
    }
}

/// Every scored entry comes from a document with a positive matched sum.
proof fn lemma_scores_from_docs(docs: Seq<DocFeaturesV>, q: Seq<Seq<char>>, s: int)
    requires
        0 <= s < spec_scores(docs, q).len(),
    ensures
        exists|d: int|
            0 <= d < docs.len() && doc_entry(#[trigger] docs[d], q) == spec_scores(docs, q)[s]
                && matched_sum(docs[d].terms, q) > 0,
    decreases docs.len(),
{
    let rest = spec_scores(docs.drop_last(), q);
    let e = doc_entry(docs.last(), q);
    if e.num > 0 && s == rest.len() {
        assert(docs[docs.len() - 1] == docs.last());
        assert(spec_scores(docs, q)[s] == e);
    } else {
        lemma_scores_from_docs(docs.drop_last(), q, s);
        let d = choose|d: int|
            0 <= d < docs.drop_last().len() && doc_entry(#[trigger] docs.drop_last()[d], q)
                == spec_scores(docs.drop_last(), q)[s] && matched_sum(
                docs.drop_last()[d].terms,
                q,
            ) > 0;
        assert(docs[d] == docs.drop_last()[d]);
    }
}

/// The first index holding a maximal score.
pub open spec fn spec_best_idx(s: Seq<ScoreV>) -> int
    decreases s.len(),
{
    if s.len() <= 1 {
        0
    } else {
        let r = 1 + spec_best_idx(s.drop_first());
        if 0 <= r < s.len() && score_ge(s[0].num, s[0].den, s[r].num, s[r].den) {
            0
        } else {
            r
        }
    }
}

/// `spec_best_idx` is in bounds, scores at least every entry, and strictly
/// outscores every earlier entry.
proof fn lemma_best_idx_props(s: Seq<ScoreV>)
    requires
        s.len() > 0,
        forall|j: int| 0 <= j < s.len() ==> (#[trigger] s[j]).den > 0,
    ensures
        0 <= spec_best_idx(s) < s.len(),
        forall|j: int|
            0 <= j < s.len() ==> score_ge(
                s[spec_best_idx(s)].num,
                s[spec_best_idx(s)].den,
                (#[trigger] s[j]).num,
                s[j].den,
            ),
        forall|j: int|
            0 <= j < spec_best_idx(s) ==> !score_ge(
                (#[trigger] s[j]).num,
                s[j].den,
                s[spec_best_idx(s)].num,
                s[spec_best_idx(s)].den,
            ),
    decreases s.len(),
{
    if s.len() > 1 {
        assert(forall|j: int| 1 <= j < s.len() ==> s.drop_first()[j - 1] == #[trigger] s[j]);
        lemma_best_idx_props(s.drop_first());
        let r = 1 + spec_best_idx(s.drop_first());
        assert(s.drop_first()[r - 1] == s[r]);
        if score_ge(s[0].num, s[0].den, s[r].num, s[r].den) {
            assert forall|j: int| 0 <= j < s.len() implies score_ge(
                s[0].num,
                s[0].den,
                (#[trigger] s[j]).num,
                s[j].den,
            ) by {
                if j >= 1 {
                    assert(score_ge(s[r].num, s[r].den, s[j].num, s[j].den));
                    lemma_score_ge_trans(s[0].num, s[0].den, s[r].num, s[r].den, s[j].num, s[j].den);
                }
            }
        }
    }
}

/// The best index is in bounds, whatever the scores hold.
proof fn lemma_best_idx_in_bounds(s: Seq<ScoreV>)
    requires
        s.len() > 0,
    ensures
        0 <= spec_best_idx(s) < s.len(),
    decreases s.len(),
{
    if s.len() > 1 {
        lemma_best_idx_in_bounds(s.drop_first());
    }
}

/// The first maximum is unique: any index that scores at least everything
/// and strictly outscores everything before it is `spec_best_idx`.
proof fn lemma_first_max_unique(s: Seq<ScoreV>, m: int)
    requires
        forall|j: int| 0 <= j < s.len() ==> (#[trigger] s[j]).den > 0,
        0 <= m < s.len(),
        forall|j: int|
            0 <= j < s.len() ==> score_ge(s[m].num, s[m].den, (#[trigger] s[j]).num, s[j].den),
        forall|j: int|
            0 <= j < m ==> !score_ge((#[trigger] s[j]).num, s[j].den, s[m].num, s[m].den),
    ensures
        m == spec_best_idx(s),
{
    lemma_best_idx_props(s);
    let b = spec_best_idx(s);
    if m < b {
        assert(score_ge(s[m].num, s[m].den, s[b].num, s[b].den));
    } else if b < m {
        assert(score_ge(s[b].num, s[b].den, s[m].num, s[m].den));
    }
}

/// The scored documents ranked best-first; equal scores keep document
/// order.
pub open spec fn spec_rank(s: Seq<ScoreV>) -> Seq<ScoreV>
    decreases s.len(),
{
    if s.len() == 0 {
        Seq::empty()
    } else {
        let b = spec_best_idx(s);
        if 0 <= b < s.len() {
            seq![s[b]] + spec_rank(s.remove(b))
        } else {
            Seq::empty()
        }
    }
}

/// Ranking keeps length and membership.
proof fn lemma_rank_elements(s: Seq<ScoreV>)
    ensures
        spec_rank(s).len() == s.len(),
        forall|k: int| 0 <= k < s.len() ==> s.contains(#[trigger] spec_rank(s)[k]),
    decreases s.len(),
{
    if s.len() > 0 {
        lemma_best_idx_in_bounds(s);
        let b = spec_best_idx(s);
        let rest = s.remove(b);
        lemma_rank_elements(rest);
        assert forall|k: int| 0 <= k < s.len() implies s.contains(#[trigger] spec_rank(s)[k]) by {
            if k == 0 {
                assert(spec_rank(s)[0] == s[b]);
            } else {
                assert(spec_rank(s)[k] == spec_rank(rest)[k - 1]);
                assert(rest.contains(spec_rank(rest)[k - 1]));
                let i = choose|i: int| 0 <= i < rest.len() && rest[i] == spec_rank(rest)[k - 1];
                if i < b {
                    assert(s[i] == rest[i]);
                } else {
                    assert(s[i + 1] == rest[i]);
                }
            }
        }
    }
}

/// The ranking is ordered: every entry scores at least each later one.
pub proof fn lemma_rank_sorted(s: Seq<ScoreV>, i: int, j: int)
    requires
        forall|k: int| 0 <= k < s.len() ==> (#[trigger] s[k]).den > 0,
        0 <= i < j < spec_rank(s).len(),
    ensures
        score_ge(
            spec_rank(s)[i].num,
            spec_rank(s)[i].den,
            spec_rank(s)[j].num,
            spec_rank(s)[j].den,
        ),
    decreases s.len(),
{
    lemma_rank_elements(s);
    lemma_best_idx_props(s);
    let b = spec_best_idx(s);
    let rest = s.remove(b);
    assert forall|k: int| 0 <= k < rest.len() implies (#[trigger] rest[k]).den > 0 by {
        if k < b {
            assert(rest[k] == s[k]);
        } else {
            assert(rest[k] == s[k + 1]);
        }
    }
    if i == 0 {
        assert(spec_rank(s)[0] == s[b]);
        assert(spec_rank(s)[j] == spec_rank(rest)[j - 1]);
        lemma_rank_elements(rest);
        assert(rest.contains(spec_rank(rest)[j - 1]));
        let k = choose|k: int| 0 <= k < rest.len() && rest[k] == spec_rank(rest)[j - 1];
        if k < b {
            assert(s[k] == rest[k]);
        } else {
            assert(s[k + 1] == rest[k]);
        }
    } else {
        assert(spec_rank(s)[i] == spec_rank(rest)[i - 1]);
        assert(spec_rank(s)[j] == spec_rank(rest)[j - 1]);
        lemma_rank_sorted(rest, i - 1, j - 1);
    }
}

/// The key column of a ranking.
pub open spec fn score_keys(s: Seq<ScoreV>) -> Seq<Seq<char>> {
    s.map_values(|e: ScoreV| e.key)
}

/// What the search query returns: the scored documents ranked best-first,
/// as `domain + path` keys, at most two hundred of them.
pub open spec fn spec_search(docs: Seq<DocFeaturesV>, q: Seq<Seq<char>>) -> Seq<Seq<char>> {
    let keys = score_keys(spec_rank(spec_scores(docs, q)));
    if keys.len() <= 200 {
        keys
    } else {
        keys.take(200)
    }
}

/// The summed counts of the kept terms of one document that match the
/// lowered query.
fn matched_count_sum(d: &DocFeatures, lowered: &Vec<String>, Ghost(q): Ghost<Seq<Seq<char>>>) -> (num:
    u64)
    requires
        lowered.deep_view() == q.map_values(|t: Seq<char>| spec_lower(t)),
        doc_wf(d@),
    ensures
        num == matched_sum(d@.terms, q),
{
    let ghost terms = d@.terms;
    let n = d.terms.len();
    let mut num: u64 = 0;
    let mut i: usize = 0;
    proof {
        assert(terms.take(0) =~= Seq::<TermCountV>::empty());
    }
    while i < n
        invariant
            i <= n,
            n == d.terms@.len(),
            terms == d@.terms,
            doc_wf(d@),
            lowered.deep_view() == q.map_values(|t: Seq<char>| spec_lower(t)),
            num == matched_sum(terms.take(i as int), q),
            num <= sum_counts(terms.take(i as int)),
        decreases n - i,
    {
        proof {
            assert(terms.take(i + 1).drop_last() =~= terms.take(i as int));
            assert(terms.take(i + 1).last() == terms[i as int]);
            assert(terms[i as int] == d.terms@[i as int]@);
            lemma_sum_counts_take_le(terms, i + 1);
            assert(sum_counts(terms) <= d@.total);
        }
        let lw = lower_ascii(d.terms[i].word.as_str());
        if contains_string(lowered, &lw) {
            proof {
                assert(term_matches(terms[i as int].word, q));
            }
            num = num + d.terms[i].count;
        } else {
            proof {
                assert(!term_matches(terms[i as int].word, q));
            }
        }
        i += 1;
    }
    proof {
        assert(terms.take(n as int) =~= terms);
    }
    num
}

/// The product of two counter words, in double-width arithmetic.
fn mul_wide(x: u64, y: u64) -> (r: u128)
    ensures
        r == (x as nat) * (y as nat),
{
    proof {
        assert((x as int) * (y as int) <= u128::MAX) by (nonlinear_arith)
            requires
                0 <= x <= u64::MAX,
                0 <= y <= u64::MAX,
        ;
    }
    (x as u128) * (y as u128)
}

/// Whether the first score is at least the second, by cross-multiplication
/// in double-width arithmetic.
fn score_at_least(a: &Score, b: &Score) -> (r: bool)
    ensures
        r == score_ge(a@.num, a@.den, b@.num, b@.den),
{
    mul_wide(a.num, b.den) >= mul_wide(b.num, a.den)
}

/// The first index holding a maximal score.
fn best_score_index(v: &Vec<Score>) -> (m: usize)
    requires
        v@.len() > 0,
        forall|j: int| 0 <= j < v@.len() ==> (#[trigger] v.deep_view()[j]).den > 0,
    ensures
        m < v@.len(),
        forall|j: int|
            0 <= j < v@.len() ==> score_ge(
                v.deep_view()[m as int].num,
                v.deep_view()[m as int].den,
                (#[trigger] v.deep_view()[j]).num,
                v.deep_view()[j].den,
            ),
        forall|j: int|
            0 <= j < m ==> !score_ge(
                (#[trigger] v.deep_view()[j]).num,
                v.deep_view()[j].den,
                v.deep_view()[m as int].num,
                v.deep_view()[m as int].den,
            ),
{
    let n = v.len();
    let mut m: usize = 0;
    let mut j: usize = 1;
    while j < n
        invariant
            m < j <= n,
            n == v@.len(),
            forall|k: int| 0 <= k < n ==> (#[trigger] v.deep_view()[k]).den > 0,
            forall|k: int|
                0 <= k < j ==> score_ge(
                    v.deep_view()[m as int].num,
                    v.deep_view()[m as int].den,
                    (#[trigger] v.deep_view()[k]).num,
                    v.deep_view()[k].den,
                ),
            forall|k: int|
                0 <= k < m ==> !score_ge(
                    (#[trigger] v.deep_view()[k]).num,
                    v.deep_view()[k].den,
                    v.deep_view()[m as int].num,
                    v.deep_view()[m as int].den,
                ),
        decreases n - j,
    {
        proof {
            assert(v.deep_view()[m as int] == v@[m as int]@);
            assert(v.deep_view()[j as int] == v@[j as int]@);
        }
        if !score_at_least(&v[m], &v[j]) {
            proof {
                assert forall|k: int| 0 <= k < j implies !score_ge(
                    (#[trigger] v.deep_view()[k]).num,
                    v.deep_view()[k].den,
                    v.deep_view()[j as int].num,
                    v.deep_view()[j as int].den,
                ) by {
                    if score_ge(
                        v.deep_view()[k].num,
                        v.deep_view()[k].den,
                        v.deep_view()[j as int].num,
                        v.deep_view()[j as int].den,
                    ) {
                        lemma_score_ge_trans(
                            v.deep_view()[m as int].num,
                            v.deep_view()[m as int].den,
                            v.deep_view()[k].num,
                            v.deep_view()[k].den,
                            v.deep_view()[j as int].num,
                            v.deep_view()[j as int].den,
                        );
                    }
                }
            }
            m = j;
        }
        j += 1;
    }
    m
}

/// Rank scored documents best-first by repeatedly extracting the first
/// maximal entry.
fn rank_scores(scores: Vec<Score>) -> (r: Vec<Score>)
    requires
        forall|j: int| 0 <= j < scores@.len() ==> (#[trigger] scores.deep_view()[j]).den > 0,
    ensures
        r.deep_view() == spec_rank(scores.deep_view()),
{
    let ghost orig = scores.deep_view();
    let mut work = scores;
    let mut out: Vec<Score> = Vec::new();
    proof {
        assert(out.deep_view() =~= Seq::<ScoreV>::empty());
        assert(out.deep_view() + spec_rank(work.deep_view()) =~= spec_rank(orig));
    }
    while work.len() > 0
        invariant
            forall|j: int| 0 <= j < work@.len() ==> (#[trigger] work.deep_view()[j]).den > 0,
            out.deep_view() + spec_rank(work.deep_view()) == spec_rank(orig),
        decreases work.len(),
    {
        let ghost pre_out = out.deep_view();
        let ghost pre_work = work.deep_view();
        let m = best_score_index(&work);
        proof {
            lemma_first_max_unique(pre_work, m as int);
            assert(spec_rank(pre_work) == seq![pre_work[m as int]] + spec_rank(
                pre_work.remove(m as int),
            ));
        }
        let entry = work.remove(m);
        proof {
            assert(entry@ == pre_work[m as int]);
        }
        out.push(entry);
        proof {
            assert(out.deep_view() =~= pre_out.push(pre_work[m as int]));
            assert(work.deep_view() =~= pre_work.remove(m as int));
            assert forall|j: int| 0 <= j < work@.len() implies (
            #[trigger] work.deep_view()[j]).den > 0 by {
                if j < m {
                    assert(work.deep_view()[j] == pre_work[j]);
                } else {
                    assert(work.deep_view()[j] == pre_work[j + 1]);
                }
            }
            assert(pre_out.push(pre_work[m as int]) + spec_rank(pre_work.remove(m as int))
                =~= pre_out + (seq![pre_work[m as int]] + spec_rank(pre_work.remove(m as int))));
        }
    }
    proof {
        assert(work.deep_view() =~= Seq::<ScoreV>::empty());
        assert(out.deep_view() + spec_rank(work.deep_view()) =~= out.deep_view());
    }
    out
}

/// Answer a query against the extracted per-document features: documents
/// are scored by the summed weights of their kept terms that match a query
/// term case-insensitively, ordered best-first, and at most two hundred
/// `domain + path` keys are returned. The corpus-wide keyword table plays
/// no part.
pub fn search_keywords(features: &Vec<DocFeatures>, keywords: &Vec<String>) -> (r: Vec<String>)
    requires
        forall|i: int| 0 <= i < features@.len() ==> doc_wf((#[trigger] features@[i])@),
    ensures
        r.deep_view() == spec_search(features.deep_view(), keywords.deep_view()),
{
    broadcast use vstd::prelude::Seq::lemma_push_map_commute;

    let ghost docs = features.deep_view();
    let ghost q = keywords.deep_view();

    let nq = keywords.len();
    let mut lowered: Vec<String> = Vec::new();
    let mut i: usize = 0;
    proof {
        assert(lowered.deep_view() =~= q.take(0).map_values(|t: Seq<char>| spec_lower(t)));
    }
    while i < nq
        invariant
            i <= nq,
            nq == keywords@.len(),
            q == keywords.deep_view(),
            lowered.deep_view() == q.take(i as int).map_values(|t: Seq<char>| spec_lower(t)),
        decreases nq - i,
    {
        let ghost pre = lowered.deep_view();
        proof {
            assert(q[i as int] == keywords@[i as int]@);
        }
        let lw = lower_ascii(keywords[i].as_str());
        lowered.push(lw);
        proof {
            assert(lowered.deep_view() =~= pre.push(spec_lower(q[i as int])));
            assert(q.take(i as int).push(q[i as int]) =~= q.take(i + 1));
        }
        i += 1;
    }
    proof {
        assert(q.take(nq as int) =~= q);
    }

    let nd = features.len();
    let mut scored: Vec<Score> = Vec::new();
    let mut j: usize = 0;
    proof {
        assert(docs.take(0).len() == 0);
        assert(scored.deep_view() =~= spec_scores(docs.take(0), q));
    }
    while j < nd
        invariant
            j <= nd,
            nd == features@.len(),
            docs == features.deep_view(),
            q == keywords.deep_view(),
            lowered.deep_view() == q.map_values(|t: Seq<char>| spec_lower(t)),
            forall|k: int| 0 <= k < features@.len() ==> doc_wf((#[trigger] features@[k])@),
            forall|k: int| 0 <= k < scored@.len() ==> (#[trigger] scored.deep_view()[k]).den > 0,
            scored.deep_view() == spec_scores(docs.take(j as int), q),
        decreases nd - j,
    {
        let ghost pre = scored.deep_view();
        proof {
            assert(docs[j as int] == features@[j as int]@);
            assert(doc_wf(docs[j as int]));
        }
        let doc = &features[j];
        let num = matched_count_sum(doc, &lowered, Ghost(q));
        proof {
            assert(docs.take(j + 1).drop_last() =~= docs.take(j as int));
            assert(docs.take(j + 1).last() == docs[j as int]);
        }
        if num > 0 {
            proof {
                lemma_matched_sum_le(docs[j as int].terms, q);
                assert(docs[j as int].total > 0);
            }
            let key = doc.domain.clone().concat(doc.path.as_str());
            let entry = Score { key, num, den: doc.total };
            proof {
                assert(entry@ == doc_entry(docs[j as int], q));
            }
            scored.push(entry);
            proof {
                assert(scored.deep_view() =~= pre.push(doc_entry(docs[j as int], q)));
            }
        }
        j += 1;
    }
    proof {
        assert(docs.take(nd as int) =~= docs);
    }

    let ranked = rank_scores(scored);
    let ghost rank = spec_rank(spec_scores(docs, q));

    let nr = ranked.len();
    let mut r: Vec<String> = Vec::new();
    let mut k: usize = 0;
    proof {
        assert(r.deep_view() =~= score_keys(rank).take(0));
    }
    while k < nr && k < 200
        invariant
            k <= nr,
            k <= 200,
            nr == ranked@.len(),
            ranked.deep_view() == rank,
            r.deep_view() == score_keys(rank).take(k as int),
        decreases nr - k,
    {
        let ghost pre = r.deep_view();
        proof {
            assert(score_keys(rank)[k as int] == rank[k as int].key);
            assert(rank[k as int] == ranked@[k as int]@);
        }
        let key = ranked[k].key.clone();
        r.push(key);
        proof {
            assert(r.deep_view() =~= pre.push(rank[k as int].key));
            assert(score_keys(rank).take(k as int).push(score_keys(rank)[k as int])
                =~= score_keys(rank).take(k + 1));
        }
        k += 1;
    }
    proof {
        if nr <= 200 {
            assert(k == nr);
            assert(score_keys(rank).take(k as int) =~= score_keys(rank));
        } else {
            assert(k == 200);
        }
    }
    r
}

/// Every scored document of well-formed features has a positive weight
/// denominator.
proof fn lemma_scores_wf(docs: Seq<DocFeaturesV>, q: Seq<Seq<char>>)
    requires
        forall|k: int| 0 <= k < docs.len() ==> doc_wf(#[trigger] docs[k]),
    ensures
        forall|s: int|
            0 <= s < spec_scores(docs, q).len() ==> (#[trigger] spec_scores(docs, q)[s]).den > 0,
{
    assert forall|s: int| 0 <= s < spec_scores(docs, q).len() implies (#[trigger] spec_scores(
        docs,
        q,
    )[s]).den > 0 by {
        lemma_scores_from_docs(docs, q, s);
        let d = choose|d: int|
            0 <= d < docs.len() && doc_entry(#[trigger] docs[d], q) == spec_scores(docs, q)[s]
                && matched_sum(docs[d].terms, q) > 0;
        lemma_matched_sum_le(docs[d].terms, q);
    }
}

/// The search ranks documents by summed matched weight, heaviest first:
/// in the ranking that the returned keys are drawn from, every document
/// scores at least each one listed after it.
pub proof fn lemma_search_ordered(docs: Seq<DocFeaturesV>, q: Seq<Seq<char>>, i: int, j: int)
    requires
        forall|k: int| 0 <= k < docs.len() ==> doc_wf(#[trigger] docs[k]),
        0 <= i < j < spec_rank(spec_scores(docs, q)).len(),
    ensures
        score_ge(
            spec_rank(spec_scores(docs, q))[i].num,
            spec_rank(spec_scores(docs, q))[i].den,
            spec_rank(spec_scores(docs, q))[j].num,
            spec_rank(spec_scores(docs, q))[j].den,
        ),
{
    lemma_scores_wf(docs, q);
    lemma_rank_sorted(spec_scores(docs, q), i, j);
}

/// The search returns one key per document with a matched kept term, and
/// at most two hundred of them.
pub proof fn lemma_search_len(docs: Seq<DocFeaturesV>, q: Seq<Seq<char>>)
    ensures
        spec_search(docs, q).len() == if spec_scores(docs, q).len() <= 200 {
            spec_scores(docs, q).len()
        } else {
            200nat
        },
{
    lemma_rank_elements(spec_scores(docs, q));
}

/// One stored importance row: one kept term of one document, with the
/// exact integer pair behind its weight.
pub struct ImportanceRow {
    pub domain: String,
    pub path: String,
    pub word: String,
    pub count: u64,
    pub total: u64,
}

/// A stored importance row at the specification level.
pub struct ImportanceRowV {
    pub domain: Seq<char>,
    pub path: Seq<char>,
    pub word: Seq<char>,
    pub count: nat,
    pub total: nat,
}

impl View for ImportanceRow {
    type V = ImportanceRowV;

    open spec fn view(&self) -> ImportanceRowV {
        ImportanceRowV {
            domain: self.domain@,
            path: self.path@,
            word: self.word@,
            count: self.count as nat,
            total: self.total as nat,
        }
    }
}

impl DeepView for ImportanceRow {
    type V = ImportanceRowV;

    open spec fn deep_view(&self) -> ImportanceRowV {
        self@
    }
}

/// The first document with the given key, or the length where none has it.
pub open spec fn spec_find_doc(ds: Seq<DocFeaturesV>, domain: Seq<char>, path: Seq<char>) -> int
    decreases ds.len(),
{
    if ds.len() == 0 {
        0
    } else if ds.first().domain == domain && ds.first().path == path {
        0
    } else {
        1 + spec_find_doc(ds.drop_first(), domain, path)
    }
}

/// Where `spec_find_doc` lands and what holds there.
proof fn lemma_find_doc_props(ds: Seq<DocFeaturesV>, domain: Seq<char>, path: Seq<char>)
    ensures
        0 <= spec_find_doc(ds, domain, path) <= ds.len(),
        spec_find_doc(ds, domain, path) < ds.len() ==> ds[spec_find_doc(ds, domain, path)].domain
            == domain && ds[spec_find_doc(ds, domain, path)].path == path,
        forall|k: int|
            0 <= k < spec_find_doc(ds, domain, path) ==> !((#[trigger] ds[k]).domain == domain
                && ds[k].path == path),
    decreases ds.len(),
{
    if ds.len() > 0 {
        if !(ds.first().domain == domain && ds.first().path == path) {
            lemma_find_doc_props(ds.drop_first(), domain, path);
            assert(forall|k: int|
                1 <= k < ds.len() ==> ds.drop_first()[k - 1] == #[trigger] ds[k]);
        }
    }
}

/// Fold the stored importance rows back into per-document features, in
/// order of each document's first row, terms in row order. Nothing where
/// the rows are inconsistent: a row whose count exceeds its total, or a
/// row whose total disagrees with its document's, or a document whose
/// counts sum past its total.
pub open spec fn spec_collect(rows: Seq<ImportanceRowV>) -> Option<Seq<DocFeaturesV>>
    decreases rows.len(),
{
    if rows.len() == 0 {
        Some(Seq::empty())
    } else {
        match spec_collect(rows.drop_last()) {
            None => None,
            Some(pre) => {
                let r = rows.last();
                let j = spec_find_doc(pre, r.domain, r.path);
                if j >= pre.len() {
                    if r.count <= r.total {
                        Some(
                            pre.push(
                                DocFeaturesV {
                                    domain: r.domain,
                                    path: r.path,
                                    total: r.total,
                                    terms: Seq::empty().push(
                                        TermCountV { word: r.word, count: r.count },
                                    ),
                                },
                            ),
                        )
                    } else {
                        None
                    }
                } else {
                    let d = pre[j];
                    if r.total == d.total && sum_counts(d.terms) + r.count <= d.total {
                        Some(
                            pre.update(
                                j,
                                DocFeaturesV {
                                    terms: d.terms.push(TermCountV { word: r.word, count: r.count }),
                                    ..d
                                },
                            ),
                        )
                    } else {
                        None
                    }
                }
            },
        }
    }
}

/// Every document a successful fold yields is well-formed: its kept
/// counts sum to at most its token count.
pub proof fn lemma_collect_wf(rows: Seq<ImportanceRowV>)
    requires
        spec_collect(rows) is Some,
    ensures
        forall|i: int|
            0 <= i < spec_collect(rows)->Some_0.len() ==> doc_wf(
                #[trigger] spec_collect(rows)->Some_0[i],
            ),
    decreases rows.len(),
{
    if rows.len() > 0 {
        lemma_collect_wf(rows.drop_last());
        let pre = spec_collect(rows.drop_last())->Some_0;
        let post = spec_collect(rows)->Some_0;
        let r = rows.last();
        lemma_find_doc_props(pre, r.domain, r.path);
        let j = spec_find_doc(pre, r.domain, r.path);
        if j >= pre.len() {
            let terms = Seq::<TermCountV>::empty().push(TermCountV { word: r.word, count: r.count });
            assert(sum_counts(terms.drop_last()) == 0) by {
                assert(terms.drop_last() =~= Seq::<TermCountV>::empty());
            }
            assert forall|i: int| 0 <= i < post.len() implies doc_wf(#[trigger] post[i]) by {
                if i < pre.len() {
                    assert(post[i] == pre[i]);
                }
            }
        } else {
            lemma_sum_counts_push(pre[j].terms, TermCountV { word: r.word, count: r.count });
            assert forall|i: int| 0 <= i < post.len() implies doc_wf(#[trigger] post[i]) by {
                if i != j {
                    assert(post[i] == pre[i]);
                }
            }
        }
    }
}

/// Once a prefix of the rows folds to nothing, the whole fold does.
proof fn lemma_collect_none_prefix(rows: Seq<ImportanceRowV>, i: int)
    requires
        0 <= i <= rows.len(),
        spec_collect(rows.take(i)) is None,
    ensures
        spec_collect(rows) is None,
    decreases rows.len() - i,
{
    if i < rows.len() {
        assert(rows.take(i + 1).drop_last() =~= rows.take(i));
        lemma_collect_none_prefix(rows, i + 1);
    } else {
        assert(rows.take(i) =~= rows);
    }
}

/// Fold stored importance rows back into per-document features; nothing
/// where the rows are inconsistent with what the extractor writes.
pub fn collect_features(rows: &Vec<ImportanceRow>) -> (r: Option<Vec<DocFeatures>>)
    ensures
        r matches Some(fs) ==> spec_collect(rows.deep_view()) == Some(fs.deep_view()),
        r is None ==> spec_collect(rows.deep_view()) is None,
{
    let ghost rws = rows.deep_view();
    let n = rows.len();
    let mut fs: Vec<DocFeatures> = Vec::new();
    let mut i: usize = 0;
    proof {
        assert(rws.take(0).len() == 0);
        assert(fs.deep_view() =~= Seq::<DocFeaturesV>::empty());
    }
    while i < n
        invariant
            i <= n,
            n == rows@.len(),
            rws == rows.deep_view(),
            spec_collect(rws.take(i as int)) == Some(fs.deep_view()),
        decreases n - i,
    {
        let ghost pre = fs.deep_view();
        proof {
            assert(rws.take(i + 1).drop_last() =~= rws.take(i as int));
            assert(rws.take(i + 1).last() == rws[i as int]);
            assert(rws[i as int] == rows@[i as int]@);
            lemma_find_doc_props(pre, rws[i as int].domain, rws[i as int].path);
        }
        let row = &rows[i];
        let j = find_doc(&fs, &row.domain, &row.path);
        if j == fs.len() {
            if row.count > row.total {
                proof {
                    assert(spec_collect(rws.take(i + 1)) is None);
                    lemma_collect_none_prefix(rws, i + 1);
                }
                return None;
            }
            let mut terms: Vec<TermCount> = Vec::new();
            terms.push(TermCount { word: row.word.clone(), count: row.count });
            let doc = DocFeatures {
                domain: row.domain.clone(),
                path: row.path.clone(),
                total: row.total,
                terms,
            };
            proof {
                assert(doc@.terms =~= Seq::<TermCountV>::empty().push(
                    TermCountV { word: rws[i as int].word, count: rws[i as int].count },
                ));
            }
            fs.push(doc);
            proof {
                assert(fs.deep_view() =~= pre.push(
                    DocFeaturesV {
                        domain: rws[i as int].domain,
                        path: rws[i as int].path,
                        total: rws[i as int].total,
                        terms: Seq::empty().push(
                            TermCountV { word: rws[i as int].word, count: rws[i as int].count },
                        ),
                    },
                ));
            }
        } else {
            proof {
                assert(fs.deep_view()[j as int] == fs@[j as int]@);
                lemma_collect_wf(rws.take(i as int));
                assert(doc_wf(pre[j as int]));
            }
            if row.total != fs[j].total {
                proof {
                    assert(spec_collect(rws.take(i + 1)) is None);
                    lemma_collect_none_prefix(rws, i + 1);
                }
                return None;
            }
            let kept: u64 = sum_of_counts(&fs[j].terms);
            proof {
                assert(kept == sum_counts(pre[j as int].terms));
            }
            if row.count > fs[j].total - kept {
                proof {
                    assert(spec_collect(rws.take(i + 1)) is None);
                    lemma_collect_none_prefix(rws, i + 1);
                }
                return None;
            }
            let term = TermCount { word: row.word.clone(), count: row.count };
            let ghost d = pre[j as int];
            let ghost new_terms = d.terms.push(TermCountV { word: rws[i as int].word, count: rws[i as int].count });
            fs[j].terms.push(term);
            proof {
                assert(fs@[j as int]@.terms =~= new_terms);
                assert(fs.deep_view() =~= pre.update(
                    j as int,
                    DocFeaturesV { terms: new_terms, ..d },
                ));
            }
        }
        i += 1;
    }
    proof {
        assert(rws.take(n as int) =~= rws);
    }
    Some(fs)
}

/// The index of the first document with the given key, or the length.
fn find_doc(fs: &Vec<DocFeatures>, domain: &String, path: &String) -> (j: usize)
    ensures
        j == spec_find_doc(fs.deep_view(), domain@, path@),
        j <= fs@.len(),
{
    proof {
        lemma_find_doc_props(fs.deep_view(), domain@, path@);
    }
    let n = fs.len();
    let mut j: usize = 0;
    while j < n
        invariant
            j <= n,
            n == fs@.len(),
            forall|k: int|
                0 <= k < j ==> !((#[trigger] fs.deep_view()[k]).domain == domain@
                    && fs.deep_view()[k].path == path@),
        decreases n - j,
    {
        proof {
            assert(fs.deep_view()[j as int] == fs@[j as int]@);
        }
        if fs[j].domain == *domain && fs[j].path == *path {
            proof {
                lemma_find_doc_unique(fs.deep_view(), domain@, path@, j as int);
            }
            return j;
        }
        j += 1;
    }
    proof {
        lemma_find_doc_props(fs.deep_view(), domain@, path@);
    }
    n
}

/// A first match at `j` pins `spec_find_doc` to `j`.
proof fn lemma_find_doc_unique(ds: Seq<DocFeaturesV>, domain: Seq<char>, path: Seq<char>, j: int)
    requires
        0 <= j < ds.len(),
        ds[j].domain == domain && ds[j].path == path,
        forall|k: int|
            0 <= k < j ==> !((#[trigger] ds[k]).domain == domain && ds[k].path == path),
    ensures
        spec_find_doc(ds, domain, path) == j,
{
    lemma_find_doc_props(ds, domain, path);
    let f = spec_find_doc(ds, domain, path);
    if f < j {
        assert(!(ds[f].domain == domain && ds[f].path == path));
    }
    if j < f {
        assert(!((#[trigger] ds[j]).domain == domain && ds[j].path == path));
    }
}

/// The sum of the occurrence counts of a document's kept terms.
fn sum_of_counts(terms: &Vec<TermCount>) -> (s: u64)
    requires
        sum_counts(terms.deep_view()) <= u64::MAX,
    ensures
        s == sum_counts(terms.deep_view()),
{
    let ghost tv = terms.deep_view();
    let n = terms.len();
    let mut s: u64 = 0;
    let mut i: usize = 0;
    proof {
        assert(tv.take(0) =~= Seq::<TermCountV>::empty());
    }
    while i < n
        invariant
            i <= n,
            n == terms@.len(),
            tv == terms.deep_view(),
            sum_counts(tv) <= u64::MAX,
            s == sum_counts(tv.take(i as int)),
        decreases n - i,
    {
        proof {
            assert(tv.take(i + 1).drop_last() =~= tv.take(i as int));
            assert(tv.take(i + 1).last() == tv[i as int]);
            assert(tv[i as int] == terms@[i as int]@);
            lemma_sum_counts_take_le(tv, i + 1);
        }
        s = s + terms[i].count;
        i += 1;
    }
    proof {
        assert(tv.take(n as int) =~= tv);
    }
    s
}

/// Every key the search returns names a document that holds, among its
/// kept top terms, one whose lowercased word equals a lowercased query
/// term: a term absent from every document's kept terms returns nothing,
/// whatever the corpus-wide keyword table holds.
pub proof fn lemma_search_needs_kept_term(docs: Seq<DocFeaturesV>, q: Seq<Seq<char>>, k: int)
    requires
        0 <= k < spec_search(docs, q).len(),
    ensures
        exists|d: int, t: int|
            0 <= d < docs.len() && 0 <= t < docs[d].terms.len() && (docs[d].domain + docs[d].path)
                == spec_search(docs, q)[k] && term_matches((#[trigger] docs[d].terms[t]).word, q),
{
    let scores = spec_scores(docs, q);
    let rank = spec_rank(scores);
    lemma_rank_elements(scores);
    assert(spec_search(docs, q)[k] == score_keys(rank)[k]);
    assert(score_keys(rank)[k] == rank[k].key);
    assert(scores.contains(rank[k]));
    let s = choose|s: int| 0 <= s < scores.len() && scores[s] == rank[k];
    lemma_scores_from_docs(docs, q, s);
    let d = choose|d: int|
        0 <= d < docs.len() && doc_entry(#[trigger] docs[d], q) == scores[s] && matched_sum(
            docs[d].terms,
            q,
        ) > 0;
    assert(doc_entry(docs[d], q) == scores[s]);
    assert(matched_sum(docs[d].terms, q) > 0);
    lemma_matched_sum_positive(docs[d].terms, q);
    let t = choose|t: int|
        0 <= t < docs[d].terms.len() && term_matches((#[trigger] docs[d].terms[t]).word, q);
    assert(0 <= d < docs.len() && 0 <= t < docs[d].terms.len() && (docs[d].domain + docs[d].path)
        == spec_search(docs, q)[k] && term_matches(docs[d].terms[t].word, q));
}

} // verus!
