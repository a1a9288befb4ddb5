//! The per-document feature extractor: for each stored page, the local
//! weight of a term is its occurrence count divided by the document's token
//! count. Only the ten heaviest terms are kept. Weights with one common
//! denominator per document are carried as exact integer pairs; the storage
//! front end performs the one floating-point division when it writes rows
//! out.

use vstd::prelude::*;

use crate::counts::TermCount;
use crate::counts::TermCountV;
use crate::counts::count_occ;
use crate::counts::distinct_tokens;
use crate::counts::lemma_distinct_tokens_no_duplicates;
use crate::counts::spec_term_counts;
use crate::counts::term_counts;
use crate::scraping::extracted_text_of;
use crate::scraping::get_words;
use crate::tokenize::spec_tokenize;
use crate::tokenize::tokenize;

verus! {

/// The sum of the occurrence counts of a row of term entries.
pub open spec fn sum_counts(terms: Seq<TermCountV>) -> nat
    decreases terms.len(),
{
    if terms.len() == 0 {
        0
    } else {
        sum_counts(terms.drop_last()) + terms.last().count
    }
}

/// Removing an entry takes exactly its count out of the sum.
pub proof fn lemma_sum_counts_remove(terms: Seq<TermCountV>, i: int)
    requires
        0 <= i < terms.len(),
    ensures
        sum_counts(terms.remove(i)) + terms[i].count == sum_counts(terms),
    decreases terms.len(),
{
    if i == terms.len() - 1 {
        assert(terms.remove(i) =~= terms.drop_last());
    } else {
        assert(terms.remove(i).drop_last() =~= terms.drop_last().remove(i));
        assert(terms.remove(i).last() == terms.last());
        lemma_sum_counts_remove(terms.drop_last(), i);
    }
}

/// Appending an entry adds exactly its count to the sum.
pub proof fn lemma_sum_counts_push(terms: Seq<TermCountV>, e: TermCountV)
    ensures
        sum_counts(terms.push(e)) == sum_counts(terms) + e.count,
{
    assert(terms.push(e).drop_last() =~= terms);
    assert(terms.push(e).last() == e);
}

/// A prefix never sums to more than the whole row.
pub proof fn lemma_sum_counts_take_le(terms: Seq<TermCountV>, i: int)
    requires
        0 <= i <= terms.len(),
    ensures
        sum_counts(terms.take(i)) <= sum_counts(terms),
    decreases terms.len() - i,
{
    if i == terms.len() {
        assert(terms.take(i) =~= terms);
    } else {
        assert(terms.take(i + 1).drop_last() =~= terms.take(i));
        assert(terms.take(i + 1).last() == terms[i]);
        lemma_sum_counts_take_le(terms, i + 1);
    }
}

/// The counts of a token stream's frequency table sum to the stream's
/// length: every token occurrence is counted under exactly one entry.
pub proof fn lemma_term_counts_sum(toks: Seq<Seq<char>>)
    ensures
        sum_counts(spec_term_counts(toks)) == toks.len(),
    decreases toks.len(),
{
    if toks.len() == 0 {
        assert(spec_term_counts(toks) =~= Seq::<TermCountV>::empty());
    } else {
        let s = toks.drop_last();
        let w = toks.last();
        lemma_term_counts_sum(s);
        assert(s.push(w) =~= toks);
        let pre = spec_term_counts(s);
        let d = distinct_tokens(s);
        if d.contains(w) {
            let j = choose|j: int| 0 <= j < d.len() && d[j] == w;
            assert(pre[j].word == w);
            crate::counts::lemma_term_counts_push_found(s, w, j);
            lemma_sum_counts_update(pre, j, TermCountV { word: w, count: pre[j].count + 1 });
        } else {
            assert forall|k: int| 0 <= k < pre.len() implies pre[k].word != w by {
                assert(pre[k].word == d[k]);
            }
            crate::counts::lemma_term_counts_push_new(s, w);
            lemma_sum_counts_push(pre, TermCountV { word: w, count: 1 });
        }
    }
}

/// Replacing an entry changes the sum by the difference of the counts.
pub proof fn lemma_sum_counts_update(terms: Seq<TermCountV>, i: int, e: TermCountV)
    requires
        0 <= i < terms.len(),
    ensures
        sum_counts(terms.update(i, e)) + terms[i].count == sum_counts(terms) + e.count,
    decreases terms.len(),
{
    if i == terms.len() - 1 {
        assert(terms.update(i, e).drop_last() =~= terms.drop_last());
        assert(terms.update(i, e).last() == e);
    } else {
        assert(terms.update(i, e).drop_last() =~= terms.drop_last().update(i, e));
        assert(terms.update(i, e).last() == terms.last());
        lemma_sum_counts_update(terms.drop_last(), i, e);
    }
}

/// The index of an entry with maximal count.
fn max_count_index(v: &Vec<TermCount>) -> (m: usize)
    requires
        v@.len() > 0,
    ensures
        m < v@.len(),
        forall|j: int| 0 <= j < v@.len() ==> v@[j].count <= v@[m as int].count,
{
    let n = v.len();
    let mut m: usize = 0;
    let mut j: usize = 1;
    while j < n
        invariant
            m < j <= n,
            n == v@.len(),
            forall|k: int| 0 <= k < j ==> v@[k].count <= v@[m as int].count,
        decreases n - j,
    {
        if v[j].count > v[m].count {
            m = j;
        }
        j += 1;
    }
    m
}

/// Sort term entries by occurrence count, largest first, by repeatedly
/// extracting a maximal entry. The result is a permutation of the input
/// with the same count sum.
fn sort_counts_desc(input: Vec<TermCount>) -> (r: Vec<TermCount>)
    ensures
        r.deep_view().to_multiset() == input.deep_view().to_multiset(),
        r.deep_view().len() == input.deep_view().len(),
        sum_counts(r.deep_view()) == sum_counts(input.deep_view()),
        forall|i: int, j: int|
            0 <= i < j < r.deep_view().len() ==> r.deep_view()[i].count
                >= r.deep_view()[j].count,
{
    broadcast use vstd::seq_lib::group_to_multiset_ensures;
    broadcast use vstd::multiset::group_multiset_axioms;

    let ghost orig = input.deep_view();
    let mut work = input;
    let mut out: Vec<TermCount> = Vec::new();
    proof {
        assert(out.deep_view() =~= Seq::<TermCountV>::empty());
        assert(out.deep_view().to_multiset().add(work.deep_view().to_multiset())
            =~= orig.to_multiset());
    }
    while work.len() > 0
        invariant
            out.deep_view().to_multiset().add(work.deep_view().to_multiset())
                == orig.to_multiset(),
            out.deep_view().len() + work.deep_view().len() == orig.len(),
            sum_counts(out.deep_view()) + sum_counts(work.deep_view()) == sum_counts(orig),
            forall|i: int, j: int|
                0 <= i < j < out.deep_view().len() ==> out.deep_view()[i].count
                    >= out.deep_view()[j].count,
            forall|i: int, j: int|
                0 <= i < out.deep_view().len() && 0 <= j < work.deep_view().len()
                    ==> out.deep_view()[i].count >= work.deep_view()[j].count,
        decreases work.len(),
    {
        let ghost pre_out = out.deep_view();
        let ghost pre_work = work.deep_view();
        let m = max_count_index(&work);
        let ghost e = pre_work[m as int];
        proof {
            assert(pre_work[m as int] == work@[m as int]@);
            lemma_sum_counts_remove(pre_work, m as int);
            vstd::seq_lib::to_multiset_contains(pre_work, e);
            assert(pre_work.contains(e));
        }
        let entry = work.remove(m);
        out.push(entry);
        proof {
            assert(out.deep_view() =~= pre_out.push(e));
            assert(work.deep_view() =~= pre_work.remove(m as int));
            lemma_sum_counts_push(pre_out, e);
            vstd::seq_lib::to_multiset_build(pre_out, e);
            vstd::seq_lib::to_multiset_remove(pre_work, m as int);
            assert(out.deep_view().to_multiset() == pre_out.to_multiset().insert(e));
            assert(work.deep_view().to_multiset() == pre_work.to_multiset().remove(e));
            assert(out.deep_view().to_multiset().add(work.deep_view().to_multiset())
                =~= pre_out.to_multiset().add(pre_work.to_multiset()));
        }
    }
    proof {
        assert(work.deep_view() =~= Seq::<TermCountV>::empty());
        assert(work.deep_view().to_multiset().len() == 0);
        assert(out.deep_view().to_multiset().add(work.deep_view().to_multiset())
            =~= out.deep_view().to_multiset());
    }
    out
}

/// The words of a row of term entries, in row order.
pub open spec fn term_words(terms: Seq<TermCountV>) -> Seq<Seq<char>> {
    terms.map_values(|t: TermCountV| t.word)
}

/// What the extractor owes for one document with token stream `toks`:
/// `terms` holds one entry per kept term with its exact occurrence count,
/// pairwise-distinct words, counts in descending order, exactly
/// `min(10, distinct terms)` entries, and no dropped term outweighs a kept
/// one.
pub open spec fn is_top_terms(terms: Seq<TermCountV>, toks: Seq<Seq<char>>) -> bool {
    &&& terms.len() == if distinct_tokens(toks).len() < 10 {
        distinct_tokens(toks).len()
    } else {
        10nat
    }
    &&& forall|i: int|
        0 <= i < terms.len() ==> distinct_tokens(toks).contains((#[trigger] terms[i]).word)
            && terms[i].count == count_occ(toks, terms[i].word)
    &&& forall|i: int, j: int|
        #![trigger terms[i], terms[j]]
        0 <= i < j < terms.len() ==> terms[i].count >= terms[j].count
    &&& forall|i: int, j: int|
        #![trigger terms[i], terms[j]]
        0 <= i < terms.len() && 0 <= j < terms.len() && i != j ==> terms[i].word != terms[j].word
    &&& forall|w: Seq<char>, i: int|
        #![trigger count_occ(toks, w), terms[i]]
        distinct_tokens(toks).contains(w) && !term_words(terms).contains(w) && 0 <= i
            < terms.len() ==> count_occ(toks, w) <= terms[i].count
}

/// Any permutation of a token stream's frequency table still has one entry
/// per distinct token, with its exact count, and pairwise-distinct words.
proof fn lemma_permuted_counts_facts(toks: Seq<Seq<char>>, s: Seq<TermCountV>)
    requires
        s.to_multiset() == spec_term_counts(toks).to_multiset(),
    ensures
        s.len() == distinct_tokens(toks).len(),
        forall|i: int|
            0 <= i < s.len() ==> distinct_tokens(toks).contains((#[trigger] s[i]).word)
                && s[i].count == count_occ(toks, s[i].word),
        forall|i: int, j: int|
            #![trigger s[i], s[j]]
            0 <= i < s.len() && 0 <= j < s.len() && i != j ==> s[i].word != s[j].word,
        forall|w: Seq<char>|
            #[trigger] distinct_tokens(toks).contains(w) ==> (exists|k: int|
                0 <= k < s.len() && s[k] == (TermCountV { word: w, count: count_occ(toks, w) })),
{
    broadcast use vstd::seq_lib::group_to_multiset_ensures;
    broadcast use vstd::multiset::group_multiset_axioms;

    let table = spec_term_counts(toks);
    let d = distinct_tokens(toks);
    lemma_distinct_tokens_no_duplicates(toks);
    assert(s.len() == table.len()) by {
        vstd::seq_lib::to_multiset_len(s);
        vstd::seq_lib::to_multiset_len(table);
    }
    assert(table.no_duplicates()) by {
        assert forall|i: int, j: int|
            0 <= i < table.len() && 0 <= j < table.len() && i != j implies table[i] != table[j] by {
            assert(table[i].word == d[i]);
            assert(table[j].word == d[j]);
        }
    }
    assert forall|i: int| 0 <= i < s.len() implies distinct_tokens(toks).contains(
        (#[trigger] s[i]).word,
    ) && s[i].count == count_occ(toks, s[i].word) by {
        assert(s.contains(s[i]));
        vstd::seq_lib::to_multiset_contains(s, s[i]);
        vstd::seq_lib::to_multiset_contains(table, s[i]);
        assert(table.contains(s[i]));
        let k = choose|k: int| 0 <= k < table.len() && table[k] == s[i];
        assert(table[k].word == d[k]);
    }
    assert forall|i: int, j: int|
        #![trigger s[i], s[j]]
        0 <= i < s.len() && 0 <= j < s.len() && i != j implies s[i].word != s[j].word by {
        if s[i].word == s[j].word {
            assert(s[i] == TermCountV { word: s[i].word, count: count_occ(toks, s[i].word) });
            assert(s[j] == TermCountV { word: s[j].word, count: count_occ(toks, s[j].word) });
            assert(s[i] == s[j]);
            table.lemma_multiset_has_no_duplicates();
            assert(table.to_multiset().count(s[i]) <= 1);
            lemma_seq_dup_multiset_count(s, i, j);
        }
    }
    assert forall|w: Seq<char>| #[trigger] distinct_tokens(toks).contains(w) implies exists|k: int|
        0 <= k < s.len() && s[k] == TermCountV { word: w, count: count_occ(toks, w) } by {
        let j = choose|j: int| 0 <= j < d.len() && d[j] == w;
        let e = TermCountV { word: w, count: count_occ(toks, w) };
        assert(table[j] == e);
        assert(table.contains(e));
        vstd::seq_lib::to_multiset_contains(table, e);
        vstd::seq_lib::to_multiset_contains(s, e);
        assert(s.contains(e));
        let k = choose|k: int| 0 <= k < s.len() && s[k] == e;
        assert(0 <= k < s.len() && s[k] == e);
    }
}

/// A value standing at two positions of a sequence counts at least twice in
/// its multiset.
proof fn lemma_seq_dup_multiset_count<A>(s: Seq<A>, i: int, j: int)
    requires
        0 <= i < s.len(),
        0 <= j < s.len(),
        i != j,
        s[i] == s[j],
    ensures
        s.to_multiset().count(s[i]) >= 2,
{
    broadcast use vstd::seq_lib::group_to_multiset_ensures;
    broadcast use vstd::multiset::group_multiset_axioms;

    let lo = if i < j {
        i
    } else {
        j
    };
    let hi = if i < j {
        j
    } else {
        i
    };
    let r = s.remove(lo);
    vstd::seq_lib::to_multiset_remove(s, lo);
    assert(r[hi - 1] == s[hi]);
    assert(r.contains(s[i]));
    vstd::seq_lib::to_multiset_contains(r, s[i]);
    assert(r.to_multiset().count(s[i]) >= 1);
    assert(s.to_multiset().count(s[i]) == r.to_multiset().count(s[i]) + 1);
}

/// A document's ranked features at the specification level.
pub struct DocFeaturesV {
    pub domain: Seq<char>,
    pub path: Seq<char>,
    /// The document's token count: the common denominator of its weights.
    pub total: nat,
    /// The kept terms, heaviest first; the weight of an entry is
    /// `count / total`.
    pub terms: Seq<TermCountV>,
}

/// A document's ranked features: the rows that the importance store holds
/// for one page. An entry's local weight is `count / total`.
pub struct DocFeatures {
    pub domain: String,
    pub path: String,
    pub total: u64,
    pub terms: Vec<TermCount>,
}

impl View for DocFeatures {
    type V = DocFeaturesV;

    open spec fn view(&self) -> DocFeaturesV {
        DocFeaturesV {
            domain: self.domain@,
            path: self.path@,
            total: self.total as nat,
            terms: self.terms.deep_view(),
        }
    }
}

impl DeepView for DocFeatures {
    type V = DocFeaturesV;

    open spec fn deep_view(&self) -> DocFeaturesV {
        self@
    }
}

/// A well-formed feature row: the kept counts sum to at most the document's
/// token count, so the document's weights sum to at most one.
pub open spec fn doc_wf(d: DocFeaturesV) -> bool {
    sum_counts(d.terms) <= d.total
}

/// The ranked features of one document given as its token stream: its terms
/// are counted, ordered by weight descending, and the ten heaviest kept.
pub fn extract_doc_features(domain: String, path: String, tokens: &Vec<String>) -> (r: DocFeatures)
    ensures
        r@.domain == domain@,
        r@.path == path@,
        r@.total == tokens.deep_view().len(),
        is_top_terms(r@.terms, tokens.deep_view()),
        doc_wf(r@),
{
    let ghost toks = tokens.deep_view();
    let ghost table = spec_term_counts(toks);
    let total: u64 = tokens.len() as u64;
    let counts = term_counts(tokens);
    let sorted = sort_counts_desc(counts);
    let ghost s = sorted.deep_view();
    proof {
        lemma_permuted_counts_facts(toks, s);
        lemma_term_counts_sum(toks);
    }
    let mut terms = sorted;
    if terms.len() > 10 {
        terms.truncate(10);
    }
    let ghost kept = terms.deep_view();
    proof {
        if s.len() <= 10 {
            assert(kept =~= s.take(s.len() as int));
            assert(kept =~= s);
        } else {
            assert(kept =~= s.take(10));
        }
        let k = kept.len() as int;
        assert(kept =~= s.take(k));
        lemma_sum_counts_take_le(s, k);
        assert(sum_counts(s) == toks.len());
        assert forall|w: Seq<char>, i: int|
            #![trigger count_occ(toks, w), kept[i]]
            distinct_tokens(toks).contains(w) && !term_words(kept).contains(w) && 0 <= i
                < kept.len() implies count_occ(toks, w) <= kept[i].count by {
            let e = TermCountV { word: w, count: count_occ(toks, w) };
            let idx = choose|idx: int| 0 <= idx < s.len() && s[idx] == e;
            if idx < k {
                assert(term_words(kept)[idx] == w);
                assert(term_words(kept).contains(w));
            } else {
                assert(s[i].count >= s[idx].count);
            }
        }
    }
    DocFeatures { domain, path, total, terms }
}

/// A stored page: its key and its raw body.
pub struct PageRecord {
    pub domain: String,
    pub path: String,
    pub html: String,
}

/// The ranked features of every stored page, page by page: each page's text
/// is extracted and tokenized exactly as the corpus index builder does, its
/// per-term weights computed, and its ten heaviest terms kept.
pub fn extract_keywords(pages: &Vec<PageRecord>) -> (r: Vec<DocFeatures>)
    ensures
        r@.len() == pages@.len(),
        forall|i: int|
            0 <= i < r@.len() ==> {
                &&& (#[trigger] r@[i])@.domain == pages@[i].domain@
                &&& r@[i]@.path == pages@[i].path@
                &&& r@[i]@.total == spec_tokenize(extracted_text_of(pages@[i].html@)).len()
                &&& is_top_terms(r@[i]@.terms, spec_tokenize(extracted_text_of(pages@[i].html@)))
                &&& doc_wf(r@[i]@)
            },
{
    let n = pages.len();
    let mut r: Vec<DocFeatures> = Vec::new();
    let mut i: usize = 0;
    while i < n
        invariant
            i <= n,
            n == pages@.len(),
            r@.len() == i,
            forall|k: int|
                0 <= k < i ==> {
                    &&& (#[trigger] r@[k])@.domain == pages@[k].domain@
                    &&& r@[k]@.path == pages@[k].path@
                    &&& r@[k]@.total == spec_tokenize(extracted_text_of(pages@[k].html@)).len()
                    &&& is_top_terms(r@[k]@.terms, spec_tokenize(extracted_text_of(pages@[k].html@)))
                    &&& doc_wf(r@[k]@)
                },
        decreases n - i,
    {
        let page = &pages[i];
        let text = get_words(page.html.as_str());
        let tokens = tokenize(text.as_str());
        let features = extract_doc_features(page.domain.clone(), page.path.clone(), &tokens);
        r.push(features);
        i += 1;
    }
    r
}

} // verus!
