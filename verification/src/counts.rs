//! Per-token frequency counting over a token stream, the common core of the
//! corpus index builder and the per-document feature extractor.

use vstd::prelude::*;

verus! {

/// How often `w` occurs in `tokens`.
pub open spec fn count_occ(tokens: Seq<Seq<char>>, w: Seq<char>) -> nat
    decreases tokens.len(),
{
    if tokens.len() == 0 {
        0
    } else {
        count_occ(tokens.drop_last(), w) + if tokens.last() == w {
            1nat
        } else {
            0nat
        }
    }
}

/// The distinct tokens of a stream, in order of first occurrence.
pub open spec fn distinct_tokens(tokens: Seq<Seq<char>>) -> Seq<Seq<char>>
    decreases tokens.len(),
{
    if tokens.len() == 0 {
        Seq::empty()
    } else {
        let d = distinct_tokens(tokens.drop_last());
        if d.contains(tokens.last()) {
            d
        } else {
            d.push(tokens.last())
        }
    }
}

/// A word together with its occurrence count, at the specification level.
pub struct TermCountV {
    pub word: Seq<char>,
    pub count: nat,
}

/// A word together with its occurrence count.
pub struct TermCount {
    pub word: String,
    pub count: u64,
}

impl View for TermCount {
    type V = TermCountV;

    open spec fn view(&self) -> TermCountV {
        TermCountV { word: self.word@, count: self.count as nat }
    }
}

impl DeepView for TermCount {
    type V = TermCountV;

    open spec fn deep_view(&self) -> TermCountV {
        self@
    }
}

/// The frequency table of a token stream: one entry per distinct token, in
/// order of first occurrence, with its exact occurrence count.
pub open spec fn spec_term_counts(tokens: Seq<Seq<char>>) -> Seq<TermCountV> {
    distinct_tokens(tokens).map_values(
        |w: Seq<char>| TermCountV { word: w, count: count_occ(tokens, w) },
    )
}

/// A token occurs in the stream exactly when it is among the distinct tokens.
pub proof fn lemma_count_occ_positive(tokens: Seq<Seq<char>>, w: Seq<char>)
    ensures
        distinct_tokens(tokens).contains(w) <==> count_occ(tokens, w) > 0,
    decreases tokens.len(),
{
    broadcast use vstd::seq_lib::lemma_seq_contains_after_push;

    if tokens.len() == 0 {
        assert(!distinct_tokens(tokens).contains(w));
    } else {
        lemma_count_occ_positive(tokens.drop_last(), w);
    }
}

/// No token appears twice among the distinct tokens.
pub proof fn lemma_distinct_tokens_no_duplicates(tokens: Seq<Seq<char>>)
    ensures
        distinct_tokens(tokens).no_duplicates(),
    decreases tokens.len(),
{
    if tokens.len() == 0 {
    } else {
        lemma_distinct_tokens_no_duplicates(tokens.drop_last());
        let d = distinct_tokens(tokens.drop_last());
        if !d.contains(tokens.last()) {
            assert forall|i: int, j: int|
                0 <= i < d.push(tokens.last()).len() && 0 <= j < d.push(tokens.last()).len() && i
                    != j implies d.push(tokens.last())[i] != d.push(tokens.last())[j] by {
                if i < d.len() && j < d.len() {
                } else if i == d.len() {
                    assert(d[j] != tokens.last());
                } else {
                    assert(d[i] != tokens.last());
                }
            }
        }
    }
}

/// A token's count never exceeds the stream's length.
pub proof fn lemma_count_occ_le_len(tokens: Seq<Seq<char>>, w: Seq<char>)
    ensures
        count_occ(tokens, w) <= tokens.len(),
    decreases tokens.len(),
{
    if tokens.len() > 0 {
        lemma_count_occ_le_len(tokens.drop_last(), w);
    }
}

/// Appending a token that is already counted, at entry `j`, bumps exactly
/// that entry.
pub proof fn lemma_term_counts_push_found(s: Seq<Seq<char>>, w: Seq<char>, j: int)
    requires
        0 <= j < spec_term_counts(s).len(),
        spec_term_counts(s)[j].word == w,
    ensures
        spec_term_counts(s.push(w)) =~= spec_term_counts(s).update(
            j,
            TermCountV { word: w, count: spec_term_counts(s)[j].count + 1 },
        ),
{
    let post = s.push(w);
    let d = distinct_tokens(s);
    assert(post.drop_last() =~= s);
    assert(post.last() == w);
    assert(d[j] == w);
    assert(d.contains(w));
    assert(distinct_tokens(post) == d);
    lemma_distinct_tokens_no_duplicates(s);
    assert forall|k: int| 0 <= k < d.len() implies spec_term_counts(post)[k]
        == spec_term_counts(s).update(
        j,
        TermCountV { word: w, count: spec_term_counts(s)[j].count + 1 },
    )[k] by {
        assert(count_occ(post, d[k]) == count_occ(s, d[k]) + if d[k] == w {
            1nat
        } else {
            0nat
        });
        if k != j {
            assert(d[k] != d[j]);
        }
    }
}

/// Appending a token that was not yet counted appends a fresh entry with
/// count one.
pub proof fn lemma_term_counts_push_new(s: Seq<Seq<char>>, w: Seq<char>)
    requires
        forall|k: int|
            0 <= k < spec_term_counts(s).len() ==> spec_term_counts(s)[k].word != w,
    ensures
        spec_term_counts(s.push(w)) =~= spec_term_counts(s).push(
            TermCountV { word: w, count: 1 },
        ),
{
    let post = s.push(w);
    let d = distinct_tokens(s);
    assert(post.drop_last() =~= s);
    assert(post.last() == w);
    assert(!d.contains(w)) by {
        if d.contains(w) {
            let k = choose|k: int| 0 <= k < d.len() && d[k] == w;
            assert(spec_term_counts(s)[k].word == w);
        }
    }
    assert(distinct_tokens(post) == d.push(w));
    lemma_count_occ_positive(s, w);
    assert forall|k: int| 0 <= k < d.push(w).len() implies spec_term_counts(post)[k]
        == spec_term_counts(s).push(TermCountV { word: w, count: 1 })[k] by {
        let x = d.push(w)[k];
        assert(count_occ(post, x) == count_occ(s, x) + if x == w {
            1nat
        } else {
            0nat
        });
        if k < d.len() {
            assert(d[k] != w);
        }
    }
}

/// The index of `w` among the entries of `r`, by character-for-character
/// word comparison.
fn find_word(r: &Vec<TermCount>, w: &String) -> (idx: Option<usize>)
    ensures
        match idx {
            Some(j) => j < r@.len() && r@[j as int].word@ == w@,
            None => forall|k: int| 0 <= k < r@.len() ==> r@[k].word@ != w@,
        },
{
    let n = r.len();
    let mut j: usize = 0;
    while j < n
        invariant
            j <= n,
            n == r@.len(),
            forall|k: int| 0 <= k < j ==> r@[k].word@ != w@,
        decreases n - j,
    {
        if r[j].word == *w {
            return Some(j);
        }
        j += 1;
    }
    None
}

/// Count one more token into an existing frequency table whose token stream
/// so far is `hist`.
pub(crate) fn add_token(counts: &mut Vec<TermCount>, w: &String, Ghost(hist): Ghost<Seq<Seq<char>>>)
    requires
        old(counts).deep_view() == spec_term_counts(hist),
        hist.len() < u64::MAX,
    ensures
        final(counts).deep_view() == spec_term_counts(hist.push(w@)),
{
    let ghost pre = spec_term_counts(hist);
    match find_word(counts, w) {
        Some(j) => {
            proof {
                assert(counts.deep_view()[j as int] == counts@[j as int]@);
                assert(pre[j as int].word == w@);
                lemma_term_counts_push_found(hist, w@, j as int);
                assert(pre[j as int].count == count_occ(hist, pre[j as int].word)) by {
                    assert(pre[j as int] == TermCountV {
                        word: distinct_tokens(hist)[j as int],
                        count: count_occ(hist, distinct_tokens(hist)[j as int]),
                    });
                }
                lemma_count_occ_le_len(hist, pre[j as int].word);
            }
            let c = counts[j].count;
            counts[j].count = c + 1;
            proof {
                assert(counts.deep_view() =~= pre.update(
                    j as int,
                    TermCountV { word: w@, count: pre[j as int].count + 1 },
                ));
            }
        },
        None => {
            proof {
                assert forall|k: int| 0 <= k < pre.len() implies pre[k].word != w@ by {
                    assert(pre[k] == counts.deep_view()[k]);
                    assert(counts.deep_view()[k] == counts@[k]@);
                }
                lemma_term_counts_push_new(hist, w@);
            }
            let entry = TermCount { word: w.clone(), count: 1 };
            counts.push(entry);
            proof {
                assert(counts.deep_view() =~= pre.push(TermCountV { word: w@, count: 1 }));
            }
        },
    }
}

/// The frequency table of the given tokens: one entry per distinct token in
/// order of first occurrence, carrying its exact occurrence count.
pub fn term_counts(tokens: &Vec<String>) -> (r: Vec<TermCount>)
    ensures
        r.deep_view() == spec_term_counts(tokens.deep_view()),
{
    let ghost toks = tokens.deep_view();
    let n = tokens.len();
    let mut r: Vec<TermCount> = Vec::new();
    let mut i: usize = 0;
    proof {
        assert(toks.take(0) =~= Seq::<Seq<char>>::empty());
        assert(r.deep_view() =~= spec_term_counts(toks.take(0)));
    }
    while i < n
        invariant
            i <= n,
            n == toks.len(),
            toks == tokens.deep_view(),
            r.deep_view() == spec_term_counts(toks.take(i as int)),
        decreases n - i,
    {
        proof {
            assert(toks[i as int] == tokens.deep_view()[i as int]);
            assert(toks.take(i as int).len() == i);
        }
        let w = &tokens[i];
        add_token(&mut r, w, Ghost(toks.take(i as int)));
        proof {
            assert(toks.take(i as int).push(toks[i as int]) =~= toks.take(i + 1));
        }
        i += 1;
    }
    proof {
        assert(toks.take(n as int) =~= toks);
    }
    r
}

} // verus!
