//! The corpus index builder: one streaming pass over every stored page's
//! extracted text, accumulating one global counter per distinct token. The
//! keyword score of a token with count `c` out of `total` token occurrences
//! is `log2(total / c)`; the logarithm itself is applied by the storage
//! front end, so the table built here carries the exact integer pair that
//! determines it.

use vstd::prelude::*;

use crate::counts::TermCount;
use crate::counts::TermCountV;
use crate::counts::add_token;
use crate::counts::spec_term_counts;
use crate::scraping::extracted_text_of;
use crate::scraping::get_words;
use crate::tokenize::spec_tokenize;
use crate::tokenize::tokenize;

verus! {

/// The token stream of a corpus: the tokens of every text, in corpus order.
pub open spec fn corpus_tokens(texts: Seq<Seq<char>>) -> Seq<Seq<char>> {
    texts.map_values(|t: Seq<char>| spec_tokenize(t)).flatten()
}

/// A keyword table at the specification level.
pub struct KeywordTableV {
    /// One entry per distinct token of the corpus, in order of first
    /// occurrence, with its exact occurrence count.
    pub rows: Seq<TermCountV>,
    /// The number of token occurrences across the whole corpus.
    pub total: nat,
}

/// The keyword table: the corpus-wide term statistics that the `keywords`
/// store is rebuilt from.
pub struct KeywordTable {
    /// One row per distinct token, with its occurrence count.
    pub rows: Vec<TermCount>,
    /// Total token occurrences across the corpus.
    pub total: u64,
}

impl View for KeywordTable {
    type V = KeywordTableV;

    open spec fn view(&self) -> KeywordTableV {
        KeywordTableV { rows: self.rows.deep_view(), total: self.total as nat }
    }
}

/// The keyword table that a corpus of texts determines.
pub open spec fn spec_keyword_table(texts: Seq<Seq<char>>) -> KeywordTableV {
    KeywordTableV {
        rows: spec_term_counts(corpus_tokens(texts)),
        total: corpus_tokens(texts).len(),
    }
}

/// The streaming state of one index-building pass: pages are fed in one at a
/// time, so the corpus is never held in memory at once.
pub struct IndexBuilder {
    counts: Vec<TermCount>,
    total: u64,
    consumed: Ghost<Seq<Seq<char>>>,
}

impl IndexBuilder {
    /// The texts consumed so far.
    pub closed spec fn texts(self) -> Seq<Seq<char>> {
        self.consumed@
    }

    /// The builder's running state matches the corpus consumed so far.
    pub closed spec fn wf(self) -> bool {
        &&& self.counts.deep_view() == spec_term_counts(corpus_tokens(self.texts()))
        &&& self.total == corpus_tokens(self.texts()).len()
    }

    /// A fresh pass that has consumed nothing.
    pub fn new() -> (r: IndexBuilder)
        ensures
            r.wf(),
            r.texts() == Seq::<Seq<char>>::empty(),
    {
        let r = IndexBuilder { counts: Vec::new(), total: 0, consumed: Ghost(Seq::empty()) };
        proof {
            assert(corpus_tokens(r.texts()) =~= Seq::<Seq<char>>::empty());
            assert(r.counts.deep_view() =~= spec_term_counts(corpus_tokens(r.texts())));
        }
        r
    }

    /// Count one more page's extracted text into the pass. Returns false,
    /// leaving the pass unchanged, only when the corpus-wide token counter
    /// would overflow its machine word.
    pub fn add_document(&mut self, text: &str) -> (ok: bool)
        requires
            old(self).wf(),
        ensures
            final(self).wf(),
            ok == (corpus_tokens(old(self).texts()).len() + spec_tokenize(text@).len()
                <= u64::MAX),
            ok ==> final(self).texts() == old(self).texts().push(text@),
            !ok ==> *final(self) == *old(self),
    {
        broadcast use vstd::prelude::Seq::lemma_flatten_push;
        broadcast use vstd::prelude::Seq::lemma_push_map_commute;

        let tokens = tokenize(text);
        let ghost toks = spec_tokenize(text@);
        let n = tokens.len();
        proof {
            assert(tokens.deep_view().len() == n);
        }
        if n as u64 > u64::MAX - self.total {
            return false;
        }
        let ghost hist0 = corpus_tokens(self.texts());
        let mut i: usize = 0;
        proof {
            assert(hist0 + toks.take(0) =~= hist0);
        }
        while i < n
            invariant
                i <= n,
                n == tokens@.len(),
                tokens.deep_view() == toks,
                self.total == hist0.len(),
                hist0.len() + n <= u64::MAX,
                self.counts.deep_view() == spec_term_counts(hist0 + toks.take(i as int)),
                self.consumed == old(self).consumed,
                hist0 == corpus_tokens(old(self).texts()),
            decreases n - i,
        {
            proof {
                assert(toks[i as int] == tokens.deep_view()[i as int]);
                assert((hist0 + toks.take(i as int)).push(toks[i as int]) =~= hist0 + toks.take(
                    i + 1,
                ));
            }
            let w = &tokens[i];
            add_token(&mut self.counts, w, Ghost(hist0 + toks.take(i as int)));
            i += 1;
        }
        proof {
            assert(hist0 + toks.take(n as int) =~= hist0 + toks);
            assert(corpus_tokens(self.texts().push(text@)) =~= hist0 + toks);
        }
        self.total = self.total + n as u64;
        proof {
            self.consumed@ = self.texts().push(text@);
        }
        true
    }

    /// Close the pass: the finished keyword table of exactly the texts that
    /// were fed in.
    pub fn finish(self) -> (t: KeywordTable)
        requires
            self.wf(),
        ensures
            t@ == spec_keyword_table(self.texts()),
    {
        KeywordTable { rows: self.counts, total: self.total }
    }
}

/// Build the keyword table of a corpus given whole. Returns None only when
/// the corpus holds more token occurrences than the counter's machine word.
pub fn build_keyword_table(texts: &Vec<String>) -> (r: Option<KeywordTable>)
    ensures
        match r {
            Some(t) => t@ == spec_keyword_table(texts.deep_view()),
            None => corpus_tokens(texts.deep_view()).len() > u64::MAX,
        },
{
    broadcast use vstd::prelude::Seq::lemma_flatten_push;
    broadcast use vstd::prelude::Seq::lemma_push_map_commute;

    let mut b = IndexBuilder::new();
    let n = texts.len();
    let mut i: usize = 0;
    proof {
        assert(b.texts() =~= texts.deep_view().take(0));
    }
    while i < n
        invariant
            i <= n,
            n == texts@.len(),
            b.wf(),
            b.texts() == texts.deep_view().take(i as int),
        decreases n - i,
    {
        proof {
            assert(texts.deep_view()[i as int] == texts@[i as int]@);
        }
        let ok = b.add_document(texts[i].as_str());
        if !ok {
            proof {
                lemma_corpus_tokens_prefix_le(texts.deep_view(), i as int);
            }
            return None;
        }
        proof {
            assert(texts.deep_view().take(i as int).push(texts.deep_view()[i as int])
                =~= texts.deep_view().take(i + 1));
        }
        i += 1;
    }
    proof {
        assert(texts.deep_view().take(n as int) =~= texts.deep_view());
    }
    Some(b.finish())
}

/// The extracted texts of a sequence of raw page bodies.
pub open spec fn page_texts(pages: Seq<Seq<char>>) -> Seq<Seq<char>> {
    pages.map_values(|h: Seq<char>| extracted_text_of(h))
}

/// Build the keyword table over raw page bodies: each page's text is
/// extracted, tokenized and counted into one corpus-wide pass. Returns None
/// only when the corpus holds more token occurrences than the counter's
/// machine word.
pub fn construct_idf(pages: &Vec<String>) -> (r: Option<KeywordTable>)
    ensures
        match r {
            Some(t) => t@ == spec_keyword_table(page_texts(pages.deep_view())),
            None => corpus_tokens(page_texts(pages.deep_view())).len() > u64::MAX,
        },
{
    let ghost texts = page_texts(pages.deep_view());
    let mut b = IndexBuilder::new();
    let n = pages.len();
    let mut i: usize = 0;
    proof {
        assert(b.texts() =~= texts.take(0));
    }
    while i < n
        invariant
            i <= n,
            n == pages@.len(),
            b.wf(),
            texts == page_texts(pages.deep_view()),
            texts.len() == n,
            b.texts() == texts.take(i as int),
        decreases n - i,
    {
        proof {
            assert(pages.deep_view()[i as int] == pages@[i as int]@);
            assert(texts[i as int] == extracted_text_of(pages.deep_view()[i as int]));
        }
        let text = get_words(pages[i].as_str());
        let ok = b.add_document(text.as_str());
        if !ok {
            proof {
                lemma_corpus_tokens_prefix_le(texts, i as int);
            }
            return None;
        }
        proof {
            assert(texts.take(i as int).push(texts[i as int]) =~= texts.take(i + 1));
        }
        i += 1;
    }
    proof {
        assert(texts.take(n as int) =~= texts);
    }
    Some(b.finish())
}

/// The tokens of a prefix of the corpus, plus the tokens of the next text,
/// are no more than the tokens of the whole corpus.
proof fn lemma_corpus_tokens_prefix_le(texts: Seq<Seq<char>>, i: int)
    requires
        0 <= i < texts.len(),
    ensures
        corpus_tokens(texts.take(i)).len() + spec_tokenize(texts[i]).len() <= corpus_tokens(
            texts,
        ).len(),
{
    broadcast use vstd::prelude::Seq::lemma_flatten_push;
    broadcast use vstd::prelude::Seq::lemma_push_map_commute;

    assert(texts.take(i).push(texts[i]) =~= texts.take(i + 1));
    assert(corpus_tokens(texts.take(i + 1)) =~= corpus_tokens(texts.take(i)) + spec_tokenize(
        texts[i],
    ));
    lemma_corpus_tokens_take_le(texts, i + 1);
}

/// A longer prefix of the corpus never has fewer tokens.
proof fn lemma_corpus_tokens_take_le(texts: Seq<Seq<char>>, i: int)
    requires
        0 <= i <= texts.len(),
    ensures
        corpus_tokens(texts.take(i)).len() <= corpus_tokens(texts).len(),
    decreases texts.len() - i,
{
    broadcast use vstd::prelude::Seq::lemma_flatten_push;
    broadcast use vstd::prelude::Seq::lemma_push_map_commute;

    if i == texts.len() {
        assert(texts.take(i) =~= texts);
    } else {
        assert(texts.take(i).push(texts[i]) =~= texts.take(i + 1));
        assert(corpus_tokens(texts.take(i + 1)) =~= corpus_tokens(texts.take(i)) + spec_tokenize(
            texts[i],
        ));
        lemma_corpus_tokens_take_le(texts, i + 1);
    }
}

/// Every keyword row counts at least one occurrence and at most the
/// corpus total: the score `log2(total / count)` derived from it is
/// defined and never negative.
pub proof fn lemma_keyword_rows_bounded(texts: Seq<Seq<char>>, i: int)
    requires
        0 <= i < spec_keyword_table(texts).rows.len(),
    ensures
        0 < spec_keyword_table(texts).rows[i].count <= spec_keyword_table(texts).total,
{
    let toks = corpus_tokens(texts);
    let d = crate::counts::distinct_tokens(toks);
    assert(spec_keyword_table(texts).rows[i].word == d[i]);
    assert(d.contains(d[i]));
    crate::counts::lemma_count_occ_positive(toks, d[i]);
    crate::counts::lemma_count_occ_le_len(toks, d[i]);
}

/// Rebuilding the index over the same corpus yields an identical keyword
/// table: the table is a function of the corpus texts alone, so two
/// successive passes over unchanged pages agree row for row.
pub proof fn lemma_index_rebuild_identical(
    t1: KeywordTableV,
    t2: KeywordTableV,
    texts: Seq<Seq<char>>,
)
    requires
        t1 == spec_keyword_table(texts),
        t2 == spec_keyword_table(texts),
    ensures
        t1 == t2,
{
}

} // verus!
