//! The frontier and deduplication coordinator of the crawling engine: the
//! queue of URLs still to visit, the set of visited keys, the blockset and
//! the visited counter, with the decisions a crawl worker takes at each
//! step. The concurrent plumbing — the shared channel, the workers, the
//! transport, cooperative shutdown — lives outside this crate and calls in
//! for every decision.

use vstd::prelude::*;

use crate::text::chars_of;
use crate::text::contains_string;
use crate::text::spec_starts_with;
use crate::text::starts_with_chars;
use crate::urls::UrlParts;
use crate::urls::UrlPartsV;
use crate::urls::clone_url;
use crate::urls::dedup_key;
use crate::urls::is_fetchable_scheme;
use crate::urls::spec_dedup_key;
use crate::urls::spec_is_fetchable_scheme;

verus! {

/// The coordinator's state at the specification level.
pub struct EngineV {
    /// URLs discovered and not yet handed to a worker, oldest first.
    pub queue: Seq<UrlPartsV>,
    /// The deduplication keys already accepted for fetching, for the whole
    /// run.
    pub visited: Set<Seq<char>>,
    /// The hostnames the crawl never touches; fixed for the run.
    pub blockset: Set<Seq<char>>,
    /// How many pages were fetched, gated and processed to the end.
    pub responded: nat,
}

/// The frontier and deduplication coordinator.
pub struct CrawlingEngine {
    queue: Vec<UrlParts>,
    visited: Vec<String>,
    blockset: Vec<String>,
    responded: u64,
}

impl View for CrawlingEngine {
    type V = EngineV;

    closed spec fn view(&self) -> EngineV {
        EngineV {
            queue: self.queue.deep_view(),
            visited: self.visited.deep_view().to_set(),
            blockset: self.blockset.deep_view().to_set(),
            responded: self.responded as nat,
        }
    }
}

/// Whether the URL's host is in the blockset; a URL without a host is not
/// blocked.
pub open spec fn spec_url_blocked(s: EngineV, u: UrlPartsV) -> bool {
    match u.host {
        Some(h) => s.blockset.contains(h),
        None => false,
    }
}

/// The acceptance check a worker runs before fetching: refuse a blocked
/// host; refuse a key already visited; otherwise mark the key visited —
/// before any fetch begins — and accept.
pub open spec fn spec_accept(s: EngineV, u: UrlPartsV) -> (EngineV, bool) {
    if spec_url_blocked(s, u) {
        (s, false)
    } else if s.visited.contains(spec_dedup_key(u)) {
        (s, false)
    } else {
        (
            EngineV {
                queue: s.queue,
                visited: s.visited.insert(spec_dedup_key(u)),
                blockset: s.blockset,
                responded: s.responded,
            },
            true,
        )
    }
}

/// The links a worker keeps from a fetched page: those with a fetchable
/// scheme whose key is not yet visited, in page order.
pub open spec fn spec_select_links(s: EngineV, cands: Seq<UrlPartsV>) -> Seq<UrlPartsV>
    decreases cands.len(),
{
    if cands.len() == 0 {
        Seq::empty()
    } else {
        let rest = spec_select_links(s, cands.drop_last());
        let u = cands.last();
        if spec_is_fetchable_scheme(u) && !s.visited.contains(spec_dedup_key(u)) {
            rest.push(u)
        } else {
            rest
        }
    }
}

/// Whether a response's content type is acceptable: only `text/plain`
/// and `text/html` prefixes are ever persisted.
pub open spec fn spec_acceptable_content_type(ct: Seq<char>) -> bool {
    spec_starts_with("text/plain"@, ct) || spec_starts_with("text/html"@, ct)
}

/// Whether the content type is acceptable for persisting.
pub fn acceptable_content_type(ct: &str) -> (r: bool)
    ensures
        r == spec_acceptable_content_type(ct@),
{
    let cs = chars_of(ct);
    let plain = chars_of("text/plain");
    let html = chars_of("text/html");
    starts_with_chars(&cs, &plain) || starts_with_chars(&cs, &html)
}

impl CrawlingEngine {
    /// A fresh engine with nothing blocked, nothing visited and an empty
    /// frontier.
    pub fn new() -> (r: CrawlingEngine)
        ensures
            r@.queue == Seq::<UrlPartsV>::empty(),
            r@.visited == Set::<Seq<char>>::empty(),
            r@.blockset == Set::<Seq<char>>::empty(),
            r@.responded == 0,
    {
        Self::with_blockset(Vec::new())
    }

    /// A fresh engine that never touches the given hostnames.
    pub fn with_blockset(blockset: Vec<String>) -> (r: CrawlingEngine)
        ensures
            r@.queue == Seq::<UrlPartsV>::empty(),
            r@.visited == Set::<Seq<char>>::empty(),
            r@.blockset == blockset.deep_view().to_set(),
            r@.responded == 0,
    {
        let r = CrawlingEngine {
            queue: Vec::new(),
            visited: Vec::new(),
            blockset,
            responded: 0,
        };
        proof {
            assert(r@.queue =~= Seq::<UrlPartsV>::empty());
            assert(r@.visited =~= Set::<Seq<char>>::empty());
        }
        r
    }

    /// How many pages this run has processed to the end.
    pub fn get_visited_count(&self) -> (r: u64)
        ensures
            r == self@.responded,
    {
        self.responded
    }

    /// Whether the URL's host is in the blockset.
    pub fn url_is_blocked(&self, url: &UrlParts) -> (r: bool)
        ensures
            r == spec_url_blocked(self@, url@),
    {
        match &url.host {
            Some(h) => contains_string(&self.blockset, h),
            None => false,
        }
    }

    /// Add one destination to the frontier.
    pub fn add_destination(&mut self, destination: UrlParts)
        ensures
            final(self)@ == (EngineV {
                queue: old(self)@.queue.push(destination@),
                ..old(self)@
            }),
    {
        let ghost pre = self@.queue;
        self.queue.push(destination);
        proof {
            assert(self@.queue =~= pre.push(self.queue@[self.queue@.len() - 1]@));
        }
    }

    /// Add every given destination to the frontier, in order.
    pub fn add_destinations(&mut self, destinations: Vec<UrlParts>)
        ensures
            final(self)@ == (EngineV {
                queue: old(self)@.queue + destinations.deep_view(),
                ..old(self)@
            }),
    {
        let ghost pre = self@.queue;
        let ghost incoming = destinations.deep_view();
        let mut rest = destinations;
        let n = rest.len();
        let mut i: usize = 0;
        proof {
            assert(self@.queue =~= pre + incoming.take(0));
        }
        while i < n
            invariant
                i <= n,
                n == rest@.len(),
                rest.deep_view() == incoming,
                self@.blockset == old(self)@.blockset,
                self@.visited == old(self)@.visited,
                self@.responded == old(self)@.responded,
                self@.queue == pre + incoming.take(i as int),
            decreases n - i,
        {
            let ghost pre_queue = self@.queue;
            proof {
                assert(incoming[i as int] == rest@[i as int]@);
            }
            let dest = clone_url(&rest[i]);
            self.queue.push(dest);
            proof {
                assert(self@.queue =~= pre_queue.push(incoming[i as int]));
                assert(pre_queue.push(incoming[i as int]) =~= pre + incoming.take(i + 1));
            }
            i += 1;
        }
        proof {
            assert(incoming.take(n as int) =~= incoming);
            assert(final(self)@ == (EngineV { queue: pre + incoming, ..old(self)@ }));
        }
    }

    /// Hand out the oldest destination of the frontier, or nothing when it
    /// is empty.
    pub fn next_destination(&mut self) -> (r: Option<UrlParts>)
        ensures
            old(self)@.queue.len() == 0 ==> r is None && *final(self) == *old(self),
            old(self)@.queue.len() > 0 ==> (r matches Some(u) && u@ == old(self)@.queue[0]
                && final(self)@ == (EngineV {
                queue: old(self)@.queue.drop_first(),
                ..old(self)@
            })),
    {
        if self.queue.len() == 0 {
            return None;
        }
        let u = self.queue.remove(0);
        proof {
            assert(self@.queue =~= old(self)@.queue.drop_first());
        }
        Some(u)
    }

    /// The acceptance check a worker runs on a dequeued URL, as one atomic
    /// step: refused where the host is blocked or the key was already
    /// visited; otherwise the key is marked visited before any fetch
    /// starts, and the URL is accepted.
    pub fn try_accept(&mut self, url: &UrlParts) -> (accepted: bool)
        ensures
            accepted == spec_accept(old(self)@, url@).1,
            final(self)@ == spec_accept(old(self)@, url@).0,
    {
        if self.url_is_blocked(url) {
            return false;
        }
        let key = dedup_key(url);
        if contains_string(&self.visited, &key) {
            return false;
        }
        let ghost pre_seq = self.visited.deep_view();
        let ghost pre = self@.visited;
        self.visited.push(key);
        proof {
            broadcast use vstd::seq_lib::lemma_seq_contains_after_push;

            assert(self.visited.deep_view() =~= pre_seq.push(spec_dedup_key(url@)));
            assert(self@.visited =~= pre.insert(spec_dedup_key(url@)));
        }
        true
    }

    /// The links a worker keeps from a fetched page: fetchable scheme, key
    /// not yet visited.
    pub fn select_links(&self, candidates: &Vec<UrlParts>) -> (r: Vec<UrlParts>)
        ensures
            r.deep_view() == spec_select_links(self@, candidates.deep_view()),
    {
        let ghost cands = candidates.deep_view();
        let n = candidates.len();
        let mut r: Vec<UrlParts> = Vec::new();
        let mut i: usize = 0;
        proof {
            assert(cands.take(0).len() == 0);
            assert(r.deep_view() =~= spec_select_links(self@, cands.take(0)));
        }
        while i < n
            invariant
                i <= n,
                n == candidates@.len(),
                cands == candidates.deep_view(),
                r.deep_view() == spec_select_links(self@, cands.take(i as int)),
            decreases n - i,
        {
            let ghost pre = r.deep_view();
            proof {
                assert(cands.take(i + 1).drop_last() =~= cands.take(i as int));
                assert(cands.take(i + 1).last() == cands[i as int]);
                assert(cands[i as int] == candidates@[i as int]@);
            }
            let u = &candidates[i];
            if is_fetchable_scheme(u) {
                let key = dedup_key(u);
                if !contains_string(&self.visited, &key) {
                    proof {
                        assert(!self@.visited.contains(spec_dedup_key(cands[i as int])));
                    }
                    let kept = clone_url(u);
                    r.push(kept);
                    proof {
                        assert(r.deep_view() =~= pre.push(cands[i as int]));
                    }
                } else {
                    proof {
                        assert(self@.visited.contains(spec_dedup_key(cands[i as int])));
                    }
                }
            }
            i += 1;
        }
        proof {
            assert(cands.take(n as int) =~= cands);
        }
        r
    }

    /// What a worker does once a fetch came back, as one step: gate the
    /// content type; where it passes, keep the page (the caller persists
    /// it), enqueue the page's selected links and count the page as
    /// processed; where it fails, discard everything and leave the state
    /// as it stands.
    pub fn handle_response(
        &mut self,
        content_type: Option<&String>,
        candidates: &Vec<UrlParts>,
    ) -> (persist: bool)
        requires
            old(self)@.responded < u64::MAX,
        ensures
            persist == (content_type matches Some(ct) && spec_acceptable_content_type(ct@)),
            persist ==> final(self)@ == (EngineV {
                queue: old(self)@.queue + spec_select_links(old(self)@, candidates.deep_view()),
                responded: old(self)@.responded + 1,
                ..old(self)@
            }),
            !persist ==> *final(self) == *old(self),
    {
        match content_type {
            Some(ct) => {
                if acceptable_content_type(ct.as_str()) {
                    let links = self.select_links(candidates);
                    self.add_destinations(links);
                    self.responded = self.responded + 1;
                    true
                } else {
                    false
                }
            },
            None => false,
        }
    }
}

/// Once a URL is accepted, any later URL with the same normalized
/// (host, path) — the deduplication key; query string and fragment play
/// no part — is refused: within one run, at most one of them is ever
/// fetched.
pub proof fn lemma_at_most_one_fetch_per_key(s: EngineV, u1: UrlPartsV, u2: UrlPartsV)
    requires
        spec_accept(s, u1).1,
        u1.host == u2.host,
        u1.path == u2.path,
    ensures
        !spec_accept(spec_accept(s, u1).0, u2).1,
{
    assert(spec_dedup_key(u1) == spec_dedup_key(u2));
}

/// The acceptance check never forgets a visited key: whatever URL is
/// offered, every key visited before stays visited after.
pub proof fn lemma_visited_only_grows(s: EngineV, u: UrlPartsV)
    ensures
        s.visited.subset_of(spec_accept(s, u).0.visited),
{
    if !spec_url_blocked(s, u) && !s.visited.contains(spec_dedup_key(u)) {
        assert forall|k: Seq<char>| s.visited.contains(k) implies spec_accept(
            s,
            u,
        ).0.visited.contains(k) by {}
    }
}

/// A URL whose key is already visited is refused, and refusal changes
/// nothing: no second fetch, no second count.
pub proof fn lemma_visited_key_never_refetched(s: EngineV, u: UrlPartsV)
    requires
        s.visited.contains(spec_dedup_key(u)),
    ensures
        !spec_accept(s, u).1,
        spec_accept(s, u).0 == s,
{
}

/// A URL whose host is in the blockset is never accepted for fetching,
/// and the state — the visited set and the counter with it — stands
/// unchanged.
pub proof fn lemma_blocked_never_fetched(s: EngineV, u: UrlPartsV)
    requires
        u.host matches Some(h) && s.blockset.contains(h),
    ensures
        !spec_accept(s, u).1,
        spec_accept(s, u).0 == s,
{
}

/// An `application/octet-stream` content type is never acceptable,
/// so such a response is never persisted.
pub proof fn lemma_octet_stream_never_persisted()
    ensures
        !spec_acceptable_content_type("application/octet-stream"@),
{
    reveal_strlit("application/octet-stream");
    reveal_strlit("text/plain");
    reveal_strlit("text/html");
    let s = "application/octet-stream"@;
    if spec_starts_with("text/plain"@, s) {
        assert(s.take(10)[0] == s[0]);
    }
    if spec_starts_with("text/html"@, s) {
        assert(s.take(9)[0] == s[0]);
    }
}

} // verus!
