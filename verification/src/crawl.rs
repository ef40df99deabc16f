//! The scoped crawler as a state machine. The traversal is breadth-first
//! over a queue of `(url, depth, referer)` entries; fetching and
//! extraction are outside work, so the machine only decides: `step` says
//! what to fetch next (or that the crawl is done), and the caller reports
//! each outcome back through `on_page` / `on_pdf`.
//!
//! The machine enforces the crawl bounds by construction: the collected
//! pages never exceed `max_pages`; a canonical URL is fetched at most
//! once; every queued link beyond the seed lies inside the scope prefix;
//! and a page whose depth has reached `max_depth` expands no links.

use vstd::prelude::*;

use crate::query::vec_contains_str;
use crate::text::{is_blank, lemma_push_to_set_str, str_is_blank, str_starts_with};
use crate::urls::{canonical_of, looks_like_pdf, same_origin, spec_looks_like_pdf,
    strip_url_fragment, url_origin};

verus! {

/// The crawl bounds.
pub struct CrawlConfig {
    /// Links are expanded only from pages below this depth.
    pub max_depth: usize,
    /// Only links whose canonical form starts with this prefix are queued.
    pub scope_prefix: String,
    /// The crawl collects at most this many pages.
    pub max_pages: usize,
    /// At most this many links are taken from one page.
    pub link_cap: usize,
    /// Whether PDF resources may be fetched at all.
    pub allow_pdfs: bool,
}

/// One queued page.
pub struct QueueEntry {
    /// The URL to fetch (possibly still carrying a fragment).
    pub url: String,
    /// Its distance from the seed.
    pub depth: usize,
    /// The page it was found on.
    pub referer: Option<String>,
}

/// What the caller should do next.
pub enum CrawlStep {
    /// Fetch this page and report through `on_page`.
    FetchPage { url: String, depth: usize, referer: Option<String> },
    /// Fetch this PDF resource and report through `on_pdf`.
    FetchPdf { url: String, referer: String },
    /// The crawl is over: the page budget is reached or nothing is left.
    Done,
}

/// Where the machine stands.
pub enum Phase {
    /// Ready to take the next queue entry.
    Idle,
    /// A page fetch is outstanding.
    AwaitPage { canonical: String, depth: usize },
    /// Walking the links of a fetched page.
    Expand { base: String, depth: usize, links: Vec<String>, next: usize, added: usize },
    /// A PDF fetch is outstanding during expansion.
    AwaitPdf {
        canonical: String,
        base: String,
        depth: usize,
        links: Vec<String>,
        next: usize,
        added: usize,
    },
}

/// How many links of an expansion are still unprocessed.
pub open spec fn links_rem(p: Phase) -> int {
    match p {
        Phase::Expand { links, next, .. } => if next <= links@.len() {
            links@.len() - next
        } else {
            0
        },
        _ => 0,
    }
}

/// Ranks expansion above idleness, so that closing an expansion counts as
/// progress.
pub open spec fn phase_weight(p: Phase) -> int {
    match p {
        Phase::Expand { .. } => 1,
        _ => 0,
    }
}

/// The crawler state.
pub struct Crawler {
    /// The bounds.
    pub config: CrawlConfig,
    /// The first seed; PDF fetches must share its origin.
    pub seed: String,
    /// Pages still to visit.
    pub queue: Vec<QueueEntry>,
    /// Canonical URLs already taken (fetched or queued for fetch).
    pub seen: Vec<String>,
    /// The collected `(canonical url, text)` pages.
    pub out: Vec<(String, String)>,
    /// Where the machine stands.
    pub phase: Phase,
}

impl Crawler {
    /// The canonical URLs already taken.
    pub open spec fn seen_set(self) -> Set<Seq<char>> {
        self.seen.deep_view().to_set()
    }

    /// The collected pages.
    pub open spec fn pages(self) -> Seq<(Seq<char>, Seq<char>)> {
        self.out.deep_view()
    }

    /// A page fetch is outstanding.
    pub open spec fn awaiting_page(self) -> bool {
        self.phase is AwaitPage
    }

    /// A PDF fetch is outstanding.
    pub open spec fn awaiting_pdf(self) -> bool {
        self.phase is AwaitPdf
    }

    /// The canonical URL of the outstanding page fetch.
    pub open spec fn awaited_canonical(self) -> Seq<char> {
        match self.phase {
            Phase::AwaitPage { canonical, .. } => canonical@,
            Phase::AwaitPdf { canonical, .. } => canonical@,
            _ => Seq::empty(),
        }
    }

    /// The depth of the outstanding page fetch.
    pub open spec fn awaited_depth(self) -> nat {
        match self.phase {
            Phase::AwaitPage { depth, .. } => depth as nat,
            _ => 0,
        }
    }

    /// The machine's invariant: the page budget holds, queued entries are
    /// depth-bounded and (beyond the seed) inside the scope, and link
    /// expansion only ever stands on a page below the depth limit.
    pub open spec fn wf(self) -> bool {
        &&& self.out@.len() <= self.config.max_pages
        &&& forall|k: int|
            0 <= k < self.queue@.len() ==> (#[trigger] self.queue@[k]).depth
                <= self.config.max_depth
        &&& forall|k: int|
            0 <= k < self.queue@.len() ==> ((#[trigger] self.queue@[k]).depth > 0
                ==> self.config.scope_prefix@.is_prefix_of(canonical_of(self.queue@[k].url@)))
        &&& match self.phase {
            Phase::Idle => true,
            Phase::AwaitPage { .. } => true,
            Phase::Expand { depth, .. } => depth < self.config.max_depth,
            Phase::AwaitPdf { depth, .. } => depth < self.config.max_depth,
        }
    }

    /// Law: a well-formed crawler never holds more collected pages than
    /// its page budget — and every transition preserves well-formedness,
    /// so a crawl can never return more than `max_pages` entries.
    pub proof fn lemma_page_budget(self)
        requires
            self.wf(),
        ensures
            self.pages().len() <= self.config.max_pages,
    {
    }

    /// Starts a crawl from one seed URL.
    pub fn new(seed: String, config: CrawlConfig) -> (c: Crawler)
        ensures
            c.wf(),
            c.pages() == Seq::<(Seq<char>, Seq<char>)>::empty(),
            c.seen_set() == Set::<Seq<char>>::empty(),
            !c.awaiting_page() && !c.awaiting_pdf(),
            c.config == config,
            c.queue@.len() == 1,
            c.queue@[0].url@ == seed@,
            c.queue@[0].depth == 0,
    {
        let mut queue: Vec<QueueEntry> = Vec::new();
        let entry = QueueEntry { url: seed.clone(), depth: 0, referer: None };
        queue.push(entry);
        let c = Crawler {
            config,
            seed,
            queue,
            seen: Vec::new(),
            out: Vec::new(),
            phase: Phase::Idle,
        };
        proof {
            assert(c.pages() =~= Seq::<(Seq<char>, Seq<char>)>::empty());
            assert(c.seen.deep_view() =~= Seq::<Seq<char>>::empty());
            assert(c.seen_set() =~= Set::<Seq<char>>::empty());
        }
        c
    }

    /// Decides the next fetch. A page is only ever handed out once: its
    /// canonical URL was not seen before and is marked seen now. A page
    /// fetched beyond depth 0 always lies inside the scope prefix, and a
    /// PDF fetch happens only when the policy allows PDFs and the resource
    /// shares the seed's origin. `Done` comes exactly when the page budget
    /// is reached or nothing is left to do. The collected pages never
    /// change here.
    pub fn step(&mut self) -> (r: CrawlStep)
        requires
            old(self).wf(),
            !old(self).awaiting_page(),
            !old(self).awaiting_pdf(),
        ensures
            final(self).wf(),
            final(self).pages() == old(self).pages(),
            final(self).config == old(self).config,
            match r {
                CrawlStep::FetchPage { url, depth, .. } => {
                    &&& final(self).awaiting_page()
                    &&& final(self).awaited_canonical() == canonical_of(url@)
                    &&& final(self).awaited_depth() == depth
                    &&& depth <= final(self).config.max_depth
                    &&& !old(self).seen_set().contains(canonical_of(url@))
                    &&& final(self).seen_set() == old(self).seen_set().insert(canonical_of(url@))
                    &&& (depth > 0 ==> final(self).config.scope_prefix@.is_prefix_of(
                        canonical_of(url@),
                    ))
                },
                CrawlStep::FetchPdf { url, .. } => {
                    &&& final(self).awaiting_pdf()
                    &&& final(self).config.allow_pdfs
                    &&& spec_looks_like_pdf(url@)
                    &&& url_origin(url@) is Some && url_origin(url@) == url_origin(
                        final(self).seed@,
                    )
                    &&& !old(self).seen_set().contains(canonical_of(url@))
                    &&& final(self).seen_set() == old(self).seen_set().insert(canonical_of(url@))
                },
                CrawlStep::Done => {
                    &&& !final(self).awaiting_page()
                    &&& !final(self).awaiting_pdf()
                    &&& (final(self).pages().len() >= final(self).config.max_pages
                        || final(self).queue@.len() == 0)
                },
            },
    {
        loop
            invariant
                self.wf(),
                !self.awaiting_page(),
                !self.awaiting_pdf(),
                self.pages() == old(self).pages(),
                self.config == old(self).config,
                self.seed == old(self).seed,
                self.seen_set() == old(self).seen_set(),
            decreases links_rem(self.phase), phase_weight(self.phase), self.queue@.len(),
        {
            let mut ph = Phase::Idle;
            core::mem::swap(&mut ph, &mut self.phase);
            match ph {
                Phase::Idle => {
                    // Take the next not-yet-seen queue entry.
                    if self.out.len() >= self.config.max_pages || self.queue.len() == 0 {
                        return CrawlStep::Done;
                    }
                    let ghost q0 = self.queue@;
                    let entry = self.queue.remove(0);
                    proof {
                        assert(entry == q0[0]);
                        assert forall|k: int| 0 <= k < self.queue@.len() implies self.queue@[k]
                            == q0[k + 1] by {}
                    }
                    let canonical = strip_url_fragment(entry.url.as_str());
                    if vec_contains_str(&self.seen, canonical.as_str()) {
                        continue ;
                    }
                    let ghost seen_before = self.seen.deep_view();
                    self.seen.push(canonical.clone());
                    proof {
                        assert(self.seen.deep_view() =~= seen_before.push(canonical@));
                        lemma_push_to_set_str(seen_before, canonical@);
                    }
                    self.phase = Phase::AwaitPage { canonical, depth: entry.depth };
                    return CrawlStep::FetchPage {
                        url: entry.url,
                        depth: entry.depth,
                        referer: entry.referer,
                    };
                },
                Phase::Expand { base, depth, links, next, added } => {
                    if next >= links.len() || added >= self.config.link_cap {
                        self.phase = Phase::Idle;
                        continue ;
                    }
                    let link = links[next].clone();
                    let lk = strip_url_fragment(link.as_str());
                    if looks_like_pdf(link.as_str()) {
                        let origin_ok = same_origin(link.as_str(), self.seed.as_str());
                        let fresh = !vec_contains_str(&self.seen, lk.as_str());
                        if self.config.allow_pdfs && origin_ok && fresh {
                            let ghost seen_before = self.seen.deep_view();
                            self.seen.push(lk.clone());
                            proof {
                                assert(self.seen.deep_view() =~= seen_before.push(lk@));
                                lemma_push_to_set_str(seen_before, lk@);
                            }
                            let referer = base.clone();
                            self.phase = Phase::AwaitPdf {
                                canonical: lk,
                                base,
                                depth,
                                links,
                                next: next + 1,
                                added,
                            };
                            return CrawlStep::FetchPdf { url: link, referer };
                        } else {
                            self.phase = Phase::Expand {
                                base,
                                depth,
                                links,
                                next: next + 1,
                                added,
                            };
                            continue ;
                        }
                    } else if str_starts_with(lk.as_str(), self.config.scope_prefix.as_str()) {
                        let entry = QueueEntry {
                            url: link,
                            depth: depth + 1,
                            referer: Some(base.clone()),
                        };
                        let ghost q0 = self.queue@;
                        let ghost e = entry;
                        self.queue.push(entry);
                        proof {
                            assert(self.queue@ =~= q0.push(e));
                            assert(canonical_of(self.queue@[q0.len() as int].url@) == lk@);
                            assert forall|k: int| 0 <= k < q0.len() implies self.queue@[k]
                                == q0[k] by {}
                        }
                        self.phase = Phase::Expand {
                            base,
                            depth,
                            links,
                            next: next + 1,
                            added: added + 1,
                        };
                        continue ;
                    } else {
                        self.phase = Phase::Expand { base, depth, links, next: next + 1, added };
                        continue ;
                    }
                },
                _ => {
                    proof {
                        assert(false);
                    }
                    return CrawlStep::Done;
                },
            }
        }
    }

    /// Reports the outcome of the outstanding page fetch. A failed fetch
    /// (`ok == false`) is swallowed: nothing is recorded and the crawl
    /// goes on. On success the page joins the results exactly when its
    /// text is non-blank and the page budget is not yet reached. Links are
    /// taken up for expansion only when the page's depth is strictly below
    /// `max_depth`: a page at the depth limit expands nothing, and the
    /// queue is untouched here in every case.
    pub fn on_page(&mut self, text: String, links: Vec<String>, ok: bool)
        requires
            old(self).wf(),
            old(self).awaiting_page(),
        ensures
            final(self).wf(),
            final(self).config == old(self).config,
            final(self).queue@ == old(self).queue@,
            final(self).seen_set() == old(self).seen_set(),
            !final(self).awaiting_page() && !final(self).awaiting_pdf(),
            (if ok && !is_blank(text@) && old(self).pages().len() < old(self).config.max_pages {
                final(self).pages() == old(self).pages().push(
                    (old(self).awaited_canonical(), text@),
                )
            } else {
                final(self).pages() == old(self).pages()
            }),
            old(self).awaited_depth() >= old(self).config.max_depth ==> !(final(self).phase
                is Expand),
    {
        let (canonical, depth) = match &self.phase {
            Phase::AwaitPage { canonical, depth } => (canonical.clone(), *depth),
            _ => (String::new(), 0),
        };
        if ok {
            if !str_is_blank(text.as_str()) && self.out.len() < self.config.max_pages {
                let ghost out0 = self.out.deep_view();
                self.out.push((canonical.clone(), text));
                proof {
                    assert(self.out.deep_view() =~= out0.push((canonical@, text@)));
                }
            }
            if depth < self.config.max_depth {
                self.phase = Phase::Expand { base: canonical, depth, links, next: 0, added: 0 };
            } else {
                self.phase = Phase::Idle;
            }
        } else {
            self.phase = Phase::Idle;
        }
    }

    /// Reports the outcome of the outstanding PDF fetch. `None` stands for
    /// any failure (fetch error, oversized payload, failed extraction) and
    /// is swallowed. Extracted text joins the results exactly when it is
    /// non-blank and the page budget is not yet reached; only then does
    /// the PDF count against the page's link cap.
    pub fn on_pdf(&mut self, text: Option<String>)
        requires
            old(self).wf(),
            old(self).awaiting_pdf(),
        ensures
            final(self).wf(),
            final(self).config == old(self).config,
            final(self).queue@ == old(self).queue@,
            final(self).seen_set() == old(self).seen_set(),
            !final(self).awaiting_page() && !final(self).awaiting_pdf(),
            (match text {
                Some(t) => {
                    if !is_blank(t@) && old(self).pages().len() < old(self).config.max_pages {
                        final(self).pages() == old(self).pages().push(
                            (old(self).awaited_canonical(), t@),
                        )
                    } else {
                        final(self).pages() == old(self).pages()
                    }
                },
                None => final(self).pages() == old(self).pages(),
            }),
    {
        let mut ph = Phase::Idle;
        core::mem::swap(&mut ph, &mut self.phase);
        let (canonical, base, depth, links, next, added) = match ph {
            Phase::AwaitPdf { canonical, base, depth, links, next, added } => (
                canonical,
                base,
                depth,
                links,
                next,
                added,
            ),
            _ => (String::new(), String::new(), 0, Vec::new(), 0, 0),
        };
        proof {
            assert(canonical@ == old(self).awaited_canonical());
        }
        let mut added_now = added;
        match text {
            Some(t) => {
                if !str_is_blank(t.as_str()) && self.out.len() < self.config.max_pages {
                    let ghost out0 = self.out.deep_view();
                    self.out.push((canonical, t));
                    proof {
                        assert(self.out.deep_view() =~= out0.push(
                            (old(self).awaited_canonical(), t@),
                        ));
                    }
                    if added_now < usize::MAX {
                        added_now = added_now + 1;
                    }
                }
            },
            None => {},
        }
        self.phase = Phase::Expand { base, depth, links, next, added: added_now };
    }
}

} // verus!
