//! One crawl from job to result table: the decisions between the fetches.
//!
//! The caller fetches; the crawl decides. `Crawl::begin` checks the job,
//! `Crawl::advance` names the next batch of addresses or gives the result,
//! and `Crawl::accept` takes in what one fetch brought.

use crate::address::{normalize_url, normalized};
use crate::document::{
    compile_selector, parse_document, selector_is_valid, sources, CompiledSelector, PageRecord,
};
use crate::extract::{extract_pages, extraction, rules_wf};
use crate::links::{extract_links, followed, links_of, pattern_text};
use crate::pattern::{compile_pattern, pattern_is_valid, FollowPattern};
use crate::rules::{
    compile_rules, first_invalid, CompiledRule, ConfigError, CrawlError, CrawlJob,
};
use crate::schedule::{CrawlState, BATCH_SIZE};
use crate::table::ResultTable;
use crate::text::texts;
use vstd::prelude::*;

verus! {

/// The selector that finds the links of a page.
pub open spec fn anchor_selector() -> Seq<char> {
    "a[href]"@
}

/// A crawl in progress.
pub struct Crawl {
    rules: Vec<CompiledRule>,
    pattern: Option<FollowPattern>,
    anchors: CompiledSelector,
    state: CrawlState,
    pages: Vec<PageRecord>,
}

/// What a crawl asks of its caller next.
pub enum Step {
    /// Fetch these addresses, six at most, and hand each outcome to
    /// `Crawl::accept`, in this order.
    Fetch(Crawl, Vec<String>),
    /// The crawl is over; this is what extraction found on its pages.
    Finished(ResultTable),
}

/// Whether a job can start: every selector compiles, the seed is a
/// well-formed address, the follow pattern, if there is one, compiles, and
/// so does the selector that finds links.
pub open spec fn startable(job: CrawlJob) -> bool {
    &&& first_invalid(job.searches@) == job.searches.len()
    &&& normalized(job.url@) is Some
    &&& (job.follow_links matches Some(source) ==> pattern_is_valid(source@))
    &&& selector_is_valid(anchor_selector())
}

/// The deepest level that a job asks for.
pub open spec fn depth_limit(job: CrawlJob) -> int {
    match job.max_depth {
        Some(limit) => limit as int,
        None => 0,
    }
}

/// The follow pattern of a job, as text.
pub open spec fn job_pattern(job: CrawlJob) -> Option<Seq<char>> {
    match job.follow_links {
        Some(source) => Some(source@),
        None => None,
    }
}

impl Crawl {
    /// The compiled rules of the job.
    pub closed spec fn rules(&self) -> Seq<CompiledRule> {
        self.rules@
    }

    /// The follow pattern of the job, as text.
    pub closed spec fn pattern(&self) -> Option<Seq<char>> {
        pattern_text(self.pattern)
    }

    /// The text of the selector that finds links.
    pub closed spec fn anchors(&self) -> Seq<char> {
        self.anchors@
    }

    /// The scheduler's state.
    pub closed spec fn state(&self) -> CrawlState {
        self.state
    }

    /// The pages fetched so far, in the order in which they came in.
    pub closed spec fn pages(&self) -> Seq<PageRecord> {
        self.pages@
    }

    /// The invariant of a crawl.
    ///
    /// The scheduler's own invariant holds. There is one page for every
    /// fetched address, in the same order. A page's level is within the
    /// limit and not above the current level; a page of level 0 is the
    /// seed's; a page of a deeper level has an address that the follow
    /// pattern lets through, as has every address that was discovered and
    /// every address of a frontier past level 0.
    pub open spec fn wf(&self) -> bool {
        &&& self.state().wf()
        &&& rules_wf(self.rules())
        &&& self.anchors() == anchor_selector()
        &&& self.pages().len() == self.state().visited().len()
        &&& forall|i: int|
            0 <= i < self.pages().len() ==> {
                &&& (#[trigger] self.pages()[i]).url@ == self.state().visited()[i]
                &&& self.pages()[i].level <= self.state().depth()
                &&& self.pages()[i].level <= self.state().max_depth()
                &&& (self.pages()[i].level == 0 ==> self.pages()[i].url@ == self.state().seed())
                &&& (self.pages()[i].level >= 1 ==> followed(
                    self.pattern(),
                    self.pages()[i].url@,
                ))
            }
        &&& forall|link: Seq<char>| #[trigger]
            self.state().discovered().contains(link) ==> followed(self.pattern(), link)
        &&& self.state().depth() >= 1 ==> forall|i: int|
            0 <= i < self.state().frontier().len() ==> followed(
                self.pattern(),
                #[trigger] self.state().frontier()[i],
            )
    }

    /// What the page with markup `body`, fetched under the awaited address,
    /// sends the crawl on to.
    pub open spec fn links_on(&self, body: Seq<char>) -> Set<Seq<char>> {
        links_of(
            body,
            self.anchors(),
            self.state().awaited(),
            self.pattern(),
            self.state().visited().to_set(),
        )
    }

    /// Whether `self` is the crawl `before` after the page with markup
    /// `body` came in for the awaited address: the job stays, the
    /// scheduler moves on with the links of the page, and the page is
    /// kept, under the awaited address and the level at which it was
    /// fetched. Nothing changes where no page was awaited.
    pub open spec fn succeeds(&self, before: Crawl, body: Seq<char>) -> bool {
        &&& self.rules() == before.rules()
        &&& self.pattern() == before.pattern()
        &&& self.anchors() == before.anchors()
        &&& self.state().follows(before.state(), before.links_on(body))
        &&& if before.state().active() {
            &&& self.pages().len() == before.pages().len() + 1
            &&& forall|i: int|
                0 <= i < before.pages().len() ==> #[trigger] self.pages()[i] == before.pages()[i]
            &&& self.pages().last().url@ == before.state().awaited()
            &&& self.pages().last().level == before.state().depth()
            &&& self.pages().last().document@ == body
        } else {
            self.pages() == before.pages()
        }
    }

    /// Checks a job and sets the crawl up: the rules are compiled, the seed
    /// is made canonical, the follow pattern is compiled. The first of
    /// these that fails refuses the job, and nothing is fetched.
    pub fn begin(job: &CrawlJob) -> (started: Result<Crawl, CrawlError>)
        ensures
            started is Ok <==> startable(*job),
            started matches Ok(crawl) ==> {
                &&& crawl.wf()
                &&& crawl.rules().len() == job.searches.len()
                &&& forall|i: int|
                    0 <= i < job.searches.len() ==> (#[trigger] crawl.rules()[i]).compiles(
                        job.searches[i],
                    )
                &&& crawl.pattern() == job_pattern(*job)
                &&& Some(crawl.state().seed()) == normalized(job.url@)
                &&& crawl.state().max_depth() == depth_limit(*job)
                &&& crawl.state().depth() == 0
                &&& crawl.state().active()
                &&& crawl.pages().len() == 0
            },
            started matches Err(error) ==> {
                if first_invalid(job.searches@) < job.searches.len() {
                    &&& error matches CrawlError::Config(ConfigError::InvalidSelector(text))
                    &&& text@ == job.searches[first_invalid(job.searches@)].selector@
                } else if normalized(job.url@) is None {
                    error matches CrawlError::Config(ConfigError::MalformedSeed)
                } else if job.follow_links matches Some(source) && !pattern_is_valid(source@) {
                    error matches CrawlError::Config(ConfigError::InvalidPattern(_))
                } else {
                    &&& error matches CrawlError::Config(ConfigError::InvalidSelector(text))
                    &&& text@ == anchor_selector()
                }
            },
    {
        proof {
            crate::rules::lemma_first_invalid(job.searches@);
        }
        let rules = match compile_rules(&job.searches) {
            Ok(rules) => rules,
            Err(error) => {
                return Err(CrawlError::Config(error));
            },
        };
        let seed = match normalize_url(job.url.as_str()) {
            Some(seed) => seed,
            None => {
                return Err(CrawlError::Config(ConfigError::MalformedSeed));
            },
        };
        let pattern = match &job.follow_links {
            None => None,
            Some(source) => match compile_pattern(source.as_str()) {
                Ok(pattern) => Some(pattern),
                Err(report) => {
                    return Err(CrawlError::Config(ConfigError::InvalidPattern(report)));
                },
            },
        };
        let anchors = match compile_selector("a[href]") {
            Some(anchors) => anchors,
            None => {
                return Err(
                    CrawlError::Config(ConfigError::InvalidSelector("a[href]".to_owned())),
                );
            },
        };
        let limit = match job.max_depth {
            Some(limit) => limit,
            None => 0,
        };
        let state = CrawlState::new(seed, limit);
        Ok(Crawl { rules, pattern, anchors, state, pages: Vec::new() })
    }

    /// Takes in the outcome of the fetch of the awaited address. A failed
    /// fetch ends the crawl: the error is handed back and the crawl is
    /// gone, with all it had gathered. A page is parsed, mined for links,
    /// counted as fetched and kept for extraction.
    pub fn accept(self, fetched: Result<String, String>) -> (next: Result<Crawl, CrawlError>)
        requires
            self.wf(),
        ensures
            next is Ok <==> fetched is Ok,
            next matches Ok(crawl) ==> crawl.wf() && crawl.succeeds(self, fetched->Ok_0@),
            next matches Err(error) ==> {
                &&& error matches CrawlError::Fetch(message)
                &&& message@ == fetched->Err_0@
            },
    {
        let body = match fetched {
            Ok(body) => body,
            Err(message) => {
                return Err(CrawlError::Fetch(message));
            },
        };
        let mut crawl = self;
        let address = match crawl.state.current() {
            Some(address) => address.clone(),
            None => {
                proof {
                    assert(crawl.pages() == self.pages());
                }
                return Ok(crawl);
            },
        };
        let level = crawl.state.level();
        let document = parse_document(body.as_str());
        let links = extract_links(
            &document,
            &crawl.anchors,
            address.as_str(),
            &crawl.pattern,
            crawl.state.fetched(),
        );
        crawl.state.record(&links);
        crawl.pages.push(PageRecord { url: address, level, document });
        proof {
            let found = self.links_on(body@);
            assert(crate::text::text_set(links@) == found);
            assert forall|link: Seq<char>| found.contains(link) implies followed(
                self.pattern(),
                link,
            ) by {}
            assert forall|link: Seq<char>| #[trigger]
                crawl.state().discovered().contains(link) implies followed(
                crawl.pattern(),
                link,
            ) by {}
            if crawl.state().depth() >= 1 {
                assert forall|i: int| 0 <= i < crawl.state().frontier().len() implies followed(
                    crawl.pattern(),
                    #[trigger] crawl.state().frontier()[i],
                ) by {
                    let link = crawl.state().frontier()[i];
                    if self.state().cursor() + 1 < self.state().frontier().len() {
                        assert(link == self.state().frontier()[i]);
                    } else {
                        assert(crawl.state().frontier().contains(link));
                        assert(crawl.state().frontier().to_set().contains(link));
                    }
                }
            }
            assert forall|i: int| 0 <= i < crawl.pages().len() implies {
                &&& (#[trigger] crawl.pages()[i]).url@ == crawl.state().visited()[i]
                &&& crawl.pages()[i].level <= crawl.state().depth()
                &&& crawl.pages()[i].level <= crawl.state().max_depth()
                &&& (crawl.pages()[i].level == 0 ==> crawl.pages()[i].url@
                    == crawl.state().seed())
                &&& (crawl.pages()[i].level >= 1 ==> followed(
                    crawl.pattern(),
                    crawl.pages()[i].url@,
                ))
            } by {
                if i < self.pages().len() {
                    assert(crawl.pages()[i] == self.pages()[i]);
                } else {
                    if self.state().depth() >= 1 {
                        assert(followed(
                            self.pattern(),
                            self.state().frontier()[self.state().cursor()],
                        ));
                    }
                }
            }
        }
        Ok(crawl)
    }

    /// The scheduler's state.
    pub fn scheduler(&self) -> (state: &CrawlState)
        ensures
            *state == self.state(),
    {
        &self.state
    }

    /// The pages fetched so far, in the order in which they came in.
    pub fn fetched_pages(&self) -> (pages: &Vec<PageRecord>)
        ensures
            pages@ == self.pages(),
    {
        &self.pages
    }

    /// Says what comes next. While a page is awaited: the batch of
    /// addresses to fetch, six at most. Once none is awaited, because the
    /// frontier is empty or the level is past the limit: the table of what
    /// the rules read off all the pages fetched.
    pub fn advance(self) -> (step: Step)
        requires
            self.wf(),
        ensures
            step is Fetch <==> self.state().active(),
            step matches Step::Fetch(crawl, batch) ==> {
                &&& crawl == self
                &&& texts(batch@) == self.state().batch()
                &&& 0 < batch.len() <= BATCH_SIZE
            },
            step matches Step::Finished(table) ==> {
                &&& table.wf()
                &&& table@ == extraction(self.rules(), sources(self.pages()))
            },
    {
        if self.state.is_active() {
            let batch = self.state.next_batch();
            Step::Fetch(self, batch)
        } else {
            Step::Finished(extract_pages(&self.rules, &self.pages))
        }
    }
}

/// No page of a crawl lies deeper than the limit, and a page is awaited
/// only at a level within the limit: what the crawl first comes upon past
/// the limit is never fetched.
pub proof fn lemma_depth_bounded(crawl: Crawl)
    requires
        crawl.wf(),
    ensures
        forall|i: int|
            0 <= i < crawl.pages().len() ==> (#[trigger] crawl.pages()[i]).level
                <= crawl.state().max_depth(),
        crawl.state().active() ==> crawl.state().depth() <= crawl.state().max_depth(),
{
}

/// No address is fetched twice: the pages of a crawl have pairwise
/// different addresses.
pub proof fn lemma_fetched_once(crawl: Crawl, i: int, j: int)
    requires
        crawl.wf(),
        0 <= i < crawl.pages().len(),
        0 <= j < crawl.pages().len(),
        i != j,
    ensures
        crawl.pages()[i].url@ != crawl.pages()[j].url@,
{
    assert(crawl.pages()[i].url@ == crawl.state().visited()[i]);
    assert(crawl.pages()[j].url@ == crawl.state().visited()[j]);
}

/// With a depth limit of 0 a crawl fetches the seed and nothing else,
/// whatever the follow pattern: it never holds a page but the seed's, and
/// holds exactly that one when it is over.
pub proof fn lemma_limit_zero_keeps_to_seed(crawl: Crawl)
    requires
        crawl.wf(),
        crawl.state().max_depth() == 0,
    ensures
        crawl.pages().len() <= 1,
        forall|i: int|
            0 <= i < crawl.pages().len() ==> (#[trigger] crawl.pages()[i]).url@
                == crawl.state().seed(),
        !crawl.state().active() ==> crawl.pages().len() == 1,
{
    assert forall|i: int| 0 <= i < crawl.pages().len() implies (#[trigger] crawl.pages()[i]).url@
        == crawl.state().seed() by {
        assert(crawl.pages()[i].level <= crawl.state().max_depth());
    }
    if crawl.pages().len() >= 2 {
        assert(crawl.pages()[0].url@ == crawl.pages()[1].url@);
        lemma_fetched_once(crawl, 0, 1);
    }
}

/// Without a follow pattern a crawl fetches the seed and nothing else,
/// whatever the depth limit: it never holds a page but the seed's, and
/// holds exactly that one when it is over.
pub proof fn lemma_no_pattern_keeps_to_seed(crawl: Crawl)
    requires
        crawl.wf(),
        crawl.pattern() is None,
    ensures
        crawl.pages().len() <= 1,
        forall|i: int|
            0 <= i < crawl.pages().len() ==> (#[trigger] crawl.pages()[i]).url@
                == crawl.state().seed(),
        !crawl.state().active() ==> crawl.pages().len() == 1,
{
    assert forall|i: int| 0 <= i < crawl.pages().len() implies (#[trigger] crawl.pages()[i]).url@
        == crawl.state().seed() by {
        if crawl.pages()[i].level >= 1 {
            assert(followed(crawl.pattern(), crawl.pages()[i].url@));
        }
    }
    if crawl.pages().len() >= 2 {
        assert(crawl.pages()[0].url@ == crawl.pages()[1].url@);
        lemma_fetched_once(crawl, 0, 1);
    }
    if !crawl.state().active() && crawl.state().depth() == 0 {
        assert(crawl.state().frontier().len() == 1);
    }
}

/// Without a follow pattern no page sends the crawl on: nothing is ever
/// discovered, and past level 0 the frontier is empty.
pub proof fn lemma_no_pattern_discovers_nothing(crawl: Crawl)
    requires
        crawl.wf(),
        crawl.pattern() is None,
    ensures
        crawl.state().discovered() == Set::<Seq<char>>::empty(),
        crawl.state().depth() >= 1 ==> crawl.state().frontier().len() == 0,
{
    assert forall|link: Seq<char>| !crawl.state().discovered().contains(link) by {
        if crawl.state().discovered().contains(link) {
            assert(followed(crawl.pattern(), link));
        }
    }
    assert(crawl.state().discovered() =~= Set::<Seq<char>>::empty());
    if crawl.state().depth() >= 1 && crawl.state().frontier().len() > 0 {
        assert(followed(crawl.pattern(), crawl.state().frontier()[0]));
    }
}

} // verus!
