//! The crawl scheduler: breadth-first levels, each fetched in batches.

use crate::text::{distinct, lemma_text_set_push, merge_distinct, text_set, texts, without};
use vstd::prelude::*;

verus! {

/// How many pages are fetched at a time, at most.
pub const BATCH_SIZE: usize = 6;

/// The state of one crawl: the frontier of the current level, how far the
/// level has been fetched, what has been fetched so far, and what the
/// pages of this level have sent on to the next.
pub struct CrawlState {
    seed: String,
    frontier: Vec<String>,
    cursor: usize,
    visited: Vec<String>,
    discovered: Vec<String>,
    depth: u64,
    max_depth: u32,
}

impl CrawlState {
    /// The canonical seed address.
    pub closed spec fn seed(&self) -> Seq<char> {
        self.seed@
    }

    /// The addresses of the current level, in the order in which they are fetched.
    pub closed spec fn frontier(&self) -> Seq<Seq<char>> {
        texts(self.frontier@)
    }

    /// How many addresses of the current level have been fetched.
    pub closed spec fn cursor(&self) -> int {
        self.cursor as int
    }

    /// The addresses fetched so far, in the order in which they were fetched.
    pub closed spec fn visited(&self) -> Seq<Seq<char>> {
        texts(self.visited@)
    }

    /// The addresses that the pages of the current level have sent on.
    pub closed spec fn discovered(&self) -> Set<Seq<char>> {
        text_set(self.discovered@)
    }

    /// The current level; the seed is level 0.
    pub closed spec fn depth(&self) -> int {
        self.depth as int
    }

    /// The deepest level that is fetched.
    pub closed spec fn max_depth(&self) -> int {
        self.max_depth as int
    }

    /// What holds of the representation alone.
    pub closed spec fn inner_wf(&self) -> bool {
        distinct(self.discovered@)
    }

    /// Whether a page is still to be fetched: the level is within the
    /// limit and not all of its frontier has been fetched.
    pub open spec fn active(&self) -> bool {
        self.cursor() < self.frontier().len() && self.depth() <= self.max_depth()
    }

    /// The address whose page is due next.
    pub open spec fn awaited(&self) -> Seq<char> {
        self.frontier()[self.cursor()]
    }

    /// How many addresses the batch that is due holds: what is left of the
    /// current group of six, or of the frontier if that ends sooner.
    pub open spec fn batch_len(&self) -> int {
        if self.active() {
            let room = BATCH_SIZE as int - self.cursor() % (BATCH_SIZE as int);
            let left = self.frontier().len() - self.cursor();
            if left <= room {
                left
            } else {
                room
            }
        } else {
            0
        }
    }

    /// The addresses of the batch that is due, in order.
    pub open spec fn batch(&self) -> Seq<Seq<char>> {
        self.frontier().subrange(self.cursor(), self.cursor() + self.batch_len())
    }

    /// The invariant of a crawl.
    ///
    /// No address stands twice in the frontier, none was fetched twice; the
    /// part of the frontier that was fetched is among the fetched, the part
    /// that was not is disjoint from them, so at the start of a level no
    /// frontier address was fetched before. The depth exceeds the limit by
    /// one at most. Level 0 is the seed alone.
    pub open spec fn wf(&self) -> bool {
        &&& self.inner_wf()
        &&& self.frontier().no_duplicates()
        &&& self.visited().no_duplicates()
        &&& 0 <= self.cursor() <= self.frontier().len()
        &&& 0 <= self.max_depth()
        &&& 0 <= self.depth() <= self.max_depth() + 1
        &&& forall|i: int| 0 <= i < self.cursor() ==> self.visited().contains(self.frontier()[i])
        &&& forall|i: int|
            self.cursor() <= i < self.frontier().len() ==> !self.visited().contains(
                self.frontier()[i],
            )
        &&& self.depth() <= self.max_depth() && self.frontier().len() > 0 ==> self.cursor()
            < self.frontier().len()
        &&& self.depth() == 0 ==> {
            &&& self.frontier() == seq![self.seed()]
            &&& self.cursor() == 0
            &&& self.visited().len() == 0
            &&& self.discovered() == Set::<Seq<char>>::empty()
        }
        &&& self.depth() >= 1 ==> self.visited().len() >= 1 && self.visited()[0] == self.seed()
    }

    /// The state after the page of the awaited address came in and sent
    /// the crawl on to `links`, as far as it is determined: the address is
    /// fetched; within a level the cursor moves on and the links join what
    /// was discovered; at the end of a level the depth grows by one and the
    /// new frontier is what the level discovered, less what was fetched.
    pub open spec fn follows(&self, before: CrawlState, links: Set<Seq<char>>) -> bool {
        &&& self.seed() == before.seed()
        &&& self.max_depth() == before.max_depth()
        &&& if !before.active() {
            &&& self.frontier() == before.frontier()
            &&& self.cursor() == before.cursor()
            &&& self.visited() == before.visited()
            &&& self.discovered() == before.discovered()
            &&& self.depth() == before.depth()
        } else {
            &&& self.visited() == before.visited().push(before.awaited())
            &&& if before.cursor() + 1 < before.frontier().len() {
                &&& self.frontier() == before.frontier()
                &&& self.cursor() == before.cursor() + 1
                &&& self.depth() == before.depth()
                &&& self.discovered() == before.discovered().union(links)
            } else {
                &&& self.depth() == before.depth() + 1
                &&& self.cursor() == 0
                &&& self.discovered() == Set::<Seq<char>>::empty()
                &&& self.frontier().to_set() == before.discovered().union(links).difference(
                    self.visited().to_set(),
                )
            }
        }
    }

    /// The state at the start of a crawl: the frontier is the seed, nothing
    /// was fetched, the level is 0.
    pub fn new(seed: String, max_depth: u32) -> (state: CrawlState)
        ensures
            state.wf(),
            state.seed() == seed@,
            state.max_depth() == max_depth,
            state.depth() == 0,
            state.active(),
            state.awaited() == seed@,
    {
        let mut frontier: Vec<String> = Vec::new();
        frontier.push(seed.clone());
        let state = CrawlState {
            seed,
            frontier,
            cursor: 0,
            visited: Vec::new(),
            discovered: Vec::new(),
            depth: 0,
            max_depth,
        };
        proof {
            assert(state.frontier() =~= seq![state.seed()]);
            assert(state.visited() =~= Seq::<Seq<char>>::empty());
            assert(state.discovered() =~= Set::<Seq<char>>::empty());
        }
        state
    }

    /// Whether a page is still to be fetched.
    pub fn is_active(&self) -> (active: bool)
        ensures
            active == self.active(),
    {
        self.cursor < self.frontier.len() && self.depth <= self.max_depth as u64
    }

    /// The current level.
    pub fn level(&self) -> (level: u64)
        ensures
            level == self.depth(),
    {
        self.depth
    }

    /// The deepest level that is fetched.
    pub fn limit(&self) -> (limit: u32)
        ensures
            limit == self.max_depth(),
    {
        self.max_depth
    }

    /// The addresses fetched so far, in the order in which they were fetched.
    pub fn fetched(&self) -> (list: &Vec<String>)
        ensures
            texts(list@) == self.visited(),
    {
        &self.visited
    }

    /// The addresses of the current level, in the order in which they are fetched.
    pub fn pending(&self) -> (list: &Vec<String>)
        ensures
            texts(list@) == self.frontier(),
    {
        &self.frontier
    }

    /// How many addresses of the current level have been fetched.
    pub fn position(&self) -> (position: usize)
        ensures
            position == self.cursor(),
    {
        self.cursor
    }

    /// The canonical seed address.
    pub fn origin(&self) -> (seed: &String)
        ensures
            seed@ == self.seed(),
    {
        &self.seed
    }

    /// The address whose page is due next, if any.
    pub fn current(&self) -> (address: Option<&String>)
        ensures
            address is Some <==> self.active(),
            address matches Some(text) ==> text@ == self.awaited(),
    {
        if self.is_active() {
            Some(&self.frontier[self.cursor])
        } else {
            None
        }
    }

    /// The addresses to fetch next, six at most: what is left of the
    /// current group of six of the frontier. Empty when the crawl is over.
    pub fn next_batch(&self) -> (batch: Vec<String>)
        requires
            self.wf(),
        ensures
            texts(batch@) == self.batch(),
            batch.len() <= BATCH_SIZE,
            batch.len() == 0 <==> !self.active(),
    {
        let mut batch: Vec<String> = Vec::new();
        if !self.is_active() {
            assert(texts(batch@) =~= self.batch());
            return batch;
        }
        let room = BATCH_SIZE - self.cursor % BATCH_SIZE;
        let left = self.frontier.len() - self.cursor;
        let count = if left <= room {
            left
        } else {
            room
        };
        let mut k: usize = 0;
        while k < count
            invariant
                k <= count,
                count == self.batch_len(),
                self.cursor + count <= self.frontier.len(),
                batch.len() == k,
                forall|j: int| 0 <= j < k ==> batch[j]@ == self.frontier[self.cursor + j]@,
            decreases count - k,
        {
            batch.push(self.frontier[self.cursor + k].clone());
            k += 1;
        }
        assert(texts(batch@) =~= self.batch());
        batch
    }

    /// Takes in the page of the awaited address: `links` is what the page
    /// sends the crawl on to. The address counts as fetched. When it was
    /// the last of its level, the next level begins: its frontier is what
    /// the level discovered and what was not fetched meanwhile. Nothing
    /// changes when no page is awaited.
    pub fn record(&mut self, links: &Vec<String>)
        requires
            old(self).wf(),
        ensures
            final(self).wf(),
            final(self).follows(*old(self), text_set(links@)),
    {
        if !self.is_active() {
            return;
        }
        let ghost before = *self;
        let address = self.frontier[self.cursor].clone();
        merge_distinct(&mut self.discovered, links);
        proof {
            lemma_text_set_push(self.visited@, address);
            assert(texts(self.frontier@)[self.cursor as int] == address@);
            assert(!text_set(self.visited@).contains(address@));
        }
        self.visited.push(address);
        assert(self.cursor < self.frontier.len());
        self.cursor = self.cursor + 1;
        proof {
            let visited = texts(self.visited@);
            let frontier = texts(self.frontier@);
            assert(visited[visited.len() - 1] == address@);
            assert forall|i: int| 0 <= i < self.cursor implies visited.contains(frontier[i]) by {
                if i < self.cursor - 1 {
                    let k = choose|k: int|
                        0 <= k < before.visited().len() && before.visited()[k] == frontier[i];
                    assert(visited[k] == frontier[i]);
                } else {
                    assert(visited[visited.len() - 1] == frontier[i]);
                }
            }
            assert forall|i: int| self.cursor <= i < frontier.len() implies !visited.contains(
                frontier[i],
            ) by {
                if visited.contains(frontier[i]) {
                    let k = choose|k: int| 0 <= k < visited.len() && visited[k] == frontier[i];
                    if k < visited.len() - 1 {
                        assert(before.visited()[k] == frontier[i]);
                    }
                }
            }
            if before.depth() == 0 {
                assert(visited[0] == before.seed());
            } else {
                assert(visited[0] == before.visited()[0]);
            }
        }
        if self.cursor == self.frontier.len() {
            let next = without(&self.discovered, &self.visited);
            self.frontier = next;
            self.cursor = 0;
            self.discovered = Vec::new();
            self.depth = self.depth + 1;
            proof {
                assert(self.discovered() =~= Set::<Seq<char>>::empty());
                let visited = texts(self.visited@);
                let frontier = texts(self.frontier@);
                assert forall|i: int| 0 <= i < frontier.len() implies !visited.contains(
                    frontier[i],
                ) by {
                    assert(frontier.contains(frontier[i]));
                    assert(text_set(self.frontier@).contains(frontier[i]));
                }
            }
        }
    }
}

/// At the start of a level no address of the frontier was fetched before.
pub proof fn lemma_level_starts_unfetched(state: CrawlState)
    requires
        state.wf(),
        state.cursor() == 0,
    ensures
        state.frontier().to_set().disjoint(state.visited().to_set()),
{
    assert forall|address: Seq<char>|
        !(state.frontier().to_set().contains(address) && state.visited().to_set().contains(
            address,
        )) by {
        if state.frontier().contains(address) {
            let i = choose|i: int| 0 <= i < state.frontier().len() && state.frontier()[i] == address;
            assert(!state.visited().contains(state.frontier()[i]));
        }
    }
}

} // verus!
