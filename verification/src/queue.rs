//! The crawl queue.
//!
//! Each URL waits with a priority; the higher it is, the sooner the URL is crawled.
//! What has been handed out once is remembered as visited and never handed out again.
//! Priorities are counted in twentieths of a point.
use dashmap::DashMap;
use vstd::prelude::*;

use crate::store::store_get;
use crate::store::store_insert;
use crate::store::store_len;
use crate::store::store_list;
use crate::store::store_new;
use crate::store::store_remove;
use crate::store::stored;
use crate::store::top_of;
use crate::text::begins_with;
use crate::text::chars_of;
use crate::text::contains;
use crate::text::count_char;
use crate::text::find_char;
use crate::text::text_of;
use crate::text::to_lowercase;

verus! {

/// The part of a URL between its first question mark and the next one or the end.
pub open spec fn first_query(url: Seq<char>) -> Option<Seq<char>> {
    let mark = crate::text::next_at(url, '?', 0);
    if mark < url.len() {
        Some(url.subrange(mark + 1, crate::text::next_at(url, '?', mark + 1)))
    } else {
        None
    }
}

/// A query that, in lower case, names a session or a token.
pub open spec fn names_session(query: Seq<char>) -> bool {
    let lower = crate::text::lowercase(query);
    ||| crate::text::occurs(lower, "session"@)
    ||| crate::text::occurs(lower, "token"@)
    ||| crate::text::occurs(lower, "sid"@)
    ||| crate::text::occurs(lower, "jsessionid"@)
    ||| crate::text::occurs(lower, "phpsessid"@)
}

/// A URL that looks like one of endlessly many: a calendar or an archive, a session in
/// the query, a path of more than six segments, or a page of search results.
pub open spec fn trap(url: Seq<char>) -> bool {
    let lower = crate::text::lowercase(url);
    ||| crate::text::occurs(lower, "/calendar"@)
    ||| crate::text::occurs(lower, "/archive/"@)
    ||| match first_query(url) {
        Some(query) => names_session(query),
        None => false,
    }
    ||| crate::text::char_count(url, '/') + 1 - 3 > 6
    ||| crate::text::occurs(lower, "/search?"@)
    ||| crate::text::occurs(lower, "?q="@)
    ||| crate::text::occurs(lower, "?query="@)
}

fn has_session(query: &str) -> (yes: bool)
    ensures
        yes == names_session(query@),
{
    let lower_text = to_lowercase(query);
    let lower = chars_of(lower_text.as_str());
    contains(lower.as_slice(), "session") || contains(lower.as_slice(), "token") || contains(
        lower.as_slice(),
        "sid",
    ) || contains(lower.as_slice(), "jsessionid") || contains(lower.as_slice(), "phpsessid")
}

/// Whether a URL looks like one of endlessly many.
pub fn is_trap(url: &str) -> (yes: bool)
    ensures
        yes == trap(url@),
{
    let chars = chars_of(url);
    let lower_text = to_lowercase(url);
    let lower = chars_of(lower_text.as_str());
    if contains(lower.as_slice(), "/calendar") || contains(lower.as_slice(), "/archive/") {
        return true;
    }
    let mark = find_char(chars.as_slice(), '?', 0);
    if mark < chars.len() {
        let end = find_char(chars.as_slice(), '?', mark + 1);
        let query = text_of(vstd::slice::slice_subrange(chars.as_slice(), mark + 1, end));
        if has_session(query.as_str()) {
            return true;
        }
    }
    if count_char(chars.as_slice(), '/') > 8 {
        return true;
    }
    contains(lower.as_slice(), "/search?") || contains(lower.as_slice(), "?q=") || contains(
        lower.as_slice(),
        "?query=",
    )
}

/// What a queue holds.
#[verifier::ext_equal]
pub struct QueueModel {
    /// The URLs that wait, with their priorities.
    pub pending: Map<Seq<char>, u64>,
    /// The URLs that have been handed out.
    pub visited: Set<Seq<char>>,
}

impl QueueModel {
    /// A queue takes the URL: it is a web address, no trap, and not visited yet.
    pub open spec fn takes(self, url: Seq<char>) -> bool {
        &&& !self.visited.contains(url)
        &&& crate::text::begins(url, "http"@)
        &&& !trap(url)
    }

    /// The queue after a URL has been offered: it waits with the higher of its
    /// priorities, if the queue takes it.
    pub open spec fn pushed(self, url: Seq<char>, score: u64) -> QueueModel {
        if self.takes(url) {
            let best = if self.pending.contains_key(url) && self.pending[url] >= score {
                self.pending[url]
            } else {
                score
            };
            QueueModel { pending: self.pending.insert(url, best), visited: self.visited }
        } else {
            self
        }
    }

    /// The queue after several URLs have been offered, one after the other.
    pub open spec fn pushed_all(self, urls: Seq<Seq<char>>, score: u64) -> QueueModel
        decreases urls.len(),
    {
        if urls.len() == 0 {
            self
        } else {
            self.pushed_all(urls.drop_last(), score).pushed(urls.last(), score)
        }
    }

    /// The queue after these URLs have been handed out.
    pub open spec fn popped(self, urls: Seq<Seq<char>>) -> QueueModel {
        QueueModel {
            pending: self.pending.remove_keys(urls.to_set()),
            visited: self.visited.union(urls.to_set()),
        }
    }

    /// A queue in which nothing waits and these URLs have been visited.
    pub open spec fn from_visited(urls: Seq<Seq<char>>) -> QueueModel {
        QueueModel { pending: Map::empty(), visited: urls.to_set() }
    }

    /// Finitely many URLs wait or have been visited; what waits could be offered again.
    pub open spec fn wf(self) -> bool {
        &&& self.pending.dom().finite()
        &&& self.visited.finite()
        &&& forall|url: Seq<char>| #[trigger] self.pending.contains_key(url) ==> self.takes(url)
    }
}

/// `batch` names `n` of the waiting URLs, or all if fewer wait, each once, from the
/// highest priority down; what is left waiting has no higher priority than any of them.
pub open spec fn is_batch(queue: QueueModel, n: usize, batch: Seq<Seq<char>>) -> bool {
    &&& batch.len() == if n <= queue.pending.dom().len() {
        n as nat
    } else {
        queue.pending.dom().len()
    }
    &&& batch.no_duplicates()
    &&& forall|i: int| 0 <= i < batch.len() ==> queue.pending.contains_key(#[trigger] batch[i])
    &&& forall|i: int, j: int|
        0 <= i < j < batch.len() ==> queue.pending[#[trigger] batch[i]]
            >= queue.pending[#[trigger] batch[j]]
    &&& forall|url: Seq<char>, i: int|
        queue.pending.contains_key(url) && !batch.contains(url) && 0 <= i < batch.len()
            ==> #[trigger] queue.pending[url] <= queue.pending[#[trigger] batch[i]]
}

/// The crawl queue.
pub struct CrawlQueue {
    /// The priority of each URL that waits.
    pending: DashMap<String, u64>,
    /// The URLs that have been handed out; the numbers mean nothing.
    visited: DashMap<String, u64>,
}

impl View for CrawlQueue {
    type V = QueueModel;

    closed spec fn view(&self) -> QueueModel {
        QueueModel { pending: stored(self.pending), visited: stored(self.visited).dom() }
    }
}

impl CrawlQueue {
    /// A queue in which nothing waits and nothing has been visited.
    pub fn new() -> (queue: CrawlQueue)
        ensures
            queue@ == QueueModel::from_visited(Seq::empty()),
            queue@.wf(),
    {
        let queue = CrawlQueue { pending: store_new(), visited: store_new() };
        assert(queue@ == QueueModel::from_visited(Seq::empty()));
        queue
    }

    /// Offers a URL. A queue takes web addresses that are no traps and have not been
    /// visited. If the URL waits already, the higher priority counts.
    pub fn push(&mut self, url: &str, score: u64)
        requires
            old(self)@.wf(),
        ensures
            final(self)@ == old(self)@.pushed(url@, score),
            final(self)@.wf(),
    {
        if store_get(&self.visited, url).is_some() {
            return;
        }
        let chars = chars_of(url);
        if !begins_with(chars.as_slice(), "http") {
            return;
        }
        if is_trap(url) {
            return;
        }
        let best = match store_get(&self.pending, url) {
            Some(held) => if score > held {
                score
            } else {
                held
            },
            None => score,
        };
        store_insert(&mut self.pending, url.to_owned(), best);
    }

    /// Offers several URLs with the same priority.
    pub fn push_many(&mut self, urls: &Vec<String>, score: u64)
        requires
            old(self)@.wf(),
        ensures
            final(self)@ == old(self)@.pushed_all(crate::text::texts(urls@), score),
            final(self)@.wf(),
    {
        let ghost all = crate::text::texts(urls@);
        for i in 0..urls.len()
            invariant
                all == crate::text::texts(urls@),
                self@.wf(),
                self@ == old(self)@.pushed_all(all.take(i as int), score),
        {
            self.push(urls[i].as_str(), score);
            assert(all.take(i + 1).drop_last() == all.take(i as int));
            assert(all.take(i + 1).last() == urls@[i as int]@);
        }
        assert(all.take(all.len() as int) == all);
    }

    /// Hands out up to `n` of the URLs that wait, those with the highest priorities,
    /// and marks them as visited. Which of two URLs with the same priority comes first
    /// is open.
    pub fn pop_batch(&mut self, n: usize) -> (batch: Vec<String>)
        requires
            old(self)@.wf(),
        ensures
            is_batch(old(self)@, n, crate::text::texts(batch@)),
            final(self)@ == old(self)@.popped(crate::text::texts(batch@)),
            final(self)@.wf(),
    {
        let best = top_of(&self.pending, n);
        let mut batch: Vec<String> = Vec::new();
        let ghost before = self@;
        for i in 0..best.len()
            invariant
                before == old(self)@,
                before.wf(),
                crate::store::tops(best@, before.pending, n),
                batch.len() == i,
                forall|j: int| 0 <= j < i ==> (#[trigger] batch@[j])@ == best@[j].0@,
                self@ == before.popped(crate::text::texts(batch@)),
        {
            let url = &best[i].0;
            let ghost done = crate::text::texts(batch@);
            store_remove(&mut self.pending, url.as_str());
            store_insert(&mut self.visited, url.clone(), 0);
            batch.push(url.clone());
            proof {
                let more = crate::text::texts(batch@);
                assert(more == done.push(url@));
                assert(more.to_set() == done.to_set().insert(url@)) by {
                    assert(more[done.len() as int] == url@);
                    assert forall|u: Seq<char>| done.contains(u) implies more.contains(u) by {
                        let k = choose|k: int| 0 <= k < done.len() && done[k] == u;
                        assert(more[k] == u);
                    }
                }
                assert(self@.pending == before.popped(more).pending);
                assert(self@.visited == before.popped(more).visited);
            }
        }
        proof {
            let urls = crate::text::texts(batch@);
            assert(urls == crate::store::keys_of(best@));
            assert forall|i: int, j: int|
                0 <= i < j < urls.len() implies before.pending[#[trigger] urls[i]]
                >= before.pending[#[trigger] urls[j]] by {
                assert(best@[i].1 >= best@[j].1);
            }
            assert forall|i: int, j: int|
                0 <= i < urls.len() && 0 <= j < urls.len() && i != j implies urls[i] != urls[j] by {
                if i < j {
                    assert(best@[i].0@ != best@[j].0@);
                } else {
                    assert(best@[j].0@ != best@[i].0@);
                }
            }
            assert forall|url: Seq<char>, i: int|
                before.pending.contains_key(url) && !urls.contains(url) && 0 <= i
                    < urls.len() implies #[trigger] before.pending[url]
                <= before.pending[#[trigger] urls[i]] by {
                assert(before.pending[url] <= best@[i].1);
            }
            popped_stays_wf(before, urls);
        }
        batch
    }

    /// The number of URLs that wait.
    pub fn pending_len(&self) -> (count: usize)
        ensures
            count == self@.pending.dom().len(),
    {
        store_len(&self.pending)
    }

    /// The number of URLs that have been visited.
    pub fn visited_len(&self) -> (count: usize)
        ensures
            count == self@.visited.len(),
    {
        store_len(&self.visited)
    }

    /// The URLs that have been visited, each once, in some order.
    pub fn save_visited(&self) -> (urls: Vec<String>)
        ensures
            crate::text::texts(urls@).no_duplicates(),
            crate::text::texts(urls@).to_set() == self@.visited,
    {
        let list = store_list(&self.visited);
        let mut urls: Vec<String> = Vec::new();
        for i in 0..list.len()
            invariant
                urls.len() == i,
                forall|j: int| 0 <= j < i ==> (#[trigger] urls@[j])@ == list@[j].0@,
        {
            urls.push(list[i].0.clone());
        }
        proof {
            crate::store::list_has_size(list@, stored(self.visited));
            assert(crate::text::texts(urls@) == crate::store::keys_of(list@));
            let keys = crate::store::keys_of(list@);
            assert forall|i: int, j: int|
                0 <= i < keys.len() && 0 <= j < keys.len() && i != j implies keys[i] != keys[j] by {
                if i < j {
                    assert(list@[i].0@ != list@[j].0@);
                } else {
                    assert(list@[j].0@ != list@[i].0@);
                }
            }
        }
        urls
    }

    /// A queue in which nothing waits and these URLs have been visited.
    pub fn load_visited(urls: &Vec<String>) -> (queue: CrawlQueue)
        ensures
            queue@ == QueueModel::from_visited(crate::text::texts(urls@)),
            queue@.wf(),
    {
        let mut queue = CrawlQueue::new();
        let ghost all = crate::text::texts(urls@);
        assert(all.take(0).to_set() == Set::<Seq<char>>::empty());
        for i in 0..urls.len()
            invariant
                all == crate::text::texts(urls@),
                queue@.wf(),
                queue@.pending == Map::<Seq<char>, u64>::empty(),
                queue@.visited == all.take(i as int).to_set(),
        {
            store_insert(&mut queue.visited, urls[i].clone(), 0);
            proof {
                let done = all.take(i as int);
                let more = all.take(i + 1);
                assert(more == done.push(urls@[i as int]@));
                assert(more[i as int] == urls@[i as int]@);
                assert forall|u: Seq<char>| done.contains(u) implies more.contains(u) by {
                    let k = choose|k: int| 0 <= k < done.len() && done[k] == u;
                    assert(more[k] == u);
                }
                assert(queue@.visited == more.to_set());
            }
        }
        assert(all.take(all.len() as int) == all);
        assert(queue@ == QueueModel::from_visited(all));
        queue
    }
}

/// What waits in a queue is kept so when URLs are handed out: it is still not visited.
pub proof fn popped_stays_wf(queue: QueueModel, urls: Seq<Seq<char>>)
    requires
        queue.wf(),
    ensures
        queue.popped(urls).wf(),
{
    vstd::seq_lib::seq_to_set_is_finite(urls);
    let after = queue.popped(urls);
    assert(after.pending.dom() == queue.pending.dom().difference(urls.to_set()));
    assert forall|url: Seq<char>| #[trigger] after.pending.contains_key(url) implies after.takes(
        url,
    ) by {
        assert(queue.pending.contains_key(url));
    }
}

/// A visited URL is not taken again.
pub proof fn visited_is_not_taken(queue: QueueModel, url: Seq<char>, score: u64)
    requires
        queue.visited.contains(url),
    ensures
        queue.pushed(url, score) == queue,
{
}

/// Something that happens to a queue.
pub enum QueueEvent {
    /// A URL is offered with a priority.
    Offered(Seq<char>, u64),
    /// URLs are handed out.
    HandedOut(Seq<Seq<char>>),
}

/// The queue after all of these have happened to it, one after the other.
pub open spec fn after_events(queue: QueueModel, events: Seq<QueueEvent>) -> QueueModel
    decreases events.len(),
{
    if events.len() == 0 {
        queue
    } else {
        let before = after_events(queue, events.drop_last());
        match events.last() {
            QueueEvent::Offered(url, score) => before.pushed(url, score),
            QueueEvent::HandedOut(urls) => before.popped(urls),
        }
    }
}

/// What has been visited stays visited, and the queue stays well-formed, whatever
/// happens to it.
pub proof fn visited_stays_visited(queue: QueueModel, events: Seq<QueueEvent>)
    requires
        queue.wf(),
    ensures
        queue.visited.subset_of(after_events(queue, events).visited),
        after_events(queue, events).wf(),
    decreases events.len(),
{
    if events.len() > 0 {
        visited_stays_visited(queue, events.drop_last());
        if let QueueEvent::HandedOut(urls) = events.last() {
            popped_stays_wf(after_events(queue, events.drop_last()), urls);
        }
    }
}

/// No URL is handed out twice: whatever is offered and handed out between two batches,
/// they have no URL in common, and no batch holds a URL that was visited before it.
pub proof fn never_handed_out_twice(
    queue: QueueModel,
    first: Seq<Seq<char>>,
    n: usize,
    events: Seq<QueueEvent>,
    second: Seq<Seq<char>>,
    m: usize,
)
    requires
        queue.wf(),
        is_batch(queue, n, first),
        is_batch(after_events(queue.popped(first), events), m, second),
    ensures
        forall|i: int| 0 <= i < first.len() ==> !queue.visited.contains(#[trigger] first[i]),
        forall|i: int, j: int|
            0 <= i < first.len() && 0 <= j < second.len() ==> #[trigger] first[i]
                != #[trigger] second[j],
{
    let between = queue.popped(first);
    let after = after_events(between, events);
    popped_stays_wf(queue, first);
    visited_stays_visited(between, events);
    assert forall|i: int| 0 <= i < first.len() implies !queue.visited.contains(
        #[trigger] first[i],
    ) by {
        assert(queue.pending.contains_key(first[i]));
    }
    assert forall|i: int, j: int|
        0 <= i < first.len() && 0 <= j < second.len() implies #[trigger] first[i]
        != #[trigger] second[j] by {
        assert(after.pending.contains_key(second[j]));
        assert(!after.visited.contains(second[j]));
        assert(between.visited.contains(first[i]));
    }
}

/// Offering a URL never lowers a priority and never makes another URL leave.
pub proof fn pushing_never_lowers(queue: QueueModel, url: Seq<char>, score: u64, other: Seq<char>)
    requires
        queue.pending.contains_key(other),
    ensures
        queue.pushed(url, score).pending.contains_key(other),
        queue.pushed(url, score).pending[other] >= queue.pending[other],
        other != url ==> queue.pushed(url, score).pending[other] == queue.pending[other],
{
}

/// The order in which two URLs are offered does not matter.
pub proof fn pushes_commute(queue: QueueModel, a: Seq<char>, p: u64, b: Seq<char>, q: u64)
    ensures
        queue.pushed(a, p).pushed(b, q) == queue.pushed(b, q).pushed(a, p),
{
    let ab = queue.pushed(a, p).pushed(b, q);
    let ba = queue.pushed(b, q).pushed(a, p);
    assert(ab.pending =~= ba.pending);
}

/// A queue made from the saved list of visited URLs has visited the same URLs, and
/// takes the same URLs, as the queue that was saved.
pub proof fn saved_visited_reloads(queue: QueueModel, urls: Seq<Seq<char>>)
    requires
        urls.to_set() == queue.visited,
    ensures
        QueueModel::from_visited(urls).visited == queue.visited,
        forall|url: Seq<char>|
            QueueModel::from_visited(urls).takes(url) <==> #[trigger] queue.takes(url),
{
}

} // verus!
