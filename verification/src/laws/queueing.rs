//! Promises about the crawl queue: what it takes, how it ranks, what it hands out.
use vstd::prelude::*;

use crate::laws::text::holds;
use crate::laws::text::starts;
use crate::queue::QueueModel;

verus! {

/// `query` is the part of the URL between its first question mark and the next one or the
/// end.
pub open spec fn is_query_of(url: Seq<char>, query: Seq<char>) -> bool {
    exists|path: Seq<char>, rest: Seq<char>|
        url == #[trigger] (path + seq!['?'] + query + rest) && !path.contains('?')
            && !query.contains('?') && (rest.len() > 0 ==> rest[0] == '?')
}

proof fn query_is_the_first(url: Seq<char>, query: Seq<char>)
    ensures
        crate::queue::first_query(url) == Some(query) <==> is_query_of(url, query),
{
    crate::laws::text::first_place_of_a_char(url, '?', 0);
    let mark = crate::text::next_at(url, '?', 0);
    if mark < url.len() {
        crate::laws::text::first_place_of_a_char(url, '?', mark + 1);
        let end = crate::text::next_at(url, '?', mark + 1);
        let path = url.take(mark);
        let found = url.subrange(mark + 1, end);
        let rest = url.skip(end);
        assert(url == path + seq!['?'] + found + rest);
        assert(!path.contains('?'));
        assert(!found.contains('?')) by {
            if found.contains('?') {
                let i = choose|i: int| 0 <= i < found.len() && found[i] == '?';
                assert(url[mark + 1 + i] == '?');
            }
        }
        assert(is_query_of(url, found));
    }
    if is_query_of(url, query) {
        let (path, rest) = choose|path: Seq<char>, rest: Seq<char>|
            url == #[trigger] (path + seq!['?'] + query + rest) && !path.contains('?')
                && !query.contains('?') && (rest.len() > 0 ==> rest[0] == '?');
        let n = path.len() as int;
        assert(url[n] == '?');
        assert(mark == n) by {
            if mark < n {
                assert(path[mark] == '?');
            }
            if mark > n {
                assert(url[n] != '?');
            }
        }
        let end = crate::text::next_at(url, '?', mark + 1);
        let m = n + 1 + query.len();
        assert(end == m) by {
            if end < m {
                assert(query[end - n - 1] == '?');
            }
            if end > m {
                assert(url[m] == rest[0]);
                assert(url[m] != '?');
            }
        }
        assert(url.subrange(mark + 1, end) == query);
    }
}

/// A query that names a session or a token, in whatever case.
pub open spec fn has_session(query: Seq<char>) -> bool {
    let lower = crate::text::lowercase(query);
    ||| holds(lower, "session"@)
    ||| holds(lower, "token"@)
    ||| holds(lower, "sid"@)
    ||| holds(lower, "jsessionid"@)
    ||| holds(lower, "phpsessid"@)
}

/// A URL is a trap exactly if, in lower case, it holds `/calendar`, `/archive/`, `/search?`,
/// `?q=` or `?query=`, if its query names a session or a token, or if it has more than eight
/// slashes, which is more than six segments of a path.
pub proof fn traps_are_these(url: Seq<char>)
    ensures
        crate::queue::trap(url) <==> ({
            let lower = crate::text::lowercase(url);
            ||| holds(lower, "/calendar"@)
            ||| holds(lower, "/archive/"@)
            ||| holds(lower, "/search?"@)
            ||| holds(lower, "?q="@)
            ||| holds(lower, "?query="@)
            ||| url.to_multiset().count('/') > 8
            ||| exists|query: Seq<char>| #[trigger] is_query_of(url, query) && has_session(query)
        }),
{
    let lower = crate::text::lowercase(url);
    crate::laws::text::standing_somewhere(lower, "/calendar"@);
    crate::laws::text::standing_somewhere(lower, "/archive/"@);
    crate::laws::text::standing_somewhere(lower, "/search?"@);
    crate::laws::text::standing_somewhere(lower, "?q="@);
    crate::laws::text::standing_somewhere(lower, "?query="@);
    crate::laws::text::counting_a_char(url, '/');
    assert forall|query: Seq<char>| crate::queue::names_session(query) == #[trigger] has_session(
        query,
    ) by {
        let low = crate::text::lowercase(query);
        crate::laws::text::standing_somewhere(low, "session"@);
        crate::laws::text::standing_somewhere(low, "token"@);
        crate::laws::text::standing_somewhere(low, "sid"@);
        crate::laws::text::standing_somewhere(low, "jsessionid"@);
        crate::laws::text::standing_somewhere(low, "phpsessid"@);
    }
    assert forall|query: Seq<char>| #[trigger] is_query_of(url, query)
        == (crate::queue::first_query(url) == Some(query)) by {
        query_is_the_first(url, query);
    }
    if let Some(query) = crate::queue::first_query(url) {
        assert(is_query_of(url, query));
        assert(has_session(query) == crate::queue::names_session(query));
    }
}

/// The queue takes a URL exactly if it has not been handed out, begins with `http` and is no
/// trap. A URL that is taken waits with the higher of its priorities; one that is not changes
/// nothing.
pub proof fn offers_are_taken_or_not(queue: QueueModel, url: Seq<char>, score: u64)
    ensures
        queue.takes(url) <==> !queue.visited.contains(url) && starts(url, "http"@)
            && !crate::queue::trap(url),
        !queue.takes(url) ==> queue.pushed(url, score) == queue,
        queue.takes(url) ==> queue.pushed(url, score).visited == queue.visited,
        queue.takes(url) && !queue.pending.contains_key(url) ==> queue.pushed(url, score).pending
            == queue.pending.insert(url, score),
        queue.takes(url) && queue.pending.contains_key(url) ==> queue.pushed(url, score).pending
            == queue.pending.insert(
            url,
            if score > queue.pending[url] {
                score
            } else {
                queue.pending[url]
            },
        ),
{
    crate::laws::text::beginning(url, "http"@);
}

/// `after` is the queue once these URLs with these priorities have been offered: what waited
/// still waits, what is taken waits as well, each URL with the highest of its priorities; and
/// nothing else.
pub open spec fn took_offers(
    before: QueueModel,
    after: QueueModel,
    offers: Seq<(Seq<char>, u64)>,
) -> bool {
    &&& after.visited == before.visited
    &&& forall|url: Seq<char>| #[trigger]
        after.pending.contains_key(url) ==> {
            ||| before.pending.contains_key(url) && after.pending[url] == before.pending[url]
            ||| before.takes(url) && offers.contains((url, after.pending[url]))
        }
    &&& forall|url: Seq<char>| #[trigger]
        before.pending.contains_key(url) ==> after.pending.contains_key(url)
            && after.pending[url] >= before.pending[url]
    &&& forall|i: int|
        0 <= i < offers.len() && before.takes((#[trigger] offers[i]).0)
            ==> after.pending.contains_key(offers[i].0) && after.pending[offers[i].0]
            >= offers[i].1
}

/// Offers add up: one more offer is taken as any offer is.
pub proof fn one_more_offer(
    before: QueueModel,
    between: QueueModel,
    offers: Seq<(Seq<char>, u64)>,
    url: Seq<char>,
    score: u64,
)
    requires
        took_offers(before, between, offers),
    ensures
        took_offers(before, between.pushed(url, score), offers.push((url, score))),
        took_offers(before, before, Seq::empty()),
{
    let after = between.pushed(url, score);
    let more = offers.push((url, score));
    assert(more[offers.len() as int] == (url, score));
    assert forall|u: Seq<char>| #[trigger] after.pending.contains_key(u) implies {
        ||| before.pending.contains_key(u) && after.pending[u] == before.pending[u]
        ||| before.takes(u) && more.contains((u, after.pending[u]))
    } by {
        if u == url && between.takes(url) && after.pending[u] == score {
            assert(more.contains((u, score)));
        } else {
            assert(between.pending.contains_key(u) && after.pending[u] == between.pending[u]);
            if offers.contains((u, between.pending[u])) {
                let k = choose|k: int|
                    0 <= k < offers.len() && offers[k] == (u, between.pending[u]);
                assert(more[k] == (u, after.pending[u]));
            }
        }
    }
    assert forall|u: Seq<char>| #[trigger] before.pending.contains_key(
        u,
    ) implies after.pending.contains_key(u) && after.pending[u] >= before.pending[u] by {
        assert(between.pending.contains_key(u));
    }
    assert forall|i: int|
        0 <= i < more.len() && before.takes((#[trigger] more[i]).0) implies
        after.pending.contains_key(more[i].0) && after.pending[more[i].0] >= more[i].1 by {
        if i < offers.len() {
            assert(more[i] == offers[i]);
            assert(between.pending.contains_key(offers[i].0));
        }
    }
}

/// Many URLs that are offered with one priority are taken as one after the other.
pub proof fn many_offers(queue: QueueModel, urls: Seq<Seq<char>>, score: u64)
    ensures
        took_offers(
            queue,
            queue.pushed_all(urls, score),
            Seq::new(urls.len(), |i: int| (urls[i], score)),
        ),
    decreases urls.len(),
{
    let offers = Seq::new(urls.len(), |i: int| (urls[i], score));
    if urls.len() == 0 {
        assert(offers == Seq::<(Seq<char>, u64)>::empty());
    } else {
        let front = urls.drop_last();
        let before = Seq::new(front.len(), |i: int| (front[i], score));
        many_offers(queue, front, score);
        one_more_offer(
            queue,
            queue.pushed_all(front, score),
            before,
            urls.last(),
            score,
        );
        assert(offers == before.push((urls.last(), score)));
    }
}

/// What is handed out waits no more and is not taken again; everything else stays.
pub proof fn what_is_handed_out_is_gone(queue: QueueModel, urls: Seq<Seq<char>>, url: Seq<char>)
    ensures
        urls.contains(url) ==> !queue.popped(urls).pending.contains_key(url) && queue.popped(
            urls,
        ).visited.contains(url) && !queue.popped(urls).takes(url),
        !urls.contains(url) ==> (queue.popped(urls).pending.contains_key(url)
            <==> queue.pending.contains_key(url)) && (queue.popped(urls).visited.contains(url)
            <==> queue.visited.contains(url)),
        queue.popped(urls).pending.contains_key(url) ==> queue.popped(urls).pending[url]
            == queue.pending[url],
{
}

/// A batch holds as many URLs as asked for, or all that wait if fewer do, each once, from the
/// highest priority down, and none that stays behind has a higher priority than one that is
/// handed out.
pub proof fn batches_hold_the_highest(
    queue: QueueModel,
    n: usize,
    batch: Seq<Seq<char>>,
    i: int,
    url: Seq<char>,
)
    requires
        queue.wf(),
        crate::queue::is_batch(queue, n, batch),
        0 <= i < batch.len(),
        queue.pending.contains_key(url),
    ensures
        queue.pending.contains_key(batch[i]),
        forall|j: int| 0 <= j < batch.len() && j != i ==> #[trigger] batch[j] != batch[i],
        forall|j: int|
            i < j < batch.len() ==> queue.pending[batch[i]] >= queue.pending[#[trigger] batch[j]],
        !batch.contains(url) ==> queue.pending[batch[i]] >= queue.pending[url],
        batch.len() <= n,
        !batch.contains(url) ==> batch.len() == n,
{
    if !batch.contains(url) && batch.len() < n {
        let all = queue.pending.dom();
        let some = batch.to_set();
        batch.unique_seq_to_set();
        assert(some.subset_of(all)) by {
            assert forall|u: Seq<char>| some.contains(u) implies all.contains(u) by {
                let k = choose|k: int| 0 <= k < batch.len() && batch[k] == u;
                assert(queue.pending.contains_key(batch[k]));
            }
        }
        vstd::seq_lib::seq_to_set_is_finite(batch);
        vstd::set_lib::lemma_len_subset(some.insert(url), all);
    }
}

/// A queue in which nothing waits and these URLs have been handed out.
pub proof fn queues_start_with_what_was_handed_out(urls: Seq<Seq<char>>, url: Seq<char>)
    ensures
        !QueueModel::from_visited(urls).pending.contains_key(url),
        QueueModel::from_visited(urls).visited.contains(url) <==> urls.contains(url),
{
}

} // verus!
