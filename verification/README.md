# Meridian

A private, demand-driven web index. It crawls what its user cares about, keeps an index
of the pages, answers searches, and shows pages with their trackers stripped.

- `src/` is the library: the crawl queue, the interest graph, the index and its ranking,
  the rules of `robots.txt`, the crawler's decisions, what is read from a page, the
  tracker stripping, the layout of the page cache, and what the service does with
  searches, visits, reports and crawled pages. Verus proves it against its contracts.
- `app/` is the server around it: HTTP, files, clocks and the weight of a search hit,
  which is in floating point.
- `tests/` runs the library.

Scores and priorities are counted in twentieths of a point, interest weights in tenths
of a hit. Moments are arguments: the library reads no clock.

What the library takes from other crates stands behind functions marked
`#[verifier::external_body]`: URLs (`url`), pages (`scraper`), hashes (`sha2`, `hex`) and
concurrent maps (`dashmap`). Their doc comments say what is believed of each.
