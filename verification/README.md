# crawler

The decision logic of a small web crawler that honours robots.txt, verified
with Verus.

- `src/messages.rs` — the messages the actors exchange.
- `src/frontier.rs` — the URL frontier: deduplication, page and depth limits,
  routing of URLs to per-domain actors; its laws (each URL routed at most once,
  limits respected).
- `src/domain.rs` — the per-domain actor: robots.txt rules, one fetch at a time,
  the crawl delay after a fetch while URLs are queued; its laws.
- `src/robots.rs` — the Crawl-delay values of a robots.txt body.
- `src/crawler.rs` — title, links and text of a fetched page.
- `src/text.rs`, `src/string_set.rs` — text operations and a set of strings.
- `app/main.rs` — the program: tasks, HTTP fetches, timers, and reading the
  crawl delay as seconds.
