# pansou

A cloud-drive resource search service: it searches public Telegram
channels and several resource sites, merges and ranks what they return,
caches the answers, checks share links, and renders search and resource
pages for people and crawlers.

## Layout

- `src/` — the library, verified with Verus: scoring, ordering, merging and
  caching of results; reading share links and passwords from message text;
  the site plugins' parsing; link normalization and checking; the search
  page's grouping and pagination; the sitemap, `robots.txt` and related
  searches; the resource cache; access control and tokens. Calls into
  `regex`, `url`, `scraper`, `chrono`, `dashmap`, `rand`, `mime_guess`,
  `serde_json` and `jsonwebtoken` go through small trusted wrappers whose contracts are
  stated next to them.
- `tests/` — tests of the library on concrete values.
- `app/` — the server around the library: configuration, logging, HTTP
  fetching, JSON and YAML forms of the types, templates, routes.
