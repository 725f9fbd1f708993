# onion_crawler_core

The verified core of a crawler that looks for `.onion` addresses in Common Crawl
archives, written in Rust and proved with Verus.

- `src/` is the library. Every function in it carries a contract that Verus
  checks; calls into the `memchr` crate and `std::str::from_utf8` are the only
  ones whose contracts are taken on trust (`src/search.rs`, `src/text.rs`).
  - `favicon_search`, `opening`, `tag`, `url`, `base64`: favicons of an HTML page.
  - `favicon_laws`, `tag_laws`, `page_laws`: what holds of them for all pages.
  - `paths`, `plan`, `strategy`, `jobs`, `memory`: what a run does, and how.
  - `results`, `progress`: what a run has found and done.
  - `ascii`, `number`, `search`, `text`: bytes and text.
- `app/` is the command line program: arguments, files, downloads and messages.
  Downloads and WARC parsing come from the `onion_crawler` library.
- `tests/` runs the library on concrete values.
