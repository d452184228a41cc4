# gelbooru

The backend of a desktop downloader for Gelbooru: it searches posts by tags,
reads result and post pages, downloads images with progress, pause, cancel
and retry, browses and indexes a local gallery, and keeps settings and
favorite tags.

The library under `src/` is verified with Verus: every public function
states its result in its contract, and the laws that the library keeps are
proved as proof functions.

- `text.rs` — character-level string operations (search, split, trim,
  replace, decimal numbers) with their specifications.
- `html.rs` — selected HTML elements as token streams (parsed and selected by
  the `scraper` crate) and navigation in them.
- `models.rs` — tags, posts, post statistics and result pages.
- `scraping.rs` — reading result and post pages; search and post URLs.
- `download.rs` — the download task table, the state machine of a running
  download, and the retry policy.
- `gallery.rs` — path checks, image recognition, data URLs, stable sorting,
  pages of images and directory trees.
- `indexing.rs` — thumbnail sizes and file names, indexing decisions.
- `settings.rs` — settings and their storage as key/value pairs.
- `store.rs` — favorite tag groups and schema migration choices.
- `search.rs` — search results, post details, request pacing, proxy and
  cookie handling.

`app/` is the executable around the library: the SQLite database, the HTTP
client, file system scans, thumbnail generation, and the command loop. It
reads one JSON command per line on standard input and answers, and reports
events, as JSON lines on standard output.
