# nadeshiko

Release tracking for a media library, with its logic proved against its contracts.

- `src/` is the library. It reads RSS feeds item by item (`feed`,
  `rss_feed`, `releases`), recognises episode numbers in release names
  (`number`, `extractor`), selects the releases worth downloading and the
  files that mark progress (`candidates`, `downloads`, `updates`), keeps the
  progress of the download rules (`rules`, `cache`), and does the parsing
  and framing of the web interface (`http`, `chunked`, `endpoints`,
  `sections`). Byte searching is in `scan`.
- `app/` holds the programs around it: the downloader, the web interface
  and the plain TCP request and response handling.
- `tests/` runs the library on concrete inputs.
