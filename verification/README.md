# linkchecker

Crawls a deployed site from a starting URL and reports every link underneath
it that is not alive. The library in `src/` holds the checker's decisions,
each with a contract proved by Verus:

- `scope` — which URLs lie underneath the starting path (whole segments, same
  origin), and when two links are the same link.
- `extract` — which references of a page's markup count as links, and how
  they resolve (markup is parsed by `scraper`, URLs by `url`).
- `check` — what an HTTP answer or error means for a link.
- `crawl` — the walk as a state machine: what is requested next, what has been
  seen, and the report. Every URL is requested at most once.
- `render` — when a page rendered in a browser has finished loading.
- `report` — the summary printed at the end.
- `cli` — reading the starting URL from the command line.
- `address`, `text` — URLs as plain values, and string helpers.

`app/` is the program around it: the HTTP client, the headless browser, the
concurrent request loop and the process exit code.
