# site_grabber

Finds links on the pages of sites and downloads the files behind them. Sites, pages, rules and the
download queue are kept in an SQLite database.

- `src/` is the core of the grabber, verified with Verus: the rules that cut links out of pages, the
  queue and its reservations, retries, cache and file names, and the order of the work for a site.
  It performs no input or output. Where the outside world decides, it is written as steps: a function
  says what to do next, and takes what came of it.
- `app/` performs the steps: HTTP requests, files, and the database. It also turns paths into the form
  of the machine, and back.
- `tests/` runs the core on concrete values, with `regex`, `reqwest` and SQLite behind it.

| Module | What it holds |
| --- | --- |
| `sites` | what is done for a site, step by step |
| `pages`, `rules` | the rule groups of a page, and what they leave of its content |
| `download` | the download queue: statements, reservations, paths for finished files |
| `downloader` | retries, expiry, client settings, file names from response headers |
| `state` | directories and database settings |
| `statement`, `error` | SQL statements as values, and failures |
| `hashing`, `urls` | digests and URLs |
| `paths`, `text`, `numbers` | paths with `/` between the components, text and numbers |
| `*_laws` | what holds of several functions together |

The functions that call other crates are trusted; their comments say what is claimed of those calls.
