# slix

A terminal report for an X account: yesterday's replies with their impressions,
likes and profile visits, the accounts whose replies did best, and today's count
against a daily goal of five replies.

## Layout

- `src/` — the library, verified with Verus:
  - `text` — decimal numbers, padding to a column, trimming slashes;
  - `report` — the text of each section (yesterday, accounts, today, the
    thirty-day grid);
  - `accounts` — grouping replies by handle and ranking the accounts by average
    impressions;
  - `window` — the local day as a span of instants;
  - `today` — when a stored count of today's replies is still fresh;
  - `history` — one file of replies per day: names, dates, loading;
  - `config` — the stored credentials;
  - `oauth` — the OAuth 1.0a PIN flow's requests and answers;
  - `api` — what the X API answers, turned into replies;
  - `run` — the steps of connecting and the report of one run;
  - `date`, `store`, `order` — dates as day numbers, outcomes of reading a
    stored file, orders of positions.
- `app/` — the program: files, HTTP requests, the local time zone, the terminal.
- `tests/` — tests of the library.
