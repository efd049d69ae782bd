# tsunoru

The rules of TSUNORU, a scheduling-coordination service for friends and small groups:
an organizer proposes candidate dates, participants answer ○ / △ / × for each, and the
organizer reads the summary, decides a date and may continue the event as a series.

The library is written in Verus. The functions in `src/` carry contracts that Verus
checks against their bodies, except the small wrappers around outside crates (marked
`external_body`), whose contracts are trusted. Properties that span several functions,
such as the lockout of the login throttle or the refusal of new answers after a decision,
are stated as public proof functions (`lemma_*`).

## Layout

- `src/domain/`: the validated inputs and their errors (accounts, events, responses,
  organizer summaries and decisions, series and continuations).
- `src/storage.rs`, `src/history.rs`, `src/series_store.rs`: what the database rows mean —
  the order in which an answer's write is checked, replayed writes, one comment per
  response, final decisions, session lifetimes, account history and series snapshots.
- `src/server_rules.rs`: how each server operation answers, including the API guard and the
  calendar download.
- `src/auth.rs`: password hashing and checking, session tokens and cookies, the login
  throttle.
- `src/calendar.rs`: the iCalendar file of a decided event.
- `src/worker.rs`: the hosted worker's rules — request shapes, rate limits, staging and
  organizer sessions, identity-token claims.
- `src/cloud.rs`, `src/cloud_flow.rs`, `src/browser.rs`: the limited browser journey,
  its saved records and the decisions taken on each reply.
- `src/ui.rs`: the screen logic that is not drawing — calendars, labels, candidate
  toggling, request bookkeeping.
- `src/core_bridge.rs`: the operations of the JSON bridge.
- `src/text.rs`: character classes and text helpers shared by the validators.
- `app/`: the JSON bridge program, with the serde copies of the library's types and the
  platform calls (clock, environment, network addresses).
- `tests/`: tests on concrete values.

Calls into outside crates (hashing, HMAC, argon2, date and time zone parsing, URL and URI
parsing, base64, UUIDs) go through small wrappers whose contracts are trusted; each one
names the outside function it calls.
