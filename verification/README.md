# ryu-social

The brain of a social-media command center: posts are composed against the limits of nine
platforms, put on a calendar, and published by a durable queue that retries; replies come
back into one inbox, and engagement into rollups and recommended posting times. The logic
is a library whose behaviour is stated in contracts and proved with Verus. A thin program
around it listens, stores, sleeps and talks to the platforms.

## What is proved

Every function of the library states what it returns, for every input it takes. What spans
several functions is stated as a public proof function beside them. Among these:

- A leg that reached its platform is never sent again: not by a retry, not by a recovery
  after a crash, not by a second sweep. Every request for a leg carries the same key.
- A post is claimed once and taken once. The lease of a claim outlasts the longest run its
  retry policy allows, so a live run is never reaped.
- Recovery, and every other move of a post, stays within the status machine, and running it
  again finds nothing to do.
- A post settles only when each of its legs has, and reads as published only if all of them
  were.
- Polling an inbox again, or reading engagement again, adds nothing twice and blanks nothing.
- Rollups add up, by platform and by day, and rankings do not depend on the order in which
  rows are handed in.
- Recommended slots claim no more than the history shows, and the wall clock of the
  workspace's zone shows the recommended hour when they come around.
- What may leave the process, or reach a log, does not depend on any secret beyond whether
  it is set. Without a configured token no request is let in.

What the library takes from other crates is declared, with what is believed of it, in
`text.rs`, `clock.rs`, `ids.rs`, `json.rs`, `draft.rs`, `scheduler/zone.rs`,
`providers/composio.rs` and `providers/treg.rs`.

## Layout

- `src/`: the library.
  - `platform`, `draft`, `template`, `records`, `status`: platforms and their limits, drafts
    and their validation, stored rows, status machines.
  - `publish`, `runner`, `ledger`: one leg's attempts, one post's run, and the table of all
    scheduled posts.
  - `scheduler`: the tick policy, leases, recovery, bounded batches, time zones and
    posting times.
  - `queue`, `inbox`, `mailbox`, `analytics`: what is shown of the queue, replies, and
    engagement.
  - `providers`: what is sent to each provider and what its answers mean, and which provider
    serves an account.
  - `settings`, `config`, `auth`, `api`, `error`: the node's settings and secrets, the
    environment, the bearer gate, and what requests are answered with.
  - `text`, `lists`, `rank`, `clock`, `ids`, `json`: strings, deduplication, stable sorting,
    calendar days, identifiers, and values read out of JSON.
- `tests/`: scenarios, run against the real crates.
- `app/`: the program: HTTP routes, storage, the background loops and the network.

## Running it

The program listens on the loopback interface only, on `RYU_SOCIAL_PORT` (8005 if unset),
under `/api/social`. Every route but `/health` wants `Authorization: Bearer` with the value
of `RYU_EXT_TOKEN`; with no token set, every request is turned away.
