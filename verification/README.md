# websub_sub

A WebSub subscriber. The library (`src/`) holds the rules of the protocol as verified
functions; the `websub` command (`app/`) runs them against the network and a SQLite database.

## Layout

- `src/util/callback_id.rs`: subscription IDs in callback URLs (URL-safe base64 of the
  little-endian ID bytes without the most significant zero bytes) and back.
- `src/util/backoff.rs`: exponential backoff.
- `src/signature.rs`: the `X-Hub-Signature` header, preference between digest algorithms, and
  checking the HMAC of a body.
- `src/hub.rs`: callback URIs, subscription and unsubscription requests, intent verification
  queries.
- `src/db.rs`: the subscription table as a map from IDs to rows, the `ConnectionRef` trait that
  describes operations on it, and a store held in memory that implements it.
- `src/subscriber.rs` and `src/subscriber/`: the subscriber's settings, how it answers requests
  at its callbacks (`service.rs`), when it renews (`scheduler.rs`) and how pushed bodies are
  checked (`update/content.rs`).
- `src/feed.rs`: Atom and RSS documents, the feeds and entries read out of them (links,
  `media:description`), media types and hub discovery.
- `app/`: the command line, the HTTP server and client, and the SQLite table.

## Usage

```
websub run <callback> [tcp://addr | unix://path]
websub subscribe <callback> <topic> [--hub <hub>]
websub unsubscribe <callback> <topic> [--hub <hub>]
```
