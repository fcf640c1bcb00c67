# media_sync

The decisions of a media sync with AnkiWeb, verified with Verus.

A sync makes a client's media folder agree with the server's. The library says
which files have to be downloaded, removed or uploaded, packs and unpacks the
archives in which files travel, keeps the entries of the media database, and
takes the steps of a sync in order. It does not touch the network, the disk or a
database: whoever runs a `session::SyncSession` performs the action it asks for
and hands back what came of it.

- `src/session.rs`: a sync, step by step; `src/course.rs`: what holds of it as a
  whole
- `src/protocol.rs`: the server's addresses and what its replies mean
- `src/changes.rs`: what a change on the server calls for
- `src/database.rs`, `src/records.rs`, `src/reconcile.rs`: the entries of the
  client's files and how a sync updates them
- `src/extract.rs`, `src/upload.rs`: archives that come and go
- `src/directory.rs`: archives that give the start of a file out of range
- `src/archive.rs`, `src/error.rs`: what is taken on trust of the `zip` and
  `serde_json` crates (`src/changes.rs` has one such function for `hex`)
- `src/json.rs`: how the list of an upload's files is written down
- `src/text.rs`: strings
- `app/`: a driver that runs a session with `reqwest` against a media folder and
  database
