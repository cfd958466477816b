# stream_backend

The backend of a private low-latency streaming platform: rooms with an
optional waiting room and password, their participants, chat and shared
files, the ingest admission check of the media server, signed SRT watch
links, conference tokens and host metrics.

- `src/` is the library, verified with Verus. The server's decisions (who
  may join, what a request is answered, which columns an update writes,
  what a WebSocket event becomes) are functions there with contracts. What
  is a database query in itself stays with the queries: which rooms have
  expired, which files a cleanup removes, unkicking a participant. Calls into outside crates (hashing, signing, encoding, random
  identifiers, the clock) go through small trusted wrappers whose contracts
  are stated next to them.
- `app/` is the server around it: HTTP routes, the WebSocket hub, SQLite,
  the filesystem and the background pollers. It reads, hands plain values
  to the library, and writes or sends what comes back.
- `tests/` runs the library on concrete values.
