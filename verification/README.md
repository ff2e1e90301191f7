# database

A small chat and storage server, with its logic verified by Verus.

- `src/` is the verified library:
  - `text.rs`: character-level helpers (trimming, searching, splitting,
    unsigned parsing, decimal rendering) with their specifications;
  - `http.rs`, `server.rs`: the request head (method, path, host, accepted
    types, connection type, body) and the response texts;
  - `commands.rs`, `json.rs`: how a request is routed, the commands of a
    JSON request body and the
    JSON replies, read and written through `serde_json`;
  - `storage/`: users, chat rooms, messages and the comparison of
    synchronised directory trees, each operation a function from what the
    store held to what it is to hold and what the client is told;
  - `relational/`: record tables with a free list of occupied slots, each
    change giving the file writes that store it;
  - `server_api/`: the event codes of the replication protocol;
  - `clock.rs`: the current UTC date and time.
- `app/` is the program around it: the listener and thread pool, running
  each command against the stored data, the files
  under `./website/` and `./database/`, the serde forms of the records and
  the replication client.
- `tests/` runs the library on concrete values.
