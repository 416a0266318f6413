# faas_trigger

A small function-as-a-service pipeline with its decisions verified in Verus.

- `src/` — the verified library:
  - `routing` — the routing table from function ids to message topics (a
    `DashMap` behind trusted wrappers), the rule merge and its laws, and call routing;
  - `trigger` — the HTTP trigger's replies and settings (bind address, rules URL,
    fetching interval);
  - `invoker` — the local invoker's commands, storage plans and answers;
  - `byte_list` — the `[1, 2, 3]` byte-list text read from and written to function
    processes, with its round-trip law;
  - `json` — the compact JSON object `serde_json` writes for a map of strings;
  - `msgpack` — the MessagePack bytes of a string array (`rmp_serde`);
  - `stats` — request latency statistics and their laws;
  - `stress` — the load generator's batch spacing and request bodies;
  - `decimal`, `text` — decimal numbers, trimming, UTF-8 and other character helpers.
- `app/` — one binary with three roles (`trigger`, `invoker`, `stresser`) that does the
  HTTP serving, NATS messaging, child processes, files and clocks.
- `tests/` — executable tests of the library.
