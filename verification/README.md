# statesync

Keeps an etcd key/value store in step with the services and machines that two
HTTP APIs list and with the routes and ports that a network agent (FBOSS or
SnapRoute) reports.  Each round reads every kind of record, compares it with a
cache of what was last published, brings the cache up to date and sends etcd
the requests that publish new and changed records and withdraw stale ones.

Layout:

- `src/` is the library, verified with Verus:
  - `text.rs`: the order of strings, decimal rendering, `/` to `-` rewriting;
  - `order.rs`: the order of records and sorting by it;
  - `record.rs`: lookup of records by hash and by name;
  - `service.rs`, `machine.rs`, `route.rs`, `port.rs`: the records;
  - `root.rs`: the cache, each list kept sorted;
  - `publisher.rs`: the etcd requests;
  - `json.rs`: the API documents;
  - `delta.rs`: the change detection as a fold, and what it keeps;
  - `statesync.rs`: reading the records, the change detection, the rounds;
  - `digest.rs`: the content hash.
- `app/main.rs` is the program: command line, HTTP, the loop.
- `tests/` exercises the library.
