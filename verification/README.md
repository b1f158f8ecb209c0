# bitcraft_mirror

The logic of a mirror of game databases and of the read cache beside it,
verified with Verus.

- `src/mirror` follows a database: which tables to subscribe to, how sessions
  start, end and wait, how rows are applied, and what is shown of them.
- `src/feed.rs` and `src/decode` take rows of mirrored tables into stores;
  `src/feed_laws.rs` says what can be read of them while messages come in.
- `src/roads` holds the maps of a region (terrain, paving, claims, resources),
  what is sent of them, and who listens to them.
- `src/bitme` answers phones: who is meant by a name, what a session looks
  like, windows of the maps, and the stream of changes around a player.
- `src/interest.rs` tells who wants to know when something changes;
  `src/touches.rs` tells them what rows changed.
- `src/discovery` finds the databases of a fleet; `src/health` sums up how its
  mirrors are doing.
- The other modules are shared: cells and schemas of tables, JSON values, texts,
  sorted runs, tables by id and by name.

Contracts speak of mathematical models of the data (the `View` of a type).
Properties that span several operations are public proof functions whose names
begin with `law_`.

`app/` holds the programs around the library: HTTP and WebSocket routes, the
health page, workers and timers. `tests/` runs the library.
