# redis_lite

A small server that speaks the Redis protocol (RESP): PING, ECHO, SET (with
NX, XX, EX, PX and GET), GET, INFO, and the REPLCONF/PSYNC exchange by which a
replica joins its master.

- `src/` is the library, verified with Verus: the RESP reader and writer
  (`resp`), the SET options (`set`), the key-value store with expiry
  (`storage`), the replies to each command (`commands`), the request
  dispatcher and the replica's handshake (`server`), and what a connection
  does with bytes and messages (`connection`). Each public function states
  its result in its contract; the `law_*` proof functions state properties
  that span functions (what is written is read back, a GET sees the last
  SET, NX/XX, expiry, the replica's handshake against a master's replies).
- `app/` is the program around it: command-line options, sockets, the tokio
  tasks and channels.
- `tests/` runs the library on concrete values.

Times are nanoseconds from the Unix epoch (negative before it); the library reads the clock in
one place (`storage::now_nanos`) and every operation that depends on it also
exists in a form that takes the time as an argument (`..._at`).
