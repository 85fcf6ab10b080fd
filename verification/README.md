# rex

Timeouts and shared storage for hierarchies of state machines, verified with Verus.

- `time`, `hms`: instants and spans in nanoseconds, and spans as texts
- `clock`: the monotonic clock that instants are read from
- `kind`: kinds of state machines and the ids of their states
- `request`: requests to set, cancel and retain, and the messages that carry them
- `bucket`, `id_map`: tables by id
- `ledger`: the timeouts that are set and the items that are retained
- `signal`: the queue of signals that wait for their states
- `manager`: takes requests in, and turns what is due into signals
- `storage`: the trees of states, each behind a lock of its own
- `laws`: what holds of these together

`app/` runs a manager in two tasks and puts a store behind a lock.
