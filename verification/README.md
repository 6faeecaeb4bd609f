# DongLoRa Mux

Lets several applications share one DongLoRa dongle.

- `src/` is the multiplexer, verified with Verus: device tags (`tags`), client sessions and their
  queues (`session`, `queue`), command interception (`intercept`), the state and its transitions
  (`model`), the multiplexer itself (`mux`), and the connections (`link`). The codec is the `donglora-protocol`
  crate; what is claimed of it stands in `protocol` and `framing`.
- `src/laws.rs` states what holds of the whole: answers return to their senders, transmissions
  are looped back to everybody else, a locked configuration stays, reception is counted, a client
  that leaves takes its own along, and a slow client holds up nobody.
- `app/` is the daemon around it: serial port, sockets, lock files, tasks, logging.
- `tests/` runs the library with the real crates linked.
