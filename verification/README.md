# zeromq

The core of a ZeroMQ socket library, verified with Verus.

- `src/fair_queue` serves many streams in turn and proves in what sense this is fair.
- `src/publisher` keeps the peers of a publishing socket and what they are subscribed to, and
  decides who gets a message.
- `src/runtime` runs the reading and the writing half of a framed connection, and chooses
  transports.
- `src/buffer.rs` holds what is taken on trust of the `bytes` crate.

The core performs no I/O. Where work has to be done outside, such as polling a stream or a read,
its functions say what to do next and take the outcome back. `app` does that work over monoio.
