# panda_party

Bounded FIFO queues and synchronous producer/consumer adapters, with their
behaviour stated as Verus contracts and proved.

- `src/queues.rs`: the `Queue` trait; `src/queues/fixed.rs`: `Fixed`, a ring
  buffer of fixed capacity, modelled by `FixedView` (items, capacity, head).
- `src/pile.rs`: the producer and consumer protocols (`Producer`,
  `BulkProducer`, `Consumer`, `BulkConsumer`, `SequenceState`). A producer is
  described by the items produced so far and the items it exposes for bulk
  reading; a consumer by the items accepted so far and the slots it offers.
- `src/sync/pro/*`, `src/sync/con/*`: slice cursors, a `Vec` collector, protocol
  checkers, forwarders, last-item mapping, and scramblers that re-chunk a
  sequence through a buffer following a cyclic schedule. A scrambler's
  contract describes each call as a run of scheduled operations on the
  wrapped value (`consume_step`/`drains_to`, `pull_step`/`pulls_to`), bounded
  by the schedule's length; `src/sync/schedule.rs` holds the termination and
  bound arguments for schedules.
- `app/lib.rs`: `arbitrary` generation of scrambler schedules.
- `tests/`: scenario tests, including piping data through scramblers.
