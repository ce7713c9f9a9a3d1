# order_event_dispatcher

A verified order-event dispatcher. Events (`New`, `Cancel`, `Trade`) arrive on a
tokio channel, each is handed to every handler in turn, failures are counted
and, for a request, the first handler error is answered on a one-shot channel.

- `src/` — the library, verified with Verus: events, errors, handlers
  (logging, metrics, failing), the dispatch steps and their laws, plus small
  text utilities (integer parsing, first word, UTF-16 wide strings) and the
  step functions of a hand-written timer future.
- `app/` — the program: the async receive loops, the producer task, tracing
  output, and the executor and `Future` impls that drive the timer steps.
- `tests/` — tests of the library on concrete values.
