# core_engine

The decision logic of a concurrent data processing pipeline, verified with Verus, and a `tokio`
program around it.

A pipeline polls a source, validates items, sends them through nodes one after the other or several
at once, and funnels every error to a dead letter queue. Nodes can be wrapped in middleware. A graph
engine executes a state graph node by node, with checkpoints.

The library performs no I/O and does not wait. Each stage and each middleware is a state machine:
a driver performs the action that the latest call gave and hands the outcome back. What each call
does is stated in its contract. What follows for whole runs is stated in public proof functions.

## `src/`

- `pipeline`: the stages. `polling` (source), `validate`, `pipe` (sequential), `concurrent`,
  `delivery` (hands one result on), `terminal` (summary of a run).
- `dlq`: error payloads and the dead letter queue worker.
- `node`: middleware. `ordering`, `circuit_breaker`, `rate_limit`, `retry`, `backoff`, `timeout`,
  `concurrency`, `chunk`, `idempotency`, `rollback`.
- `graph`, `metadata`: the graph engine and its execution context. `graph::runs` states what holds of
  whole executions.
- `cancel`, `fault`, `idempotency`, `text`, `embedding`: what these share, and two text nodes.

Times are nanoseconds as integers. The token bucket of `rate_limit` counts in exact fractions of a
token.

## What is trusted

- `tokio_util::sync::CancellationToken`: `new` and `clone`, in `cancel`.
- `tokio::sync::Semaphore::new`, in `node::concurrency`.
- `rand::random_range`, in `node::retry`.
- `BTreeMap::pop_first`, in `node::ordering`.

## `app/`

The traits whose methods wait (nodes, sources, stores, checkpoints, the queue itself), the tasks and
channels, and `main`.
