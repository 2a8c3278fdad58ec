# smoothie

A latency-floor concurrency controller for streams of generated tokens, verified with Verus.

On a shared model every decoding stream slows the others down. The controller holds the streams
above a rate floor by capping how many decode at once: it adapts an admission ceiling to the
observed inter-token latency and answers overflow with `429` at once. A circuit breaker answers
`503` while the backend fails.

- `src/`: the library. Every decision is made here, with its contract.
  - `filter`: request, response and response-body phases.
  - `aimd`: the ceiling, by a fixed latency floor or by probing for the crossover point.
  - `semaphore`, `circuit_breaker`: admission and fault handling.
  - `sse`, `byte_search`, `json`: counting tokens in the body and reading the terminal timing.
  - `stream_tracker`, `streams`: smoothed latency per stream, and the median over all streams.
  - `config`: parameters and their validation.
  - `binary64`, `scaling`, `clock`, `decimal`: values that the rest is made of.
- `app/`: the Praxis plugin and server around the library, with the floating-point arithmetic.
- `tests/`: the library from outside.

Floating-point values are held in the library as bit patterns and compared there. The product that
cuts the ceiling is computed there too, in integers. Arithmetic on latencies is asked for: a step
says what it needs, and the next one takes the result.
