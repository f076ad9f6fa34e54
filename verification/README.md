# tracing_fastly

Structured logging for Fastly Compute applications, verified with Verus.

`src/` is the verified library:

- `event` — field values and the name-to-value collection `Fields`
  (unique names, viewed as a map), and the extraction of an event's message.
- `layer` — normalized events: an event's fields inherit those of its spans,
  event fields first, then the innermost span, then its ancestors.
- `logging` — trace rows: the request id of the nearest span that recorded
  one, and the split of an event into message and payload.
- `providers::datadog` — the Datadog sink's configuration, validated tags
  (`tags`) and a variant whose tags are kept verbatim (`simple`).
- `serialize` — Datadog statuses of levels, and the judgement of a
  one-write record emission.
- `bq_logging`, `setup`, `level` — small pieces of row contents, the
  endpoint writer's name, and log levels.

`app/` holds what Verus does not take: the `tracing-subscriber` layers and
field visitors, `serde` rows, Fastly endpoints, and floating-point values.
