# goose_metrics

The metrics of a load test: how single requests, task runs and errors are counted, how the counters
are merged, and how they are laid out as tables of text. The library is written in Verus: every
function states in its contract what it returns or changes, and is proved to do so, but for three.
`format_number` in `src/text.rs`, `sorted_pairs` in `src/order.rs` and `http_status_code` in
`src/goose.rs` hand their work to other crates. Their contracts are believed, not proved, and the
comments above them say what is believed.

## Layout

- `src/request.rs`, `src/task.rs`, `src/error.rs`: single metrics and their aggregates.
- `src/metrics.rs`, `src/attack.rs`, `src/receive.rs`: all metrics of a load test, how a metric is
  recorded, and how the metrics that wait are received.
- `src/times.rs`, `src/codes.rs`: counters of times and of status codes, merging and percentiles.
- `src/counts.rs`, `src/timing.rs`, `src/report.rs`, `src/display.rs`, `src/layout.rs`,
  `src/writing.rs`: the tables, and how they are written.
- `src/text.rs`, `src/order.rs`, `src/entries.rs`, `src/name_map.rs`, `src/sorted_map.rs`: text and
  maps keyed by text.
- `src/consistency.rs`: what holds of the metrics whatever was received.
- `app/`: what needs floating point, serialization, files or a clock.

The tables show fractions. The library says which fraction is due, `app/` works it out in floating
point, and the library writes the result into the table.
