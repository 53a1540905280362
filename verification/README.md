# buck2_telemetry

What is made of the telemetry of builds, as a library whose behaviour is stated in
contracts and proved by Verus, and a command line around it.

The library, under `src/`:

- Traces. `writer` turns build events into a native Perfetto trace, packet by packet;
  `perfetto_proto` and `wire` are the messages and their encoding. `writer_model` says
  what each event does to the trace, `writer_laws`, `track_laws`, `counter_laws`,
  `span_laws` and `writer_room` what holds of every trace, and `trace_reading` and
  `wire_reading` that a trace reads back as it was written.
- Paths. `critical_path` and `path_report` report the critical path or the slowest path
  of a build, `path_laws` says what holds of every report, and `fmt_duration` and
  `binary64` show durations.
- Logs. `s3` and `log_upload` say which requests store and fetch logs, and what the
  replies mean.
- Credentials. `credential_helper` and `header_map` say what is asked of a credential
  helper, what its answer means, and how long it is kept.
- Spans of the program itself. `otel` says when and how they are exported.

The library does no input or output. The command line, under `app/`, reads events, runs
helpers, and talks to S3 and to OTLP endpoints. It hands the library what it read, and
does what the library says is due. Before it calls a function with a precondition, it
tests that the precondition holds.

What the library takes from other crates stands behind functions marked
`#[verifier::external_body]` and behind `assume_specification` items. Verus believes
their contracts; the comment above each says what it claims.
