# tracing-estuary

*Where the `log` rivers meet the `tracing` sea.*

A layered `tracing` subscriber pipeline whose file sink keeps `flexi_logger`'s
`FileLogWriter` and its rotation by size. The library under `src/` holds what the
pipeline computes and decides, written in Verus and proved against its contracts.
The crate under `app/` is ordinary Rust around it: the subscriber and its layers,
the writer thread, the environment and the files.

## What is proved

- **Filtering.** What is kept of `RUST_LOG`, how the directives of a filter are
  composed, and which events a filter of plain directives lets through. No event
  whose target begins with a blocked module passes, and the carve-out follows the
  default level, whatever else `RUST_LOG` says; module directives survive every
  swap of the default level (`filter_laws`).
- **Lines.** The console line and the file lines, character by character. Colours
  only add escape sequences; within a millisecond the timestamp is reused as it
  stands.
- **Traces.** The chrome trace is well-formed JSON whatever the names and messages
  in it hold, and records no more events than its cap.
- **The sink.** A record that finds the channel full is dropped and counted, and
  no other one is counted; a request succeeds only after everything queued before
  it was worked off; requests are retried for a bounded time, and fail once the
  writer is gone.

What the proofs take from outside crates stands in `src/external.rs`, each item
with what it claims; `src/text.rs` adds `String::push`.

## Layout

| module | holds |
|---|---|
| `text`, `level`, `directive` | text, severity levels, filter directives |
| `filter`, `filter_laws` | filters, the handle that swaps their level, and what holds of them |
| `fields` | what is read from an event |
| `format`, `format_laws`, `fmt_layer` | log lines and what holds of them |
| `json`, `chrome` | JSON texts and the chrome trace |
| `sink` | the queue to the writer thread, and the writer's decisions |
| `pipeline` | the configuration and what follows from it and `RUST_LOG` |
| `time` | the wall clock |
| `external` | outside crates |

## License

MIT OR Apache-2.0.
