# glances-rs

A lightweight monitoring server with a Glances-compatible REST API
(`/api/5/...`): CPU, memory, swap, load, network, disk I/O, filesystems,
system identity and uptime, with threshold alerting.

## Layout

- `src/` — the verified library (Verus). Verus proves its functions free of
  panics and overflow; the public ones, and nearly all the others, state
  what they return in a contract that is proved. The few calls into other
  crates (base64, constant-time comparison, regular expressions, UTF-8
  checks) stand behind small trusted wrappers whose contracts say what
  those crates document.
  - `text` — strings as character sequences: splitting, trimming, number
    parsing, ordering and sorting.
  - `namemap` — a small map keyed by name (no key twice).
  - `num` — `f64` values held as their bit pattern, classified and ordered
    exactly as `f64` does.
  - `config` — settings, their validation, command-line arguments and the
    configuration file's discovery order.
  - `plugins` — plugin identities, the `/proc` parsers (`linux`), the field
    schema (`fields`), the `show`/`hide` filter (`filter`) and each
    plugin's cycle logic (rate steps, usage, sorting).
  - `alerts` — threshold levels, the hysteresis state machine and the
    bounded event journal.
  - `api`, `server`, `collector` — route logic, Basic authentication,
    trusted hosts, the startup security rule and the collectors' decisions.
- `app/` — the server binary: command line, TOML parsing, HTTP (axum),
  the collector tasks (tokio) and the reads from `/proc`, `/sys` and
  `sysinfo`.
- `tests/` — executable tests of the library.

## Units

The library computes exactly on integers: percentages and per-second
rates are in tenths (ten times the value the JSON shows with one decimal),
elapsed times in nanoseconds of a monotonic clock, and `time_since_update`
in milliseconds. The binary divides when it writes the JSON.
