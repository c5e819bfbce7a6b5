# otamoryx

The service logic of the OtamoryX archive backend, written in Verus: every
function in `src/` carries a contract that Verus proves.

- `src/` — the verified library. Plugin manifests, the plugin permission
  gateway and event bus, login rate limiting, the processing task queue and
  the file scanner, archive search queries, recommendation rules, page selection and metrics,
  the tag co-occurrence graph and its neighbor expansion, semantic tag pairs,
  transfer and candidate planning, tag suggestions, preference rules and the
  cold-start learner's decisions, OCR model state, and the trash with its
  restore checks and snapshot statements. Laws that relate several functions
  are public proof functions named `law_*`.
- `app/` — the runtime around the library: serde and TOML documents, the
  background workers and their signals, file-system work, and the scores that
  are computed in floating point (handed to the library as order-preserving
  integer ranks where the library chooses by them).
- `tests/` — tests of the library on concrete values.

Calls into other crates (`sha2`, `cron`, `reqwest`'s URL parser, `dashmap`,
`chrono`) stand behind small trusted wrappers whose contracts say what the
crates document.
