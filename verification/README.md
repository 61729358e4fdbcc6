# nixos_utils

Home-lab services for NixOS, with their logic verified by Verus:

- **container-ui** — a small web dashboard for podman containers run by
  systemd: list, details, logs (with live follow), restart, and "pull and
  restart when the image changed" updates, optionally behind OpenID Connect
  login (authorization code flow with PKCE).
- **health-backend** — samples the host's `/proc`, `statvfs` and hwmon
  sensors into in-memory rings (1 s × 1 h and 10 s × 24 h by default) and
  serves them as JSON series for the health dashboard.

## Layout

- `src/` — the verified library.
  - `text.rs`, `json.rs` — string toolkit and a plain JSON model.
  - `codec.rs` — base64, SHA-256, form encoding, URLs and JSON string
    literals, each behind a small trusted wrapper of the crate that does it.
  - `table.rs` — a string-keyed map with pruning of stale entries.
  - `container_ui/` — configuration and sessions, podman output, the HTML
    pages, OpenID Connect helpers, and the request handlers' decisions
    (login gate, CSRF, update state machine, redirects, cookies).
  - `health/` — `/proc` parsers, counter deltas, sample rings, series
    naming and alignment, and the status figures.
- `tests/` — tests on concrete values.
- `app/` — the two services' `main`, HTTP servers, process and file I/O,
  and the floating-point rates (`cargo run -- container-ui` or
  `-- health-backend`).
