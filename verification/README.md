# host_scanner

A host-discovery and TCP port scanning service: it checks a scan request,
probes every host of an IPv4 network with `ping` or TCP connections, streams
the progress to subscribers and stores the results in SQLite.

`src/` is the verified library. Each module states its behaviour in
`requires`/`ensures` contracts that Verus proves:

- `text` – characters, trimming, lines and words as `str` gives them, decimal numbers.
- `ports` – the comma-separated port list of a request.
- `plan` – checking a scan request and preparing the hosts and ports of a scan (networks via `ipnet`).
- `report`, `json` – per-host results, their detail line, and the JSON under which port details are stored.
- `progress`, `registry` – progress updates, the bounded history kept of them, and the registry of progress channels and cancel signals (channels via `tokio::sync`).
- `driver` – the decisions of a running scan: which host next, when to write, how the scan ends.
- `task`, `audit` – task status rules, cancel decisions, stored records, audit event kinds.
- `probe`, `http`, `netinfo` – reading what hosts answer and what the system files say.
- `assets` – which embedded file answers a request, with what content type (`mime_guess`).

`app/` is the HTTP service around it (axum, sqlx, the tokio runtime, the
probes' network I/O), and `tests/` exercises the library.
