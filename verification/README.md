# oma_id

The OMA-ID endpoint agent as a verified library: lease authorization, the
local IPC protocol between the PAM front end and the root-owned agent,
signed leases with the pinned issuer key set and the anti-rollback lease
store, check-in and enrollment decisions, local account provisioning and
rate-limited credential checks.

- `src/` — the library, verified with Verus. Each module states its
  contracts over spec functions and views; laws that span calls are public
  proof functions (`lemma_*`).
- `tests/` — tests of the library on concrete values.
- `app/` — the program around it: sockets, files, HTTP, the clock, libc
  account lookups, `crypt(3)`, the PAM entry points, and serde copies of
  the library types for the wire and file formats.
