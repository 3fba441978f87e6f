# predicate_authorityd

The authorization core of a zero-trust sidecar for AI agents, written in
Verus: each public function states what it returns in its contract, and
Verus proves the code against it.

## Layout

- `src/` — the verified library:
  - `policy.rs`, `paths.rs`, `glob_match.rs`: policy rules, first-match
    evaluation, path normalization and glob matching;
  - `authorize.rs`, `delegation.rs`, `subset.rs`, `execute.rs`,
    `actions.rs`: the authorize, delegate and execute decisions, scope
    narrowing, and the execution plans with their evidence hashes;
  - `mandate.rs`: signed mandates (JWT) with key rotation, and reading
    claims back;
  - `ledger.rs`: the proof ledger, a SHA-256 hash chain of decisions;
  - `ssrf.rs`, `ip.rs`: SSRF protection;
  - `secrets.rs`: `${VAR}` / `${VAR:-default}` substitution;
  - `identity.rs`, `bridge.rs`, `okta.rs`: task identities and identity
    provider bridges;
  - `control_plane.rs`, `loop_guard.rs`, `policy_signer.rs`,
    `policy_loader.rs`, `config.rs`, `startup.rs`, `service.rs`,
    `webui.rs`, `desktop.rs`, `dashboard.rs`, `presets.rs`: the remaining
    services and their decisions;
  - `text.rs`, `models.rs`: shared text helpers and data types.
- `app/` — the program around the library: command line, HTTP server,
  file and network I/O.
- `tests/` — tests of the library on concrete values.

Calls into outside crates (hashing, signatures, base64, JSON, glob, LRU
cache, clock) go through small trusted functions whose contracts say what
each crate documents; everything else is proved.
