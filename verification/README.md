# utilify

The logic of Utilify's Spotify playlist tools as a library verified with
Verus: every decision the tools make about playlists, shuffles, benches,
duplicates, diffs, merges, discographies, the editor's moves, exports and
imports, listening statistics, the API client's quota and retry rules and
the sign-in flow is an executable function with a contract that Verus
proves.

Layout:

- `src/` — the verified library. Each module states its model with spec
  functions and proves its functions against them; properties that span
  several calls are public proof functions (for example
  `client::pauses_are_per_family`, `duplicates::readding_restores_the_kept_copies`,
  `shadow::trimmed_order_matches_the_playlist`, `export_import::text_export_reads_back`).
  Calls into `rand`, `sha2`, `base64`, `url`, `chrono` and a few `std`
  functions go through small trusted wrappers whose contracts are stated
  next to them.
- `tests/` — tests of the library on concrete values.
- `app/` — what stays outside the proofs: the HTTP side of the Spotify
  client (requests, sleeps between retries, token storage and the quota
  pauses kept in SQLite, each step decided by `client::decide_response` and
  its neighbours), the loopback listener of the sign-in flow (driven by
  `auth::callback_step`), the SQLite tables for settings and listening
  history, reading export files and zips, the serde shapes of the wire and
  export records, the process-wide listing caches, and
  the floating-point match scores.
