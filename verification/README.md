# keel

Brain tier-ladder health probe: which tiers of the ladder answer, which are
cordoned, what the effective ceiling is, and what the calls cost.

## Layout

- `src/` — the library, written in Verus. Every decision the subcommands make
  is a function with a contract, and the properties that span functions are
  public proof functions (`lemma_*`):
  - `types`, `ladder` — tiers, their health, the default ladder and how the
    skip list and max tier cut it.
  - `probe`, `pulse` — the `TierProbe` / `ProbeEnv` traits, the rules that turn
    an HTTP answer into a status, the pulse run, its table and exit code.
  - `beacon`, `status`, `calendar` — the effective ceiling, ceiling-change
    events, and the one-line status report with the date the ceiling has held
    since.
  - `cordon` — per-tier failure counting and exponential cooldown.
  - `mark`, `spend`, `ledger` — manual status overrides, duration parsing,
    token tallies over a time window and the spend table's layout.
  - `names`, `text` — a name-keyed sorted map and the string helpers the
    renderings are built from.
- `app/` — the `keel` binary: argument parsing, environment, HTTP, files,
  the bus socket, JSON, and cost arithmetic in floating point.
- `tests/` — scenario tests run against the compiled library.
