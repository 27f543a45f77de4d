# ysh

The rules of the YSH social streaming server, written in Verus and proved
against their contracts, with the server process around them.

- `src/` — the verified library:
  - `text` — string helpers and decimal integer text;
  - `i18n` — locale negotiation, the Fluent catalog with its fallback chain
    and runtime overrides, number/currency/date formatting (with a proof that
    day counts map to real calendar dates and back);
  - `encryption` — page-sealed storage images (AES-256-GCM), with laws for
    reading back what was written and for reopening an image;
  - `cache` — cache entry encoding, expiry, counters and rate limits;
  - `config` — configuration defaults and environment references;
  - `auth` — registration rules, the login lockout, bearer tokens, two-factor
    login, recovery codes, KYC levels;
  - `model` — the stored records, wallets, spending limits, receipts, call
    billing, payouts, gifts, the moment feed and notification preferences;
  - `economy` — deposits, withdrawals, transfers, gifts, staking and payouts
    as step-by-step request checks;
  - `api` — call setup, moment moderation, analytics export (CSV), reports;
  - `ai` — moderation term matching and the moderation decision;
  - `actors` — each actor's message handling as a state step;
  - `health` — liveness and readiness;
  - `procfs` — the memory totals, CPU times and thread count that the
    system health report reads from the kernel's process texts.
- `tests/` — tests of the library on concrete values.
- `app/` — the server: configuration loading, redb and sled storage, the
  ractor actors, the axum routes, and the numeric AI models.
