# spite_core

The core of Spite, a local-first mail client for Microsoft 365, written in
Verus. Every function under `src/` carries a contract that Verus proves,
except the small wrappers marked `#[verifier::external_body]`: each makes one
call into std, `base64`, `chrono`, `ammonia`, `mail-builder` or `serde_json`,
and its contract is believed, not proved (its doc comment says what it
claims).

The store is a trait. A store that never fails is `reliable()`; the
in-memory store is, and for a reliable store the sync and write
orchestration promise success. The SQLite store in `app/` is not proved and
is not claimed reliable.

## Layout

- `src/` — the verified library.
  - `text.rs`, `dates.rs`: character-level string work and date formatting.
  - `compose.rs`: reply/forward recipients, subjects, threading headers,
    quoting, attachment checks and MIME building; `compose_context.rs`: what
    a compose window opens with.
  - `sanitize.rs`: the HTML sanitizing policy and the HTML-to-text reduction.
  - `store.rs`: the mail store's types, its model and the `MailStore`
    contract; `memory_store.rs`: an in-memory store proved against it.
  - `sync.rs`: delta-sync rounds (cursor, throttling, page application).
  - `ops.rs`: optimistic writes with rollback, and `$batch` chunking;
    `pending.rs`: the undo window, where a queued send or action waits until
    Undo or the timer claims it.
  - `graph.rs`: the Graph JSON model and the decisions on its responses.
  - `auth.rs`, `auth/token_store.rs`: sign-in decisions and refresh-token
    storage; `config.rs`, `settings.rs`, `rules.rs`: configuration, mailbox
    settings, message-rule bodies and reordering.
  - `assoc.rs`: keyed sequences read as finite maps, with their lemmas.
- `tests/` — tests run against the compiled library.
- `app/` — the unverified edge: HTTP and OAuth, SQLite, the OS keyring, the
  config file, serde forms of the library's types, and the async drivers that
  run sync rounds and writes by calling the library's decision functions.

Laws that relate several operations (what a write leaves for a read, what a
rollback restores, what a renumbering changes) are public proof functions
whose names begin with `law_`.
