# rfq_engine

A request-for-quote venue for binary contracts. A requester posts legs, market makers answer with
collateralised quotes, the venue presents the best quote of each leg as one package, puts both
sides of every leg into escrow when the package is accepted, and pays out on an outcome.

The library is written in Verus. Every function of it that has a body is proved against its contract; calls into
`chrono`, `uuid` and the standard library that are believed instead are marked `external_body` and
say what is believed.

| Where | What |
|---|---|
| `src/domain/` | identifiers, money, states, the request, best-quote matching |
| `src/ledger/` | accounts, reservations and escrow: a model, the `Ledger` trait, its laws |
| `src/engine/model.rs` | what each command makes of the venue, as mathematics |
| `src/engine/venue.rs`, `entry.rs`, `command.rs` | the engine that does it |
| `src/engine/room.rs` | the moves a command makes in the ledger, and whether balances have room for them |
| `src/engine/soundness.rs`, `transitions.rs`, `keeps.rs` | what holds of every venue, and that every command keeps it |
| `src/engine/laws.rs` | what the venue promises: conservation, best quotes, all or nothing, one payout |
| `src/api/` | bodies, views, errors and the caller's identity |
| `src/mock/` | an in-memory ledger, a clock and an oracle |
| `src/time.rs`, `text.rs`, `seqs.rs` | instants, text and sequences |
| `tests/` | scenarios and edge cases |
| `app/` | the venue over HTTP |

The server listens on `127.0.0.1:3000`, or on `RFQ_ADDR`.
