# meta-feeder-sdk

The source-agnostic foundation shared by the gateway core and every feeder
sidecar, verified with Verus.

| module | what |
|---|---|
| `budget` | a token bucket that gates one upstream's API calls |
| `cache` | the per-plugin redb cache, its quota ledger and its search keys |
| `licence` | licence URL to SPDX-style identifier |
| `text` | text as sequences of characters |

The library (`src/`) decides and stores. Its contracts are proved, except for
those of the small functions that call redb, serde_json or std: each of these
says what is claimed of its call. `budget`, `cache` and `licence` state what holds
of their operations together in a `laws` submodule of public proof functions.

`app/` is the runtime around it: the clock, sleeping on tokio, and sharing a
budget or a cache between tasks.

## Units

The budget is fixed-point and has no clock. Rates and capacities are in
nano-tokens, instants in nanoseconds since an origin of the caller's choice.
