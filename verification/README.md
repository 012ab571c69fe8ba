# rust-pipeline

A self-feeding pipeline with adversarial validation, verified with Verus.

Messages enter as raw bytes and pass through parsing, schema validation, routing and
dispatch. Handler responses are serialized back to raw bytes and re-injected at the
ingress, losing all trust. The pipeline is the trust boundary, not the handler.

```
[Raw Bytes] ──→ Parse ──→ Validate ──→ Route ──→ Dispatch ──→ Handler
     ↑                                                           │
     └──────────── serialize to raw bytes (UNTRUSTED) ───────────┘
```

## Layout

- `src/` — the verified library: what happens to a message at each stage.
- `app/` — tokio tasks and channels, the async traits for handlers, middleware,
  transports and materializers, YAML loading, and `serde` / `std::error::Error` forms of
  the library's types.
- `tests/` — the library from outside, with a synchronous drive of all stages.

## Modules

| Module | Purpose |
|--------|---------|
| `wire`, `address`, `provenance`, `envelope` | the canonical envelope and its parts |
| `markup`, `grammar`, `survival`, `codec` | envelopes on the wire |
| `validation` | schemas for payloads |
| `routing`, `registry` | listeners, routes and peers |
| `thread` | conversation chains |
| `handler`, `middleware`, `pipeline` | one message through the stages |
| `switchboard` | materialize, then inject |
| `federation` | sealed frames between nodes |
| `config` | organism configuration |
| `text`, `numbers`, `strmap` | strings, notations and string-keyed collections |

Public proof functions named `law_…` state what holds across functions. Functions marked
`external_body`, and `assume_specification` items, say in their doc comments what is
taken on trust of the outside function they call.
