# tezedge_debugger (verified core)

The verified part of a Tezos peer-to-peer traffic debugger, written in Verus.

- `src/utility/decrypter.rs`: reassembly of an encrypted peer stream — length
  prefixed frames, the nonce sequence, and the bookkeeping of the decoder input
  (how many plaintext bytes the decoder still waits for, what an underflow or
  an overflow does, the metadata message first).
- `src/system/p2p/parser.rs`: the registry of observed connections by socket,
  the cached node identity and the archived reports of closed connections.
- `src/storage_/secondary_index.rs`: the index keys of a secondary index,
  derived through the user's `Access` and `FilterField` implementations.
- `src/wire.rs`: reading a big-endian length through the `bytes` crate.

`app/` holds what runs around it: the HTTP routes, the storage calls, the
asynchronous connection handling and the calls into the cryptography and
message codecs, which hand their results to the state machines of `src/`.
