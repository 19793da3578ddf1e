# VurnChat

The cryptographic core of a post-quantum messenger and the decisions of its relay gateway, verified
with Verus.

## Layout

`src/` is the library. Verus proves the contracts of its functions, but for those that call an outside
crate: see "What is believed".

| Module | What it holds |
|---|---|
| `cipher` | ML-KEM-1024 with AES-256-GCM packages, symmetric encryption, safety fingerprints |
| `signing` | ML-DSA-87 sender signatures |
| `identity` | identities, bundles with signed prekeys, blind profiles, invite links |
| `bootstrap` | the root of a session from two identities, the init envelope |
| `ratchet` | the hybrid ratchet: sessions, message headers, retained keys, saving and restoring |
| `dht` | mailbox keys and records |
| `delivered` | which payloads were delivered to whom, in memory and in storage |
| `mailbox` | offline messages: envelopes, and the drain to a client |
| `gateway` | registration, relay, profile operations |
| `events` | what the gateway does about the peer network |
| `cli` | the command line |
| `tls` | the certificates and the key of a TLS server, from PEM |
| `crypto`, `encoding` | calls of outside crates, with what is believed of each |
| `bytes`, `text` | byte strings, numbers and texts |

In each module, spec functions say what a value is, functions say in `ensures` what they return over
those, and public proof functions state the laws. The laws of the ratchet stand in `ratchet::laws`.

`app/` is the server around the library: sockets, the libp2p swarm, storage, TLS, rate limits.

`tests/` runs the library with the outside crates.

## What is believed

Functions marked `external_body` and the one `assume_specification` are not proved: `crypto`,
`encoding`, the two `bincode` calls in `delivered`, the two `rustls_pemfile` calls in `tls`, and
`String::push` in `text`. Each says in its doc comment which outside function it calls and what is
claimed of it. What a primitive computes has a name without a definition, such as
`crypto::sha256_of`; contracts are exact over these names.
