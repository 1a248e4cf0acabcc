# xirtam

The rules of the xirtam confederal messaging protocol, as a library whose behaviour is
stated in contracts and proved with Verus.

## Layout

- `src/crypt/`: hashes, Ed25519 signatures, X25519 key agreement (including the triple
  Diffie-Hellman handshake), XChaCha20-Poly1305 and XChaCha20 encryption, and base64 keys.
  Each call into a cryptographic crate sits behind a small trusted wrapper whose contract
  names what the crate computes.
- `src/structs/`: the protocol's data: names, device certificates and certificate chains,
  directory histories, mailboxes, events, groups and attachment fragments. What is hashed or
  signed is the BCS encoding of the data, built byte by byte in `src/bytes.rs` and stated in
  the contracts; `tests/bcs_encoding.rs` holds it against the `bcs` crate.
- `src/dirclient/`: what a directory client checks: header chains, the listing a history
  gives, inclusion proofs and the proof of work for updates.
- `src/client/`: the client's decisions: group rosters, long-poll batching and timeouts,
  peer keys and device chains, attachment chunking and fragment trees, message routing,
  forwarding through the user's own server, notifications and conversation paging.
- `src/gateway.rs`, `src/rpc_pool.rs`, `src/multitool.rs`, `src/display.rs`: the decisions of
  the gateway, the transport pool, the device tool and the user interface.
- `tests/`: tests that run the library with the real cryptographic crates.
- `app/`: a small command-line device tool around the library, doing the file I/O and the
  serialization the library leaves out.
