# reax

The core of a note-taking client that keeps notes in a local SQLite
database and synchronises them, end-to-end sealed, with the Mavinote server
and the user's other devices.

- `src/` is the library, verified with Verus: the models, the sealing of
  text between devices (x25519 key agreement, AES-256-GCM-SIV, Base64), and
  every decision that storage, synchronisation and the notification listener
  take: which devices changed, what to pull and push, how a conflict is
  merged, how requests of other devices are grouped and answered, how the
  listener backs off. Calls into the cryptography crates, `rand` and
  `tokio`'s watch channels sit behind small functions whose contracts are
  assumed. What a watch channel holds is not visible to the proofs:
  `ObservableMap` keeps a ghost record of the values it hands to its
  channels, not the channels' contents. The rest is proved.
- `app/` is the runtime around it: the SQLite queries, the HTTP and
  WebSocket client, the async tasks, and the entry points of the frontends.
  It performs the I/O and hands the library plain values.
- `tests/` exercises the library on concrete values.
