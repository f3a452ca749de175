# seer_sync

View-key-only Zcash chain sync, verified with Verus.

With a unified full viewing key or a unified incoming viewing key, the library finds every
note and spend that the key can see in the compact blocks that lightwalletd serves. It reads
and sends nothing itself: blocks and transactions come in as plain values, and what was found
and what to do next go out as plain values.

## Layout

- `src/` is the library. Every function states what it returns or changes.
  - `sync` is the sync engine: trial decryption (`decrypt`), scanning (`scan`, `watch`),
    enrichment from full transactions (`enrich`), the transparent outputs and spends of full
    transactions (`transparent`, `transparent_scan`), the stream of note commitments
    (`commitments`), the state machine of a run, and the persistence engine (`engine`).
  - `db` holds the account's tables with the last hundred synced positions, by which a rewind
    finds its way back, the wallet store (`store`, `rows`, `account`) and the
    store of the note commitment tree (`commitment_tree`, `shardtree_serialization`).
  - `scan` scans blocks by what the key can do.
  - `key` and `keys` decode viewing keys; `chain`, `tree`, `memo` and `address` are the
    smaller parts.
  - `upstream` holds the calls into the Zcash protocol crates, with what is taken on trust of
    each.
- `tests/` runs the library with real notes and transactions.
- `app/` is the code around a server and a disk: the gRPC client, the loops and SQLite.

## Laws

Public proof functions whose names start with `law_` state what holds of the library as a
whole:

- everything that a key can see is found, and nothing else (`sync::laws`);
- what a batch leaves to be watched (`sync::batch_laws`), and that transparent outputs and
  spends come with their batch (`sync::transparent_scan`);
- how a run cuts the chain into batches, passes a fork and gets over a failure of the server
  (`sync::batch_laws`, `sync::run_laws`);
- commitments stand where the notes found in them do, where blocks tell the sizes of the trees
  (`sync::commitments`);
- a stream is cut into chunks at the limit and nowhere else (`chain`), and cutting it changes no
  note, no transparent part and no spend of a known nullifier that is told (`scan::stream`);
- a batch can be written again (`db::apply_laws`, `sync::engine_laws`);
- what a rewind undoes (`db::laws`, `db::store_laws`);
- a shard is read back as it was written (`db::shardtree_serialization`).
