# gix_drive

The verified core of a peer-to-peer drive-sharing application: drives are
local folders shared with peers, who are admitted by signed invites and
governed by per-drive access lists.

- `src/` is the library, written in Verus. Every function carries a
  `requires`/`ensures` contract proved by the verifier; the `law_*` proof
  functions state the properties that hold across calls (access control,
  invite acceptance, lock arbitration, encryption round trips, gossip
  admission, rate limiting, path normalisation, error codes).
  - `access`, `store`, `security`, `invite`: access lists, the security
    store, invite tokens and their acceptance.
  - `encryption`, `key_exchange`, `keys`, `encryption_manager`, `identity`:
    drive keys, file and stream encryption, key wrapping, node identities.
  - `locking`, `presence`, `conflict`, `rate_limit`, `audit`, `cleanup`:
    the per-drive managers and their maintenance.
  - `validation`, `listing`, `file_commands`, `watcher`, `docs`, `drive`,
    `transfer`, `sync`, `peers`, `events`, `channel`: paths, listings, file
    commands, change detection, synced metadata, drives, transfers, peers
    and events.
  - `primitives`, `clock`: the calls into the cryptography, encoding and
    time crates and the system clock, each behind a contract.
- `tests/` runs the library on concrete values.
- `app/` is the unverified shell: disk access, JSON forms of the records,
  the invite wire format, the file, lock, permission, presence and conflict
  commands, and the maintenance thread.
