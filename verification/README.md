# GHOST NAS

A distributed, encrypted network store. Files are reached over WebDAV; on disk
there is nothing but sealed shards.

- `src/` is the library, verified with Verus: hashing and Merkle trees,
  authenticated encryption, erasure coding, secret sharing, identities and key
  exchange (`crypto`), packet framing (`network`) and what comes of received
  packets (`receiver`), sessions with replay protection (`session`), the vault's
  bookkeeping (`vault`), the sealed directory (`directory`), shard placement
  (`router`), the WebDAV service (`davfs`), configuration (`config`) and the
  TrueNAS bridge (`truenas`). `text`, `bytes`, `lists` and `table` hold what
  these share.
  A file is cut into blocks, each encrypted under its own key and encoded into
  shards; the vault keeps the shards, the sealed directory the shares of the
  keys. What is proved of the whole is that a file reads back as it was uploaded
  as long as no block has lost more shards than it has parity shards.
- `app/` is the daemon around it: sockets, files, HTTP, the clock, `zfs`.
- `tests/` runs the library with the real cryptographic crates.

Time never enters the library by itself: the callers pass it in, as nanoseconds
on a monotonic clock for sessions and since the Unix epoch for files. Functions
that draw random bytes have a companion that takes the drawn value as an
argument and says exactly what comes of it.

Claims about other crates are made only in functions marked
`#[verifier::external_body]` and in `assume_specification` items; the comment
above each says what is claimed.
