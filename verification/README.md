# okaywal

A write-ahead log that provides atomic and durable writes, with its logic
verified by Verus.

Entries are appended to one active segment file by one writer at a time. A file
that has grown long enough is replaced by another one; a thread checkpoints its
entries, empties it and keeps it for reuse. Opening a log recovers the entries
that had not been checkpointed.

- `src/` is the library. It decides, and returns what is to be done to files,
  threads and locks as values.
  - `names`: the names of segment files
  - `discovery`: finding the segment files in a directory
  - `recovery`: opening a log
  - `files`: the segment files of an open log and the state of their directory
  - `wal`: the operations of an open log
  - `reclaim`: what follows the end of a writer
  - `checkpoint`: the work of the checkpointing thread
  - `chunk`: reading stored data back
- `app/` does what the library decides, with real files, threads and locks. The
  format of the segment files and the log's manager are traits there.
- `tests/` runs the library on concrete values.

The checksum of stored data comes from the `crc32c` crate. What the proofs take
for granted of it is written above `crc32c_append` in `src/chunk.rs`. Beyond that
they rest on Verus and its standard library alone.
