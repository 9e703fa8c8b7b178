# ext4

The journal and the inode layer of an ext4 file system, verified with Verus.

- `src/journal`: the log format, commits, checkpoints, replay, revokes and the
  state of a running journal. The proofs show that a committed transaction is
  read back from its log blocks as it was captured, that a commit never touches
  what still has to be checkpointed, that walks over the log end whatever it
  holds, and that an image which a checkpoint drops stands at home, unless a revoke
  suppresses it.
- `src/inode`: inodes on disk and in memory, and the operations on files. An
  operation is planned as a list of steps. The proofs show which size a file has
  after them, that a shrink over many transactions frees blocks only while the
  inode is on the orphan list, and, on a model of the page cache and the extent
  tree, that what was written is read back, that a write which fails leaves nothing
  behind the end of the file, that reserving space changes no byte, that what a
  shrink cut off reads as zeros when the file grows again, and that holes do too.
- `src/checksum.rs`, `src/bytes.rs`, `src/error.rs`: crc32c, byte order and errors.
- `app`: what needs a device, threads and clocks. It performs what the library
  decides, and hands back what came of it.
- `tests`: the library on a journal and on files in memory.
