# packman

A small persistent store with two-slot, checksummed pack files, written in
Verus.

A pack file holds a superblock at offset 0 (magic number, format version,
id, owner, creation date, workspace id, CRC-32), two inodes at offsets 4096
and 5120, and data bytes from offset 6145 on. Each inode points at a run of
data with its CRC-32; the inode with the higher version is the latest, the
other is the backup. A write places the new data where it does not overlap
the latest data and points the backup slot at it, so the data written last
but one is still in the file; where the latest data no longer matches its
checksum, loading falls back to it. `app/` replaces a file on disk by
writing a new file beside it and renaming it into place.

- `src/` is the verified library. It works on the bytes of a file:
  `codec` (record encoding, CRC-32), `image` (reads, writes and resizes of a
  byte image), `superblock`, `inode`, `packfile` (open, load, write, init),
  `laws` (what holds across those operations), `pack` (a value kept in a
  pack file) and `vecpack` (packs keyed by id).
- `app/` is the `packman` command and the file side: reading and writing
  pack files on disk and encoding typed values with bincode.
- `tests/` runs the library on concrete values.
