# disk_spinner

Checks block devices before a destructive test that fills spinning disks with
reproducible pseudorandom data and reads it back. The library under `src/`
holds the logic, verified with Verus:

- `generator`: the ShiShuA byte stream (seeding, reads that consume the stream
  byte by byte, `std::io::Read`).
- `device`: the kind of medium of a block device, its partition number, the
  partitions a disk holds, and the checks made before a disk is overwritten.
- `path`: Unix path text (`file_name`, the parent's file name, `join`).
- `text`: whitespace trimming and the unsigned decimal literals of `str::parse`.

`app/` is the command-line front end: argument parsing and the file-system
reads under `/sys/class/block` that feed the library's checks.

Not included: the stages that write the generator's bytes to a device and read
them back, and the choice among several generators (`--generator`). Only the
ShiShuA generator is provided. `ShishuaGenerator` implements `std::io::Read`:
its `read` fills the whole buffer with the next bytes of the stream and never
fails; `read_bytes` does the same and returns the count directly.
