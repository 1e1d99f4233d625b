# winfsp_fs_skeleton

The parts of a WinFsp-based filesystem driver that do not depend on the
filesystem, verified with Verus.

- `src/` is the library. It makes the decisions: what a partition table says,
  which sectors to read, how POSIX values look to Windows, which drive letter is
  free, what to do about a disk arrival, how the service answers its manager.
  Its contracts are proved, on the terms below.
- `app/` performs them: it opens files and raw devices, pumps window messages,
  spawns mounts, talks to the service manager and the registry.
- `tests/` runs the library on concrete values.

A consumer implements `FsBackend` (four constants and a `detect` function) and
calls `watch::run` or `service::run`.

```rust
struct Ext4Backend;

impl FsBackend for Ext4Backend {
    const FS_NAME: &'static str = "ext4";
    const SERVICE_NAME: &'static str = "ExtFsWatcher";
    const LAUNCHER_SERVICE_CLASS: &'static str = "ext4-mount";
    const FILE_EXTENSION: &'static str = "img";

    fn detect(bytes: &[u8]) -> bool {
        // ext4 superblock magic at byte offset 1024 + 0x38.
        bytes.len() >= 0x43A && bytes[0x438] == 0x53 && bytes[0x439] == 0xEF
    }
}
```

## What the proofs rest on

Believed without proof, because the code is the standard library's:

- `String::push` and `char::from_u32` do what their contracts in `src/text.rs`
  say.
- `io_error` in `src/device.rs` calls `std::io::Error::new`; the error is a
  function of its kind and message, and nothing more is claimed of it.
  `std::io::Error` itself is opaque.

Implementors of `BlockSource`, `FsBackend`, `FsReader` and `FsWriter` owe what
the traits' methods ensure.

`app/` is not verified. It has to meet the conditions that these functions
require:

- `Transfer::new`: the range ends inside 64-bit addresses; `Transfer::advance`: a
  piece was due, and no more moved than was asked for.
- `plan_read`: the sector size is not 0; `copy_window`: the range lies inside the
  scratch buffer.
- `Arrival::probed`, `drives`, `launched`: the report answers the step that the
  arrival asked for.
- `read_u16`, `read_u32`, `read_u64`: the bytes are there; `parse_gpt_entries`:
  the array has the length that the header says, within its limits. `app/` does
  not call these.
