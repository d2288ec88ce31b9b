# vmm

Snapshot machinery for overlay-backed microVMs, verified with Verus.

A block device is a shared read-only base image below a sparse overlay that holds the
blocks written since. Guest memory is restored from layered snapshot files by a page
fault handler. The library makes the decisions; `app/` makes the system calls.

## Layout

- `src/dirty_bitmap.rs`, `src/disk_bitmap.rs`: which blocks are dirty, by index and by
  byte range, and their serialized form
- `src/delta.rs`: delta files, the dirty blocks in a checksummed container
- `src/overlay_io.rs`: the copy-on-write engine
- `src/flatten.rs`: baking a delta into its base
- `src/persist.rs`: saving and restoring block devices
- `src/uffd_internal/`: the page fault handler: regions, layers, traces and its loop
- `src/snapshot/`: write protection and the background writer
- `src/sparse.rs`: walks over the extents of sparse files
- `src/snapshot_request.rs`, `src/vmm_config.rs`: the snapshot requests of the API
- `src/bits.rs`, `src/le_bytes.rs`, `src/text.rs`, `src/image.rs`, `src/io_error.rs`,
  `src/checksum.rs`: what the rest is built on
- `tests/`: scenarios with concrete values
- `app/`: files, guest memory, threads and system calls around the library

Statements that relate several functions are public proof functions whose names start
with `law_`.

## What is taken on trust

- `crc64::crc64`: its result is a function of seed and bytes, and feeding it in pieces
  is the same as feeding it at once (`src/checksum.rs`)
- `u64::count_ones` and `std::str::from_utf8` do what their documentation says
  (`src/bits.rs`, `src/text.rs`)
