# rust_xz

An `xz(1)` command built on the `liblzma` crate. The library in `src/` is
written in Verus: every function states its behaviour in `requires` /
`ensures` and is proved against it.

## Layout

- `src/options.rs` — modes, formats, filter kinds, filter chains and the
  defaults each program name (`xz`, `unxz`, `xzcat`, `lzma`, `unlzma`,
  `lzcat`) starts from.
- `src/cli.rs` — the command line as a step function: `parse_from` /
  `parse_resume` return the options, a refusal, `--help`/`--version`, or a
  request to read a `--files`/`--files0` list, whose bytes
  `add_files_list` turns into file names.
- `src/suffix.rs` — output names for compression and decompression, with
  the law that one undoes the other.
- `src/lzma.rs` — the liblzma calls, each behind a small trusted wrapper
  whose contract is read off the crate's source.
- `src/codec.rs` — filter-chain checks, compression, decompression (with
  lzip routing and `-dfc` passthrough) over in-memory buffers.
- `src/list.rs` — `--list`: stream counting, sizes in `KiB`/`MiB`/`GiB`
  exactly as `{:.1}` prints them, and the table.
- `src/processor.rs` — what to do with each file and with standard input.
- `src/text.rs` — character-sequence helpers the others share.
- `app/` — `main`, file and terminal I/O, the ratio column (floating
  point), and the `rust-xz-fuzz` decoder-stability harness.
- `tests/` — behaviour on concrete inputs.
