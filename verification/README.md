# rose_data_core

Verified data formats and game rules for ROSE Online tools and servers.

- `src/` is the library, written in Verus: every function carries a contract
  over a mathematical model of its data, and Verus proves the code meets it.
  Laws that relate several functions (a table written and read back is the
  same table, a kick never removes the clan master, and so on) are public
  proof functions beside the code they speak of.
- `tests/` runs the library on concrete values.
- `app/` is a small command-line tool around the library: it reads and
  writes STB, IFO and DDS files, lists and rewrites VFS archives, and edits
  NPC shop tabs.

Text decoding (EUC-KR, UTF-16LE) is done by `encoding_rs`, through a few
trusted wrappers in `src/text.rs` and `src/vfs.rs` whose contracts say what
they claim of that crate.
