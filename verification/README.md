# vitadecompiler

A decompiler for PS Vita ARM Thumb binaries (ELF or SELF), with its core
written in Verus: the functions under `src/` carry contracts that the
verifier proves, except for a few trusted wrappers around the outside
crates (capstone, flate2, goblin and `String::from_utf8_lossy`), whose
contracts are believed as their doc comments describe; `thumb_capstone`,
which builds the capstone handle, promises nothing.

- `src/` is the verified library: the ELF/SELF loader (`elf`), SCE
  relocations (`relocate`), the module info and its export and import
  tables (`vita`), the NID database (`yaml_db`), the instruction templates
  (`instructions`), the disassembly model (`disasm`), the analysis passes
  (`analyze`) and the pseudo-C renderer (`translate`), with byte and text
  helpers (`bytes`, `text`).
- `app/` is the command-line program: argument parsing, reading the
  binary and the YAML database, and writing the `.c`, `.h`, `.nids.txt`
  and `.yml` files.
- `tests/` runs the library on concrete inputs.

Usage: `vitadecompiler [-r] [-y] [-v VERSION] BINARY DB.yml`.
