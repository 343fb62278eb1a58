# elfex

A parser, editor, and builder for ELF executable images, written in Verus.
The library's functions carry contracts that Verus proves: what a parse
accepts and returns, what a layout writes, what an edit changes, and what a
validation reports. One small function is trusted rather than proved: UTF-8
decoding through `core::str::from_utf8`, whose contract stands in
`src/strtab.rs`.

It tells byte-for-byte files apart from images already mapped by a loader,
whose address-to-source translations differ. `ElfFile::parse` keeps the bytes
that follow the last structure of a file. `src/elf/rebuild.rs` proves that
the bytes an `ElfFile` builds to, for an image whose fields fit its class,
parse back with the same trailing bytes; and that they rebuild to the same
bytes when, in addition, no `PT_NULL` segment stores bytes and no section
name holds a NUL character.

## Layout

- `src/` is the verified library.
  - `ident`, `header`, `program`, `section`: the ELF identification and
    headers, with their byte encodings and the laws that decoding an encoding
    gives the value back.
  - `reader`: the positional `ReadAt` trait and the in-memory readers.
  - `elf`: `ElfImage`, with its parse (`elf/parse.rs`), file and mapped
    layouts (`elf/serialize.rs`), edits (`elf/edit.rs`), queries
    (`elf/inspect.rs`), and validation (`elf/validate.rs`); `elf/round_trip.rs`
    and `elf/rebuild.rs` prove that the file layout parses back and that a
    parsed layout lays out to the same bytes again.
  - `elf_file`: `ElfFile`, an image together with its trailing bytes.
  - `builder`: `ElfBuilder`, which assembles an image from loadable segments,
    notes, a TLS template, dependencies, and relocations.
  - `symbol`, `reloc`, `dynamic`, `notes`, `tls`, `strtab`: the tables an
    image holds.
  - `error`, `text`: errors and their messages.
- `tests/` runs the library on concrete inputs.
- `app/` holds what needs the file system: a reader over an open file and the
  constructors that open a path.
