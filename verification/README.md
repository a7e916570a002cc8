# x68k_archive

A verified library for X68000 (Human68k) disk images and archives of them, and
the command-line program around it.

## Layout

- `src/`: the library. Every function is verified by Verus against its contract,
  but for the calls into other crates that are named below.
  - Disks: `bpb`, `fat12`, `fat16`, `fat`, `direntry`, `fs`, `image`, `hdd`,
    `partition`, `spec`, `walker`, `listing`, `export`, `glob`.
  - Archives: `document`, `schema`, `builder`, `lzh`, `extract`, `dennou`,
    `metadata`, `csv`, `searcher`, `grouping`, `summarizer`, `summary`, `anthropic`.
  - Shared: `bytes`, `text`, `text_norm`, `path`, `sort`, `json`, `error`.
  - Calls into other crates: `codec` (Shift_JIS, Unicode), `digest` (SHA-1),
    `pattern` (regular expressions) and `lzh` (LZH archives) hold the functions
    whose contracts are trusted, and `text` that of `String::push`. A comment above
    each says what it claims.
- `tests/`: tests of the library on concrete disks, archives and texts.
- `app/`: the program: arguments, files, the full-text index on disk and the
  service that writes summaries.

## What is stated

A contract says what a function returns for every input that it accepts, over
models of disks, directories, documents and tables. Properties that relate
several functions stand beside them as public proof functions, such as that
every image is in exactly one group, that a specification of an image is read
back from its parts, or that unpacking an archive is bounded.
