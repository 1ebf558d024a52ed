# mould

`mould` is a terminal tool for generating and editing configuration files
from templates (`.env`, JSON, YAML, TOML, XML, INI and Java properties). Every
format is read into one flat list of entries, each located by a path of
object keys and array indices; the entries are edited in a Vim-like tree view
and written back in the file's own format.

## Layout

- `src/` is the library, written in Verus: each function carries a contract
  and is verified.
  - `format/` — the entry model, template merging, and the translation of
    each format to and from entries (`env`, `hierarchical` and `document`
    for the nested formats, `xml`, `ini`, `properties`; the texts are read
    by `serde_json`, `serde_yaml`, `toml`, `quick-xml`, `rust-ini` and
    `java-properties`, and INI and properties files are written by the last
    two), path order, and the proofs that flattening a document and building
    it back gives the document again (`rebuild`) and that simple XML is
    written back as it was read (`xml`).
  - `app` — the editing state: selection, modes, search, typing, renaming,
    adding and deleting entries, turning values into groups, and the undo
    and redo stacks; `undo` — the branching undo tree.
  - `runner` — what each key does; `input` — keys and the typed line;
    `view` — the texts the screen shows, with their colours and emphasis.
  - `resolver` — pairing a template with its active file; `config` — the
    theme and key bindings; `error`, `cli`, `text`.
- `tests/` — tests of the library.
- `app/` — the program: command line, files, the serde-based writers of
  JSON, YAML and TOML, reading the settings, the terminal and the key loop.
