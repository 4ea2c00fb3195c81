# oxichrome

Build-time logic of a framework for writing browser extensions in Rust,
verified with Verus.

- `src/` is the verified library:
  - `args`: the grammars of the attribute arguments
    (`#[extension(..)]`, `#[on(namespace::event)]`, `#[content_script(..)]`),
    read from token streams;
  - `tokens`: token streams as plain token values;
  - `source`: reading a source file's functions and structs, and what each
    attribute declares about the extension;
  - `metadata`: the extension metadata and its views;
  - `manifest` and `json`: the generated extension manifest, and the
    recursive merge of extra JSON into it;
  - `names`: the names of generated files and items;
  - `cli` and `lockfile`: the decisions of `cargo oxichrome build`: the target
    browser, the crate name, output names, the target directory and the pinned
    `wasm-bindgen` version.
- `app/` is the `cargo oxichrome` program: file and process I/O, and the
  token output of the attribute macros.
- `tests/` runs the library on concrete values.
