# docling_backends

Readers of document formats, written in Verus: each turns the bytes or the text
of a file into a list of document nodes (headings, paragraphs, list items,
tables, pictures and so on), and each has a contract that says which nodes.

- `src/` is the verified library. `document.rs` has the nodes and their views;
  `text.rs`, `bytes.rs`, `tree.rs`, `json.rs`, `parse.rs`, `decode.rs` and
  `pattern.rs` are what the readers share; the other modules are the readers,
  one or a few for each format: AbiWord, Chandra and DeepSeek answers, docling
  JSON, EBCDIC records, HTML and web archives, DIF, SYLK and dBase, JATS,
  OpenDocument, Pages, PowerPoint and Quattro Pro.
- What holds across functions stands as public proof functions next to the
  functions that it is about.
- Calls into other crates stand behind a few functions marked
  `external_body`. The comment above each says what is claimed of the call.
- `tests/` runs the library.
- `app/` is ordinary Rust around the library: files, packages, settings, and
  what needs floating-point numbers.
