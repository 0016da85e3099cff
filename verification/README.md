# semantic-file-finder

A desktop tool that finds local files by meaning: files are parsed and embedded
by Python worker processes, their vectors are kept in a local index, and a
natural-language query returns the closest files.

`src/` is the verified core, written in Verus:

- `score` — relevance scores held by their IEEE-754 total-order keys, with the
  float comparison stated and computed on the keys (that this comparison agrees
  with `<` on the `f32` scores is checked by `tests/score_and_text.rs`, not
  proved);
- `text` — Unicode trimming and lowercasing, prefixes, and the rule by which a
  configured file type accepts an extension;
- `config` — the application configuration and its defaults;
- `search` — the post-processing of index hits: completing them, the directory
  and threshold filters, the file-type filter, building results and the stable
  ordering by descending score, with the laws that every result passes the
  filters and that the order is fully determined;
- `clock` — calendar text through `chrono`;
- `state` — configuration and indexing status, with the transitions of an
  indexing run;
- `indexing` — excluded directories, files selected for indexing, batches and
  the tally of a run, with the law that a run's stored counts never decrease
  and never exceed the files found;
- `protocol` — the line protocol spoken with the workers: request lines,
  the reading of reply lines, and the decisions on them;
- `clipboard` — the clipboard programs tried when copying a path, what their
  exit means, and the error texts.

`app/` holds the desktop application around it: the Tauri commands, the worker
processes, file-system walks and reads, and the JSON copies of the library's
types. `tests/` exercises the library on concrete values.
