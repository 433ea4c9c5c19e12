# repomonk

A terminal typing trainer that has you type through a code repository, file
by file, following the order in which the code depends on itself.

The crate is a Verus library with a thin program around it.

- `src/` is the verified library. Each public function states what it does in
  `requires` / `ensures` over mathematical models (`Seq`, `Set`, `Map`, views
  of the data types), and Verus proves the code against those contracts.
  - `domain/`: repository progress, the typing engine, file-type preferences,
    entry-point detection and the dependency order (a depth-first traversal of
    the imports, pre-order top-down and post-order bottom-up).
  - `scan/`: walking and classifying files, extracting the typeable body of a
    file, line labelling (through the tree-sitter parsers), and the import
    edges of Rust, TypeScript/JavaScript and Python sources.
  - `source/`: reading what the user typed as a local path or a GitHub
    repository.
  - `store/`: the values read from and written to the SQLite store (skip
    texts, checkpoints, session days and streaks, completions carried over
    by content hash).
  - `ui/`: the screen models (tree, home, search, settings, stats, flow,
    typing effects), the syntax colours of the typing screen, and how keys
    are routed among them.
  - Laws that relate several functions stand as public proof functions named
    `law_*` beside the functions they speak of.
- `app/` is ordinary Rust: the terminal loop, drawing with ratatui, the SQLite
  store, file-system walking, git, configuration files and the command line.
  It hands plain values to the library and performs what the library decides.
- `tests/` runs the library on concrete inputs with the real outside crates
  linked.

Calls into outside crates that the logic needs (SHA-256 hashing, the
tree-sitter parsers, syntect's tokenizer, chrono's date parsing, a few
functions of std) stand behind small trusted
wrappers in `src/`, each with a doc comment that says what its contract claims
of the outside code.
