# manga_reader_engine

The core of a manga reader, verified with Verus.

- `src/` is the verified library: archive type detection, page filtering and
  path ordering (`archive`), the readers of CBZ and CBT archives held in memory
  (`cbz`, `cbt`), the choice of a CB7 archive's pages from its listing and its
  decoded entries (`cb7`; the 7z decoding itself runs in `app/`), the disk-backed image cache with its LRU and
  largest-first eviction (`cache`, `hot`), image decoding and the caching image
  pipeline (`imaging`), gutter-based panel detection (`panel`), the JSON-RPC 2.0
  protocol and method routing (`protocol`), the schema migrations (`schema`), the
  reading application's library, search and page images (`gui`), the catalog
  records (`models`), plugin data (`plugin`) and the engine configuration
  (`engine`). Each public function states its behaviour in `requires`/`ensures`;
  the `law_*` proof functions state properties that span several calls.
- `tests/` runs the library on concrete values.
- `app/` is the program around it: configuration, the SQLite catalog, the Tantivy
  index, the TCP server, reading archives and cache files from disk, and the
  reading application's commands.

Archives: CBZ (ZIP), CBR (RAR), CB7 (7z), CBT (tar) and plain folders. PDF
files are an unsupported archive type: none of the crates the engine builds on
decodes PDF.

Migration scripts are read at run time from `migrations/<name>.sql` (or the
directory named by `MANGA_MIGRATIONS_DIR`).
