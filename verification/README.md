# mcpdoctor

Lint and pin MCP tool catalogs: full-schema static analysis for tool
poisoning, content-hash pins for rugpulls, and cross-server shadowing checks.

The library under `src/` is verified with Verus: every public function states
what it returns in `requires`/`ensures` over mathematical views (`Seq<char>`
for text, `Seq` for lists), and the laws of the library are public proof
functions.

- `text`, `json`: character-level text, decimal numbers, a JSON document model
  with its canonical (compact, key-sorted) text.
- `normalize`: whitespace collapsing, ANSI stripping, the walk over every string
  leaf of a tool (depth, leaf-count and length limits included).
- `detectors`: the rule pack, concealment and parameter-name detectors, schema
  oddities, trusted-name collisions, cross-server shadowing, deduplication.
- `hash`, `pin`: tool and server hashes, pins, drift findings, the pin store.
- `report`, `scan`: scan reports with their human and Markdown renderings, and
  the scans of one list, several lists, a live inventory and a pin check.
- `client`: the stdio wire decisions (framing, headers, replies, pagination)
  and the order of an inventory session (`initialize`, the notification, the
  `tools/list` pages, requests numbered 1, 2, 3, …), as a step function that
  `app/` drives.
- `cli`: argument rewriting, targets, environment pairs, exit status, catalog.

Maps keyed by text are sorted vectors: the pin store (server key to pins)
and each server's pins (tool name to hash) keep strictly increasing keys, the
invariant `store_wf` that `PinStore::is_sorted` checks and `upsert_pin`
keeps. The sets used while deduplicating findings and comparing servers are
vectors searched in order. vstd specifies `BTreeMap`, `HashMap` and `HashSet`,
but with `String` keys Verus could not prove even the length of a map after
one insert, so the library keeps its maps as sorted vectors, where every
operation is proved.

Calls into `sha2`, `hex`, `regex`, `serde_json`, `chrono` and `uuid` stand
behind small trusted wrappers whose contracts say what those crates document.

`app/` is the command-line program: argument parsing, files, processes, and the
serde forms of the library's types. `tests/` exercises the library.
