# Atlas

Deterministic repository intelligence for onboarding: Atlas scans a
repository, parses it with tree-sitter, builds a file graph, ranks files,
clusters subsystems, traces call flows and explains topics from that graph
evidence.

## Layout

- `src/` — the library, verified with Verus. Every public function states in
  its contract what it computes, over spec functions on sequences of
  characters, and the library's laws stand as public proof functions
  (`law_*`): the top-files listing hides tests and metadata, subsystems are
  keyed by code files only, imports resolve only to inventory files,
  explanations cite only files of the graph,
  traced flows start at their seed and hold no noise, compressed flows keep
  at most eight steps, and scores follow their weights.
  - `text`, `paths`, `order` — character utilities, path classification,
    and sorting by a strict weak order.
  - `parse`, `extract` — languages, tree-sitter syntax events and the
    definitions, imports and calls read from them.
  - `graph`, `architecture`, `flow`, `learn`, `explain`, `snippets` — import
    resolution and ranking, subsystems and entrypoints, flow tracing, reading
    plans, evidence and overviews, and definition snippets.
  - `scan`, `store`, `style`, `diagram`, `progress`, `color` — what the
    inventory skips, the `.atlas/` paths, terminal styling and layout.
- `app/` — the `atlas` command line: the file walk, file reads, the SQLite
  graph, JSON files, syntax highlighting and printing.
- `tests/` — scenarios for the library.
