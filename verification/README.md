# mise_plugins

Plugin naming, plugin sources and the install-state registry of a tool
version manager, written in Verus with contracts proved for every function.

Layout:

- `src/text.rs` — string primitives over character sequences (prefixes,
  splitting at a character, code-point order, trimming, line splitting).
- `src/paths.rs` — Unix paths held as strings: components, component-wise
  equality, `starts_with`/`ends_with`, joining.
- `src/sorted_map.rs` — a map with string keys kept in strictly ascending order.
- `src/wrappers.rs` — the calls into `heck` (kebab case) and `versions`
  (version comparison), with the contracts the library relies on.
- `src/plugins/` — plugin types, locations, sources, the plugin enum and the
  lookup `get`; `names.rs` normalizes plugin names.
- `src/toolset/` — the install state (plugin registry, tool list, version
  listing order, backend metadata) and backend kinds.
- `app/` — the file system, git, environment and async runtime around the
  library: the global state, directory scans, polling for plugin resolution.
- `tests/` — scenarios run against the compiled library.
