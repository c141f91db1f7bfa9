# kintsu_parser

Parts of the Kintsu schema compiler as a verified library: Verus checks
every function under `src/`, and every public one carries a contract (a few
private helpers have none). What reads files, fetches packages, keeps
lockfiles and drives a compile over many schemas is not here; the decisions
those steps make on what they read are.

- `lexer`, `escape`, `toks`, `stream`, `printer`: source text to tokens,
  token streams with cursors and forks, and printing tokens back.
- `paths`, `names`, `pathord`, `refset`: qualified names, package/import
  name normalisation, and ordered sets of item paths.
- `ast`, `ast_ops`, `common`, `defs`: the written schema (types, structs,
  oneofs, unions, metadata) and what a namespace holds.
- `type_graph`, `extract`, `type_registry`, `validation`: the dependency
  graph of types, the registry of declared types, and reference checks.
- `items`, `namespace_build`, `lib_module`: the items of a parsed file, a
  namespace built from its files, and the checks of a package's root file.
- `aliases`, `alias_resolve`, `anonymous`, `unions`, `union_check`,
  `union_or`, `union_or_merge`, `union_or_phase`, `helpers`, `metadata`,
  `phases`, `resolution`, `type_expr`, `pipeline`: the resolution passes of
  a namespace (the `&|` merge among them, after the aliases), and the run
  of them in order.
- `declare`, `convert`, `convert_item`, `declare_ns`: declarations, the
  conversion of written types and of registered items, and the declaration
  of whole namespaces and schemas.
- `schema_graph`, `ns_levels`, `scc`: the order in which schemas and the
  namespaces of a schema are compiled, and the cycles among schemas and
  among types, found with `pathfinding`.
- `registration`, `packaging`: registering the items of a namespace, and
  the checks of published package data and of grant targets.
- `registry_core`, `registry_auth`: error replies and authorization
  decisions of the package registry.

`app/` holds what is not verified: reading files from disk and the serde
and error-message forms of the registry types.
