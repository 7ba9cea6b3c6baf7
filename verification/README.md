# lci_codegraph

Code-graph indexing for source checkouts: the structural call graph (per-file symbols resolved
across files into one canonical graph), graph-aware embedding input (a small header naming a
chunk's container, callees and callers ahead of its source), and the batching, retry and
alignment rules of the embeddings call.

The library under `src/` is verified with Verus. Where a function reads a tree-sitter value (a
parse tree, a node, a compiled query), its contract states what follows from whatever that value
holds; the rules it applies are stated exactly over plain values (`SyntaxNode`, `Capture`).

- `graph/` — graph types, the canonical order and merge sort (`canon`), the cross-file resolver
  (`resolve`), the proof that resolution does not depend on file order (`order`), and the
  callee/qualifier rules over syntax nodes (`callee`).
- `embed/` — configuration (`mod`), the per-chunk header and its lookup tables (`context`,
  `lookup`), and the embeddings-call decisions (`client`): URL, `Authorization`, retry steps,
  backoff, reply alignment.
- `lang/` — the registered languages, their grammars and graph strategies; `tags` classifies a
  `tags.scm` query's matches into definitions and calls.
- `tuning`, `walk`, `input` — indexer knobs, walk options, and the indexing output types.
- `text` — string helpers with specifications (comparison, decimal, parsing, trimming).

`app/` holds what touches the outside world: reading the process environment and performing the
HTTP request, driven step by step by the library's decisions.
