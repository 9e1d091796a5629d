# loom

Loom's core: the behavioural truth of a design system — component state
machines, the reification table, the token graph, motion semantics, the
mode-contracts and the oracles that judge them — as a library whose
functions carry contracts proved by Verus. The few functions that call into
an outside crate (the Turtle and JSON-LD parsers, the regex engine, the JSON
schema validator, Unicode lowercasing) sit behind trusted wrappers: Verus
believes their contracts, which state what those crates document, and proves
everything built on them.

## Layout

| Path | Contents |
|---|---|
| `src/` | The verified library. |
| `src/decider.rs` | The bundle decider: guards and decisions for loading a bundle. |
| `src/load_gate.rs` | The load gate: parse, SHACL-validate, fail closed, one write. |
| `src/shacl.rs` | The SHACL subset evaluated on load. |
| `src/order.rs` | Proof that validation does not depend on the order of the triples, wherever a wire form names at most one violation (two different violations with one wire form keep the order the triples give them). |
| `src/provenance.rs` | The PROV-O record of every load attempt. |
| `src/bundle.rs` | Bundle requests, outcomes, decider state and catalog inventory. |
| `src/tokens.rs`, `src/reification_table.rs`, `src/motion.rs`, `src/mode_contracts.rs` | The oracles over fetched rows. |
| `src/machine.rs`, `src/instance.rs`, `src/component.rs` | The machine runtime and the component handle. |
| `src/run.rs`, `src/ingest.rs` | Reification runs and the token-ingestion verdict. |
| `src/graph.rs`, `src/rdf.rs`, `src/sparql.rs`, `src/ontology.rs`, `src/text.rs` | Named graphs, RDF terms, query binding, vocabulary and string helpers. |
| `tests/` | Tests of the library. |
| `app/` | The `loom` command line, the Oxigraph store, the JSON wire types, the FFI handle and the contrast arithmetic. |

The command line reads the maintained query files from `queries/`, the shapes
from `shapes/<artifact-class>.ttl`, the pinned JSON-LD context from
`contexts/loom.context.json` and the ingestion schema from `schemas/`,
relative to the working directory.
