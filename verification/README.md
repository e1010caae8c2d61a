# Self-Evolving Memory

A memory store for AI agents: typed memories in an explicit and an implicit
pool, links between memories, progressive retrieval by spreading activation
over those links, and consolidation that lets unused memories decay and
removes weak ones. It is served over HTTP and offers MCP tools to agents.

## Layout

- `src/` — the library, written in Verus. Every function carries a
  `requires`/`ensures` contract that Verus proves, except six small
  wrappers around outside code (UUID creation and parsing, the clock, base64
  encoding, string lowercasing and the standard hasher), marked
  `#[verifier::external_body]`, whose contracts are assumed and documented
  at each wrapper.
  - `kinds` — pools, memory types, link types and their names.
  - `types` — memories, links, create and update requests, statistics.
  - `store` — the in-memory store: create, read (recording accesses),
    update, delete, list, search, links and statistics.
  - `spreading` — spreading activation and progressive search.
  - `consolidation` — decay by days without access, removal of weak memories.
  - `pool` — per-pool creation, listing and search.
  - `mcp` — the MCP tools: catalogue, argument checks and effects.
  - `sql` — query texts for the SQL stores and the reading of stored names.
  - `vision`, `embedding`, `extractor` — the computable parts of image
    description, embeddings and document extraction.
  - `laws` — properties of the store stated and proved over its model.
  - `text`, `ids`, `arith`, `ranking` — strings, identifiers and clock,
    rounding, stable ranking.
- `app/` — the program around the library: the HTTP server, the PostgreSQL
  and SQLite stores, HTTP clients for embeddings and vision, file reading,
  and the JSON forms of the library's types.
- `tests/` — scenarios run against the compiled library.

Scores such as confidence and importance are held in millionths (1.0 is
1 000 000), times in milliseconds since the Unix epoch, and identifiers as
the 128-bit value of a UUID; `app/` converts to and from the JSON forms.
