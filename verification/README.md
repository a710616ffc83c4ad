# rust_code_mcp

The verified logic of an MCP server for Rust code, and the server around it.

`src/` is a Verus library. It holds the rules of the server: which daemon serves
which project and how long it stays, which files are indexed and under which
identity, what is reported of an index, which projects stay loaded and when they are
refreshed, how the references to a name are found and put in order, how texts are
batched for a model and how its answers are checked. Each public function has a
contract that says what it returns for every input; laws that relate several of them
are public proof functions beside them.

`app/` is the server: sockets, processes, files, the metadata store and the analysis.
It asks the library what to do.

`tests/` runs the library on concrete values, with the outside crates linked.

What the library believes without proof are the calls into other crates and into
`std`, each behind a small function with a doc comment: SHA-256 (`digest`), the
binary form of cache entries (`metadata_cache`), JSON documents
(`embeddings::ep_census`), UTF-8 and a few functions on characters (`text`,
`semantic::position`, `indexing::error_collection`).
