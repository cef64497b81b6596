# bible_mcp

An MCP server for searching the World English Bible, with its decision logic
verified in Verus.

## Layout

- `src/` — the verified library:
  - `books` — the 66 canonical books and the resolution of a book name
    (exact, ordinal words, or Jaro–Winkler fuzzy match); `book_names` proves
    that a canonical name in any letter case resolves to its own book;
  - `fusion`, `natural` — Reciprocal Rank Fusion with exact fractions over
    arbitrary-precision naturals;
  - `db` — the verse record, the `IN (...)` placeholder list, reordering
    fetched rows by requested ids, and the head of a fused ranking;
  - `server` — limits, references, messages and result layouts of the tools;
  - `tools` — the four MCP tools as step machines: each step either asks the
    host for data or finishes with the answer;
  - `download` — SHA-256 checks of the database against its manifest;
  - `mcp_config` — parsing an MCP client's configuration and adding the
    server to it;
  - `config`, `text` — the default database path and character-level text
    operations.
- `app/` — the `bible-mcp` command: SQLite and sqlite-vec queries, the
  embedding model, HTTP downloads, the MCP stdio transport, and the command
  line. It performs the requests of the step machines and renders their
  answers as JSON.
- `tests/` — tests of the library on concrete values.

## Environment

- `BIBLE_MCP_DB_PATH` — the database that `serve` reads (default: the
  configured path).
- `BIBLE_MCP_TEST_EMBEDDING` — comma-separated numbers used as every query
  embedding, in place of the model.
- `BIBLE_MCP_MANIFEST_URL` — where `setup` and `update` fetch the manifest.
- `BIBLE_MCP_CLIENT_CONFIG` — the MCP client configuration file that `setup`
  adds the server to.
