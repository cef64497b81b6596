//! Bible search over a local database: resolving book names, fusing the
//! vector and keyword rankings of a search, laying out the answers of the
//! MCP tools, keeping the database current and registering the server with
//! an MCP client.
pub mod book_names;
pub mod books;
pub mod config;
pub mod db;
pub mod download;
pub mod fusion;
pub mod mcp_config;
pub mod natural;
pub mod server;
pub mod text;
pub mod tools;
