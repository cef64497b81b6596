use bible_mcp::config::db_path_in;
use bible_mcp::config::{default_db_path, Config};

#[test]
fn default_has_db_path() {
    let cfg = Config::default();
    assert!(cfg.db_path.contains("bible-mcp"));
}

#[test]
fn default_db_path_names_the_file() {
    let path = default_db_path();
    assert!(path.ends_with("bible.db"));
    assert!(path.contains("bible-mcp"));
}

#[test]
fn database_path_under_a_data_directory() {
    assert_eq!(db_path_in(Some("/data".to_string())), "/data/bible-mcp/bible.db");
    assert_eq!(db_path_in(Some("/data/".to_string())), "/data/bible-mcp/bible.db");
    assert_eq!(db_path_in(None), "./bible-mcp/bible.db");
}
