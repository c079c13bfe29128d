use stytsch::config::{default_max_history, default_search_mode, file_in, under_local_data, Config, LocalPath};

fn local(s: &str) -> LocalPath {
    LocalPath::from_text(s)
}

#[test]
fn test_config_defaults() {
    let config = Config::default();
    assert_eq!(config.search_mode, "fzf");
    assert_eq!(config.max_history, 100_000);
    assert!(config.sync_server.is_none());
}

#[test]
fn default_helpers_match_the_defaults() {
    assert_eq!(default_search_mode(), "fzf");
    assert_eq!(default_max_history(), 100_000);
}

#[test]
fn data_dir_lies_under_the_local_data_directory() {
    let d = under_local_data(Some(local("/home/alice/.local/share")), "stytsch");
    assert_eq!(d.text().map(|t| t.as_str()), Some("/home/alice/.local/share/stytsch"));
    assert_eq!(d.native(), &std::path::PathBuf::from("/home/alice/.local/share/stytsch"));
    let d = under_local_data(None, "stytsch");
    assert_eq!(d.text().map(|t| t.as_str()), Some("./stytsch"));
    let d = under_local_data(Some(local("/data/")), "stytsch");
    assert_eq!(d.text().map(|t| t.as_str()), Some("/data/stytsch"));
}

#[test]
fn files_sit_in_the_data_directory() {
    let dir = local("/data/stytsch");
    let c = file_in(&dir, "config.toml");
    let d = file_in(&dir, "history.db");
    assert_eq!(c.text().map(|t| t.as_str()), Some("/data/stytsch/config.toml"));
    assert_eq!(d.text().map(|t| t.as_str()), Some("/data/stytsch/history.db"));
    assert_eq!(c.native().parent(), d.native().parent());
    assert_ne!(c.native(), d.native());
}

#[test]
fn config_and_db_paths_name_their_files() {
    let c = Config::config_path();
    let d = Config::db_path();
    assert!(c.native().ends_with("config.toml"));
    assert!(d.native().ends_with("history.db"));
    let dir = Config::data_dir();
    assert!(dir.native().ends_with("stytsch"));
    assert_eq!(c.native().parent(), Some(dir.native().as_path()));
    assert_eq!(d.native().parent(), Some(dir.native().as_path()));
    assert!(stytsch::config::clink_dir().native().ends_with("clink"));
}
