use sshmenu::locate::{config_path_under, default_config_path, load_config, ConfigError, ReadOutcome};
use std::path::PathBuf;

#[test]
fn config_lies_below_the_home_directory() {
    let path = config_path_under(Some(PathBuf::from("/home/alice"))).unwrap();
    assert_eq!(path, PathBuf::from("/home/alice/.ssh/config"));
    assert_ne!(path, PathBuf::from("/home/alice"));
}

#[test]
fn config_path_joins_as_paths_do() {
    let path = config_path_under(Some(PathBuf::from("/home/bob/"))).unwrap();
    assert_eq!(path, PathBuf::from("/home/bob/").join(".ssh/config"));
    assert!(path.ends_with(".ssh/config"));
}

#[test]
fn no_home_directory_is_not_found() {
    assert_eq!(config_path_under(None), Err(ConfigError::NotFound));
}

#[test]
fn default_path_ends_in_config_or_is_not_found() {
    match default_config_path() {
        Ok(path) => assert!(path.ends_with(".ssh/config")),
        Err(e) => assert_eq!(e, ConfigError::NotFound),
    }
}

#[test]
fn text_that_was_read_is_parsed() {
    let outcome = ReadOutcome::Text("Host a\n  User u\nHost b\n".to_string());
    let registry = load_config(&outcome).unwrap();
    assert_eq!(registry.len(), 2);
    assert_eq!(registry.get("a").unwrap().username.as_deref(), Some("u"));
}

#[test]
fn empty_file_is_an_empty_registry() {
    let registry = load_config(&ReadOutcome::Text(String::new())).unwrap();
    assert!(registry.is_empty());
}

#[test]
fn missing_file_is_not_found() {
    assert_eq!(load_config(&ReadOutcome::Missing).unwrap_err(), ConfigError::NotFound);
}

#[test]
fn unreadable_file_is_an_io_error() {
    assert_eq!(load_config(&ReadOutcome::Failed).unwrap_err(), ConfigError::Io);
}
