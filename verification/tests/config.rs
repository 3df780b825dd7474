use siff::config::{get_config_path, save_error, LoadedConfig, SaveFailure, SifConfig, StoredConfig};
use siff::path::{Component, FilePath};
use siff::types::{Backend, OutputFormat};

fn path(names: &[&str]) -> FilePath {
    let mut components = vec![Component::RootDir];
    for name in names {
        components.push(Component::Normal(name.to_string()));
    }
    FilePath { components }
}

#[test]
fn test_default_config() {
    let config = SifConfig::default();
    assert!(!config.compress);
    assert!(!config.remove_comments);
    assert!(!config.include_file_tree);
    assert_eq!(config.output_format, OutputFormat::Xml);
    assert_eq!(config.default_backend, Backend::Repomix);
}

#[test]
fn missing_config_gives_defaults_to_save() {
    let place = path(&["home", "siff", "config.json"]);
    let loaded = SifConfig::load(StoredConfig::Missing, &place, "/");
    assert_eq!(loaded, Ok(LoadedConfig { config: SifConfig::default(), is_new: true }));
}

#[test]
fn stored_config_is_kept() {
    let config = SifConfig {
        compress: true,
        remove_comments: false,
        include_file_tree: true,
        output_format: OutputFormat::Markdown,
        default_backend: Backend::Yek,
    };
    let place = path(&["home", "siff", "config.json"]);
    let loaded = SifConfig::load(StoredConfig::Found(config), &place, "/");
    assert_eq!(loaded, Ok(LoadedConfig { config, is_new: false }));
}

#[test]
fn unreadable_config_is_an_error_with_its_place() {
    let place = path(&["home", "siff", "config.json"]);
    assert_eq!(
        SifConfig::load(StoredConfig::Unreadable, &place, "/"),
        Err("Error: failed to read config file: /home/siff/config.json".to_string())
    );
}

#[test]
fn corrupt_config_is_an_error() {
    let place = path(&["home", "siff", "config.json"]);
    assert_eq!(
        SifConfig::load(StoredConfig::Corrupt, &place, "/"),
        Err("Error: failed to parse config file".to_string())
    );
}

#[test]
fn options_persist_without_output_file_and_backend() {
    let mut config = SifConfig::default();
    config.update_repomix_options(true, true, true, OutputFormat::PlainText);
    assert_eq!(config.default_backend, Backend::Repomix);
    let options = config.repomix_options(Backend::Yek);
    assert!(options.compress);
    assert!(options.remove_comments);
    assert!(options.file_tree);
    assert_eq!(options.output_file, None);
    assert_eq!(options.output_format, OutputFormat::PlainText);
    assert_eq!(options.backend, Backend::Yek);
}

#[test]
fn config_path_is_below_the_config_directory() {
    let dir = path(&["home", "me", ".config"]);
    assert_eq!(get_config_path(Some(&dir)), Ok(path(&["home", "me", ".config", "siff", "config.json"])));
    assert_eq!(get_config_path(None), Err("Error: failed to get config directory".to_string()));
}

#[test]
fn own_options_change_nothing() {
    let mut config = SifConfig {
        compress: true,
        remove_comments: false,
        include_file_tree: true,
        output_format: OutputFormat::Markdown,
        default_backend: Backend::Yek,
    };
    let before = config;
    let options = config.repomix_options(Backend::Repomix);
    config.update_repomix_options(
        options.compress,
        options.remove_comments,
        options.file_tree,
        options.output_format,
    );
    assert_eq!(config, before);
}

#[test]
fn saved_config_loads_as_the_same() {
    let place = path(&["home", "siff", "config.json"]);
    let config = SifConfig { compress: true, ..SifConfig::default() };
    let file = config.save(None, &place, "/").unwrap();
    assert_eq!(SifConfig::load(file, &place, "/"), Ok(LoadedConfig { config, is_new: false }));
    assert_eq!(SifConfig::load(file, &place, "/"), Ok(LoadedConfig { config, is_new: false }));
    let later = SifConfig { remove_comments: true, ..SifConfig::default() };
    let replaced = later.save(None, &place, "/").unwrap();
    assert_eq!(SifConfig::load(replaced, &place, "/"), Ok(LoadedConfig { config: later, is_new: false }));
}

#[test]
fn failed_saves_are_errors() {
    let place = path(&["home", "siff", "config.json"]);
    let config = SifConfig::default();
    assert_eq!(
        config.save(Some(SaveFailure::Directory), &place, "/"),
        Err("Error: failed to create config directory: /home/siff".to_string())
    );
    assert_eq!(
        config.save(Some(SaveFailure::Serialization), &place, "/"),
        Err("Error: failed to serialize config".to_string())
    );
    assert_eq!(
        save_error(SaveFailure::Write, &place, "/"),
        "Error: failed to write config file: /home/siff/config.json"
    );
}
