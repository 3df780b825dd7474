//! Persistent configuration.

use vstd::prelude::*;
use vstd::string::*;

use crate::path;
use crate::path::{FilePath, PathView};
use crate::text;
use crate::types::{Backend, OutputFormat, RepomixOptions};

verus! {

/// Persistent configuration for siff user preferences.
/// Stores settings that should persist between sessions.
#[derive(Debug, Clone, Copy, PartialEq, Eq)]
pub struct SifConfig {
    /// whether to compress output
    pub compress: bool,
    /// whether to remove comments
    pub remove_comments: bool,
    /// whether to include file tree in output
    pub include_file_tree: bool,
    /// output format for repomix
    pub output_format: OutputFormat,
    /// last used backend
    pub default_backend: Backend,
}

impl Default for SifConfig {
    /// Provides sensible default values (first-time users).
    fn default() -> (r: Self)
        ensures
            r == default_config(),
    {
        SifConfig {
            compress: false,
            remove_comments: false,
            include_file_tree: false,
            output_format: OutputFormat::Xml,
            default_backend: Backend::Repomix,
        }
    }
}

/// The configuration of a first-time user.
pub open spec fn default_config() -> SifConfig {
    SifConfig {
        compress: false,
        remove_comments: false,
        include_file_tree: false,
        output_format: OutputFormat::Xml,
        default_backend: Backend::Repomix,
    }
}

/// What was found at the place of the config file.
#[derive(Debug, Clone, Copy, PartialEq, Eq)]
pub enum StoredConfig {
    /// There is no config file
    Missing,
    /// The file could not be read
    Unreadable,
    /// The file does not hold a configuration
    Corrupt,
    /// The configuration that the file holds
    Found(SifConfig),
}

/// A configuration that was loaded.
#[derive(Debug, Clone, Copy, PartialEq, Eq)]
pub struct LoadedConfig {
    pub config: SifConfig,
    /// Whether the configuration is new and has to be saved
    pub is_new: bool,
}

/// Where saving a configuration failed.
#[derive(Debug, Clone, Copy, PartialEq, Eq, Structural)]
pub enum SaveFailure {
    /// The directory of the config file could not be created
    Directory,
    /// The configuration could not be serialized
    Serialization,
    /// The config file could not be written
    Write,
}

/// What loading gives for what was found in the config file.
pub open spec fn loaded(stored: StoredConfig, config_path: PathView, sep: Seq<char>) -> Result<
    LoadedConfig,
    Seq<char>,
> {
    match stored {
        StoredConfig::Missing => Ok(LoadedConfig { config: default_config(), is_new: true }),
        StoredConfig::Found(config) => Ok(LoadedConfig { config, is_new: false }),
        StoredConfig::Unreadable => Err(
            "Error: failed to read config file: "@ + path::path_text(config_path, sep),
        ),
        StoredConfig::Corrupt => Err("Error: failed to parse config file"@),
    }
}

/// What the config file holds after a configuration has been saved, or the error.
pub open spec fn saved(
    config: SifConfig,
    failure: Option<SaveFailure>,
    config_path: PathView,
    sep: Seq<char>,
) -> Result<StoredConfig, Seq<char>> {
    match failure {
        None => Ok(StoredConfig::Found(config)),
        Some(f) => Err(save_error_text(f, config_path, sep)),
    }
}

/// The error of a configuration that could not be saved.
pub open spec fn save_error_text(failure: SaveFailure, config_path: PathView, sep: Seq<char>) -> Seq<
    char,
> {
    match failure {
        SaveFailure::Directory => "Error: failed to create config directory: "@ + (
        match path::parent_of(config_path) {
            Some(dir) => path::path_text(dir, sep),
            None => Seq::empty(),
        }),
        SaveFailure::Serialization => "Error: failed to serialize config"@,
        SaveFailure::Write => "Error: failed to write config file: "@ + path::path_text(
            config_path,
            sep,
        ),
    }
}

/// What the config file holds after a load: a configuration that is new has been saved.
pub open spec fn stored_after_load(stored: StoredConfig) -> StoredConfig {
    match stored {
        StoredConfig::Missing => StoredConfig::Found(default_config()),
        _ => stored,
    }
}

/// Describes why a configuration could not be saved.
pub fn save_error(failure: SaveFailure, config_path: &FilePath, sep: &str) -> (r: String)
    ensures
        r@ == save_error_text(failure, config_path@, sep@),
{
    match failure {
        SaveFailure::Directory => {
            let mut r = "Error: failed to create config directory: ".to_string();
            match config_path.parent() {
                Some(dir) => {
                    let place = dir.to_text(sep);
                    r.append(place.as_str());
                },
                None => {},
            }
            assert(r@ =~= save_error_text(failure, config_path@, sep@));
            r
        },
        SaveFailure::Serialization => "Error: failed to serialize config".to_string(),
        SaveFailure::Write => {
            let place = config_path.to_text(sep);
            text::concat2("Error: failed to write config file: ", place.as_str())
        },
    }
}

impl SifConfig {
    /// Loads configuration from what was found in the user's config file.
    /// A default config is created, and is to be saved, if the file doesn't exist.
    pub fn load(stored: StoredConfig, config_path: &FilePath, sep: &str) -> (r: Result<
        LoadedConfig,
        String,
    >)
        ensures
            match r {
                Ok(l) => loaded(stored, config_path@, sep@) == Ok::<LoadedConfig, Seq<char>>(l),
                Err(e) => loaded(stored, config_path@, sep@) == Err::<LoadedConfig, Seq<char>>(e@),
            },
    {
        match stored {
            StoredConfig::Missing => Ok(
                LoadedConfig { config: SifConfig::default(), is_new: true },
            ),
            StoredConfig::Found(config) => Ok(LoadedConfig { config, is_new: false }),
            StoredConfig::Unreadable => {
                let place = config_path.to_text(sep);
                Err(text::concat2("Error: failed to read config file: ", place.as_str()))
            },
            StoredConfig::Corrupt => Err("Error: failed to parse config file".to_string()),
        }
    }

    /// Saves the current config to the user's config file, from what came of the writing: returns
    /// what the file then holds.
    pub fn save(&self, failure: Option<SaveFailure>, config_path: &FilePath, sep: &str) -> (r: Result<
        StoredConfig,
        String,
    >)
        ensures
            match r {
                Ok(stored) => saved(*self, failure, config_path@, sep@) == Ok::<
                    StoredConfig,
                    Seq<char>,
                >(stored),
                Err(e) => saved(*self, failure, config_path@, sep@) == Err::<
                    StoredConfig,
                    Seq<char>,
                >(e@),
            },
    {
        match failure {
            None => Ok(StoredConfig::Found(*self)),
            Some(f) => Err(save_error(f, config_path, sep)),
        }
    }

    /// Updates the config with new repomix options; the config is then to be saved.
    pub fn update_repomix_options(
        &mut self,
        compress: bool,
        remove_comments: bool,
        include_file_tree: bool,
        output_format: OutputFormat,
    )
        ensures
            *final(self) == (SifConfig {
                compress,
                remove_comments,
                include_file_tree,
                output_format,
                default_backend: old(self).default_backend,
            }),
    {
        self.compress = compress;
        self.remove_comments = remove_comments;
        self.include_file_tree = include_file_tree;
        self.output_format = output_format;
    }

    /// The repomix options that the configuration asks for. The output file is not persisted.
    pub open spec fn options(self, backend: Backend) -> RepomixOptions {
        RepomixOptions {
            compress: self.compress,
            remove_comments: self.remove_comments,
            file_tree: self.include_file_tree,
            output_file: None,
            output_format: self.output_format,
            backend,
        }
    }

    /// Returns the repomix options that the configuration asks for.
    pub fn repomix_options(&self, backend: Backend) -> (r: RepomixOptions)
        ensures
            r == self.options(backend),
    {
        RepomixOptions {
            compress: self.compress,
            remove_comments: self.remove_comments,
            file_tree: self.include_file_tree,
            output_file: None,
            output_format: self.output_format,
            backend,
        }
    }

    /// The configuration with the settings of `options`.
    pub open spec fn with_options(self, options: RepomixOptions) -> SifConfig {
        SifConfig {
            compress: options.compress,
            remove_comments: options.remove_comments,
            include_file_tree: options.file_tree,
            output_format: options.output_format,
            default_backend: self.default_backend,
        }
    }
}

/// Options that were put into the configuration come back out of it, but for the output file and
/// the backend, which are not persisted with them.
pub proof fn lemma_options_persist(config: SifConfig, options: RepomixOptions, backend: Backend)
    ensures
        config.with_options(options).options(backend) == (RepomixOptions {
            output_file: None,
            backend,
            ..options
        }),
{
}

/// Putting the options of a configuration back into it changes nothing.
pub proof fn lemma_options_round_trip(config: SifConfig, backend: Backend)
    ensures
        config.with_options(config.options(backend)) == config,
{
}

/// A configuration that was saved is loaded as the same one, and not as a new one, as often as it
/// is loaded; and one that is saved later takes its place, whatever was saved before.
pub proof fn lemma_saved_config_loads(
    config: SifConfig,
    later: SifConfig,
    config_path: PathView,
    sep: Seq<char>,
)
    ensures
        ({
            let file = saved(config, None, config_path, sep)->Ok_0;
            let replaced = saved(later, None, config_path, sep)->Ok_0;
            &&& saved(config, None, config_path, sep) is Ok
            &&& loaded(file, config_path, sep) == Ok::<LoadedConfig, Seq<char>>(
                LoadedConfig { config, is_new: false },
            )
            &&& loaded(stored_after_load(file), config_path, sep) == loaded(file, config_path, sep)
            &&& loaded(replaced, config_path, sep) == Ok::<LoadedConfig, Seq<char>>(
                LoadedConfig { config: later, is_new: false },
            )
        }),
{
}

/// Loading twice gives the same configuration, and only the first time can it be a new one.
pub proof fn lemma_load_is_stable(stored: StoredConfig, config_path: PathView, sep: Seq<char>)
    ensures
        match loaded(stored, config_path, sep) {
            Ok(first) => loaded(stored_after_load(stored), config_path, sep) == Ok::<
                LoadedConfig,
                Seq<char>,
            >(LoadedConfig { config: first.config, is_new: false }),
            Err(e) => loaded(stored_after_load(stored), config_path, sep) == Err::<
                LoadedConfig,
                Seq<char>,
            >(e),
        },
{
}

/// Gets the path to the siff config file, in the user's config directory.
pub fn get_config_path(config_dir: Option<&FilePath>) -> (r: Result<FilePath, String>)
    ensures
        r is Ok <==> config_dir is Some,
        r is Ok ==> r->Ok_0@ == path::child_of(
            path::child_of(config_dir->0@, "siff"@),
            "config.json"@,
        ),
        r is Err ==> r->Err_0@ == "Error: failed to get config directory"@,
{
    match config_dir {
        Some(dir) => Ok(dir.child("siff").child("config.json")),
        None => Err("Error: failed to get config directory".to_string()),
    }
}

} // verus!
