//! Validation of the application's configuration.
//!
//! Looking for the file, loading it and looking for the directories are the
//! caller's part; what was found comes in as a `ConfigSource`, and
//! `get_config` decides whether it makes a usable configuration.
use vstd::prelude::*;

verus! {

/// The settings of the application.
#[derive(Debug)]
pub struct ConfigValues {
    /// Connection string of the database.
    pub database_url: String,
    /// Directory of the charts to upload.
    pub upload_directory: String,
    /// Directory of the charts to update.
    pub update_directory: String,
    /// Directory of the charts to delete.
    pub delete_directory: String,
}

/// What was found where the configuration was looked for.
#[derive(Debug)]
pub enum ConfigSource {
    /// There is no configuration file.
    Missing,
    /// The file is there but could not be loaded; the text says why.
    Unreadable(String),
    /// The file was loaded. The flags tell which of the directories that it
    /// names exist.
    Loaded {
        values: ConfigValues,
        upload_directory_exists: bool,
        update_directory_exists: bool,
        delete_directory_exists: bool,
    },
}

/// Why there is no usable configuration.
#[derive(Debug)]
pub enum ConfigError {
    /// Something that the configuration needs is missing; the text names it.
    NotFound(String),
    /// The file could not be loaded; the text says why.
    Unreadable(String),
}

/// What `get_config` decides on a source, as plain values.
pub enum ConfigVerdict {
    /// The loaded values are usable.
    Usable,
    /// The thing named is missing.
    NotFound(Seq<char>),
    /// The file could not be loaded, for the reason given.
    Unreadable(Seq<char>),
}

/// The verdict on a source. The checks are made in this order, and the
/// first that fails decides: the file exists, it could be loaded, the
/// database URL is not empty, the upload directory exists, the update
/// directory exists, the delete directory exists.
pub open spec fn verdict(source: ConfigSource) -> ConfigVerdict {
    match source {
        ConfigSource::Missing => ConfigVerdict::NotFound("config.json"@),
        ConfigSource::Unreadable(why) => ConfigVerdict::Unreadable(why@),
        ConfigSource::Loaded {
            values,
            upload_directory_exists,
            update_directory_exists,
            delete_directory_exists,
        } => {
            if values.database_url@.len() == 0 {
                ConfigVerdict::NotFound("database url (mssql)"@)
            } else if !upload_directory_exists {
                ConfigVerdict::NotFound("upload directory"@)
            } else if !update_directory_exists {
                ConfigVerdict::NotFound("update directory"@)
            } else if !delete_directory_exists {
                ConfigVerdict::NotFound("delete directory"@)
            } else {
                ConfigVerdict::Usable
            }
        },
    }
}

/// Decides whether what was found makes a usable configuration, and hands
/// the loaded values out if it does.
pub fn get_config(source: ConfigSource) -> (r: Result<ConfigValues, ConfigError>)
    ensures
        match r {
            Ok(values) => {
                &&& verdict(source) == ConfigVerdict::Usable
                &&& source matches ConfigSource::Loaded { values: loaded, .. }
                &&& values == loaded
            },
            Err(ConfigError::NotFound(what)) => verdict(source) == ConfigVerdict::NotFound(what@),
            Err(ConfigError::Unreadable(why)) => verdict(source) == ConfigVerdict::Unreadable(
                why@,
            ),
        },
{
    match source {
        ConfigSource::Missing => Err(not_found("config.json")),
        ConfigSource::Unreadable(why) => Err(ConfigError::Unreadable(why)),
        ConfigSource::Loaded {
            values,
            upload_directory_exists,
            update_directory_exists,
            delete_directory_exists,
        } => {
            if values.database_url.as_str().is_empty() {
                Err(not_found("database url (mssql)"))
            } else if !upload_directory_exists {
                Err(not_found("upload directory"))
            } else if !update_directory_exists {
                Err(not_found("update directory"))
            } else if !delete_directory_exists {
                Err(not_found("delete directory"))
            } else {
                Ok(values)
            }
        },
    }
}

/// The error that names `what` as missing.
fn not_found(what: &str) -> (e: ConfigError)
    ensures
        e matches ConfigError::NotFound(name) && name@ == what@,
{
    ConfigError::NotFound(what.to_owned())
}

} // verus!
