//! Settings: what a configuration holds, what it holds by default, and which
//! configuration file is read.
//!
//! Configuration files are looked for in this order: `./config.toml` in the
//! current directory, `config.toml` beside the program, and
//! `~/.config/inkwell/config.toml`. When none of the first two exists and the
//! user file is missing too, the user file is written with the defaults.
use crate::convert::{join_path, path_joined};
use vstd::prelude::*;

verus! {

/// The user's settings.
#[derive(Debug, Clone)]
pub struct Config {
    /// Folder that notes are written to when no output is named.
    pub default_export_folder: String,
    /// Whether highlight colors are written as Obsidian Painter marks.
    pub enable_painter_highlights: bool,
}

/// Which configuration to use, once it is known which candidate files exist.
#[derive(Debug, Clone, Copy, PartialEq, Eq, Structural)]
pub enum ConfigSource {
    /// Read `./config.toml`.
    ReadLocal,
    /// Read `config.toml` beside the program.
    ReadBesideBinary,
    /// Read the user configuration file.
    ReadUser,
    /// Write the defaults to the user configuration file and use them.
    WriteDefaultsToUser,
    /// Use the defaults without touching any file.
    UseDefaults,
}

/// The lookup order. `beside_binary` and `user` are `None` when that
/// candidate path cannot be formed (the program's location or the home folder
/// is unknown), else whether the file exists.
pub open spec fn config_source_spec(
    local_exists: bool,
    beside_binary: Option<bool>,
    user: Option<bool>,
) -> ConfigSource {
    if local_exists {
        ConfigSource::ReadLocal
    } else if beside_binary == Some(true) {
        ConfigSource::ReadBesideBinary
    } else {
        match user {
            Some(true) => ConfigSource::ReadUser,
            Some(false) => ConfigSource::WriteDefaultsToUser,
            None => ConfigSource::UseDefaults,
        }
    }
}

/// Decide which configuration to use from which candidate files exist: the
/// first existing of `./config.toml`, the file beside the program and the
/// user file; failing those, the defaults, written to the user file when
/// there is a home folder to hold it.
pub fn choose_config_source(
    local_exists: bool,
    beside_binary: Option<bool>,
    user: Option<bool>,
) -> (r: ConfigSource)
    ensures
        r == config_source_spec(local_exists, beside_binary, user),
{
    if local_exists {
        ConfigSource::ReadLocal
    } else if beside_binary == Some(true) {
        ConfigSource::ReadBesideBinary
    } else {
        match user {
            Some(true) => ConfigSource::ReadUser,
            Some(false) => ConfigSource::WriteDefaultsToUser,
            None => ConfigSource::UseDefaults,
        }
    }
}

/// The home folder, or the current directory when it is unknown.
pub open spec fn home_or_current(home: Option<Seq<char>>) -> Seq<char> {
    match home {
        Some(h) => h,
        None => "."@,
    }
}

/// The default export folder: `Documents/Inkwell` under the home folder.
pub open spec fn default_export_folder_spec(home: Option<Seq<char>>) -> Seq<char> {
    path_joined(home_or_current(home), "Documents/Inkwell"@)
}

/// The user configuration file: `.config/inkwell/config.toml` under the home
/// folder, when there is one.
pub open spec fn user_config_path_spec(home: Option<Seq<char>>) -> Option<Seq<char>> {
    match home {
        Some(h) => Some(path_joined(h, ".config/inkwell/config.toml"@)),
        None => None,
    }
}

impl Config {
    /// The default settings for a user whose home folder is `home`: notes go
    /// to `Documents/Inkwell` there (under the current directory when the
    /// home folder is unknown), without Painter marks.
    pub fn default_for_home(home: Option<&str>) -> (r: Config)
        ensures
            r.default_export_folder@ == default_export_folder_spec(
                match home {
                    Some(h) => Some(h@),
                    None => None,
                },
            ),
            !r.enable_painter_highlights,
    {
        let base = match home {
            Some(h) => h,
            None => ".",
        };
        Config {
            default_export_folder: join_path(base, "Documents/Inkwell"),
            enable_painter_highlights: false,
        }
    }

    /// The user configuration file for the home folder `home`, or `None`
    /// when the home folder is unknown.
    pub fn user_config_path(home: Option<&str>) -> (r: Option<String>)
        ensures
            crate::parser::opt_chars(r) == user_config_path_spec(
                match home {
                    Some(h) => Some(h@),
                    None => None,
                },
            ),
    {
        match home {
            Some(h) => Some(join_path(h, ".config/inkwell/config.toml")),
            None => None,
        }
    }
}

} // verus!
