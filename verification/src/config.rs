//! Settings that are not floating point: the theme, the terminal's shell,
//! and where the configuration file lives.

use vstd::prelude::*;
use crate::path::join_path;

verus! {

/// Why the configuration could not be read or written.
#[derive(Debug)]
pub enum ConfigError {
    /// The file could not be read.
    ReadError(std::io::Error),
    /// The file is not valid TOML for the configuration; the parser's message.
    ParseError(String),
    /// The configuration could not be written as TOML; the writer's message.
    SerializeError(String),
    /// The platform has no configuration directory.
    NoConfigDir,
}

/// The color theme.
#[derive(Debug, Clone, Copy, PartialEq, Eq, Structural)]
pub enum Theme {
    Dark,
    Light,
}

impl Default for Theme {
    fn default() -> (t: Theme)
        ensures
            t == Theme::Dark,
    {
        Theme::Dark
    }
}

/// Terminal settings.
#[derive(Debug, Clone)]
pub struct TerminalConfig {
    /// The shell to start; the user's default shell when `None`.
    pub shell_path: Option<String>,
}

impl Default for TerminalConfig {
    fn default() -> (c: TerminalConfig)
        ensures
            c.shell_path is None,
    {
        TerminalConfig { shell_path: None }
    }
}

/// The configuration file inside the configuration directory.
pub fn config_file_path(config_dir: &str) -> (p: String)
    ensures
        p@ == join_path(config_dir@, "config.toml"@),
{
    let j = crate::path::join(&crate::text::chars_of(config_dir), &crate::text::chars_of("config.toml"));
    crate::text::string_from_chars(&j)
}

} // verus!
