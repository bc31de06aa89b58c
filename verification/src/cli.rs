//! Command-line settings of the studio launcher.

use vstd::prelude::*;

verus! {

/// Launcher settings: a printer configuration file, headless mode and
/// debug logging.
#[derive(Debug, Clone)]
pub struct Cli {
    /// Path to a custom printer TOML configuration file; `printer.toml`
    /// in the current directory when absent.
    pub config: Option<String>,
    /// Run without a graphical window.
    pub headless: bool,
    /// Enable verbose debug-level logging.
    pub debug: bool,
}

impl Cli {
    /// The configuration file to load: the one given, else `printer.toml`.
    pub fn config_path(&self) -> (r: String)
        ensures
            r@ == (match self.config {
                Some(c) => c@,
                None => "printer.toml"@,
            }),
    {
        match &self.config {
            Some(c) => c.clone(),
            None => String::from_str("printer.toml"),
        }
    }

    /// The logging level: `debug` when asked for, else `info`.
    pub fn log_level(&self) -> (r: &'static str)
        ensures
            r@ == (if self.debug {
                "debug"@
            } else {
                "info"@
            }),
    {
        if self.debug {
            "debug"
        } else {
            "info"
        }
    }
}

} // verus!
