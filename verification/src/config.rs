//! Application and command-line configuration records.
//!
//! Reading the environment, a configuration file or the process
//! arguments is input/output and lives outside the library; the records
//! themselves and the built-in defaults are plain data and live here.

use vstd::prelude::*;

verus! {

/// Application settings.
#[derive(Debug)]
pub struct AppConfig {
    pub storage_path: String,
    pub api_port: u16,
    pub log_level: String,
    pub embedding_model: String,
}

/// Command-line settings; the fields mirror `AppConfig` and the
/// defaults below are also the command line's defaults.
#[derive(Debug)]
pub struct CliConfig {
    pub storage_path: String,
    pub api_port: u16,
    pub log_level: String,
    pub embedding_model: String,
}

impl AppConfig {
    /// The built-in defaults.
    pub fn default() -> (c: AppConfig)
        ensures
            c.storage_path@ == "./data"@,
            c.api_port == 8080,
            c.log_level@ == "info"@,
            c.embedding_model@ == "./models/embedding_model.bin"@,
    {
        AppConfig {
            storage_path: "./data".to_owned(),
            api_port: 8080,
            log_level: "info".to_owned(),
            embedding_model: "./models/embedding_model.bin".to_owned(),
        }
    }
}

} // verus!
