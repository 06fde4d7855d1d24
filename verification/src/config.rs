//! Command-line arguments, log levels and the errors of checker settings.
use vstd::prelude::*;

verus! {

/// The command-line arguments: the path of the configuration file.
#[derive(Clone, Debug)]
pub struct Args {
    pub config: String,
}

/// The most detailed kind of log message that is written.
#[derive(Clone, Copy, Debug, PartialEq, Eq, Structural)]
pub enum LogLevel {
    DEBUG,
    INFO,
    WARN,
    ERROR,
    TRACE,
}

/// Why the settings of a checker are refused.
#[derive(Clone, Debug, PartialEq, Eq)]
pub enum WrongSettingsError {
    WrongCpuSettingsError(String),
    WrongRamSettingsError(String),
    WrongDiskUsageSettingsError(String),
}

/// Why a measurement could not be read.
#[derive(Clone, Debug, PartialEq, Eq)]
pub enum ParseError {
    CpuParseError(String),
    RamParseError(String),
    DiskUsageError(String),
}

} // verus!
