//! The allowed-ports checker: which processes may listen on which ports,
//! and what `ss` says is listening.
pub mod config;
pub mod infra;
pub mod settings;
pub mod ss_parser;

pub use config::{AllowedPortsConfig, PortOwnerInfo};
pub use infra::{PortEntry, SsSource};
pub use settings::{AllowedPortsSettings, PortBounds, ProcessPorts, WrongAllowedPortsSettingsError};
pub use ss_parser::{SsParseError, SsParser};
pub mod checker;

pub use checker::{AllowedPortsChecker, OpenPortsSource};
pub mod ss_runner;

pub use ss_runner::{SsInvokeError, SsRunner};
