//! The verified core of `checkr`, a service that turns host health signals
//! into an HTTP endpoint: the readers of `/proc` files, of the mount table
//! and of `ss` output, the settings of the checkers, the allowed-ports
//! checker, and the rules that turn measurements into check results.
pub mod allowed_ports;
pub mod check;
pub mod config;
pub mod cpu;
pub mod disk_usage;
pub mod number;
pub mod ram;
pub mod text;
