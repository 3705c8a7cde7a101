//! HyperGate: multi-version gateway core, configuration, console and control logic.

pub mod error;
pub mod request;
pub mod text;
pub mod version;
pub mod runtime;
pub mod net;
pub mod extension;
pub mod config;
pub mod state;
pub mod endpoint;
pub mod control;
pub mod table;
pub mod command;
pub mod help;
pub mod console;
pub mod theme;
pub mod management;
pub mod options;
pub mod proxy;
pub mod views;
pub mod commands;
