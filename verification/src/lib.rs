//! Host selection for SSH: reading the client configuration, probing hosts,
//! building the selection menu and the command line of the session.

pub mod blocks;
pub mod command;
pub mod decimal;
pub mod directive;
pub mod host;
pub mod locate;
pub mod menu;
pub mod parser;
pub mod probe;
pub mod registry;
pub mod selector;
pub mod session;
pub mod text;
