//! Interactive SSH host picker: a permissive parser for the flat
//! `Host`/`HostName`/`User`/`Port`/`IdentityFile` subset of the SSH client
//! configuration, a registry of connectable hosts ordered by alias, and the
//! state machine that drives the interactive selection and search UI.

pub mod args;
pub mod config;
pub mod parser;
pub mod session;
pub mod stateful_list;
pub mod text;
