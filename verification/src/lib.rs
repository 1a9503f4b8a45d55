//! Core of a status-bar daemon: a registry of named blocks, each backed by a
//! shell command, whose cached outputs are concatenated into a single bar
//! string. The daemon serves four operations (update selected blocks, update
//! all, render the bar, restart from configuration) against a single state
//! value; command execution and transport are performed by the surrounding
//! process and handed in as plain values.

pub mod bard;
pub mod block;
pub mod config;
pub mod text;
