//! The ways into the agent: the command line, the terminal interface, the HTTP server
//! and the editor.
pub mod cli;
pub mod editor;
pub mod recovery;
pub mod serve;
pub mod start;
pub mod tui;
pub mod web;
