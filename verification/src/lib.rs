//! A small orchestration language: scripts of variables, loops, helper calls
//! and blocks of shell text that run on one remote host.
//!
//! The crate holds the language itself: the grammar and its parser, the
//! evaluator with its variable environment and template expansion, the
//! built-in functions, and the decisions of the remote session. Whatever
//! touches the network, the console or the local file system is reached
//! through the traits [`sshclient::RemoteExecutor`] and
//! [`local::LocalMachine`].

pub mod built_in_functions;
pub mod environment;
pub mod error;
pub mod evaluator;
pub mod laws;
pub mod local;
pub mod parser;
pub mod script;
pub mod sshclient;
pub mod template;
pub mod text;
