//! A small web console: it serves a page per configured shell command and per
//! configured HTTP proxy target, runs the commands and fetches the targets on
//! request, and answers with HTML pages or JSON documents.
//!
//! This crate holds the decisions and the data of that server: the
//! configuration model, the lookup tables built from it, the text that the
//! pages and JSON answers carry, the environment report and the logging
//! format.  The network, process and file work happens around it.
pub mod config;
pub mod text;
pub mod id_map;
pub mod command;
pub mod sorted_map;
pub mod environment;
pub mod proxy;
pub mod logging;
