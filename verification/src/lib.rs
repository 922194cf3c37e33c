//! A Rich Presence server for Discord: what it decides and computes.
//!
//! Programs tell the server what is being played, over websockets ([`rpc`]) or
//! local sockets ([`ipc`]); games that tell nothing are found by their
//! processes ([`process_scan`]). The [`bridge`] hands all of it on to clients
//! that watch, and a [`state_file`] keeps it for other programs.
//!
//! Nothing here opens a socket or a file: the functions take what was read and
//! return what is to be written.
pub mod app_name;
pub mod bridge;
pub mod cli;
pub mod clock;
pub mod config;
pub mod detect;
pub mod fixes;
pub mod ignore_list;
pub mod ipc;
pub mod json;
pub mod listen;
pub mod macos;
pub mod process_list;
pub mod process_scan;
pub mod rpc;
pub mod state_file;
pub mod steam;
pub mod text;
pub mod text_map;
