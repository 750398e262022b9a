//! Bring up a project's dev container and find the way into its shell.
//!
//! Nothing here touches the outside world. A function that needs something of
//! it returns a step: a request, and a state to go on from once the request
//! has been answered. Running docker, reading files and asking the user is the
//! caller's part.

pub mod codename;
pub mod config;
pub mod connect;
pub mod devcontainer;
pub mod docker;
pub mod forward;
pub mod jsonc;
pub mod lifecycle;
pub mod listing;
pub mod number;
pub mod path;
pub mod request;
pub mod shell;
pub mod table;
pub mod text;
pub mod timestamp;
pub mod uninstall;
pub mod workspace;
