//! Decision logic of a command-line companion for an OpenAI assistant:
//! parsing user commands, choosing what to do with assistants, threads,
//! runs and uploaded files, and the paths and glob filters the agent uses.
//! Every network, file-system and terminal effect lives in the program
//! around this library; it hands the library plain values and performs the
//! actions the library decides on.

pub mod error;
pub mod cmd;
pub mod ais;
pub mod utils;
pub mod agent;
