//! The logic of `min`, a small agent that puts a prompt to a chat model, runs the
//! tools that the model calls, and answers on the command line, over a stream or
//! inside a WebAssembly host.
//!
//! Nothing here reads a file or opens a connection. What has to be done outside is
//! handed out as a value, and its outcome is handed back in: `talk` does so for a
//! conversation, `job` for a WebAssembly host. `value` is the border to
//! `serde_json` and `serde_yaml`; behind it documents are the plain data of `json`.

pub mod abi;
pub mod config;
pub mod events;
pub mod job;
pub mod json;
pub mod message;
pub mod order;
pub mod play;
pub mod query;
pub mod reply;
pub mod session;
pub mod talk;
pub mod text;
pub mod tools;
pub mod url;
pub mod value;
