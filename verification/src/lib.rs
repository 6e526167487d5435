//! Shell completion sync for tools installed with mise.
//!
//! The library holds the decisions of the sync: which registry entries a raw
//! registry resolves to, which short name a mise tool identifier stands for,
//! which completion directory and file a tool gets for a shell, and which
//! completion files are stale. Reading files, running commands and writing
//! completions is left to the caller, who hands the results in as plain values.

pub mod text;
pub mod tool_id;
pub mod shells;
pub mod carried;
pub mod sync;
pub mod registry;
