pub mod connection;
mod error;
pub mod indexeddb_file;

pub use self::error::{WasmVFSError, WasmVFSResult};
